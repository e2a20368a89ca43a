use thermite::classify::{char_width, decimal_digit, decimal_value, ident_continue, ident_start, whitespace};
use thermite::cursor::Cursor;
use thermite::lexer::{
    collect_text, next_token, parse_digits, scan_identifier, scan_number, scan_token, tokenize,
    tokenize_chars,
};
use thermite::token::{punctuation, Diagnostic, ErrorKind, SpannedToken, Symbol, Token};
use thermite::trivia::{find_close, find_newline, skip_comment, skip_trivia, skip_whitespace};

fn chars(s: &str) -> Vec<char> {
    s.chars().collect()
}

fn spanned(token: Token, start: usize, end: usize) -> SpannedToken {
    SpannedToken { token, start, end }
}

fn ident(name: &str) -> Token {
    Token::Identifier(name.to_string())
}

#[test]
fn empty_source_has_no_tokens() {
    assert_eq!(tokenize(""), Ok(vec![]));
}

#[test]
fn float_token_with_span() {
    let tokens = tokenize("1.5").unwrap();
    assert_eq!(tokens, vec![spanned(Token::Double("1.5".to_string()), 0, 3)]);
    match &tokens[0].token {
        Token::Double(text) => assert_eq!(text.parse::<f64>(), Ok(1.5)),
        other => panic!("not a float token: {:?}", other),
    }
}

#[test]
fn identifier_with_leading_underscore() {
    assert_eq!(tokenize("_foo1"), Ok(vec![spanned(ident("_foo1"), 0, 5)]));
}

#[test]
fn lone_underscore_is_an_identifier() {
    assert_eq!(tokenize("_"), Ok(vec![spanned(ident("_"), 0, 1)]));
    assert_eq!(punctuation('_'), Some(Symbol::Underscore));
}

#[test]
fn digits_stop_at_first_non_digit() {
    assert_eq!(
        tokenize("1foo"),
        Ok(vec![spanned(Token::Int(1), 0, 1), spanned(ident("foo"), 1, 4)])
    );
}

#[test]
fn dollar_is_punctuation() {
    assert_eq!(tokenize("$"), Ok(vec![spanned(Token::Symbol(Symbol::Dollar), 0, 1)]));
}

#[test]
fn unknown_character_is_refused_with_its_offset() {
    assert_eq!(
        tokenize(";"),
        Err(Diagnostic { kind: ErrorKind::UnknownCharacter(';'), offset: 0 })
    );
    assert_eq!(
        tokenize("ab |"),
        Err(Diagnostic { kind: ErrorKind::UnknownCharacter('|'), offset: 3 })
    );
    assert_eq!(
        tokenize("é :"),
        Err(Diagnostic { kind: ErrorKind::UnknownCharacter(':'), offset: 3 })
    );
}

#[test]
fn the_punctuation_set() {
    let all = ".=+-*/@^()[]{}%&#$`~,<>?!\"";
    let expected = vec![
        Symbol::Dot,
        Symbol::Equal,
        Symbol::Plus,
        Symbol::Minus,
        Symbol::Star,
        Symbol::Slash,
        Symbol::At,
        Symbol::Caret,
        Symbol::LParen,
        Symbol::RParen,
        Symbol::LBracket,
        Symbol::RBracket,
        Symbol::LBrace,
        Symbol::RBrace,
        Symbol::Percent,
        Symbol::Ampersand,
        Symbol::Hash,
        Symbol::Dollar,
        Symbol::Backtick,
        Symbol::Tilde,
        Symbol::Comma,
        Symbol::LessThan,
        Symbol::GreaterThan,
        Symbol::Question,
        Symbol::Bang,
        Symbol::Quote,
    ];
    let tokens = tokenize(all).unwrap();
    assert_eq!(tokens.len(), expected.len());
    for (i, symbol) in expected.iter().enumerate() {
        assert_eq!(tokens[i], spanned(Token::Symbol(*symbol), i, i + 1));
    }
    for c in [';', ':', '|', '\'', '\\'] {
        assert_eq!(punctuation(c), None);
    }
}

#[test]
fn only_trivia_has_no_tokens() {
    assert_eq!(tokenize("   \n\t "), Ok(vec![]));
    assert_eq!(tokenize("/# block #/"), Ok(vec![]));
    assert_eq!(tokenize("  /# block #/ \n /# line\n  "), Ok(vec![]));
    assert_eq!(tokenize("/# never closed"), Ok(vec![]));
    assert_eq!(tokenize("/# a #//# b #/\u{2003}"), Ok(vec![]));
}

#[test]
fn block_comment_ends_at_first_closer() {
    assert_eq!(tokenize("/# a #/ b #/"), Ok(vec![
        spanned(ident("b"), 8, 9),
        spanned(Token::Symbol(Symbol::Hash), 10, 11),
        spanned(Token::Symbol(Symbol::Slash), 11, 12),
    ]));
    assert_eq!(tokenize("/# a\nb #/ c"), Ok(vec![spanned(ident("c"), 10, 11)]));
    assert_eq!(tokenize("/#/ x"), Ok(vec![]));
    assert_eq!(tokenize("/#/ x #/y"), Ok(vec![spanned(ident("y"), 8, 9)]));
}

#[test]
fn line_comment_ends_before_newline() {
    assert_eq!(tokenize("/# line\nx"), Ok(vec![spanned(ident("x"), 8, 9)]));
    assert_eq!(tokenize("a /# rest"), Ok(vec![spanned(ident("a"), 0, 1)]));
    let src = chars("/# line\nx");
    let end = skip_comment(&src, Cursor { index: 0, offset: 0 });
    assert_eq!(end, Cursor { index: 7, offset: 7 });
}

#[test]
fn skipping_trivia_twice_removes_nothing_more() {
    for text in ["  /# c #/  x", "x", "", " \n ", "/# a\n /# b #/ y /# c #/", "/ # x"] {
        let src = chars(text);
        let once = skip_trivia(&src, Cursor::start());
        let twice = skip_trivia(&src, once);
        assert_eq!(once, twice);
    }
    let src = chars("  /# c #/  x");
    assert_eq!(skip_trivia(&src, Cursor::start()), Cursor { index: 11, offset: 11 });
}

#[test]
fn trivia_helpers() {
    let src = chars(" \t\nab #/ c\nd");
    assert_eq!(skip_whitespace(&src, Cursor::start()), Cursor { index: 3, offset: 3 });
    assert_eq!(skip_whitespace(&src, Cursor { index: 3, offset: 3 }), Cursor { index: 3, offset: 3 });
    assert_eq!(find_close(&src, Cursor::start()), Cursor { index: 6, offset: 6 });
    assert_eq!(find_close(&src, Cursor { index: 7, offset: 7 }), Cursor { index: 12, offset: 12 });
    assert_eq!(find_newline(&src, Cursor { index: 3, offset: 3 }), Cursor { index: 10, offset: 10 });
    assert_eq!(skip_comment(&src, Cursor::start()), Cursor::start());
}

#[test]
fn number_with_second_point_splits() {
    assert_eq!(
        tokenize("1.2.3"),
        Ok(vec![
            spanned(Token::Double("1.2".to_string()), 0, 3),
            spanned(Token::Symbol(Symbol::Dot), 3, 4),
            spanned(Token::Int(3), 4, 5),
        ])
    );
    assert_eq!(tokenize("7."), Ok(vec![spanned(Token::Double("7.".to_string()), 0, 2)]));
    assert_eq!(
        tokenize(".5"),
        Ok(vec![spanned(Token::Symbol(Symbol::Dot), 0, 1), spanned(Token::Int(5), 1, 2)])
    );
}

#[test]
fn integer_values() {
    assert_eq!(tokenize("0"), Ok(vec![spanned(Token::Int(0), 0, 1)]));
    assert_eq!(tokenize("007"), Ok(vec![spanned(Token::Int(7), 0, 3)]));
    assert_eq!(tokenize("1234567890"), Ok(vec![spanned(Token::Int(1234567890), 0, 10)]));
    assert_eq!(
        tokenize("170141183460469231731687303715884105727"),
        Ok(vec![spanned(Token::Int(i128::MAX), 0, 39)])
    );
}

#[test]
fn integer_too_large_is_refused() {
    assert_eq!(
        tokenize("x 170141183460469231731687303715884105728"),
        Err(Diagnostic { kind: ErrorKind::NumberParseFailure, offset: 2 })
    );
    assert_eq!(
        tokenize("99999999999999999999999999999999999999999999"),
        Err(Diagnostic { kind: ErrorKind::NumberParseFailure, offset: 0 })
    );
    let digits = chars("170141183460469231731687303715884105728");
    assert_eq!(parse_digits(&digits, 0, digits.len()), None);
    assert_eq!(parse_digits(&digits, 0, 5), Some(17014));
    assert_eq!(parse_digits(&digits, 3, 3), Some(0));
}

#[test]
fn byte_offsets_follow_utf8() {
    assert_eq!(
        tokenize("é x"),
        Ok(vec![spanned(ident("é"), 0, 2), spanned(ident("x"), 3, 4)])
    );
    assert_eq!(
        tokenize("\u{3000}名前+𝒳"),
        Ok(vec![
            spanned(ident("名前"), 3, 9),
            spanned(Token::Symbol(Symbol::Plus), 9, 10),
            spanned(ident("𝒳"), 10, 14),
        ])
    );
    assert_eq!(char_width('a'), 1);
    assert_eq!(char_width('\u{7f}'), 1);
    assert_eq!(char_width('\u{80}'), 2);
    assert_eq!(char_width('\u{7ff}'), 2);
    assert_eq!(char_width('\u{800}'), 3);
    assert_eq!(char_width('\u{ffff}'), 3);
    assert_eq!(char_width('\u{10000}'), 4);
    for c in ['a', 'é', '名', '𝒳', '\u{10ffff}'] {
        assert_eq!(char_width(c), c.len_utf8());
    }
}

#[test]
fn covered_bytes_are_the_source_without_trivia() {
    let source = "foo /# c #/ = 1.5\n+ bar.baz /# tail";
    let tokens = tokenize(source).unwrap();
    let mut joined = String::new();
    let mut last_end = 0;
    for t in &tokens {
        assert!(last_end <= t.start && t.start < t.end && t.end <= source.len());
        joined.push_str(&source[t.start..t.end]);
        last_end = t.end;
    }
    assert_eq!(joined, "foo=1.5+bar.baz");
    assert_eq!(tokens.len(), 7);
}

#[test]
fn tokenize_chars_agrees_with_tokenize() {
    for text in ["", "a.b.c", "1 + 2", "é /# x #/ 3.25", "?", "a ;"] {
        assert_eq!(tokenize_chars(&chars(text)), tokenize(text));
    }
}

#[test]
fn next_token_steps_through_the_source() {
    let src = chars(" ab  12");
    let (first, after_first) = next_token(&src, Cursor::start()).unwrap().unwrap();
    assert_eq!(first, spanned(ident("ab"), 1, 3));
    assert_eq!(after_first, Cursor { index: 3, offset: 3 });
    let (second, after_second) = next_token(&src, after_first).unwrap().unwrap();
    assert_eq!(second, spanned(Token::Int(12), 5, 7));
    assert_eq!(next_token(&src, after_second), Ok(None));
    let bad = chars("  ;");
    assert_eq!(
        next_token(&bad, Cursor::start()),
        Err(Diagnostic { kind: ErrorKind::UnknownCharacter(';'), offset: 2 })
    );
}

#[test]
fn scans_report_their_errors() {
    let empty = chars("");
    assert_eq!(scan_token(&empty, Cursor::start()), Err(ErrorKind::UnexpectedEOF));
    assert_eq!(scan_identifier(&empty, Cursor::start()), Err(ErrorKind::UnexpectedEOF));
    assert_eq!(scan_number(&empty, Cursor::start()), Err(ErrorKind::UnexpectedEOF));
    let digit = chars("1a");
    assert_eq!(
        scan_identifier(&digit, Cursor::start()),
        Err(ErrorKind::IdentifierStartsWithDigit)
    );
    assert_eq!(
        scan_number(&digit, Cursor::start()),
        Ok((Token::Int(1), Cursor { index: 1, offset: 1 }))
    );
    let plus = chars("+a");
    assert_eq!(scan_identifier(&plus, Cursor::start()), Err(ErrorKind::UnknownCharacter('+')));
    assert_eq!(scan_number(&plus, Cursor::start()), Err(ErrorKind::NumberParseFailure));
    assert_eq!(
        scan_token(&plus, Cursor::start()),
        Ok((Token::Symbol(Symbol::Plus), Cursor { index: 1, offset: 1 }))
    );
    let name = chars("a_1-b");
    assert_eq!(
        scan_identifier(&name, Cursor::start()),
        Ok((ident("a_1"), Cursor { index: 3, offset: 3 }))
    );
}

#[test]
fn character_classes() {
    assert!(decimal_digit('0') && decimal_digit('9'));
    assert!(!decimal_digit('a') && !decimal_digit('/') && !decimal_digit(':'));
    assert!(!decimal_digit('٣'));
    assert_eq!(decimal_value('0'), 0);
    assert_eq!(decimal_value('7'), 7);
    assert!(ident_start('a') && ident_start('_') && ident_start('é'));
    assert!(!ident_start('1') && !ident_start('+') && !ident_start(' '));
    assert!(ident_continue('a') && ident_continue('_') && ident_continue('1'));
    assert!(!ident_continue('-') && !ident_continue(' '));
    assert!(whitespace(' ') && whitespace('\n') && whitespace('\u{3000}'));
    assert!(!whitespace('a') && !whitespace('/'));
}

#[test]
fn collected_text_is_the_range() {
    let src = chars("héllo");
    assert_eq!(collect_text(&src, 1, 4), "éll");
    assert_eq!(collect_text(&src, 2, 2), "");
    assert_eq!(collect_text(&src, 0, 5), "héllo");
}

#[test]
fn token_clone_is_equal() {
    let t = spanned(ident("abc"), 4, 7);
    assert_eq!(t.clone(), t);
    let n = spanned(Token::Int(-3), 0, 1);
    assert_eq!(n.clone(), n);
}
