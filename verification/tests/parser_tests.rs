use thermite::ast::{
    operator_from_token, unary_operator_from_token, BinaryOperator, DottedIdent, Ident, Literal,
    LiteralKind, UnaryOperator,
};
use thermite::lexer::tokenize;
use thermite::parser::Parser;
use thermite::span::{merge, FileId, Span};
use thermite::token::{Diagnostic, ErrorKind, SpannedToken, Symbol, Token};

fn parser_for(source: &str) -> Parser {
    Parser::new(tokenize(source).unwrap(), FileId(7))
}

fn span(start: usize, end: usize) -> Span {
    Span { file: FileId(7), start, end }
}

fn name(text: &str, start: usize, end: usize) -> Ident {
    Ident { span: span(start, end), name: text.to_string() }
}

#[test]
fn dotted_ident_of_three_parts() {
    let mut parser = parser_for("a.b.c");
    let dotted = parser.parse_dotted_ident().unwrap();
    assert_eq!(dotted.parts, vec![name("a", 0, 1), name("b", 2, 3), name("c", 4, 5)]);
    assert_eq!(dotted.span, merge(dotted.parts[0].span, dotted.parts[2].span));
    assert_eq!(dotted.span, span(0, 5));
    assert_eq!(parser.index(), 5);
    assert!(parser.at_end());
}

#[test]
fn dotted_ident_of_one_part_stops_at_non_dot() {
    let mut parser = parser_for("foo + bar");
    let dotted = parser.parse_dotted_ident().unwrap();
    assert_eq!(dotted, DottedIdent { span: span(0, 3), parts: vec![name("foo", 0, 3)] });
    assert_eq!(parser.index(), 1);
    assert_eq!(parser.peek(), Some(&Token::Symbol(Symbol::Plus)));
}

#[test]
fn dotted_ident_needs_an_identifier_after_each_dot() {
    let mut parser = parser_for("a.b.1");
    assert_eq!(
        parser.parse_dotted_ident(),
        Err(Diagnostic { kind: ErrorKind::ExpectedIdentifier, offset: 4 })
    );
    assert_eq!(parser.index(), 4);
    let mut trailing = parser_for("a .");
    assert_eq!(
        trailing.parse_dotted_ident(),
        Err(Diagnostic { kind: ErrorKind::ExpectedIdentifier, offset: 3 })
    );
    assert_eq!(trailing.index(), 2);
    let mut none = parser_for("+a");
    assert_eq!(
        none.parse_dotted_ident(),
        Err(Diagnostic { kind: ErrorKind::ExpectedIdentifier, offset: 0 })
    );
    assert_eq!(none.index(), 0);
}

#[test]
fn literal_refuses_punctuation_and_consumes_nothing() {
    let mut parser = parser_for("  + 1");
    assert_eq!(
        parser.parse_literal(),
        Err(Diagnostic { kind: ErrorKind::ExpectedLiteral, offset: 2 })
    );
    assert_eq!(parser.index(), 0);
    assert_eq!(parser.peek(), Some(&Token::Symbol(Symbol::Plus)));
}

#[test]
fn literal_refuses_identifier_and_unit() {
    let mut parser = parser_for("x");
    assert_eq!(
        parser.parse_literal(),
        Err(Diagnostic { kind: ErrorKind::ExpectedLiteral, offset: 0 })
    );
    let mut unit = Parser::new(vec![SpannedToken { token: Token::Unit, start: 3, end: 5 }], FileId(7));
    assert_eq!(
        unit.parse_literal(),
        Err(Diagnostic { kind: ErrorKind::ExpectedLiteral, offset: 3 })
    );
    assert_eq!(unit.index(), 0);
}

#[test]
fn literal_at_end_of_input() {
    let mut empty = parser_for("");
    assert_eq!(
        empty.parse_literal(),
        Err(Diagnostic { kind: ErrorKind::UnexpectedEOF, offset: 0 })
    );
    let mut parser = parser_for("12 ");
    assert!(parser.parse_literal().is_ok());
    assert_eq!(
        parser.parse_literal(),
        Err(Diagnostic { kind: ErrorKind::UnexpectedEOF, offset: 2 })
    );
    assert_eq!(parser.index(), 1);
}

#[test]
fn literals_of_each_kind() {
    let mut parser = parser_for("42 1.5");
    assert_eq!(parser.parse_literal(), Ok(Literal { span: span(0, 2), kind: LiteralKind::Int(42) }));
    let float = parser.parse_literal().unwrap();
    assert_eq!(float, Literal { span: span(3, 6), kind: LiteralKind::Double("1.5".to_string()) });
    match &float.kind {
        LiteralKind::Double(text) => assert_eq!(text.parse::<f64>(), Ok(1.5)),
        other => panic!("not a float literal: {:?}", other),
    }
    let quoted = SpannedToken { token: Token::Quotedstring("hi".to_string()), start: 1, end: 5 };
    let mut strings = Parser::new(vec![quoted], FileId(7));
    assert_eq!(
        strings.parse_literal(),
        Ok(Literal { span: span(1, 5), kind: LiteralKind::Text("hi".to_string()) })
    );
    assert_eq!(strings.index(), 1);
}

#[test]
fn literal_integer_must_fit_64_bits() {
    let mut parser = parser_for("9223372036854775807 9223372036854775808");
    assert_eq!(
        parser.parse_literal(),
        Ok(Literal { span: span(0, 19), kind: LiteralKind::Int(i64::MAX) })
    );
    assert_eq!(
        parser.parse_literal(),
        Err(Diagnostic { kind: ErrorKind::NumberParseFailure, offset: 20 })
    );
    assert_eq!(parser.index(), 1);
    let low = SpannedToken { token: Token::Int(i64::MIN as i128 - 1), start: 0, end: 1 };
    let ok = SpannedToken { token: Token::Int(i64::MIN as i128), start: 0, end: 1 };
    assert!(Parser::new(vec![low], FileId(0)).parse_literal().is_err());
    assert_eq!(
        Parser::new(vec![ok], FileId(0)).parse_literal().unwrap().kind,
        LiteralKind::Int(i64::MIN)
    );
}

#[test]
fn literal_equality_ignores_span() {
    let a = Literal { span: span(0, 2), kind: LiteralKind::Int(42) };
    assert!(a.has_value(&LiteralKind::Int(42)));
    assert!(!a.has_value(&LiteralKind::Int(43)));
    assert!(!a.has_value(&LiteralKind::Text("42".to_string())));
    let s = Literal { span: span(9, 12), kind: LiteralKind::Text("x".to_string()) };
    assert!(s.has_value(&LiteralKind::Text("x".to_string())));
    assert!(!s.has_value(&LiteralKind::Double("x".to_string())));
    assert!(LiteralKind::Double("1.5".to_string()).same_value(&LiteralKind::Double("1.5".to_string())));
    assert!(!LiteralKind::Double("1.5".to_string()).same_value(&LiteralKind::Double("1.50".to_string())));
}

#[test]
fn ident_is_read_and_refused() {
    let mut parser = parser_for("abc 1");
    assert_eq!(parser.parse_ident(), Ok(name("abc", 0, 3)));
    assert_eq!(
        parser.parse_ident(),
        Err(Diagnostic { kind: ErrorKind::ExpectedIdentifier, offset: 4 })
    );
    assert_eq!(parser.index(), 1);
    assert!(parser.parse_literal().is_ok());
    assert_eq!(
        parser.parse_ident(),
        Err(Diagnostic { kind: ErrorKind::ExpectedIdentifier, offset: 5 })
    );
}

#[test]
fn peek_keeps_and_next_consumes() {
    let mut parser = parser_for("a .");
    assert_eq!(parser.peek(), Some(&Token::Identifier("a".to_string())));
    assert_eq!(parser.index(), 0);
    assert!(!parser.at_dot());
    assert_eq!(
        parser.next(),
        Some(SpannedToken { token: Token::Identifier("a".to_string()), start: 0, end: 1 })
    );
    assert!(parser.at_dot());
    assert_eq!(parser.next(), Some(SpannedToken { token: Token::Symbol(Symbol::Dot), start: 2, end: 3 }));
    assert_eq!(parser.peek(), None);
    assert_eq!(parser.next(), None);
    assert_eq!(parser.index(), 2);
    assert!(parser.at_end());
}

#[test]
fn merge_is_the_smallest_cover() {
    assert_eq!(merge(span(2, 5), span(7, 9)), span(2, 9));
    assert_eq!(merge(span(7, 9), span(2, 5)), span(2, 9));
    assert_eq!(merge(span(2, 9), span(3, 4)), span(2, 9));
    assert_eq!(merge(span(3, 4), span(3, 4)), span(3, 4));
    assert_eq!(merge(span(0, 0), span(4, 4)), span(0, 4));
    assert_eq!(Span::new(FileId(7), 1, 4), span(1, 4));
    assert_eq!(span(1, 4).len(), 3);
}

#[test]
fn operators_from_tokens() {
    let cases = [
        (Symbol::Plus, BinaryOperator::Add),
        (Symbol::Minus, BinaryOperator::Subtract),
        (Symbol::Star, BinaryOperator::Multiply),
        (Symbol::Slash, BinaryOperator::Divide),
        (Symbol::Percent, BinaryOperator::Modulus),
        (Symbol::Equal, BinaryOperator::Equal),
        (Symbol::LessThan, BinaryOperator::LessThan),
        (Symbol::GreaterThan, BinaryOperator::GreaterThan),
        (Symbol::Ampersand, BinaryOperator::BitwiseAnd),
        (Symbol::Caret, BinaryOperator::BitwiseXor),
    ];
    for (symbol, operator) in cases {
        assert_eq!(operator_from_token(&Token::Symbol(symbol)), operator);
    }
    assert_eq!(unary_operator_from_token(&Token::Symbol(Symbol::Minus)), UnaryOperator::Negate);
}

#[test]
fn error_messages() {
    assert_eq!(ErrorKind::NumberParseFailure.message(), "cannot tokenize number data");
    assert_eq!(ErrorKind::UnexpectedEOF.message(), "unexpected end of input");
    assert_eq!(ErrorKind::UnknownCharacter('|').message(), "unknown character");
    assert_eq!(ErrorKind::IdentifierStartsWithDigit.message(), "identifier starts with a digit");
    assert_eq!(ErrorKind::ExpectedLiteral.message(), "expected a literal");
    assert_eq!(ErrorKind::ExpectedIdentifier.message(), "expected an identifier");
}
