//! The tokenizer: source text to an ordered sequence of tokens with byte spans.
//!
//! Between tokens all trivia is skipped. A token is then chosen by its first
//! character: a decimal digit starts a number, an alphabetic character or an
//! underscore starts an identifier, and any other character must be one of the
//! punctuation symbols. An underscore therefore always starts an identifier.
//!
//! A number is a maximal run of digits in which at most one point may stand,
//! so `1.` and `1.5` are floating-point lexemes and `1.2.3` splits after `1.2`.
//! Digits stop at the first character that is neither: `1foo` is the integer
//! `1` followed by the identifier `foo`.

use vstd::prelude::*;
use crate::classify::{
    byte_offset, decimal_digit, decimal_value, digit_value, ident_continue, ident_start, is_digit,
    is_ident_continue, is_ident_start, lemma_byte_offset_of_end,
};
use crate::cursor::{addressable, Cursor};
use crate::token::{
    punctuation, symbol_of, token_views, Diagnostic, ErrorKind, SpannedToken, SpannedTokenView,
    Token, TokenView,
};
use crate::trivia::{skip_trivia, trivia_end};

verus! {

/// `String::push` appends the character to the end of the string.
pub assume_specification[ std::string::String::push ](s: &mut String, ch: char)
    ensures
        final(s)@ == old(s)@.push(ch),
;

/// Scanning a number from `i` on, having consumed a point or not: where the
/// number ends, and whether it holds a point.
pub open spec fn number_scan(text: Seq<char>, i: int, pointed: bool) -> (int, bool)
    decreases text.len() - i,
{
    if 0 <= i < text.len() && is_digit(text[i]) {
        number_scan(text, i + 1, pointed)
    } else if 0 <= i < text.len() && text[i] == '.' && !pointed {
        number_scan(text, i + 1, true)
    } else {
        (i, pointed)
    }
}

/// The number that a run of decimal digits spells.
pub open spec fn digits_value(digits: Seq<char>) -> nat
    decreases digits.len(),
{
    if digits.len() == 0 {
        0
    } else {
        10 * digits_value(digits.drop_last()) + digit_value(digits.last())
    }
}

/// The number token that starts at `i`, and where it ends.
pub open spec fn number_at(text: Seq<char>, i: int) -> Result<(TokenView, int), ErrorKind> {
    if !(0 <= i < text.len()) {
        Err(ErrorKind::UnexpectedEOF)
    } else if !is_digit(text[i]) {
        Err(ErrorKind::NumberParseFailure)
    } else {
        let end = number_scan(text, i, false).0;
        let lexeme = text.subrange(i, end);
        if number_scan(text, i, false).1 {
            Ok((TokenView::Double(lexeme), end))
        } else if digits_value(lexeme) <= i128::MAX {
            Ok((TokenView::Int(digits_value(lexeme) as int), end))
        } else {
            Err(ErrorKind::NumberParseFailure)
        }
    }
}

/// The end of the maximal run of identifier characters that starts at `i`.
pub open spec fn ident_end(text: Seq<char>, i: int) -> int
    decreases text.len() - i,
{
    if 0 <= i < text.len() && is_ident_continue(text[i]) {
        ident_end(text, i + 1)
    } else {
        i
    }
}

/// The identifier token that starts at `i`, and where it ends.
pub open spec fn ident_at(text: Seq<char>, i: int) -> Result<(TokenView, int), ErrorKind> {
    if !(0 <= i < text.len()) {
        Err(ErrorKind::UnexpectedEOF)
    } else if is_digit(text[i]) {
        Err(ErrorKind::IdentifierStartsWithDigit)
    } else if !is_ident_start(text[i]) {
        Err(ErrorKind::UnknownCharacter(text[i]))
    } else {
        Ok((TokenView::Identifier(text.subrange(i, ident_end(text, i + 1))), ident_end(text, i + 1)))
    }
}

/// The token that starts at `i`, and where it ends.
pub open spec fn token_at(text: Seq<char>, i: int) -> Result<(TokenView, int), ErrorKind> {
    if !(0 <= i < text.len()) {
        Err(ErrorKind::UnexpectedEOF)
    } else if is_digit(text[i]) {
        number_at(text, i)
    } else if is_ident_start(text[i]) {
        ident_at(text, i)
    } else {
        match symbol_of(text[i]) {
            Some(p) => Ok((TokenView::Symbol(p), i + 1)),
            None => Err(ErrorKind::UnknownCharacter(text[i])),
        }
    }
}

/// A token with the character positions at which it starts and ends.
pub struct Lexeme {
    pub token: TokenView,
    pub first: int,
    pub after: int,
}

/// How a scan ended, in characters: its lexemes, or the kind of the error and
/// the position where it was met.
pub type Lexed = Result<Seq<Lexeme>, (ErrorKind, int)>;

/// Puts lexemes already found before the outcome of scanning the rest.
pub open spec fn prepend(done: Seq<Lexeme>, rest: Lexed) -> Lexed {
    match rest {
        Ok(more) => Ok(done + more),
        Err(e) => Err(e),
    }
}

/// The next lexeme at or after `i`: `None` where only trivia is left.
pub open spec fn lexeme_after(text: Seq<char>, i: int) -> Result<Option<Lexeme>, (ErrorKind, int)> {
    let start = trivia_end(text, i);
    if start >= text.len() {
        Ok(None)
    } else {
        match token_at(text, start) {
            Ok((token, end)) => Ok(Some(Lexeme { token, first: start, after: end })),
            Err(kind) => Err((kind, start)),
        }
    }
}

/// All lexemes from `i` on, or the first error. A lexeme always ends after `i`
/// and within the text (`lemma_lexeme_advances`); the test for it here only
/// shows that the scan comes to an end.
pub open spec fn lex(text: Seq<char>, i: int) -> Lexed
    decreases text.len() - i,
{
    match lexeme_after(text, i) {
        Ok(None) => Ok(Seq::empty()),
        Err(e) => Err(e),
        Ok(Some(l)) => if i < l.after <= text.len() {
            prepend(seq![l], lex(text, l.after))
        } else {
            Ok(seq![l])
        },
    }
}

/// A lexeme with its character positions turned into byte offsets.
pub open spec fn spanned(text: Seq<char>, l: Lexeme) -> SpannedTokenView {
    SpannedTokenView {
        token: l.token,
        start: byte_offset(text, l.first) as int,
        end: byte_offset(text, l.after) as int,
    }
}

/// What tokenizing `text` gives: its tokens with their byte spans, or the
/// first error with the byte offset where it was met.
pub open spec fn tokenized(text: Seq<char>) -> Result<Seq<SpannedTokenView>, Diagnostic> {
    match lex(text, 0) {
        Ok(lexemes) => Ok(Seq::new(lexemes.len(), |k: int| spanned(text, lexemes[k]))),
        Err((kind, at)) => Err(Diagnostic { kind, offset: byte_offset(text, at) as usize }),
    }
}

/// The mathematical value of a tokenizer's result.
pub open spec fn outcome(r: Result<Vec<SpannedToken>, Diagnostic>) -> Result<
    Seq<SpannedTokenView>,
    Diagnostic,
> {
    match r {
        Ok(tokens) => Ok(token_views(tokens@)),
        Err(d) => Err(d),
    }
}

/// Whether the result of scanning one token is the one that `model` describes.
pub open spec fn scan_agrees(
    text: Seq<char>,
    r: Result<(Token, Cursor), ErrorKind>,
    model: Result<(TokenView, int), ErrorKind>,
) -> bool {
    match (r, model) {
        (Ok((token, cursor)), Ok((view, end))) => token@ == view && cursor.index == end
            && cursor.within(text),
        (Err(a), Err(b)) => a == b,
        _ => false,
    }
}

/// A number ends at or after its start and within the text, and after its
/// start where a digit stands there.
pub proof fn lemma_number_scan_bounds(text: Seq<char>, i: int, pointed: bool)
    requires
        0 <= i <= text.len(),
    ensures
        i <= number_scan(text, i, pointed).0 <= text.len(),
        0 <= i < text.len() && is_digit(text[i]) ==> i < number_scan(text, i, pointed).0,
    decreases text.len() - i,
{
    if i < text.len() && is_digit(text[i]) {
        lemma_number_scan_bounds(text, i + 1, pointed);
    } else if i < text.len() && text[i] == '.' && !pointed {
        lemma_number_scan_bounds(text, i + 1, true);
    }
}

/// A run of identifier characters ends at or after its start and within the text.
pub proof fn lemma_ident_end_bounds(text: Seq<char>, i: int)
    requires
        0 <= i <= text.len(),
    ensures
        i <= ident_end(text, i) <= text.len(),
    decreases text.len() - i,
{
    if i < text.len() && is_ident_continue(text[i]) {
        lemma_ident_end_bounds(text, i + 1);
    }
}

/// The shape of a number: its characters are digits, but for at most one
/// point, which it holds exactly if the scan says so; and it is maximal, so
/// the character after it is no digit, and a point only if the number holds
/// one already.
pub proof fn lemma_number_scan_shape(text: Seq<char>, i: int, pointed: bool)
    requires
        0 <= i <= text.len(),
    ensures
        ({
            let end = number_scan(text, i, pointed).0;
            let found = number_scan(text, i, pointed).1;
            &&& forall|k: int|
                i <= k < end ==> is_digit(#[trigger] text[k]) || (text[k] == '.' && !pointed)
            &&& forall|a: int, b: int|
                i <= a < b < end ==> !(#[trigger] text[a] == '.' && #[trigger] text[b] == '.')
            &&& found == (pointed || exists|k: int| i <= k < end && #[trigger] text[k] == '.')
            &&& end < text.len() ==> !is_digit(text[end]) && (text[end] != '.' || found)
        }),
    decreases text.len() - i,
{
    lemma_number_scan_bounds(text, i, pointed);
    if i < text.len() && is_digit(text[i]) {
        lemma_number_scan_shape(text, i + 1, pointed);
    } else if i < text.len() && text[i] == '.' && !pointed {
        lemma_number_scan_shape(text, i + 1, true);
        lemma_number_scan_bounds(text, i + 1, true);
        assert(text[i] == '.');
    }
}

/// Every character of a run of identifier characters is one, and the
/// character after the run is none.
pub proof fn lemma_ident_end_is_run(text: Seq<char>, i: int, k: int)
    requires
        0 <= i <= k < ident_end(text, i),
    ensures
        k < text.len(),
        is_ident_continue(text[k]),
        ident_end(text, i) < text.len() ==> !is_ident_continue(text[ident_end(text, i)]),
    decreases k - i,
{
    if i < k {
        lemma_ident_end_is_run(text, i + 1, k);
    } else {
        lemma_ident_end_stops(text, i);
    }
}

/// The character after a run of identifier characters is none.
pub proof fn lemma_ident_end_stops(text: Seq<char>, i: int)
    requires
        0 <= i <= text.len(),
    ensures
        ident_end(text, i) < text.len() ==> !is_ident_continue(text[ident_end(text, i)]),
    decreases text.len() - i,
{
    if i < text.len() && is_ident_continue(text[i]) {
        lemma_ident_end_stops(text, i + 1);
    }
}

/// Every token holds at least one character and ends within the text.
pub proof fn lemma_token_advances(text: Seq<char>, i: int)
    requires
        0 <= i <= text.len(),
        token_at(text, i) is Ok,
    ensures
        i < token_at(text, i)->Ok_0.1 <= text.len(),
{
    lemma_number_scan_bounds(text, i, false);
    lemma_ident_end_bounds(text, i + 1);
}

/// The value of a run of digits is at least the value of each of its prefixes.
pub proof fn lemma_digits_value_grows(digits: Seq<char>, n: int)
    requires
        0 <= n <= digits.len(),
    ensures
        digits_value(digits.take(n)) <= digits_value(digits),
    decreases digits.len(),
{
    if n < digits.len() {
        assert(digits.drop_last().take(n) =~= digits.take(n));
        lemma_digits_value_grows(digits.drop_last(), n);
    } else {
        assert(digits.take(n) =~= digits);
    }
}

/// The decimal value of the digits `src[from..to]`, or `None` where it does
/// not fit the integer representation of tokens.
pub fn parse_digits(src: &[char], from: usize, to: usize) -> (r: Option<i128>)
    requires
        from <= to <= src@.len(),
        forall|k: int| from <= k < to ==> is_digit(#[trigger] src@[k]),
    ensures
        match r {
            Some(v) => v == digits_value(src@.subrange(from as int, to as int)),
            None => digits_value(src@.subrange(from as int, to as int)) > i128::MAX,
        },
{
    let mut acc: i128 = 0;
    let mut k: usize = from;
    while k < to
        invariant
            from <= k <= to <= src@.len(),
            forall|j: int| from <= j < to ==> is_digit(#[trigger] src@[j]),
            0 <= acc,
            acc == digits_value(src@.subrange(from as int, k as int)),
        decreases to - k,
    {
        let d: i128 = decimal_value(src[k]) as i128;
        proof {
            let longer = src@.subrange(from as int, k + 1);
            assert(longer.drop_last() =~= src@.subrange(from as int, k as int));
            assert(longer.last() == src@[k as int]);
            assert(digits_value(longer) == 10 * acc + d);
            assert(src@.subrange(from as int, to as int).take(k + 1 - from) =~= longer);
            lemma_digits_value_grows(src@.subrange(from as int, to as int), k + 1 - from);
        }
        if acc > (i128::MAX - d) / 10 {
            return None;
        }
        acc = acc * 10 + d;
        k = k + 1;
    }
    Some(acc)
}

/// The characters `src[from..to]` as a string.
pub fn collect_text(src: &[char], from: usize, to: usize) -> (text: String)
    requires
        from <= to <= src@.len(),
    ensures
        text@ == src@.subrange(from as int, to as int),
{
    let mut text = String::new();
    let mut k: usize = from;
    while k < to
        invariant
            from <= k <= to <= src@.len(),
            text@ == src@.subrange(from as int, k as int),
        decreases to - k,
    {
        text.push(src[k]);
        k = k + 1;
        assert(text@ =~= src@.subrange(from as int, k as int));
    }
    text
}

/// Scans the number at the cursor: an integer token, or a floating-point
/// token where the digits hold a point.
pub fn scan_number(src: &[char], at: Cursor) -> (r: Result<(Token, Cursor), ErrorKind>)
    requires
        at.within(src@),
        addressable(src@),
    ensures
        scan_agrees(src@, r, number_at(src@, at.index as int)),
{
    if at.index >= src.len() {
        return Err(ErrorKind::UnexpectedEOF);
    }
    if !decimal_digit(src[at.index]) {
        return Err(ErrorKind::NumberParseFailure);
    }
    let mut cur = at;
    let mut pointed = false;
    while cur.index < src.len() && (decimal_digit(src[cur.index]) || (src[cur.index] == '.'
        && !pointed))
        invariant
            cur.within(src@),
            addressable(src@),
            at.index <= cur.index,
            number_scan(src@, cur.index as int, pointed) == number_scan(
                src@,
                at.index as int,
                false,
            ),
            !pointed ==> forall|k: int| at.index <= k < cur.index ==> is_digit(#[trigger] src@[k]),
        decreases src.len() - cur.index,
    {
        if src[cur.index] == '.' {
            pointed = true;
        }
        cur = cur.advance(src);
    }
    if pointed {
        Ok((Token::Double(collect_text(src, at.index, cur.index)), cur))
    } else {
        match parse_digits(src, at.index, cur.index) {
            Some(v) => Ok((Token::Int(v), cur)),
            None => Err(ErrorKind::NumberParseFailure),
        }
    }
}

/// Scans the identifier at the cursor: its first character, which must be
/// able to start one, and the maximal run of identifier characters after it.
pub fn scan_identifier(src: &[char], at: Cursor) -> (r: Result<(Token, Cursor), ErrorKind>)
    requires
        at.within(src@),
        addressable(src@),
    ensures
        scan_agrees(src@, r, ident_at(src@, at.index as int)),
{
    if at.index >= src.len() {
        return Err(ErrorKind::UnexpectedEOF);
    }
    let first = src[at.index];
    if decimal_digit(first) {
        return Err(ErrorKind::IdentifierStartsWithDigit);
    }
    if !ident_start(first) {
        return Err(ErrorKind::UnknownCharacter(first));
    }
    let mut cur = at.advance(src);
    while cur.index < src.len() && ident_continue(src[cur.index])
        invariant
            cur.within(src@),
            addressable(src@),
            at.index < cur.index,
            ident_end(src@, cur.index as int) == ident_end(src@, at.index + 1),
        decreases src.len() - cur.index,
    {
        cur = cur.advance(src);
    }
    Ok((Token::Identifier(collect_text(src, at.index, cur.index)), cur))
}

/// Scans the one token that starts at the cursor.
pub fn scan_token(src: &[char], at: Cursor) -> (r: Result<(Token, Cursor), ErrorKind>)
    requires
        at.within(src@),
        addressable(src@),
    ensures
        scan_agrees(src@, r, token_at(src@, at.index as int)),
{
    if at.index >= src.len() {
        return Err(ErrorKind::UnexpectedEOF);
    }
    let first = src[at.index];
    if decimal_digit(first) {
        scan_number(src, at)
    } else if ident_start(first) {
        scan_identifier(src, at)
    } else {
        match punctuation(first) {
            Some(p) => Ok((Token::Symbol(p), at.advance(src))),
            None => Err(ErrorKind::UnknownCharacter(first)),
        }
    }
}

/// Skips trivia and scans the next token; `None` where the source is used up.
pub fn next_token(src: &[char], at: Cursor) -> (r: Result<Option<(SpannedToken, Cursor)>, Diagnostic>)
    requires
        at.within(src@),
        addressable(src@),
    ensures
        match lexeme_after(src@, at.index as int) {
            Ok(None) => r == Ok::<Option<(SpannedToken, Cursor)>, Diagnostic>(None),
            Ok(Some(l)) => r matches Ok(Some(found)) && found.0@ == spanned(src@, l)
                && found.1.index == l.after && found.1.within(src@) && at.index < l.after,
            Err((kind, i)) => r == Err::<Option<(SpannedToken, Cursor)>, Diagnostic>(
                Diagnostic { kind, offset: byte_offset(src@, i) as usize },
            ),
        },
{
    let start = skip_trivia(src, at);
    if start.index >= src.len() {
        return Ok(None);
    }
    proof {
        if token_at(src@, start.index as int) is Ok {
            lemma_token_advances(src@, start.index as int);
        }
    }
    match scan_token(src, start) {
        Ok((token, end)) => Ok(
            Some((SpannedToken { token, start: start.offset, end: end.offset }, end)),
        ),
        Err(kind) => Err(Diagnostic { kind, offset: start.offset }),
    }
}

/// Tokenizes a source held as characters. The byte offsets are those of the
/// text written in UTF-8.
pub fn tokenize_chars(src: &[char]) -> (r: Result<Vec<SpannedToken>, Diagnostic>)
    requires
        addressable(src@),
    ensures
        outcome(r) == tokenized(src@),
{
    let mut tokens: Vec<SpannedToken> = Vec::new();
    let mut cur = Cursor::start();
    let ghost mut done: Seq<Lexeme> = Seq::empty();
    loop
        invariant
            cur.within(src@),
            addressable(src@),
            lex(src@, 0) == prepend(done, lex(src@, cur.index as int)),
            token_views(tokens@) == Seq::new(done.len(), |k: int| spanned(src@, done[k])),
        decreases src.len() - cur.index,
    {
        match next_token(src, cur) {
            Err(d) => {
                return Err(d);
            },
            Ok(None) => {
                proof {
                    assert(done + Seq::<Lexeme>::empty() =~= done);
                }
                return Ok(tokens);
            },
            Ok(Some((token, next))) => {
                proof {
                    let l = lexeme_after(src@, cur.index as int)->Ok_0->Some_0;
                    let rest = lex(src@, l.after);
                    assert(lex(src@, cur.index as int) == prepend(seq![l], rest));
                    if rest is Ok {
                        assert(done + (seq![l] + rest->Ok_0) =~= done.push(l) + rest->Ok_0);
                    }
                    let before = Seq::new(done.len(), |k: int| spanned(src@, done[k]));
                    let after = Seq::new(
                        done.push(l).len(),
                        |k: int| spanned(src@, done.push(l)[k]),
                    );
                    assert(token_views(tokens@).len() == before.len());
                    assert forall|k: int| 0 <= k < after.len() implies token_views(
                        tokens@.push(token),
                    )[k] == after[k] by {
                        if k < done.len() {
                            assert(token_views(tokens@)[k] == before[k]);
                            assert(tokens@.push(token)[k] == tokens@[k]);
                        }
                    }
                    assert(token_views(tokens@.push(token)) =~= after);
                    done = done.push(l);
                }
                tokens.push(token);
                cur = next;
            },
        }
    }
}

/// Tokenizes a source text: its tokens in order, each with the byte range it
/// occupies, or the first error with the byte offset where it was met.
pub fn tokenize(source: &str) -> (r: Result<Vec<SpannedToken>, Diagnostic>)
    ensures
        outcome(r) == tokenized(source@),
{
    let mut chars: Vec<char> = Vec::new();
    for c in it: source.chars()
        invariant
            it.seq() == source@,
            chars@ == it.seq().take(it.index() as int),
    {
        chars.push(c);
    }
    let size: usize = source.as_bytes().len();
    proof {
        assert(chars@ =~= source@);
        lemma_byte_offset_of_end(source@);
        assert(byte_offset(source@, source@.len() as int) == size);
    }
    tokenize_chars(chars.as_slice())
}

} // verus!
