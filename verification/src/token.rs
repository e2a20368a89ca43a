//! Tokens: what the tokenizer emits and the parser reads.

use vstd::prelude::*;
use crate::classify::is_identifier_name;

verus! {

/// The fixed one-character punctuation of the language.
#[derive(Clone, Copy, Debug, PartialEq, Eq, Structural)]
pub enum Symbol {
    Dot,
    Equal,
    Plus,
    Minus,
    Star,
    Slash,
    At,
    Caret,
    LParen,
    RParen,
    LBracket,
    RBracket,
    LBrace,
    RBrace,
    Underscore,
    Percent,
    Ampersand,
    Hash,
    Dollar,
    Backtick,
    Tilde,
    Comma,
    LessThan,
    GreaterThan,
    Question,
    Bang,
    Quote,
}

/// One token. Literal-bearing kinds carry their value, identifiers their text,
/// punctuation nothing but its symbol.
///
/// A floating-point token carries its decimal lexeme (digits with exactly one
/// point); turning it into a binary floating-point number is left to the consumer.
#[derive(Debug, PartialEq, Eq)]
pub enum Token {
    Int(i128),
    Double(String),
    Quotedstring(String),
    Unit,
    Identifier(String),
    Symbol(Symbol),
}

/// The mathematical value of a `Token`.
pub enum TokenView {
    Int(int),
    Double(Seq<char>),
    Quotedstring(Seq<char>),
    Unit,
    Identifier(Seq<char>),
    Symbol(Symbol),
}

impl View for Token {
    type V = TokenView;

    open spec fn view(&self) -> TokenView {
        match *self {
            Token::Int(v) => TokenView::Int(v as int),
            Token::Double(s) => TokenView::Double(s@),
            Token::Quotedstring(s) => TokenView::Quotedstring(s@),
            Token::Unit => TokenView::Unit,
            Token::Identifier(s) => TokenView::Identifier(s@),
            Token::Symbol(p) => TokenView::Symbol(p),
        }
    }
}

impl Clone for Token {
    fn clone(&self) -> (r: Token)
        ensures
            r@ == self@,
    {
        match self {
            Token::Int(v) => Token::Int(*v),
            Token::Double(s) => Token::Double(s.clone()),
            Token::Quotedstring(s) => Token::Quotedstring(s.clone()),
            Token::Unit => Token::Unit,
            Token::Identifier(s) => Token::Identifier(s.clone()),
            Token::Symbol(p) => Token::Symbol(*p),
        }
    }
}

/// A token together with the byte range `[start, end)` it occupies in its source.
#[derive(Debug, PartialEq, Eq)]
pub struct SpannedToken {
    pub token: Token,
    pub start: usize,
    pub end: usize,
}

/// The mathematical value of a `SpannedToken`.
pub struct SpannedTokenView {
    pub token: TokenView,
    pub start: int,
    pub end: int,
}

impl View for SpannedToken {
    type V = SpannedTokenView;

    open spec fn view(&self) -> SpannedTokenView {
        SpannedTokenView { token: self.token@, start: self.start as int, end: self.end as int }
    }
}

impl Clone for SpannedToken {
    fn clone(&self) -> (r: SpannedToken)
        ensures
            r@ == self@,
    {
        SpannedToken { token: self.token.clone(), start: self.start, end: self.end }
    }
}

/// The values of a sequence of spanned tokens, one for one.
pub open spec fn token_views(tokens: Seq<SpannedToken>) -> Seq<SpannedTokenView> {
    Seq::new(tokens.len(), |i: int| tokens[i]@)
}

/// Why tokenizing or parsing stopped.
#[derive(Clone, Copy, Debug, PartialEq, Eq, Structural)]
pub enum ErrorKind {
    /// The input ended where a token was required.
    UnexpectedEOF,
    /// A character that starts no token.
    UnknownCharacter(char),
    /// An identifier was asked for where a digit stands.
    IdentifierStartsWithDigit,
    /// A run of digits that the integer representation cannot hold.
    NumberParseFailure,
    /// The current token is no integer, floating-point number or quoted string.
    ExpectedLiteral,
    /// The current token is no identifier.
    ExpectedIdentifier,
}

/// What an error of the given kind is called in a report.
pub open spec fn message_of(kind: ErrorKind) -> Seq<char> {
    match kind {
        ErrorKind::UnexpectedEOF => "unexpected end of input"@,
        ErrorKind::UnknownCharacter(_) => "unknown character"@,
        ErrorKind::IdentifierStartsWithDigit => "identifier starts with a digit"@,
        ErrorKind::NumberParseFailure => "cannot tokenize number data"@,
        ErrorKind::ExpectedLiteral => "expected a literal"@,
        ErrorKind::ExpectedIdentifier => "expected an identifier"@,
    }
}

impl ErrorKind {
    /// A human-readable description of the error.
    pub fn message(&self) -> (text: &'static str)
        ensures
            text@ == message_of(*self),
    {
        match self {
            ErrorKind::UnexpectedEOF => "unexpected end of input",
            ErrorKind::UnknownCharacter(_) => "unknown character",
            ErrorKind::IdentifierStartsWithDigit => "identifier starts with a digit",
            ErrorKind::NumberParseFailure => "cannot tokenize number data",
            ErrorKind::ExpectedLiteral => "expected a literal",
            ErrorKind::ExpectedIdentifier => "expected an identifier",
        }
    }
}

/// A fatal error, with the byte offset in the source at which it was met.
#[derive(Clone, Copy, Debug, PartialEq, Eq, Structural)]
pub struct Diagnostic {
    pub kind: ErrorKind,
    pub offset: usize,
}

/// The punctuation symbol that `c` spells, if it spells one.
pub open spec fn symbol_of(c: char) -> Option<Symbol> {
    if c == '.' {
        Some(Symbol::Dot)
    } else if c == '=' {
        Some(Symbol::Equal)
    } else if c == '+' {
        Some(Symbol::Plus)
    } else if c == '-' {
        Some(Symbol::Minus)
    } else if c == '*' {
        Some(Symbol::Star)
    } else if c == '/' {
        Some(Symbol::Slash)
    } else if c == '@' {
        Some(Symbol::At)
    } else if c == '^' {
        Some(Symbol::Caret)
    } else if c == '(' {
        Some(Symbol::LParen)
    } else if c == ')' {
        Some(Symbol::RParen)
    } else if c == '[' {
        Some(Symbol::LBracket)
    } else if c == ']' {
        Some(Symbol::RBracket)
    } else if c == '{' {
        Some(Symbol::LBrace)
    } else if c == '}' {
        Some(Symbol::RBrace)
    } else if c == '_' {
        Some(Symbol::Underscore)
    } else if c == '%' {
        Some(Symbol::Percent)
    } else if c == '&' {
        Some(Symbol::Ampersand)
    } else if c == '#' {
        Some(Symbol::Hash)
    } else if c == '$' {
        Some(Symbol::Dollar)
    } else if c == '`' {
        Some(Symbol::Backtick)
    } else if c == '~' {
        Some(Symbol::Tilde)
    } else if c == ',' {
        Some(Symbol::Comma)
    } else if c == '<' {
        Some(Symbol::LessThan)
    } else if c == '>' {
        Some(Symbol::GreaterThan)
    } else if c == '?' {
        Some(Symbol::Question)
    } else if c == '!' {
        Some(Symbol::Bang)
    } else if c == '"' {
        Some(Symbol::Quote)
    } else {
        None
    }
}

/// The character that spells a punctuation symbol.
pub open spec fn symbol_char(p: Symbol) -> char {
    match p {
        Symbol::Dot => '.',
        Symbol::Equal => '=',
        Symbol::Plus => '+',
        Symbol::Minus => '-',
        Symbol::Star => '*',
        Symbol::Slash => '/',
        Symbol::At => '@',
        Symbol::Caret => '^',
        Symbol::LParen => '(',
        Symbol::RParen => ')',
        Symbol::LBracket => '[',
        Symbol::RBracket => ']',
        Symbol::LBrace => '{',
        Symbol::RBrace => '}',
        Symbol::Underscore => '_',
        Symbol::Percent => '%',
        Symbol::Ampersand => '&',
        Symbol::Hash => '#',
        Symbol::Dollar => '$',
        Symbol::Backtick => '`',
        Symbol::Tilde => '~',
        Symbol::Comma => ',',
        Symbol::LessThan => '<',
        Symbol::GreaterThan => '>',
        Symbol::Question => '?',
        Symbol::Bang => '!',
        Symbol::Quote => '"',
    }
}

/// Recognizes one-character punctuation.
pub fn punctuation(c: char) -> (r: Option<Symbol>)
    ensures
        r == symbol_of(c),
{
    if c == '.' {
        Some(Symbol::Dot)
    } else if c == '=' {
        Some(Symbol::Equal)
    } else if c == '+' {
        Some(Symbol::Plus)
    } else if c == '-' {
        Some(Symbol::Minus)
    } else if c == '*' {
        Some(Symbol::Star)
    } else if c == '/' {
        Some(Symbol::Slash)
    } else if c == '@' {
        Some(Symbol::At)
    } else if c == '^' {
        Some(Symbol::Caret)
    } else if c == '(' {
        Some(Symbol::LParen)
    } else if c == ')' {
        Some(Symbol::RParen)
    } else if c == '[' {
        Some(Symbol::LBracket)
    } else if c == ']' {
        Some(Symbol::RBracket)
    } else if c == '{' {
        Some(Symbol::LBrace)
    } else if c == '}' {
        Some(Symbol::RBrace)
    } else if c == '_' {
        Some(Symbol::Underscore)
    } else if c == '%' {
        Some(Symbol::Percent)
    } else if c == '&' {
        Some(Symbol::Ampersand)
    } else if c == '#' {
        Some(Symbol::Hash)
    } else if c == '$' {
        Some(Symbol::Dollar)
    } else if c == '`' {
        Some(Symbol::Backtick)
    } else if c == '~' {
        Some(Symbol::Tilde)
    } else if c == ',' {
        Some(Symbol::Comma)
    } else if c == '<' {
        Some(Symbol::LessThan)
    } else if c == '>' {
        Some(Symbol::GreaterThan)
    } else if c == '?' {
        Some(Symbol::Question)
    } else if c == '!' {
        Some(Symbol::Bang)
    } else if c == '"' {
        Some(Symbol::Quote)
    } else {
        None
    }
}

/// Every punctuation symbol is recognized from the character that spells it,
/// so no two symbols share a character.
pub proof fn lemma_symbol_spelling(p: Symbol)
    ensures
        symbol_of(symbol_char(p)) == Some(p),
{
}

/// Whether the spans of `tokens` are well formed and lie one after the other,
/// as those of a tokenized source do.
pub open spec fn ascending(tokens: Seq<SpannedTokenView>) -> bool {
    &&& forall|k: int|
        0 <= k < tokens.len() ==> 0 <= (#[trigger] tokens[k]).start <= tokens[k].end <= usize::MAX
    &&& forall|k: int|
        0 <= k && k + 1 < tokens.len() ==> (#[trigger] tokens[k]).end <= tokens[k + 1].start
}

/// In ascending tokens every earlier token ends at or before the start of
/// every later one.
pub proof fn lemma_ascending_is_ordered(tokens: Seq<SpannedTokenView>, a: int, b: int)
    requires
        ascending(tokens),
        0 <= a < b < tokens.len(),
    ensures
        tokens[a].end <= tokens[b].start,
    decreases b - a,
{
    if a + 1 < b {
        lemma_ascending_is_ordered(tokens, a, b - 1);
        assert(tokens[b - 1].start <= tokens[b - 1].end);
        assert(tokens[b - 1].end <= tokens[b - 1 + 1].start);
    }
}

/// Whether every identifier among `tokens` has a name that an identifier can
/// have, as those of a tokenized source do.
pub open spec fn named(tokens: Seq<SpannedTokenView>) -> bool {
    forall|k: int|
        0 <= k < tokens.len() && (#[trigger] tokens[k]).token is Identifier ==> is_identifier_name(
            tokens[k].token->Identifier_0,
        )
}

} // verus!
