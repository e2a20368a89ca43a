//! Syntax nodes: literals, identifiers and dotted identifiers, each with the
//! span it came from, and the operator and expression kinds built on them.

use vstd::prelude::*;
use crate::classify::is_identifier_name;
use crate::span::{merged, Span};
use crate::token::{Symbol, Token, TokenView};

verus! {

/// The value of a literal: exactly one of an integer, a floating-point number
/// (held as its decimal lexeme) and a string.
#[derive(Clone, Debug, PartialEq, Eq)]
pub enum LiteralKind {
    Int(i64),
    Double(String),
    Text(String),
}

/// The mathematical value of a `LiteralKind`.
pub enum LiteralKindView {
    Int(int),
    Double(Seq<char>),
    Text(Seq<char>),
}

impl View for LiteralKind {
    type V = LiteralKindView;

    open spec fn view(&self) -> LiteralKindView {
        match *self {
            LiteralKind::Int(v) => LiteralKindView::Int(v as int),
            LiteralKind::Double(s) => LiteralKindView::Double(s@),
            LiteralKind::Text(s) => LiteralKindView::Text(s@),
        }
    }
}

/// A literal with the span of the token it was read from.
#[derive(Clone, Debug, PartialEq, Eq)]
pub struct Literal {
    pub span: Span,
    pub kind: LiteralKind,
}

/// The mathematical value of a `Literal`.
pub struct LiteralView {
    pub span: Span,
    pub kind: LiteralKindView,
}

impl View for Literal {
    type V = LiteralView;

    open spec fn view(&self) -> LiteralView {
        LiteralView { span: self.span, kind: self.kind@ }
    }
}

impl LiteralKind {
    /// Whether two literal values are the same value.
    pub fn same_value(&self, other: &LiteralKind) -> (b: bool)
        ensures
            b == (self@ == other@),
    {
        match (self, other) {
            (LiteralKind::Int(a), LiteralKind::Int(b)) => *a == *b,
            (LiteralKind::Double(a), LiteralKind::Double(b)) => {
                let same = *a == *b;
                same
            },
            (LiteralKind::Text(a), LiteralKind::Text(b)) => {
                let same = *a == *b;
                same
            },
            _ => false,
        }
    }
}

impl Literal {
    /// Whether the literal holds `value`; the span plays no part.
    pub fn has_value(&self, value: &LiteralKind) -> (b: bool)
        ensures
            b == (self@.kind == value@),
    {
        self.kind.same_value(value)
    }
}

/// An identifier with the span of the token it was read from.
#[derive(Clone, Debug, PartialEq, Eq)]
pub struct Ident {
    pub span: Span,
    pub name: String,
}

/// The mathematical value of an `Ident`.
pub struct IdentView {
    pub span: Span,
    pub name: Seq<char>,
}

impl View for Ident {
    type V = IdentView;

    open spec fn view(&self) -> IdentView {
        IdentView { span: self.span, name: self.name@ }
    }
}

impl IdentView {
    /// The name can be an identifier's, and the span is well formed.
    pub open spec fn well_formed(self) -> bool {
        is_identifier_name(self.name) && self.span.well_formed()
    }
}

/// The values of a sequence of identifiers, one for one.
pub open spec fn ident_views(parts: Seq<Ident>) -> Seq<IdentView> {
    Seq::new(parts.len(), |i: int| parts[i]@)
}

/// One or more identifiers separated by dots, as in `a.b.c`. The span is the
/// merge of the spans of the first and the last part.
#[derive(Clone, Debug, PartialEq, Eq)]
pub struct DottedIdent {
    pub span: Span,
    pub parts: Vec<Ident>,
}

/// The mathematical value of a `DottedIdent`.
pub struct DottedIdentView {
    pub span: Span,
    pub parts: Seq<IdentView>,
}

impl View for DottedIdent {
    type V = DottedIdentView;

    open spec fn view(&self) -> DottedIdentView {
        DottedIdentView { span: self.span, parts: ident_views(self.parts@) }
    }
}

impl DottedIdentView {
    /// There is at least one part, every part is well formed, and the span
    /// is the merge of the first and the last part's spans.
    pub open spec fn well_formed(self) -> bool {
        &&& self.parts.len() >= 1
        &&& forall|k: int| 0 <= k < self.parts.len() ==> (#[trigger] self.parts[k]).well_formed()
        &&& self.span == merged(self.parts.first().span, self.parts.last().span)
    }
}

/// The operators that take two operands.
#[derive(Clone, Copy, Debug, PartialEq, Eq, Structural)]
pub enum BinaryOperator {
    Add,
    Subtract,
    Multiply,
    Divide,
    Modulus,
    Equal,
    NotEqual,
    LessThan,
    GreaterThan,
    LessThanOrEqual,
    GreaterThanOrEqual,
    LogicalAnd,
    LogicalOr,
    BitwiseAnd,
    BitwiseOr,
    BitwiseXor,
    LeftShift,
    RightShift,
}

/// The operators that take one operand.
#[derive(Clone, Copy, Debug, PartialEq, Eq, Structural)]
pub enum UnaryOperator {
    Negate,
}

/// Control flow: a condition and the expressions that it guards.
#[allow(inconsistent_fields)]
#[derive(Debug)]
pub enum ControlFlow {
    If { condition: Box<Expr>, body: Vec<Expr> },
    While { condition: Box<Expr>, body: Vec<Expr> },
}

/// An expression.
#[allow(inconsistent_fields)]
#[derive(Debug)]
pub enum Expr {
    Literal(i32),
    Identifier(String),
    BinaryOperation { left: Box<Expr>, operator: BinaryOperator, right: Box<Expr> },
    UnaryOperation { operator: UnaryOperator, operand: Box<Expr> },
    ControlFlow(ControlFlow),
}

/// The binary operator that a punctuation symbol spells, if it spells one.
pub open spec fn binary_operator_of(token: TokenView) -> Option<BinaryOperator> {
    match token {
        TokenView::Symbol(Symbol::Plus) => Some(BinaryOperator::Add),
        TokenView::Symbol(Symbol::Minus) => Some(BinaryOperator::Subtract),
        TokenView::Symbol(Symbol::Star) => Some(BinaryOperator::Multiply),
        TokenView::Symbol(Symbol::Slash) => Some(BinaryOperator::Divide),
        TokenView::Symbol(Symbol::Percent) => Some(BinaryOperator::Modulus),
        TokenView::Symbol(Symbol::Equal) => Some(BinaryOperator::Equal),
        TokenView::Symbol(Symbol::LessThan) => Some(BinaryOperator::LessThan),
        TokenView::Symbol(Symbol::GreaterThan) => Some(BinaryOperator::GreaterThan),
        TokenView::Symbol(Symbol::Ampersand) => Some(BinaryOperator::BitwiseAnd),
        TokenView::Symbol(Symbol::Caret) => Some(BinaryOperator::BitwiseXor),
        _ => None,
    }
}

/// The unary operator that a punctuation symbol spells, if it spells one.
pub open spec fn unary_operator_of(token: TokenView) -> Option<UnaryOperator> {
    match token {
        TokenView::Symbol(Symbol::Minus) => Some(UnaryOperator::Negate),
        _ => None,
    }
}

/// The binary operator that an operator token stands for.
pub fn operator_from_token(token: &Token) -> (op: BinaryOperator)
    requires
        binary_operator_of(token@) is Some,
    ensures
        Some(op) == binary_operator_of(token@),
{
    match token {
        Token::Symbol(Symbol::Plus) => BinaryOperator::Add,
        Token::Symbol(Symbol::Minus) => BinaryOperator::Subtract,
        Token::Symbol(Symbol::Star) => BinaryOperator::Multiply,
        Token::Symbol(Symbol::Slash) => BinaryOperator::Divide,
        Token::Symbol(Symbol::Percent) => BinaryOperator::Modulus,
        Token::Symbol(Symbol::Equal) => BinaryOperator::Equal,
        Token::Symbol(Symbol::LessThan) => BinaryOperator::LessThan,
        Token::Symbol(Symbol::GreaterThan) => BinaryOperator::GreaterThan,
        Token::Symbol(Symbol::Ampersand) => BinaryOperator::BitwiseAnd,
        _ => BinaryOperator::BitwiseXor,
    }
}

/// The unary operator that an operator token stands for.
pub fn unary_operator_from_token(token: &Token) -> (op: UnaryOperator)
    requires
        unary_operator_of(token@) is Some,
    ensures
        Some(op) == unary_operator_of(token@),
{
    UnaryOperator::Negate
}

} // verus!
