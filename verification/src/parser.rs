//! The parser: a cursor that only moves forward over a token sequence, and
//! the productions for literals, identifiers and dotted identifiers.
//!
//! Every error leaves the cursor on the token that was refused. An error
//! carries the byte offset where that token starts, or, where no token is
//! left, the offset where the last token ends.

use vstd::prelude::*;
use crate::ast::{
    ident_views, DottedIdent, DottedIdentView, Ident, IdentView, Literal, LiteralKind,
    LiteralKindView, LiteralView,
};
use crate::span::{merge, merged, FileId, Span};
use crate::token::{
    ascending, lemma_ascending_is_ordered, named, token_views, Diagnostic, ErrorKind,
    SpannedToken, SpannedTokenView, Symbol, Token, TokenView,
};

verus! {

/// The span of a token that lies in `file`.
pub open spec fn span_of(file: FileId, token: SpannedTokenView) -> Span {
    Span { file, start: token.start as usize, end: token.end as usize }
}

/// The byte offset that an error at token `i` reports: the start of that
/// token, or the end of the last token where `i` is past the end.
pub open spec fn fault_offset(tokens: Seq<SpannedTokenView>, i: int) -> usize {
    if 0 <= i < tokens.len() {
        tokens[i].start as usize
    } else if tokens.len() > 0 {
        tokens.last().end as usize
    } else {
        0
    }
}

/// The literal that token `i` spells, or why it spells none. An integer that
/// the literal's 64-bit representation cannot hold is refused.
pub open spec fn literal_at(tokens: Seq<SpannedTokenView>, i: int, file: FileId) -> Result<
    LiteralView,
    ErrorKind,
> {
    if !(0 <= i < tokens.len()) {
        Err(ErrorKind::UnexpectedEOF)
    } else {
        let span = span_of(file, tokens[i]);
        match tokens[i].token {
            TokenView::Int(v) => if i64::MIN <= v <= i64::MAX {
                Ok(LiteralView { span, kind: LiteralKindView::Int(v) })
            } else {
                Err(ErrorKind::NumberParseFailure)
            },
            TokenView::Double(s) => Ok(LiteralView { span, kind: LiteralKindView::Double(s) }),
            TokenView::Quotedstring(s) => Ok(LiteralView { span, kind: LiteralKindView::Text(s) }),
            _ => Err(ErrorKind::ExpectedLiteral),
        }
    }
}

/// Whether token `i` is an identifier.
pub open spec fn is_identifier(tokens: Seq<SpannedTokenView>, i: int) -> bool {
    0 <= i < tokens.len() && tokens[i].token is Identifier
}

/// Whether token `i` is a dot.
pub open spec fn is_dot(tokens: Seq<SpannedTokenView>, i: int) -> bool {
    0 <= i < tokens.len() && tokens[i].token == TokenView::Symbol(Symbol::Dot)
}

/// The identifier that token `i` spells.
pub open spec fn identifier_at(tokens: Seq<SpannedTokenView>, i: int, file: FileId) -> IdentView
    recommends
        is_identifier(tokens, i),
{
    IdentView { span: span_of(file, tokens[i]), name: tokens[i].token->Identifier_0 }
}

/// How many times an identifier followed by a dot stands at `i`, one such
/// pair after the other.
pub open spec fn dotted_pairs(tokens: Seq<SpannedTokenView>, i: int) -> nat
    decreases tokens.len() - i,
{
    if is_identifier(tokens, i) && is_dot(tokens, i + 1) {
        1 + dotted_pairs(tokens, i + 2)
    } else {
        0
    }
}

/// The identifiers at `i`, `i + 2`, and so on, `n` of them.
pub open spec fn dotted_parts(tokens: Seq<SpannedTokenView>, i: int, file: FileId, n: nat) -> Seq<
    IdentView,
> {
    Seq::new(n, |k: int| identifier_at(tokens, i + 2 * k, file))
}

/// The dotted identifier that starts at token `i`: after all the pairs of an
/// identifier and a dot, one more identifier must stand.
pub open spec fn dotted_at(tokens: Seq<SpannedTokenView>, i: int, file: FileId) -> Option<
    DottedIdentView,
> {
    let pairs = dotted_pairs(tokens, i);
    if is_identifier(tokens, i + 2 * pairs) {
        let parts = dotted_parts(tokens, i, file, pairs + 1);
        Some(DottedIdentView { span: merged(parts.first().span, parts.last().span), parts })
    } else {
        None
    }
}

/// A token sequence and the index of the current token.
#[derive(Debug)]
pub struct Parser {
    tokens: Vec<SpannedToken>,
    file: FileId,
    current_index: usize,
}

impl Parser {
    /// The tokens that the parser reads.
    pub closed spec fn tokens(&self) -> Seq<SpannedTokenView> {
        token_views(self.tokens@)
    }

    /// The file that the tokens came from.
    pub closed spec fn file(&self) -> FileId {
        self.file
    }

    /// The index of the current token.
    pub closed spec fn position(&self) -> int {
        self.current_index as int
    }

    /// The current index never lies beyond the end of the tokens.
    pub open spec fn well_formed(&self) -> bool {
        0 <= self.position() <= self.tokens().len()
    }

    /// Whether `self` is `before` moved on by `consumed` tokens, with the same
    /// tokens and file.
    pub open spec fn moved(&self, before: &Parser, consumed: int) -> bool {
        &&& self.tokens() == before.tokens()
        &&& self.file() == before.file()
        &&& self.position() == before.position() + consumed
        &&& self.well_formed()
    }

    /// A parser at the first of `tokens`, which came from `file`.
    pub fn new(tokens: Vec<SpannedToken>, file: FileId) -> (p: Parser)
        ensures
            p.tokens() == token_views(tokens@),
            p.file() == file,
            p.position() == 0,
            p.well_formed(),
    {
        Parser { tokens, file, current_index: 0 }
    }

    /// The index of the current token.
    pub fn index(&self) -> (i: usize)
        ensures
            i == self.position(),
    {
        self.current_index
    }

    /// Whether no token is left.
    pub fn at_end(&self) -> (b: bool)
        ensures
            b == (self.position() >= self.tokens().len()),
    {
        self.current_index >= self.tokens.len()
    }

    /// The current token, which stays current; `None` where no token is left.
    pub fn peek(&self) -> (r: Option<&Token>)
        ensures
            match r {
                Some(token) => self.position() < self.tokens().len() && token@
                    == self.tokens()[self.position()].token,
                None => self.position() >= self.tokens().len(),
            },
    {
        if self.current_index < self.tokens.len() {
            Some(&self.tokens[self.current_index].token)
        } else {
            None
        }
    }

    /// The current token, which is consumed; `None` where no token is left.
    pub fn next(&mut self) -> (r: Option<SpannedToken>)
        requires
            old(self).well_formed(),
        ensures
            match r {
                Some(token) => old(self).position() < old(self).tokens().len() && token@ == old(
                    self,
                ).tokens()[old(self).position()] && final(self).moved(old(self), 1),
                None => old(self).position() >= old(self).tokens().len() && final(self).moved(
                    old(self),
                    0,
                ),
            },
    {
        if self.current_index < self.tokens.len() {
            let token = self.tokens[self.current_index].clone();
            self.current_index = self.current_index + 1;
            Some(token)
        } else {
            None
        }
    }

    /// The error of the given kind at the current token.
    fn fault(&self, kind: ErrorKind) -> (d: Diagnostic)
        ensures
            d == (Diagnostic { kind, offset: fault_offset(self.tokens(), self.position()) }),
    {
        let offset: usize = if self.current_index < self.tokens.len() {
            self.tokens[self.current_index].start
        } else if self.tokens.len() > 0 {
            self.tokens[self.tokens.len() - 1].end
        } else {
            0
        };
        Diagnostic { kind, offset }
    }

    /// Reads a literal: the current token must be an integer, a floating-point
    /// number or a quoted string, and is consumed. Otherwise nothing is consumed.
    pub fn parse_literal(&mut self) -> (r: Result<Literal, Diagnostic>)
        requires
            old(self).well_formed(),
        ensures
            match literal_at(old(self).tokens(), old(self).position(), old(self).file()) {
                Ok(literal) => r matches Ok(found) && found@ == literal && final(self).moved(
                    old(self),
                    1,
                ),
                Err(kind) => r == Err::<Literal, Diagnostic>(
                    Diagnostic {
                        kind,
                        offset: fault_offset(old(self).tokens(), old(self).position()),
                    },
                ) && final(self).moved(old(self), 0),
            },
    {
        if self.current_index >= self.tokens.len() {
            return Err(self.fault(ErrorKind::UnexpectedEOF));
        }
        let current = &self.tokens[self.current_index];
        let span = Span { file: self.file, start: current.start, end: current.end };
        let kind = match &current.token {
            Token::Int(v) => {
                if *v < i64::MIN as i128 || *v > i64::MAX as i128 {
                    return Err(self.fault(ErrorKind::NumberParseFailure));
                }
                LiteralKind::Int(*v as i64)
            },
            Token::Double(s) => LiteralKind::Double(s.clone()),
            Token::Quotedstring(s) => LiteralKind::Text(s.clone()),
            _ => {
                return Err(self.fault(ErrorKind::ExpectedLiteral));
            },
        };
        self.current_index = self.current_index + 1;
        Ok(Literal { span, kind })
    }

    /// Reads an identifier: the current token must be one, and is consumed.
    /// Otherwise nothing is consumed.
    pub fn parse_ident(&mut self) -> (r: Result<Ident, Diagnostic>)
        requires
            old(self).well_formed(),
        ensures
            if is_identifier(old(self).tokens(), old(self).position()) {
                r matches Ok(found) && found@ == identifier_at(
                    old(self).tokens(),
                    old(self).position(),
                    old(self).file(),
                ) && final(self).moved(old(self), 1)
            } else {
                r == Err::<Ident, Diagnostic>(
                    Diagnostic {
                        kind: ErrorKind::ExpectedIdentifier,
                        offset: fault_offset(old(self).tokens(), old(self).position()),
                    },
                ) && final(self).moved(old(self), 0)
            },
    {
        if self.current_index >= self.tokens.len() {
            return Err(self.fault(ErrorKind::ExpectedIdentifier));
        }
        let current = &self.tokens[self.current_index];
        let span = Span { file: self.file, start: current.start, end: current.end };
        let name = match &current.token {
            Token::Identifier(s) => s.clone(),
            _ => {
                return Err(self.fault(ErrorKind::ExpectedIdentifier));
            },
        };
        self.current_index = self.current_index + 1;
        Ok(Ident { span, name })
    }

    /// Whether the current token is a dot.
    pub fn at_dot(&self) -> (b: bool)
        ensures
            b == is_dot(self.tokens(), self.position()),
    {
        match self.peek() {
            Some(Token::Symbol(Symbol::Dot)) => true,
            _ => false,
        }
    }

    /// Reads a dotted identifier: one identifier, then, as long as a dot is
    /// current, the dot and one more identifier. On an error the identifiers
    /// and dots read so far stay consumed, and the cursor is on the token that
    /// should have been an identifier.
    pub fn parse_dotted_ident(&mut self) -> (r: Result<DottedIdent, Diagnostic>)
        requires
            old(self).well_formed(),
        ensures
            ({
                let tokens = old(self).tokens();
                let first = old(self).position();
                let pairs = dotted_pairs(tokens, first) as int;
                match dotted_at(tokens, first, old(self).file()) {
                    Some(dotted) => r matches Ok(found) && found@ == dotted && final(self).moved(
                        old(self),
                        2 * pairs + 1,
                    ),
                    None => r == Err::<DottedIdent, Diagnostic>(
                        Diagnostic {
                            kind: ErrorKind::ExpectedIdentifier,
                            offset: fault_offset(tokens, first + 2 * pairs),
                        },
                    ) && final(self).moved(old(self), 2 * pairs),
                }
            }),
    {
        let ghost tokens = self.tokens();
        let ghost first = self.position();
        let ghost file = self.file();
        let head = match self.parse_ident() {
            Ok(ident) => ident,
            Err(d) => {
                return Err(d);
            },
        };
        let first_span = head.span;
        let mut last_span = head.span;
        let mut parts: Vec<Ident> = Vec::new();
        parts.push(head);
        proof {
            assert(ident_views(parts@) =~= dotted_parts(tokens, first, file, 1));
        }
        while self.at_dot()
            invariant
                self.moved(old(self), 2 * parts.len() - 1),
                tokens == old(self).tokens(),
                first == old(self).position(),
                file == old(self).file(),
                parts.len() >= 1,
                ident_views(parts@) == dotted_parts(tokens, first, file, parts.len() as nat),
                first_span == parts@[0].span,
                last_span == parts@[parts.len() - 1].span,
                first_span.file == file,
                last_span.file == file,
                dotted_pairs(tokens, first) == (parts.len() - 1) + dotted_pairs(
                    tokens,
                    first + 2 * (parts.len() - 1),
                ),
                is_identifier(tokens, first + 2 * (parts.len() - 1)),
            decreases self.tokens().len() - self.position(),
        {
            let _ = self.next();
            let part = match self.parse_ident() {
                Ok(ident) => ident,
                Err(d) => {
                    proof {
                        let n = parts.len() as int;
                        assert(is_dot(tokens, first + 2 * (n - 1) + 1));
                        assert(dotted_pairs(tokens, first + 2 * n) == 0);
                        assert(dotted_pairs(tokens, first + 2 * (n - 1)) == 1);
                    }
                    return Err(d);
                },
            };
            last_span = part.span;
            proof {
                let n = parts.len() as nat;
                let longer = dotted_parts(tokens, first, file, n + 1);
                assert forall|k: int| 0 <= k < n + 1 implies ident_views(parts@.push(part))[k]
                    == longer[k] by {
                    if k < n {
                        assert(ident_views(parts@)[k] == dotted_parts(tokens, first, file, n)[k]);
                        assert(parts@.push(part)[k] == parts@[k]);
                    }
                }
                assert(ident_views(parts@.push(part)) =~= longer);
            }
            parts.push(part);
        }
        proof {
            let n = parts.len() as nat;
            assert(ident_views(parts@)[0] == dotted_parts(tokens, first, file, n)[0]);
            assert(ident_views(parts@)[n - 1] == dotted_parts(tokens, first, file, n)[n - 1]);
        }
        Ok(DottedIdent { span: merge(first_span, last_span), parts })
    }
}

/// The span of a dotted identifier read from ascending tokens is well formed
/// and covers each of its parts, though only the first and the last part
/// were merged.
pub proof fn lemma_dotted_span_covers_parts(
    tokens: Seq<SpannedTokenView>,
    i: int,
    file: FileId,
    k: int,
)
    requires
        ascending(tokens),
        0 <= i,
        dotted_at(tokens, i, file) is Some,
        0 <= k < dotted_at(tokens, i, file)->Some_0.parts.len(),
    ensures
        dotted_at(tokens, i, file)->Some_0.span.well_formed(),
        dotted_at(tokens, i, file)->Some_0.span.covers(
            dotted_at(tokens, i, file)->Some_0.parts[k].span,
        ),
{
    let pairs = dotted_pairs(tokens, i) as int;
    let last = i + 2 * pairs;
    let at = i + 2 * k;
    assert(is_identifier(tokens, last));
    assert(0 <= tokens[i].start <= tokens[i].end <= usize::MAX);
    assert(0 <= tokens[at].start <= tokens[at].end <= usize::MAX);
    assert(0 <= tokens[last].start <= tokens[last].end <= usize::MAX);
    if i < at {
        lemma_ascending_is_ordered(tokens, i, at);
    }
    if at < last {
        lemma_ascending_is_ordered(tokens, at, last);
    }
    if i < last {
        lemma_ascending_is_ordered(tokens, i, last);
    }
}

/// A dotted identifier read from the tokens of a source is well formed: it
/// has a part, each part has an identifier's name and a well-formed span, and
/// its span is the merge of the first and the last part's spans.
pub proof fn lemma_dotted_is_well_formed(tokens: Seq<SpannedTokenView>, i: int, file: FileId)
    requires
        ascending(tokens),
        named(tokens),
        0 <= i,
        dotted_at(tokens, i, file) is Some,
    ensures
        dotted_at(tokens, i, file)->Some_0.well_formed(),
{
    let dotted = dotted_at(tokens, i, file)->Some_0;
    let pairs = dotted_pairs(tokens, i) as int;
    assert forall|k: int| 0 <= k < dotted.parts.len() implies (#[trigger] dotted.parts[k]).well_formed() by {
        lemma_dotted_pairs_are_identifiers(tokens, i, k);
        assert(0 <= tokens[i + 2 * k].start <= tokens[i + 2 * k].end <= usize::MAX);
    }
}

/// Each of the pairs counted at `i`, and the token after the last of them if
/// it is an identifier, holds an identifier at an even distance from `i`.
pub proof fn lemma_dotted_pairs_are_identifiers(tokens: Seq<SpannedTokenView>, i: int, k: int)
    requires
        0 <= i,
        0 <= k <= dotted_pairs(tokens, i),
        is_identifier(tokens, i + 2 * dotted_pairs(tokens, i)),
    ensures
        is_identifier(tokens, i + 2 * k),
    decreases k,
{
    if k > 0 {
        lemma_dotted_pairs_are_identifiers(tokens, i + 2, k - 1);
    }
}

} // verus!
