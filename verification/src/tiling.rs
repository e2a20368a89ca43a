//! What holds of the tokens of every source: they tile it, in order and
//! without gaps other than trivia, and each is read off the characters that
//! its span covers.

use vstd::prelude::*;
use vstd::utf8::{encode_utf8, is_char_boundary};
use crate::classify::{
    byte_offset, is_identifier_name, lemma_byte_offset_grows, lemma_byte_offset_is_char_boundary,
    lemma_bytes_between_offsets,
};
use crate::cursor::addressable;
use crate::lexer::{
    lemma_ident_end_bounds, lemma_token_advances, lex, lexeme_after, spanned, token_at,
    tokenized, Lexeme,
};
use crate::token::{ascending, named, Diagnostic, ErrorKind, SpannedTokenView, TokenView};
use crate::trivia::{
    lemma_only_trivia_is_skipped, lemma_trivia_end_bounds, only_trivia, trivia_end,
};

verus! {

/// Whether `lexemes` tile the text from `i` on: each starts exactly where the
/// trivia after its predecessor ends, holds at least one character, and
/// nothing but trivia follows the last.
pub open spec fn tiles(text: Seq<char>, i: int, lexemes: Seq<Lexeme>) -> bool
    decreases lexemes.len(),
{
    if lexemes.len() == 0 {
        trivia_end(text, i) == text.len()
    } else {
        &&& lexemes[0].first == trivia_end(text, i)
        &&& lexemes[0].first < lexemes[0].after <= text.len()
        &&& tiles(text, lexemes[0].after, lexemes.drop_first())
    }
}

/// A lexeme starts at or after the place from which it was looked for, holds
/// at least one character and ends within the text.
pub proof fn lemma_lexeme_advances(text: Seq<char>, i: int)
    requires
        0 <= i <= text.len(),
        lexeme_after(text, i) matches Ok(Some(_)),
    ensures
        ({
            let l = lexeme_after(text, i)->Ok_0->Some_0;
            i <= l.first < l.after <= text.len() && l.first == trivia_end(text, i)
        }),
{
    lemma_trivia_end_bounds(text, i);
    lemma_token_advances(text, trivia_end(text, i));
}

/// A source that holds nothing but whitespace and comments has no tokens.
pub proof fn lemma_only_trivia_has_no_tokens(text: Seq<char>)
    requires
        only_trivia(text, 0),
    ensures
        lex(text, 0) == Ok::<Seq<Lexeme>, (ErrorKind, int)>(Seq::empty()),
        tokenized(text) == Ok::<Seq<SpannedTokenView>, Diagnostic>(Seq::empty()),
{
    lemma_only_trivia_is_skipped(text, 0);
    assert(Seq::new(0, |k: int| spanned(text, Seq::<Lexeme>::empty()[k])) =~= Seq::<
        SpannedTokenView,
    >::empty());
}

/// The tokens of a source tile it: read in order, the characters that the
/// tokens cover are the source with each stretch of trivia taken out once.
/// No character is covered twice, and none outside trivia is left out.
pub proof fn lemma_lexemes_tile_source(text: Seq<char>, i: int)
    requires
        0 <= i <= text.len(),
        lex(text, i) is Ok,
    ensures
        tiles(text, i, lex(text, i)->Ok_0),
    decreases text.len() - i,
{
    lemma_trivia_end_bounds(text, i);
    match lexeme_after(text, i) {
        Ok(Some(l)) => {
            lemma_lexeme_advances(text, i);
            lemma_lexemes_tile_source(text, l.after);
            let rest = lex(text, l.after)->Ok_0;
            assert((seq![l] + rest).drop_first() =~= rest);
        },
        _ => {},
    }
}

/// The spans of the tokens of a source lie in its bytes, each holds at least
/// one byte, and each ends at or before the start of the next.
pub proof fn lemma_lexemes_in_order(text: Seq<char>, i: int)
    requires
        0 <= i <= text.len(),
        lex(text, i) is Ok,
    ensures
        forall|k: int|
            0 <= k < lex(text, i)->Ok_0.len() ==> {
                let l = #[trigger] lex(text, i)->Ok_0[k];
                i <= l.first < l.after <= text.len()
            },
        forall|k: int|
            0 <= k && k + 1 < lex(text, i)->Ok_0.len() ==> (#[trigger] lex(text, i)->Ok_0[k]).after
                <= lex(text, i)->Ok_0[k + 1].first,
    decreases text.len() - i,
{
    match lexeme_after(text, i) {
        Ok(Some(l)) => {
            lemma_lexeme_advances(text, i);
            lemma_lexemes_in_order(text, l.after);
            let rest = lex(text, l.after)->Ok_0;
            let all = lex(text, i)->Ok_0;
            assert(all =~= seq![l] + rest);
            assert forall|k: int| 0 <= k < all.len() implies ({
                let m = #[trigger] all[k];
                i <= m.first < m.after <= text.len()
            }) by {
                if k > 0 {
                    assert(all[k] == rest[k - 1]);
                }
            }
            assert forall|k: int| 0 <= k && k + 1 < all.len() implies (#[trigger] all[k]).after
                <= all[k + 1].first by {
                assert(all[k + 1] == rest[k]);
                if k > 0 {
                    assert(all[k] == rest[k - 1]);
                }
            }
        },
        _ => {},
    }
}

/// Byte spans follow character positions: the tokens of a source have spans
/// of at least one byte that lie within the source's bytes in ascending order.
pub proof fn lemma_token_spans_in_order(text: Seq<char>)
    requires
        tokenized(text) is Ok,
    ensures
        forall|k: int|
            0 <= k < tokenized(text)->Ok_0.len() ==> {
                let t = #[trigger] tokenized(text)->Ok_0[k];
                0 <= t.start < t.end <= byte_offset(text, text.len() as int)
            },
        forall|k: int|
            0 <= k && k + 1 < tokenized(text)->Ok_0.len() ==> (#[trigger] tokenized(
                text,
            )->Ok_0[k]).end <= tokenized(text)->Ok_0[k + 1].start,
{
    lemma_lexemes_in_order(text, 0);
    let ls = lex(text, 0)->Ok_0;
    let ts = tokenized(text)->Ok_0;
    assert forall|k: int| 0 <= k < ts.len() implies ({
        let t = #[trigger] ts[k];
        0 <= t.start < t.end <= byte_offset(text, text.len() as int)
    }) by {
        let l = ls[k];
        lemma_byte_offset_grows(text, l.first, l.after);
        lemma_byte_offset_grows(text, l.after, text.len() as int);
    }
    assert forall|k: int| 0 <= k && k + 1 < ts.len() implies (#[trigger] ts[k]).end <= ts[k
        + 1].start by {
        let l = ls[k];
        let m = ls[k + 1];
        lemma_byte_offset_grows(text, l.after, m.first);
    }
}

/// Every lexeme is the token that stands where it starts: its kind, its value
/// and its end are read off the characters from there on.
pub proof fn lemma_lexemes_read_source(text: Seq<char>, i: int)
    requires
        0 <= i <= text.len(),
        lex(text, i) is Ok,
    ensures
        forall|k: int|
            0 <= k < lex(text, i)->Ok_0.len() ==> {
                let l = #[trigger] lex(text, i)->Ok_0[k];
                token_at(text, l.first) == Ok::<(TokenView, int), ErrorKind>((l.token, l.after))
            },
    decreases text.len() - i,
{
    match lexeme_after(text, i) {
        Ok(Some(l)) => {
            lemma_lexeme_advances(text, i);
            lemma_lexemes_read_source(text, l.after);
            let rest = lex(text, l.after)->Ok_0;
            let all = lex(text, i)->Ok_0;
            assert(all =~= seq![l] + rest);
            assert forall|k: int| 0 <= k < all.len() implies ({
                let m = #[trigger] all[k];
                token_at(text, m.first) == Ok::<(TokenView, int), ErrorKind>((m.token, m.after))
            }) by {
                if k > 0 {
                    assert(all[k] == rest[k - 1]);
                }
            }
        },
        _ => {},
    }
}

/// The text of an identifier token is never empty and opens with an
/// alphabetic character or an underscore, never with a digit.
pub proof fn lemma_identifier_token_is_name(text: Seq<char>, i: int)
    requires
        0 <= i <= text.len(),
        token_at(text, i) is Ok,
        token_at(text, i)->Ok_0.0 is Identifier,
    ensures
        is_identifier_name(token_at(text, i)->Ok_0.0->Identifier_0),
        token_at(text, i)->Ok_0.0->Identifier_0 == text.subrange(i, token_at(text, i)->Ok_0.1),
{
    lemma_ident_end_bounds(text, i + 1);
}

/// Every identifier among the tokens of a source has a name that an
/// identifier can have.
pub proof fn lemma_identifier_tokens_are_names(text: Seq<char>)
    requires
        tokenized(text) is Ok,
    ensures
        forall|k: int|
            0 <= k < tokenized(text)->Ok_0.len() && (#[trigger] tokenized(
                text,
            )->Ok_0[k]).token is Identifier ==> is_identifier_name(
                tokenized(text)->Ok_0[k].token->Identifier_0,
            ),
{
    lemma_lexemes_read_source(text, 0);
    lemma_lexemes_in_order(text, 0);
    let ls = lex(text, 0)->Ok_0;
    let ts = tokenized(text)->Ok_0;
    assert forall|k: int| 0 <= k < ts.len() && (#[trigger] ts[k]).token is Identifier implies is_identifier_name(
    ts[k].token->Identifier_0) by {
        let l = ls[k];
        lemma_identifier_token_is_name(text, l.first);
    }
}

/// The bytes that a token's span covers in the UTF-8 source are the encoding
/// of the characters of its lexeme, and the span starts and ends at character
/// boundaries, so the source can be sliced by it.
pub proof fn lemma_span_holds_lexeme(text: Seq<char>, k: int)
    requires
        lex(text, 0) is Ok,
        0 <= k < lex(text, 0)->Ok_0.len(),
    ensures
        ({
            let l = lex(text, 0)->Ok_0[k];
            let t = spanned(text, l);
            &&& 0 <= l.first < l.after <= text.len()
            &&& 0 <= t.start < t.end <= encode_utf8(text).len()
            &&& encode_utf8(text).subrange(t.start, t.end) == encode_utf8(
                text.subrange(l.first, l.after),
            )
            &&& is_char_boundary(encode_utf8(text), t.start)
            &&& is_char_boundary(encode_utf8(text), t.end)
        }),
{
    lemma_lexemes_in_order(text, 0);
    let l = lex(text, 0)->Ok_0[k];
    lemma_bytes_between_offsets(text, l.first, l.after);
    lemma_byte_offset_grows(text, l.first, l.after);
    lemma_byte_offset_is_char_boundary(text, l.first);
    lemma_byte_offset_is_char_boundary(text, l.after);
}

/// The tokens of a source are ascending, and its identifiers have names that
/// identifiers can have: the parser's productions may rely on both.
pub proof fn lemma_tokenized_is_ascending(text: Seq<char>)
    requires
        addressable(text),
        tokenized(text) is Ok,
    ensures
        ascending(tokenized(text)->Ok_0),
        named(tokenized(text)->Ok_0),
{
    lemma_token_spans_in_order(text);
    lemma_identifier_tokens_are_names(text);
}

/// The text from `i` on as the lexemes cut it up: before each lexeme the
/// stretch that was skipped, then the characters of the lexeme, and after
/// the last lexeme the rest.
pub open spec fn rebuilt(text: Seq<char>, i: int, lexemes: Seq<Lexeme>) -> Seq<char>
    decreases lexemes.len(),
{
    if lexemes.len() == 0 {
        text.subrange(i, text.len() as int)
    } else {
        text.subrange(i, lexemes[0].first) + text.subrange(lexemes[0].first, lexemes[0].after)
            + rebuilt(text, lexemes[0].after, lexemes.drop_first())
    }
}

/// Putting the skipped stretches back between the characters that the tokens
/// cover gives the source again: with `lemma_lexemes_tile_source`, which says
/// that each stretch is exactly the trivia found there, the covered
/// characters in order are the source without its trivia.
pub proof fn lemma_lexemes_rebuild_source(text: Seq<char>, i: int)
    requires
        0 <= i <= text.len(),
        lex(text, i) is Ok,
    ensures
        rebuilt(text, i, lex(text, i)->Ok_0) == text.subrange(i, text.len() as int),
    decreases text.len() - i,
{
    match lexeme_after(text, i) {
        Ok(Some(l)) => {
            lemma_lexeme_advances(text, i);
            lemma_lexemes_rebuild_source(text, l.after);
            let rest = lex(text, l.after)->Ok_0;
            let all = lex(text, i)->Ok_0;
            assert(all =~= seq![l] + rest);
            assert(all.drop_first() =~= rest);
            assert(all[0] == l);
            assert(text.subrange(i, l.first) + text.subrange(l.first, l.after) + text.subrange(
                l.after,
                text.len() as int,
            ) =~= text.subrange(i, text.len() as int));
        },
        _ => {},
    }
}

} // verus!
