//! Trivia: the whitespace and comments that lie between tokens.
//!
//! A comment opens with `/#`. If a `#/` follows anywhere in the rest of the
//! text, the comment is a block comment and ends with the first such `#/`.
//! Otherwise it is a line comment and ends before the next newline, or at the
//! end of the text where no newline follows; an opener that is never closed
//! is therefore read as a line comment, never as an error.

use vstd::prelude::*;
use crate::classify::{unicode_whitespace, whitespace};
use crate::cursor::{addressable, Cursor};

verus! {

/// The end of the maximal run of whitespace that starts at `i`.
pub open spec fn whitespace_end(text: Seq<char>, i: int) -> int
    decreases text.len() - i,
{
    if 0 <= i < text.len() && unicode_whitespace(text[i]) {
        whitespace_end(text, i + 1)
    } else {
        i
    }
}

/// Whether the comment opener `/#` stands at `i`.
pub open spec fn comment_opens(text: Seq<char>, i: int) -> bool {
    0 <= i && i + 1 < text.len() && text[i] == '/' && text[i + 1] == '#'
}

/// Whether the block closer `#/` stands at `k`.
pub open spec fn comment_closes(text: Seq<char>, k: int) -> bool {
    0 <= k && k + 1 < text.len() && text[k] == '#' && text[k + 1] == '/'
}

/// The first position at or after `k` where `#/` stands, or the length of the
/// text where none does.
pub open spec fn close_from(text: Seq<char>, k: int) -> int
    decreases text.len() - k,
{
    if k >= text.len() {
        text.len() as int
    } else if comment_closes(text, k) {
        k
    } else {
        close_from(text, k + 1)
    }
}

/// The first position at or after `k` where a newline stands, or the length of
/// the text where none does.
pub open spec fn newline_from(text: Seq<char>, k: int) -> int
    decreases text.len() - k,
{
    if k >= text.len() {
        text.len() as int
    } else if 0 <= k && text[k] == '\n' {
        k
    } else {
        newline_from(text, k + 1)
    }
}

/// Where the comment that opens at `i` ends; `i` itself where none opens there.
pub open spec fn comment_end(text: Seq<char>, i: int) -> int {
    if !comment_opens(text, i) {
        i
    } else if close_from(text, i + 2) < text.len() {
        close_from(text, i + 2) + 2
    } else {
        newline_from(text, i + 2)
    }
}

/// One round of skipping: a run of whitespace, then one comment.
pub open spec fn trivia_step(text: Seq<char>, i: int) -> int {
    comment_end(text, whitespace_end(text, i))
}

/// Where the trivia that starts at `i` ends: rounds of skipping are repeated
/// until one removes nothing.
pub open spec fn trivia_end(text: Seq<char>, i: int) -> int
    decreases text.len() - i,
{
    if i < trivia_step(text, i) <= text.len() {
        trivia_end(text, trivia_step(text, i))
    } else {
        i
    }
}

/// Whether the text from `i` on holds nothing but whitespace and comments.
pub open spec fn only_trivia(text: Seq<char>, i: int) -> bool
    decreases text.len() - i,
{
    if i < 0 || i >= text.len() {
        true
    } else if unicode_whitespace(text[i]) {
        only_trivia(text, i + 1)
    } else if comment_opens(text, i) && i < comment_end(text, i) <= text.len() {
        only_trivia(text, comment_end(text, i))
    } else {
        false
    }
}

/// A run of whitespace ends at or after its start and within the text.
pub proof fn lemma_whitespace_end_bounds(text: Seq<char>, i: int)
    requires
        0 <= i <= text.len(),
    ensures
        i <= whitespace_end(text, i) <= text.len(),
        whitespace_end(text, i) < text.len() ==> !unicode_whitespace(
            text[whitespace_end(text, i)],
        ),
    decreases text.len() - i,
{
    if i < text.len() && unicode_whitespace(text[i]) {
        lemma_whitespace_end_bounds(text, i + 1);
    }
}

/// The search for `#/` ends at or after its start and within the text, and
/// where it ends before the end of the text, `#/` stands there.
pub proof fn lemma_close_from_bounds(text: Seq<char>, k: int)
    requires
        0 <= k <= text.len(),
    ensures
        k <= close_from(text, k) <= text.len(),
        close_from(text, k) < text.len() ==> comment_closes(text, close_from(text, k)),
    decreases text.len() - k,
{
    if k < text.len() && !comment_closes(text, k) {
        lemma_close_from_bounds(text, k + 1);
    }
}

/// The search for a newline ends at or after its start and within the text,
/// and where it ends before the end of the text, a newline stands there.
pub proof fn lemma_newline_from_bounds(text: Seq<char>, k: int)
    requires
        0 <= k <= text.len(),
    ensures
        k <= newline_from(text, k) <= text.len(),
        newline_from(text, k) < text.len() ==> text[newline_from(text, k)] == '\n',
    decreases text.len() - k,
{
    if k < text.len() && text[k] != '\n' {
        lemma_newline_from_bounds(text, k + 1);
    }
}

/// Every character of a run of whitespace is whitespace.
pub proof fn lemma_whitespace_end_is_run(text: Seq<char>, i: int, k: int)
    requires
        0 <= i <= k < whitespace_end(text, i),
    ensures
        k < text.len(),
        unicode_whitespace(text[k]),
    decreases k - i,
{
    if i < k {
        lemma_whitespace_end_is_run(text, i + 1, k);
    }
}

/// No `#/` stands before the place where the search for one ends.
pub proof fn lemma_close_from_is_first(text: Seq<char>, k: int, j: int)
    requires
        0 <= k <= j < close_from(text, k),
    ensures
        !comment_closes(text, j),
    decreases j - k,
{
    if k < j {
        lemma_close_from_is_first(text, k + 1, j);
    }
}

/// No newline stands before the place where the search for one ends.
pub proof fn lemma_newline_from_is_first(text: Seq<char>, k: int, j: int)
    requires
        0 <= k <= j < newline_from(text, k),
    ensures
        j < text.len(),
        text[j] != '\n',
    decreases j - k,
{
    if k < j {
        lemma_newline_from_is_first(text, k + 1, j);
    }
}

/// A comment ends within the text, and at least two characters after the
/// place where it opens.
pub proof fn lemma_comment_end_bounds(text: Seq<char>, i: int)
    requires
        0 <= i <= text.len(),
    ensures
        i <= comment_end(text, i) <= text.len(),
        comment_opens(text, i) ==> i + 2 <= comment_end(text, i),
{
    if comment_opens(text, i) {
        lemma_close_from_bounds(text, i + 2);
        lemma_newline_from_bounds(text, i + 2);
    }
}

/// Trivia ends at or after its start and within the text, and neither
/// whitespace nor a comment stands where it ends.
pub proof fn lemma_trivia_end_bounds(text: Seq<char>, i: int)
    requires
        0 <= i <= text.len(),
    ensures
        i <= trivia_end(text, i) <= text.len(),
        trivia_end(text, i) < text.len() ==> !unicode_whitespace(text[trivia_end(text, i)]),
        !comment_opens(text, trivia_end(text, i)),
    decreases text.len() - i,
{
    let j = trivia_step(text, i);
    lemma_whitespace_end_bounds(text, i);
    lemma_comment_end_bounds(text, whitespace_end(text, i));
    if i < j {
        lemma_trivia_end_bounds(text, j);
    }
}

/// Skipping trivia where trivia was just skipped removes nothing further.
pub proof fn lemma_trivia_end_idempotent(text: Seq<char>, i: int)
    requires
        0 <= i <= text.len(),
    ensures
        trivia_end(text, trivia_end(text, i)) == trivia_end(text, i),
    decreases text.len() - i,
{
    let j = trivia_step(text, i);
    if i < j <= text.len() {
        lemma_whitespace_end_bounds(text, i);
        lemma_trivia_end_idempotent(text, j);
    }
}

/// A text that from `i` on holds nothing but whitespace and comments is all
/// trivia: skipping from `i` reaches its end.
pub proof fn lemma_only_trivia_is_skipped(text: Seq<char>, i: int)
    requires
        0 <= i <= text.len(),
        only_trivia(text, i),
    ensures
        trivia_end(text, i) == text.len(),
    decreases text.len() - i,
{
    if i < text.len() {
        lemma_whitespace_end_bounds(text, i);
        lemma_comment_end_bounds(text, whitespace_end(text, i));
        let j = trivia_step(text, i);
        if unicode_whitespace(text[i]) {
            lemma_only_trivia_is_skipped(text, i + 1);
            lemma_whitespace_end_bounds(text, i + 1);
            assert(trivia_step(text, i + 1) == j);
            assert(trivia_end(text, i) == trivia_end(text, j));
            if i + 1 < j {
                assert(trivia_end(text, i + 1) == trivia_end(text, j));
            } else {
                assert(j == i + 1);
            }
        } else {
            assert(whitespace_end(text, i) == i);
            lemma_only_trivia_is_skipped(text, j);
        }
    }
}

/// Skips the maximal run of whitespace at the cursor.
pub fn skip_whitespace(src: &[char], at: Cursor) -> (r: Cursor)
    requires
        at.within(src@),
        addressable(src@),
    ensures
        r.within(src@),
        r.index == whitespace_end(src@, at.index as int),
{
    let mut cur = at;
    while cur.index < src.len() && whitespace(src[cur.index])
        invariant
            cur.within(src@),
            addressable(src@),
            whitespace_end(src@, cur.index as int) == whitespace_end(src@, at.index as int),
        decreases src.len() - cur.index,
    {
        cur = cur.advance(src);
    }
    cur
}

/// Finds the first `#/` at or after the cursor; stops at the end of the text
/// where there is none.
pub fn find_close(src: &[char], from: Cursor) -> (r: Cursor)
    requires
        from.within(src@),
        addressable(src@),
    ensures
        r.within(src@),
        r.index == close_from(src@, from.index as int),
{
    let mut cur = from;
    while cur.index < src.len() && !(src[cur.index] == '#' && cur.index + 1 < src.len() && src[cur.index + 1] == '/')
        invariant
            cur.within(src@),
            addressable(src@),
            close_from(src@, cur.index as int) == close_from(src@, from.index as int),
        decreases src.len() - cur.index,
    {
        cur = cur.advance(src);
    }
    cur
}

/// Finds the first newline at or after the cursor; stops at the end of the
/// text where there is none.
pub fn find_newline(src: &[char], from: Cursor) -> (r: Cursor)
    requires
        from.within(src@),
        addressable(src@),
    ensures
        r.within(src@),
        r.index == newline_from(src@, from.index as int),
{
    let mut cur = from;
    while cur.index < src.len() && src[cur.index] != '\n'
        invariant
            cur.within(src@),
            addressable(src@),
            newline_from(src@, cur.index as int) == newline_from(src@, from.index as int),
        decreases src.len() - cur.index,
    {
        cur = cur.advance(src);
    }
    cur
}

/// Skips the comment that opens at the cursor, if one does.
pub fn skip_comment(src: &[char], at: Cursor) -> (r: Cursor)
    requires
        at.within(src@),
        addressable(src@),
    ensures
        r.within(src@),
        r.index == comment_end(src@, at.index as int),
{
    if at.index < src.len() && at.index + 1 < src.len() && src[at.index] == '/' && src[at.index
        + 1] == '#' {
        let body = at.advance(src).advance(src);
        let close = find_close(src, body);
        if close.index < src.len() {
            proof {
                lemma_close_from_bounds(src@, body.index as int);
            }
            close.advance(src).advance(src)
        } else {
            find_newline(src, body)
        }
    } else {
        at
    }
}

/// Skips all trivia at the cursor: whitespace and comments in turn, until
/// neither removes anything.
pub fn skip_trivia(src: &[char], at: Cursor) -> (r: Cursor)
    requires
        at.within(src@),
        addressable(src@),
    ensures
        r.within(src@),
        r.index == trivia_end(src@, at.index as int),
        at.index <= r.index,
        r.index < src@.len() ==> !unicode_whitespace(src@[r.index as int]),
        !comment_opens(src@, r.index as int),
        trivia_end(src@, r.index as int) == r.index,
{
    proof {
        lemma_trivia_end_bounds(src@, at.index as int);
        lemma_trivia_end_idempotent(src@, at.index as int);
    }
    let mut cur = at;
    loop
        invariant
            cur.within(src@),
            addressable(src@),
            trivia_end(src@, cur.index as int) == trivia_end(src@, at.index as int),
        ensures
            cur.within(src@),
            cur.index == trivia_end(src@, at.index as int),
        decreases src.len() - cur.index,
    {
        let spaced = skip_whitespace(src, cur);
        let next = skip_comment(src, spaced);
        if next.index > cur.index {
            cur = next;
        } else {
            break ;
        }
    }
    cur
}

} // verus!
