//! Source positions: half-open byte ranges tagged with the file they lie in.

use vstd::prelude::*;

verus! {

/// Identifies one source file; spans of different files are never combined.
#[derive(Clone, Copy, Debug, PartialEq, Eq, Structural)]
pub struct FileId(pub u32);

/// The byte range `[start, end)` of a token or node within one source file.
#[derive(Clone, Copy, Debug, PartialEq, Eq, Structural)]
pub struct Span {
    pub file: FileId,
    pub start: usize,
    pub end: usize,
}

/// The smaller of two offsets.
pub open spec fn min_offset(a: usize, b: usize) -> usize {
    if a <= b { a } else { b }
}

/// The larger of two offsets.
pub open spec fn max_offset(a: usize, b: usize) -> usize {
    if a >= b { a } else { b }
}

/// The smallest span that covers both `a` and `b`.
pub open spec fn merged(a: Span, b: Span) -> Span {
    Span { file: a.file, start: min_offset(a.start, b.start), end: max_offset(a.end, b.end) }
}

impl Span {
    /// A span is well formed when its start does not lie after its end.
    pub open spec fn well_formed(self) -> bool {
        self.start <= self.end
    }

    /// Whether every byte of `other` lies within `self`, in the same file.
    pub open spec fn covers(self, other: Span) -> bool {
        self.file == other.file && self.start <= other.start && other.end <= self.end
    }

    /// The span `[start, end)` in `file`.
    pub fn new(file: FileId, start: usize, end: usize) -> (s: Span)
        ensures
            s.file == file,
            s.start == start,
            s.end == end,
    {
        Span { file, start, end }
    }

    /// The number of bytes a well-formed span covers.
    pub fn len(&self) -> (n: usize)
        requires
            self.well_formed(),
        ensures
            n == self.end - self.start,
    {
        self.end - self.start
    }
}

/// Combines two spans of one file into the smallest span covering both.
pub fn merge(a: Span, b: Span) -> (m: Span)
    requires
        a.file == b.file,
    ensures
        m == merged(a, b),
        m.file == a.file,
        m.start == min_offset(a.start, b.start),
        m.end == max_offset(a.end, b.end),
{
    let start: usize = if a.start <= b.start { a.start } else { b.start };
    let end: usize = if a.end >= b.end { a.end } else { b.end };
    Span { file: a.file, start, end }
}

/// Merging keeps well-formedness as soon as one side is well formed, and the
/// result covers both sides.
pub proof fn lemma_merge_covers(a: Span, b: Span)
    requires
        a.file == b.file,
        a.well_formed(),
        b.well_formed(),
    ensures
        merged(a, b).well_formed(),
        merged(a, b).covers(a),
        merged(a, b).covers(b),
{
}

/// Merging is the least cover: any span that covers both sides covers the merge.
pub proof fn lemma_merge_least(a: Span, b: Span, c: Span)
    requires
        a.file == b.file,
        c.covers(a),
        c.covers(b),
    ensures
        c.covers(merged(a, b)),
{
}

/// Merging does not depend on the order of its arguments, and merging a span
/// with itself gives it back.
pub proof fn lemma_merge_symmetric(a: Span, b: Span)
    requires
        a.file == b.file,
    ensures
        merged(a, b) == merged(b, a),
        merged(a, a) == a,
{
}

/// Merging left to right is associative.
pub proof fn lemma_merge_associative(a: Span, b: Span, c: Span)
    requires
        a.file == b.file,
        b.file == c.file,
    ensures
        merged(merged(a, b), c) == merged(a, merged(b, c)),
{
}

} // verus!
