use vstd::prelude::*;

verus! {

/// Byte-offset range in source text with line/column information.
#[derive(Debug, Clone, Copy, PartialEq, Eq, Structural)]
pub struct Span {
    pub start: usize,
    pub end: usize,
    pub line: u32,
    pub col: u32,
}

pub open spec fn min_nat(a: int, b: int) -> int {
    if a <= b { a } else { b }
}

pub open spec fn max_nat(a: int, b: int) -> int {
    if a >= b { a } else { b }
}

/// The span covering both `a` and `b`: outer byte bounds, the earlier line,
/// and the column that belongs to the earlier line (the smaller one on a tie).
pub open spec fn spec_merge(a: Span, b: Span) -> Span {
    Span {
        start: min_nat(a.start as int, b.start as int) as usize,
        end: max_nat(a.end as int, b.end as int) as usize,
        line: min_nat(a.line as int, b.line as int) as u32,
        col: if a.line < b.line {
            a.col
        } else if a.line > b.line {
            b.col
        } else {
            min_nat(a.col as int, b.col as int) as u32
        },
    }
}

impl Span {
    pub fn new(start: usize, end: usize, line: u32, col: u32) -> (s: Span)
        ensures
            s == (Span { start, end, line, col }),
    {
        Span { start, end, line, col }
    }

    pub fn dummy() -> (s: Span)
        ensures
            s == (Span { start: 0, end: 0, line: 0, col: 0 }),
    {
        Span { start: 0, end: 0, line: 0, col: 0 }
    }

    pub fn merge(self, other: Span) -> (s: Span)
        ensures
            s == spec_merge(self, other),
    {
        let start = if self.start <= other.start { self.start } else { other.start };
        let end = if self.end >= other.end { self.end } else { other.end };
        let line = if self.line <= other.line { self.line } else { other.line };
        let col = if self.line < other.line {
            self.col
        } else if self.line > other.line {
            other.col
        } else if self.col <= other.col {
            self.col
        } else {
            other.col
        };
        Span { start, end, line, col }
    }

    /// Number of bytes covered: `end - start`, defined for spans that do
    /// not end before they start.
    pub fn len(&self) -> (n: usize)
        requires
            self.start <= self.end,
        ensures
            n == self.end - self.start,
    {
        self.end - self.start
    }
}

/// Merging is commutative.
pub proof fn lemma_merge_commutative(a: Span, b: Span)
    ensures
        spec_merge(a, b) == spec_merge(b, a),
{
}

/// Merging a span with itself gives it back.
pub proof fn lemma_merge_idempotent(a: Span)
    ensures
        spec_merge(a, a) == a,
{
}

/// Merging is associative.
pub proof fn lemma_merge_associative(a: Span, b: Span, c: Span)
    ensures
        spec_merge(spec_merge(a, b), c) == spec_merge(a, spec_merge(b, c)),
{
}

/// The merged span encloses both inputs: it starts no later and ends no earlier.
pub proof fn lemma_merge_encloses(a: Span, b: Span)
    ensures
        spec_merge(a, b).start <= a.start,
        spec_merge(a, b).start <= b.start,
        spec_merge(a, b).end >= a.end,
        spec_merge(a, b).end >= b.end,
        spec_merge(a, b).line <= a.line,
        spec_merge(a, b).line <= b.line,
{
}

} // verus!
