//! Common types used by libslide.
use vstd::prelude::*;

verus! {

/// Describes the character span of a substring in a text.
///
/// For example, in "abcdef", "bcd" has the span (1, 4).
#[derive(PartialEq, Eq, Structural, Copy, Clone, Debug, Hash, PartialOrd, Ord)]
pub struct Span {
    /// Inclusive lower bound index of the span, in terms of number of chars
    pub lo: usize,
    /// Exclusive upper bound index of the span, in terms of number of chars
    pub hi: usize,
}

impl Span {
    /// The span from the start of `self` to the end of `other`.
    pub fn to(&self, other: Span) -> (r: Span)
        ensures
            r.lo == self.lo,
            r.hi == other.hi,
    {
        Span { lo: self.lo, hi: other.hi }
    }

    /// The part of `content` that the span covers, counted in chars; a span reaching past the
    /// end of `content` stops at its end.
    pub fn over<'a>(&self, content: &'a str) -> (r: &'a str)
        requires
            self.lo < content@.len(),
            self.lo <= self.hi,
        ensures
            r@ == content@.subrange(
                self.lo as int,
                if self.hi <= content@.len() {
                    self.hi as int
                } else {
                    content@.len() as int
                },
            ),
    {
        let n = content.unicode_len();
        let hi = if self.hi <= n {
            self.hi
        } else {
            n
        };
        content.substring_char(self.lo, hi)
    }

    /// The span with the bounds of a pair `(lo, hi)`.
    pub fn from_pair(span: (usize, usize)) -> (r: Span)
        ensures
            r.lo == span.0,
            r.hi == span.1,
    {
        Span { lo: span.0, hi: span.1 }
    }

    /// The bounds of the span as a pair `(lo, hi)`.
    pub fn to_pair(self) -> (r: (usize, usize))
        ensures
            r == (self.lo, self.hi),
    {
        (self.lo, self.hi)
    }
}

impl From<(usize, usize)> for Span {
    fn from(span: (usize, usize)) -> (r: Span) {
        Span { lo: span.0, hi: span.1 }
    }
}

impl vstd::std_specs::convert::FromSpecImpl<(usize, usize)> for Span {
    open spec fn obeys_from_spec() -> bool {
        true
    }

    open spec fn from_spec(span: (usize, usize)) -> Span {
        Span { lo: span.0, hi: span.1 }
    }
}

/// Context to use across a slide program.
#[derive(Copy, Clone)]
pub struct ProgramContext {
    /// Precision (in bits) for floating-point parsing of constants.
    pub prec: u32,
}

impl Default for ProgramContext {
    /// Only to be used in situations where the program context is irrelevant; i.e. expressions are
    /// being used outside of the primary program.
    fn default() -> (r: Self)
        ensures
            r.prec == 200,
    {
        Self { prec: 200 }
    }
}

impl ProgramContext {
    /// Creates a new `ProgramContext`.
    pub fn new(prec: u32) -> (r: Self)
        ensures
            r.prec == prec,
    {
        Self { prec }
    }
}

} // verus!
