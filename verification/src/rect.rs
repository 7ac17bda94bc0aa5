//! Source positions and the spans between them.

use crate::text::{decimal, decimal_text};
use vstd::prelude::*;
use vstd::std_specs::convert::FromSpecImpl;
use vstd::string::StringExecFns;

verus! {

/// Positions are `(line, column)` pairs, ordered by line and then by column.
pub open spec fn pos_le(a: (usize, usize), b: (usize, usize)) -> bool {
    a.0 < b.0 || (a.0 == b.0 && a.1 <= b.1)
}

/// The earlier of two positions.
pub open spec fn pos_min(a: (usize, usize), b: (usize, usize)) -> (usize, usize) {
    if pos_le(a, b) {
        a
    } else {
        b
    }
}

/// The later of two positions.
pub open spec fn pos_max(a: (usize, usize), b: (usize, usize)) -> (usize, usize) {
    if pos_le(a, b) {
        b
    } else {
        a
    }
}

/// Decides the order of two positions.
pub fn pos_before(a: (usize, usize), b: (usize, usize)) -> (r: bool)
    ensures
        r == pos_le(a, b),
{
    a.0 < b.0 || (a.0 == b.0 && a.1 <= b.1)
}

/// The span of source text that a token or a syntax node covers: the position
/// of its first character and the position of its last one. Lines and columns
/// count from 1; the default span, all zeroes, marks "nowhere".
#[derive(Clone, Copy, Debug, PartialEq, Eq, Structural, PartialOrd, Ord, Hash)]
pub struct CharRect {
    pub start_line: usize,
    pub start_column: usize,
    pub end_line: usize,
    pub end_column: usize,
}

impl CharRect {
    pub open spec fn spec_start(&self) -> (usize, usize) {
        (self.start_line, self.start_column)
    }

    pub open spec fn spec_end(&self) -> (usize, usize) {
        (self.end_line, self.end_column)
    }

    /// The span from `start` to `end`.
    pub open spec fn between(start: (usize, usize), end: (usize, usize)) -> CharRect {
        CharRect { start_line: start.0, start_column: start.1, end_line: end.0, end_column: end.1 }
    }

    /// The all-zero span.
    pub open spec fn nowhere() -> CharRect {
        CharRect { start_line: 0, start_column: 0, end_line: 0, end_column: 0 }
    }

    /// The smallest span that covers both `a` and `b`: the earlier start and
    /// the later end.
    pub open spec fn merged(a: CharRect, b: CharRect) -> CharRect {
        CharRect::between(pos_min(a.spec_start(), b.spec_start()), pos_max(a.spec_end(), b.spec_end()))
    }

    /// `self` reaches from no later than the start of `inner` to no earlier
    /// than its end.
    pub open spec fn covers(&self, inner: CharRect) -> bool {
        pos_le(self.spec_start(), inner.spec_start()) && pos_le(inner.spec_end(), self.spec_end())
    }

    /// The span from `start` to `end`.
    pub fn new(start: (usize, usize), end: (usize, usize)) -> (r: CharRect)
        ensures
            r == CharRect::between(start, end),
    {
        CharRect { start_line: start.0, start_column: start.1, end_line: end.0, end_column: end.1 }
    }

    #[verifier::when_used_as_spec(spec_start)]
    pub fn start(&self) -> (p: (usize, usize))
        ensures
            p == self.spec_start(),
    {
        (self.start_line, self.start_column)
    }

    /// The span as diagnostics print it.
    pub open spec fn text(&self) -> Seq<char> {
        "from "@ + decimal(self.start_line as nat) + ", "@ + decimal(self.start_column as nat)
            + ", to "@ + decimal(self.end_line as nat) + ", "@ + decimal(self.end_column as nat)
    }

    /// The span as diagnostics print it: `from L, C, to L, C`.
    pub fn to_string(&self) -> (text: String)
        ensures
            text@ == self.text(),
    {
        let mut text = "from ".to_owned();
        text.append(decimal_text(self.start_line).as_str());
        text.append(", ");
        text.append(decimal_text(self.start_column).as_str());
        text.append(", to ");
        text.append(decimal_text(self.end_line).as_str());
        text.append(", ");
        text.append(decimal_text(self.end_column).as_str());
        text
    }

    #[verifier::when_used_as_spec(spec_end)]
    pub fn end(&self) -> (p: (usize, usize))
        ensures
            p == self.spec_end(),
    {
        (self.end_line, self.end_column)
    }
}

impl Default for CharRect {
    fn default() -> (r: Self)
        ensures
            r == CharRect::nowhere(),
    {
        CharRect { start_line: 0, start_column: 0, end_line: 0, end_column: 0 }
    }
}

impl From<(CharRect, CharRect)> for CharRect {
    fn from(value: (CharRect, CharRect)) -> (r: Self) {
        let (a, b) = value;
        let start = if pos_before(a.start(), b.start()) {
            a.start()
        } else {
            b.start()
        };
        let end = if pos_before(a.end(), b.end()) {
            b.end()
        } else {
            a.end()
        };
        CharRect { start_line: start.0, start_column: start.1, end_line: end.0, end_column: end.1 }
    }
}

impl FromSpecImpl<(CharRect, CharRect)> for CharRect {
    open spec fn obeys_from_spec() -> bool {
        true
    }

    open spec fn from_spec(value: (CharRect, CharRect)) -> Self {
        CharRect::merged(value.0, value.1)
    }
}

/// Merging spans is associative: it does not matter how three spans are
/// bracketed.
pub proof fn lemma_merge_associative(a: CharRect, b: CharRect, c: CharRect)
    ensures
        CharRect::merged(CharRect::merged(a, b), c) == CharRect::merged(a, CharRect::merged(b, c)),
{
}

/// A merged span covers both of the spans it was made from.
pub proof fn lemma_merge_covers(a: CharRect, b: CharRect)
    ensures
        CharRect::merged(a, b).covers(a),
        CharRect::merged(a, b).covers(b),
{
}

} // verus!
