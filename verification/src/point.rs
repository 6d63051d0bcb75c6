//! Points of the integer plane and their lexicographic order.

use vstd::prelude::*;

verus! {

/// A point with integer coordinates.
#[derive(Clone, Copy, PartialEq, Eq, Hash, PartialOrd, Debug, Structural)]
pub struct Point {
    pub x: isize,
    pub y: isize,
}

/// `p` comes strictly before `q` when ordered by `x`, then by `y`.
pub open spec fn lex_less(p: Point, q: Point) -> bool {
    p.x < q.x || (p.x == q.x && p.y < q.y)
}

impl Point {
    /// Tells whether this point comes strictly before `other` by `x`, then by `y`.
    pub fn precedes(&self, other: &Point) -> (r: bool)
        ensures
            r == lex_less(*self, *other),
    {
        self.x < other.x || (self.x == other.x && self.y < other.y)
    }
}

} // verus!
