use vstd::prelude::*;

verus! {

/// A position in a line-array buffer: `c` characters into line `r`.
///
/// Points are ordered by row first, then by column.
#[derive(Clone, Copy, Debug, PartialEq, Eq, Structural, Ord)]
pub struct Point {
    pub r: usize,
    pub c: usize,
}

/// `a` comes strictly before `b`: an earlier row, or the same row and an
/// earlier column.
pub open spec fn point_lt(a: Point, b: Point) -> bool {
    a.r < b.r || (a.r == b.r && a.c < b.c)
}

/// The ordering of two points, as `Point::partial_cmp` reports it.
pub open spec fn point_cmp(a: Point, b: Point) -> core::cmp::Ordering {
    if point_lt(a, b) {
        core::cmp::Ordering::Less
    } else if a == b {
        core::cmp::Ordering::Equal
    } else {
        core::cmp::Ordering::Greater
    }
}

impl Point {
    pub fn new(r: usize, c: usize) -> (p: Point)
        ensures
            p.r == r,
            p.c == c,
    {
        Point { r, c }
    }

    /// Whether `self` comes strictly before `other`.
    pub fn before(&self, other: &Point) -> (b: bool)
        ensures
            b == point_lt(*self, *other),
    {
        self.r < other.r || (self.r == other.r && self.c < other.c)
    }
}

impl PartialOrd for Point {
    fn partial_cmp(&self, other: &Point) -> (o: Option<core::cmp::Ordering>)
        ensures
            o == Some(point_cmp(*self, *other)),
    {
        if self.before(other) {
            Some(core::cmp::Ordering::Less)
        } else if self.r == other.r && self.c == other.c {
            Some(core::cmp::Ordering::Equal)
        } else {
            Some(core::cmp::Ordering::Greater)
        }
    }
}

impl vstd::std_specs::cmp::PartialOrdSpecImpl for Point {
    open spec fn obeys_partial_cmp_spec() -> bool {
        true
    }

    open spec fn partial_cmp_spec(&self, other: &Point) -> Option<core::cmp::Ordering> {
        Some(point_cmp(*self, *other))
    }
}

} // verus!
