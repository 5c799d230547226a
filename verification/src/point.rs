use vstd::prelude::*;

verus! {

/// Represents a point in cartesian space, typically a location within a level.
#[derive(Clone, Copy, Debug, PartialEq, Eq, Structural, Hash)]
pub struct Point {
    pub x: i32,
    pub y: i32,
}

/// Squared euclidean distance between two points, over the integers.
pub open spec fn spec_distance2(a: Point, b: Point) -> int {
    (a.x - b.x) * (a.x - b.x) + (a.y - b.y) * (a.y - b.y)
}

impl Point {
    pub fn new(x: i32, y: i32) -> (p: Point)
        ensures
            p.x == x,
            p.y == y,
    {
        Point { x, y }
    }

    /// top-left
    pub fn origin() -> (p: Point)
        ensures
            p.x == 0,
            p.y == 0,
    {
        Point { x: 0, y: 0 }
    }

    /// distance squared between two points
    pub fn distance2(&self, rhs: &Point) -> (d: i32)
        requires
            i32::MIN <= self.x - rhs.x <= i32::MAX,
            i32::MIN <= self.y - rhs.y <= i32::MAX,
            spec_distance2(*self, *rhs) <= i32::MAX,
        ensures
            d == spec_distance2(*self, *rhs),
    {
        let dx = self.x - rhs.x;
        let dy = self.y - rhs.y;
        assert(0 <= dx * dx) by (nonlinear_arith);
        assert(0 <= dy * dy) by (nonlinear_arith);
        dx * dx + dy * dy
    }
}

} // verus!
