//! Grid coordinates.

use vstd::prelude::*;

verus! {

/// A cell of the grid, by column and row.
#[derive(Clone, Copy, PartialEq, Eq, Structural, Debug)]
pub struct Coord {
    pub x: i32,
    pub y: i32,
}

impl Coord {
    /// The point `(x, y)`.
    pub fn new(x: i32, y: i32) -> (p: Coord)
        ensures
            p == (Coord { x, y }),
    {
        Coord { x, y }
    }

    /// Square of the straight-line distance between the two points.
    pub open spec fn distance_squared(self, other: Coord) -> int {
        (self.x - other.x) * (self.x - other.x) + (self.y - other.y) * (self.y - other.y)
    }

    /// Whether `other` lies within straight-line distance `range` of this
    /// point.  No point lies within a negative distance.
    pub open spec fn within(self, other: Coord, range: int) -> bool {
        range >= 0 && self.distance_squared(other) <= range * range
    }

    /// Decides [`Coord::within`].
    pub fn is_within(&self, other: &Coord, range: i32) -> (r: bool)
        ensures
            r == self.within(*other, range as int),
    {
        if range < 0 {
            return false;
        }
        let dx: i128 = self.x as i128 - other.x as i128;
        let dy: i128 = self.y as i128 - other.y as i128;
        let r: i128 = range as i128;
        assert(-0x1_0000_0000 <= dx <= 0x1_0000_0000);
        assert(-0x1_0000_0000 <= dy <= 0x1_0000_0000);
        assert(dx * dx <= 0x1_0000_0000_0000_0000 && dx * dx >= 0) by (nonlinear_arith)
            requires
                -0x1_0000_0000 <= dx <= 0x1_0000_0000,
        ;
        assert(dy * dy <= 0x1_0000_0000_0000_0000 && dy * dy >= 0) by (nonlinear_arith)
            requires
                -0x1_0000_0000 <= dy <= 0x1_0000_0000,
        ;
        assert(r * r <= 0x1_0000_0000_0000_0000 && r * r >= 0) by (nonlinear_arith)
            requires
                0 <= r <= 0x1_0000_0000,
        ;
        dx * dx + dy * dy <= r * r
    }
}

} // verus!
