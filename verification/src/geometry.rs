//! Integer grid coordinates.

use vstd::prelude::*;

verus! {

/// A 2D integer point, the coordinate unit of the whole engine.
#[derive(Clone, Copy, Debug, PartialEq, Eq, Structural)]
pub struct Point {
    pub x: i32,
    pub y: i32,
}

impl Point {
    /// The origin.
    pub fn zero() -> (r: Point)
        ensures
            r.x == 0,
            r.y == 0,
    {
        Point { x: 0, y: 0 }
    }

    /// Componentwise addition.
    pub fn plus(self, rhs: Point) -> (r: Point)
        requires
            i32::MIN <= self.x + rhs.x <= i32::MAX,
            i32::MIN <= self.y + rhs.y <= i32::MAX,
        ensures
            r.x == self.x + rhs.x,
            r.y == self.y + rhs.y,
    {
        Point { x: self.x + rhs.x, y: self.y + rhs.y }
    }
}

} // verus!
