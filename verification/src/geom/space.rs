//! Integer coordinates in three dimensions.
use vstd::prelude::*;

verus! {

#[derive(Debug, Clone, Copy, PartialEq, Eq, Structural)]
pub struct Coordinate3 {
    pub x: i64,
    pub y: i64,
    pub z: i64,
}

pub open spec fn abs_int(a: int) -> int {
    if a < 0 {
        -a
    } else {
        a
    }
}

/// The taxicab distance between two points.
pub open spec fn manhattan(a: Coordinate3, b: Coordinate3) -> int {
    abs_int(a.x - b.x) + abs_int(a.y - b.y) + abs_int(a.z - b.z)
}

impl Coordinate3 {
    pub fn new(x: i64, y: i64, z: i64) -> (c: Self)
        ensures
            c.x == x,
            c.y == y,
            c.z == z,
    {
        Coordinate3 { x, y, z }
    }

    /// The taxicab distance to `other`.
    pub fn manhattan_distance(&self, other: &Coordinate3) -> (d: i64)
        requires
            manhattan(*self, *other) <= i64::MAX,
            abs_int(self.x - other.x) <= i64::MAX,
            abs_int(self.y - other.y) <= i64::MAX,
            abs_int(self.z - other.z) <= i64::MAX,
        ensures
            d == manhattan(*self, *other),
    {
        let dx = if self.x >= other.x {
            self.x - other.x
        } else {
            other.x - self.x
        };
        let dy = if self.y >= other.y {
            self.y - other.y
        } else {
            other.y - self.y
        };
        let dz = if self.z >= other.z {
            self.z - other.z
        } else {
            other.z - self.z
        };
        dx + dy + dz
    }
}

} // verus!
