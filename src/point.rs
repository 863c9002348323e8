//! Points in three dimensions.
use vstd::prelude::*;

verus! {

#[derive(Debug, Clone, PartialEq, Eq)]
pub struct Point {
    pub x: i64,
    pub y: i64,
    pub z: i64,
}

impl Point {
    pub fn new(x: i64, y: i64, z: i64) -> (r: Point)
        ensures
            r.x == x,
            r.y == y,
            r.z == z,
    {
        Point { x, y, z }
    }
}

/// The point one step further along each axis.
pub fn increment_point(point: Point) -> (r: Point)
    requires
        point.x < i64::MAX,
        point.y < i64::MAX,
        point.z < i64::MAX,
    ensures
        r.x == point.x + 1,
        r.y == point.y + 1,
        r.z == point.z + 1,
{
    Point::new(point.x + 1, point.y + 1, point.z + 1)
}

} // verus!
