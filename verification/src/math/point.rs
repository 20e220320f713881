//! Positions in space.
use crate::fixed::Fixed;
use crate::math::vector3::Vector3;
use vstd::prelude::*;

verus! {

/// A position with three fixed-point coordinates.
#[derive(Clone, Copy, Debug, PartialEq, Eq, Structural)]
pub struct Point {
    pub x: Fixed,
    pub y: Fixed,
    pub z: Fixed,
}

impl Point {
    /// The origin.
    pub open spec fn spec_zero() -> Point {
        Point { x: Fixed { raw: 0 }, y: Fixed { raw: 0 }, z: Fixed { raw: 0 } }
    }

    /// The displacement that leads from `other` to `self`.
    pub open spec fn spec_sub(self, other: Point) -> Vector3 {
        Vector3 {
            x: self.x.spec_sub(other.x),
            y: self.y.spec_sub(other.y),
            z: self.z.spec_sub(other.z),
        }
    }

    /// The point reached from `self` by the displacement `v`.
    pub open spec fn spec_add(self, v: Vector3) -> Point {
        Point { x: self.x.spec_add(v.x), y: self.y.spec_add(v.y), z: self.z.spec_add(v.z) }
    }

    /// The point from which the displacement `v` leads to `self`.
    pub open spec fn spec_back(self, v: Vector3) -> Point {
        Point { x: self.x.spec_sub(v.x), y: self.y.spec_sub(v.y), z: self.z.spec_sub(v.z) }
    }

    /// The origin.
    pub fn zero() -> (r: Point)
        ensures
            r == Point::spec_zero(),
    {
        Point::new(Fixed { raw: 0 }, Fixed { raw: 0 }, Fixed { raw: 0 })
    }

    /// The point with the given coordinates.
    pub fn new(x: Fixed, y: Fixed, z: Fixed) -> (r: Point)
        ensures
            r == (Point { x, y, z }),
    {
        Point { x, y, z }
    }
}

impl core::ops::Sub<Point> for Point {
    type Output = Vector3;

    /// The displacement that leads from `other` to `self`.
    fn sub(self, other: Point) -> (r: Vector3)
        ensures
            r == self.spec_sub(other),
    {
        Vector3 { x: self.x - other.x, y: self.y - other.y, z: self.z - other.z }
    }
}

impl vstd::std_specs::ops::SubSpecImpl<Point> for Point {
    open spec fn obeys_sub_spec() -> bool {
        true
    }

    open spec fn sub_req(self, other: Point) -> bool {
        true
    }

    open spec fn sub_spec(self, other: Point) -> Vector3 {
        self.spec_sub(other)
    }
}

impl core::ops::Add<Vector3> for Point {
    type Output = Point;

    /// The point reached from `self` by the displacement `other`.
    fn add(self, other: Vector3) -> (r: Point)
        ensures
            r == self.spec_add(other),
    {
        Point { x: self.x + other.x, y: self.y + other.y, z: self.z + other.z }
    }
}

impl vstd::std_specs::ops::AddSpecImpl<Vector3> for Point {
    open spec fn obeys_add_spec() -> bool {
        true
    }

    open spec fn add_req(self, other: Vector3) -> bool {
        true
    }

    open spec fn add_spec(self, other: Vector3) -> Point {
        self.spec_add(other)
    }
}

impl core::ops::Sub<Vector3> for Point {
    type Output = Point;

    /// The point from which the displacement `other` leads to `self`.
    fn sub(self, other: Vector3) -> (r: Point)
        ensures
            r == self.spec_back(other),
    {
        Point { x: self.x - other.x, y: self.y - other.y, z: self.z - other.z }
    }
}

impl vstd::std_specs::ops::SubSpecImpl<Vector3> for Point {
    open spec fn obeys_sub_spec() -> bool {
        true
    }

    open spec fn sub_req(self, other: Vector3) -> bool {
        true
    }

    open spec fn sub_spec(self, other: Vector3) -> Point {
        self.spec_back(other)
    }
}

} // verus!
