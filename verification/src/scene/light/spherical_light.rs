//! Light that spreads from a point in all directions.
use crate::color::Color;
use crate::fixed::{Fixed, PI_RAW};
use crate::math::{Point, Vector3};
use crate::rendering::Light;
use vstd::prelude::*;

verus! {

/// A light at a point.
#[derive(Debug)]
pub struct SphericalLight {
    pub position: Point,
    pub color: Color,
    pub intensity: Fixed,
}

impl SphericalLight {
    /// The light's strength spread over the sphere through `hit_point`: it
    /// falls with the square of the distance.
    pub open spec fn intensity_at(self, hit_point: Point) -> Fixed {
        self.intensity.spec_div(
            self.position.spec_sub(hit_point).spec_norm().spec_mul(Fixed::spec_from_int(4)).spec_mul(
                Fixed { raw: PI_RAW },
            ),
        )
    }

    /// How far the light is from `hit_point`.
    pub open spec fn distance_to(self, hit_point: Point) -> Fixed {
        self.position.spec_sub(hit_point).spec_length()
    }

    /// The unit vector from `hit_point` toward the light.
    pub open spec fn direction_toward(self, hit_point: Point) -> Vector3 {
        self.position.spec_sub(hit_point).spec_normalize()
    }
}

impl Light for SphericalLight {
    open spec fn spec_intensity(&self, hit_point: Point) -> Fixed {
        self.intensity_at(hit_point)
    }

    open spec fn spec_distance(&self, hit_point: Point) -> Fixed {
        self.distance_to(hit_point)
    }

    open spec fn spec_color(&self) -> Color {
        self.color
    }

    open spec fn spec_direction_from(&self, hit_point: Point) -> Vector3 {
        self.direction_toward(hit_point)
    }

    fn intensity(&self, hit_point: &Point) -> (r: Fixed) {
        let r2 = (self.position - *hit_point).norm();
        self.intensity / (r2 * Fixed::from_int(4) * Fixed { raw: PI_RAW })
    }

    fn direction_from(&self, hit_point: &Point) -> (r: Vector3) {
        (self.position - *hit_point).normalize()
    }

    fn color(&self) -> (r: Color) {
        self.color
    }

    fn distance(&self, hit_point: &Point) -> (r: Fixed) {
        (self.position - *hit_point).length()
    }
}

} // verus!
