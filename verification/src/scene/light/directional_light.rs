//! Light that falls in one direction everywhere, as from the sun.
use crate::color::Color;
use crate::fixed::Fixed;
use crate::math::{Point, Vector3};
use crate::rendering::Light;
use core::ops::Neg;
use vstd::prelude::*;

verus! {

/// A light so far away that its rays are parallel. `direction` is the
/// direction in which the light travels.
#[derive(Debug)]
pub struct DirectionalLight {
    pub direction: Vector3,
    pub color: Color,
    pub intensity: Fixed,
}

impl Light for DirectionalLight {
    /// The same at every place.
    open spec fn spec_intensity(&self, hit_point: Point) -> Fixed {
        self.intensity
    }

    /// Farther than anything: the largest distance there is.
    open spec fn spec_distance(&self, hit_point: Point) -> Fixed {
        Fixed { raw: i64::MAX }
    }

    open spec fn spec_color(&self) -> Color {
        self.color
    }

    /// Against the direction in which the light travels.
    open spec fn spec_direction_from(&self, hit_point: Point) -> Vector3 {
        self.direction.spec_neg()
    }

    fn intensity(&self, _hit_point: &Point) -> (r: Fixed) {
        self.intensity
    }

    fn direction_from(&self, _hit_point: &Point) -> (r: Vector3) {
        self.direction.neg()
    }

    fn color(&self) -> (r: Color) {
        self.color
    }

    fn distance(&self, _hit_point: &Point) -> (r: Fixed) {
        Fixed { raw: i64::MAX }
    }
}

} // verus!
