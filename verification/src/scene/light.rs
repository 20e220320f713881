//! Sources of light that have no extent and cannot be hit.
pub mod directional_light;
pub mod spherical_light;

pub use directional_light::DirectionalLight;
pub use spherical_light::SphericalLight;

use crate::color::Color;
use crate::fixed::Fixed;
use crate::math::{Point, Vector3};
use crate::rendering::Light;
use vstd::prelude::*;

verus! {

/// One light of a scene: the closed set of lights that the tracer knows.
#[derive(Debug)]
pub enum LightSource {
    Directional(DirectionalLight),
    Spherical(SphericalLight),
}

impl LightSource {
    /// How strong the light is when it arrives at `hit_point`.
    pub open spec fn intensity_at(self, hit_point: Point) -> Fixed {
        match self {
            LightSource::Directional(l) => l.intensity,
            LightSource::Spherical(l) => l.intensity_at(hit_point),
        }
    }

    /// How far the light is from `hit_point`: a directional light is farther
    /// than anything.
    pub open spec fn distance_to(self, hit_point: Point) -> Fixed {
        match self {
            LightSource::Directional(l) => Fixed { raw: i64::MAX },
            LightSource::Spherical(l) => l.distance_to(hit_point),
        }
    }

    /// The colour of the light.
    pub open spec fn hue(self) -> Color {
        match self {
            LightSource::Directional(l) => l.color,
            LightSource::Spherical(l) => l.color,
        }
    }

    /// The unit vector from `hit_point` toward the light.
    pub open spec fn direction_toward(self, hit_point: Point) -> Vector3 {
        match self {
            LightSource::Directional(l) => l.direction.spec_neg(),
            LightSource::Spherical(l) => l.direction_toward(hit_point),
        }
    }
}

impl Light for LightSource {
    open spec fn spec_intensity(&self, hit_point: Point) -> Fixed {
        self.intensity_at(hit_point)
    }

    open spec fn spec_distance(&self, hit_point: Point) -> Fixed {
        self.distance_to(hit_point)
    }

    open spec fn spec_color(&self) -> Color {
        self.hue()
    }

    open spec fn spec_direction_from(&self, hit_point: Point) -> Vector3 {
        self.direction_toward(hit_point)
    }

    fn intensity(&self, hit_point: &Point) -> (r: Fixed) {
        match self {
            LightSource::Directional(l) => l.intensity(hit_point),
            LightSource::Spherical(l) => l.intensity(hit_point),
        }
    }

    fn distance(&self, hit_point: &Point) -> (r: Fixed) {
        match self {
            LightSource::Directional(l) => l.distance(hit_point),
            LightSource::Spherical(l) => l.distance(hit_point),
        }
    }

    fn color(&self) -> (r: Color) {
        match self {
            LightSource::Directional(l) => l.color(),
            LightSource::Spherical(l) => l.color(),
        }
    }

    fn direction_from(&self, hit_point: &Point) -> (r: Vector3) {
        match self {
            LightSource::Directional(l) => l.direction_from(hit_point),
            LightSource::Spherical(l) => l.direction_from(hit_point),
        }
    }
}

} // verus!
