//! The things that a ray can hit.
pub mod aimed;
pub mod plane;
pub mod sphere;

pub use plane::Plane;
pub use sphere::Sphere;

use crate::math::{Point, Vector3};
use crate::fixed::Fixed;
use crate::rendering::{Intersectable, Ray};
use crate::scene::material::{TextureCoords, UniversalMaterial};
use vstd::prelude::*;

verus! {

/// One thing of a scene: the closed set of shapes that the tracer knows.
pub enum Item {
    Sphere(Sphere),
    Plane(Plane),
}

impl Item {
    /// The item's material can give a colour at every place.
    pub open spec fn wf(self) -> bool {
        self.material().color.wf()
    }

    /// How far along the ray it hits the item, if it does.
    pub open spec fn hit(self, ray: Ray) -> Option<Fixed> {
        match self {
            Item::Sphere(s) => s.hit(ray),
            Item::Plane(p) => p.hit(ray),
        }
    }

    /// The unit vector that stands on the item's surface at `hit_point`.
    pub open spec fn normal_at(self, hit_point: Point) -> Vector3 {
        match self {
            Item::Sphere(s) => s.normal_at(hit_point),
            Item::Plane(p) => p.normal_at(hit_point),
        }
    }

    /// Where on the item's surface `hit_point` lies.
    pub open spec fn coords_at(self, hit_point: Point) -> TextureCoords {
        match self {
            Item::Sphere(s) => s.coords_at(hit_point),
            Item::Plane(p) => p.coords_at(hit_point),
        }
    }

    /// What the item is made of.
    pub open spec fn material(self) -> UniversalMaterial {
        match self {
            Item::Sphere(s) => s.material,
            Item::Plane(p) => p.material,
        }
    }

    /// How far along the ray it hits the item, if it does.
    pub fn intersect(&self, ray: &Ray) -> (r: Option<Fixed>)
        ensures
            r == self.hit(*ray),
    {
        match self {
            Item::Sphere(s) => s.intersect(ray),
            Item::Plane(p) => p.intersect(ray),
        }
    }

    /// The unit vector that stands on the item's surface at `hit_point`.
    pub fn surface_normal(&self, hit_point: &Point) -> (n: Vector3)
        ensures
            n == self.normal_at(*hit_point),
    {
        match self {
            Item::Sphere(s) => s.surface_normal(hit_point),
            Item::Plane(p) => p.surface_normal(hit_point),
        }
    }

    /// Where on the item's surface `hit_point` lies.
    pub fn texture_coords(&self, hit_point: &Point) -> (uv: TextureCoords)
        ensures
            uv == self.coords_at(*hit_point),
    {
        match self {
            Item::Sphere(s) => s.texture_coords(hit_point),
            Item::Plane(p) => p.texture_coords(hit_point),
        }
    }

    /// What the item is made of.
    pub fn get_material(&self) -> (m: &UniversalMaterial)
        ensures
            *m == self.material(),
    {
        match self {
            Item::Sphere(s) => s.get_material(),
            Item::Plane(p) => p.get_material(),
        }
    }
}

} // verus!
