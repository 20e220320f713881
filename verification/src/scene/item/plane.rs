//! Planes without end.
use crate::fixed::{Fixed, SCALE};
use crate::math::vector3::lemma_normalize_near_unit;
use crate::math::{Point, Vector3};
use crate::rendering::{Intersectable, Ray};
use crate::scene::material::{TextureCoords, UniversalMaterial};
use core::ops::Neg;
use vstd::prelude::*;

verus! {

/// A ray that runs along a plane, or nearly so, does not hit it: the cosine
/// between the ray and the plane's normal must exceed this raw value, the
/// millionth part of one.
pub const GRAZING_RAW: i64 = 4295;

/// A plane through `pos`. Its stored normal points away from the side that
/// is seen.
pub struct Plane {
    pub pos: Point,
    pub normal: Vector3,
    pub material: UniversalMaterial,
}

impl Plane {
    /// The first axis of the plane's own coordinates, of unit length: across
    /// the stored normal and the z axis or, where the normal lies along the z
    /// axis, across the normal and the y axis.
    pub open spec fn x_axis(self) -> Vector3 {
        let across_z = self.normal.spec_cross(
            Vector3 { x: Fixed { raw: 0 }, y: Fixed { raw: 0 }, z: Fixed::spec_from_int(1) },
        );
        if across_z.spec_length().raw == 0 {
            self.normal.spec_cross(
                Vector3 { x: Fixed { raw: 0 }, y: Fixed::spec_from_int(1), z: Fixed { raw: 0 } },
            ).spec_normalize()
        } else {
            across_z.spec_normalize()
        }
    }

    /// The second axis: across the stored normal and the first axis. It has
    /// unit length where the stored normal has.
    pub open spec fn y_axis(self) -> Vector3 {
        self.normal.spec_cross(self.x_axis())
    }

    /// The ray hits the plane where it runs against the seen side, neither
    /// along the plane nor away from it, and the plane is not behind it.
    pub open spec fn hit(self, ray: Ray) -> Option<Fixed> {
        let denom = self.normal.spec_dot(ray.direction);
        let distance = self.pos.spec_sub(ray.origin).spec_dot(self.normal).spec_div(denom);
        if denom.raw > GRAZING_RAW && distance.raw >= 0 {
            Some(distance)
        } else {
            None
        }
    }

    /// The opposite of the stored normal, everywhere.
    pub open spec fn normal_at(self, hit_point: Point) -> Vector3 {
        self.normal.spec_neg()
    }

    /// The place relative to `pos`, measured along the plane's two axes.
    pub open spec fn coords_at(self, hit_point: Point) -> TextureCoords {
        let p = hit_point.spec_sub(self.pos);
        TextureCoords { u: p.spec_dot(self.x_axis()), v: p.spec_dot(self.y_axis()) }
    }
}

/// The plane's own point has the coordinates zero and zero.
pub proof fn lemma_coords_of_pos(plane: Plane)
    ensures
        plane.coords_at(plane.pos).u.raw == 0,
        plane.coords_at(plane.pos).v.raw == 0,
{
    let p = plane.pos.spec_sub(plane.pos);
    assert(p == Vector3::spec_zero());
    lemma_dot_of_zero(plane.x_axis());
    lemma_dot_of_zero(plane.y_axis());
}

/// The zero vector has the dot product zero with every vector.
proof fn lemma_dot_of_zero(v: Vector3)
    ensures
        Vector3::spec_zero().spec_dot(v).raw == 0,
{
    assert(0 * v.x.raw == 0 && 0 * v.y.raw == 0 && 0 * v.z.raw == 0);
}

/// The vector across the stored normal that is brought to unit length to
/// make the first axis.
pub open spec fn across(plane: Plane) -> Vector3 {
    let across_z = plane.normal.spec_cross(
        Vector3 { x: Fixed { raw: 0 }, y: Fixed { raw: 0 }, z: Fixed::spec_from_int(1) },
    );
    if across_z.spec_length().raw == 0 {
        plane.normal.spec_cross(
            Vector3 { x: Fixed { raw: 0 }, y: Fixed::spec_from_int(1), z: Fixed { raw: 0 } },
        )
    } else {
        across_z
    }
}

/// The first axis has unit length up to a rounding that grows as the vector
/// across the normal shrinks. With `l` the raw length of that vector and `x`
/// the sum of the squares of the axis's raw components: `x` exceeds the square
/// of `SCALE` by at most the share `(2 l + 1 + 3 SCALE) / l^2` of it and falls
/// short of it by at most `6 SCALE (l + 2^17) / l`.
pub proof fn lemma_first_axis_near_unit(plane: Plane)
    requires
        across(plane).within_reach(),
    ensures
        plane.x_axis() == across(plane).spec_normalize(),
        across(plane).spec_length().raw * across(plane).spec_length().raw * plane.x_axis().squares()
            <= SCALE * SCALE * ((across(plane).spec_length().raw + 1) * (across(
            plane,
        ).spec_length().raw + 1) + 3 * SCALE),
        across(plane).spec_length().raw * across(plane).spec_length().raw * plane.x_axis().squares()
            >= SCALE * SCALE * (across(plane).spec_length().raw * across(plane).spec_length().raw)
            - 6 * SCALE * across(plane).spec_length().raw * (across(plane).spec_length().raw
            + 0x2_0000),
{
    lemma_normalize_near_unit(across(plane));
}

impl Intersectable for Plane {
    open spec fn spec_intersect(&self, ray: Ray) -> Option<Fixed> {
        self.hit(ray)
    }

    open spec fn spec_surface_normal(&self, hit_point: Point) -> Vector3 {
        self.normal_at(hit_point)
    }

    open spec fn spec_texture_coords(&self, hit_point: Point) -> TextureCoords {
        self.coords_at(hit_point)
    }

    open spec fn spec_material(&self) -> UniversalMaterial {
        self.material
    }

    fn intersect(&self, ray: &Ray) -> (r: Option<Fixed>) {
        let normal = &self.normal;
        let denom = normal.dot(&ray.direction);
        if denom.raw > GRAZING_RAW {
            let v = self.pos - ray.origin;
            let distance = v.dot(normal) / denom;
            if distance.raw >= 0 {
                return Some(distance);
            }
        }
        None
    }

    fn surface_normal(&self, _hit_point: &Point) -> (n: Vector3) {
        self.normal.neg()
    }

    fn texture_coords(&self, hit_point: &Point) -> (uv: TextureCoords) {
        let mut x_axis = self.normal.cross(
            &Vector3 { x: Fixed { raw: 0 }, y: Fixed { raw: 0 }, z: Fixed::from_int(1) },
        );
        if x_axis.length().raw == 0 {
            x_axis = self.normal.cross(
                &Vector3 { x: Fixed { raw: 0 }, y: Fixed::from_int(1), z: Fixed { raw: 0 } },
            );
        }
        let x_axis = x_axis.normalize();
        let y_axis = self.normal.cross(&x_axis);

        let p: Vector3 = *hit_point - self.pos;

        TextureCoords { u: p.dot(&x_axis), v: p.dot(&y_axis) }
    }

    fn get_material(&self) -> (m: &UniversalMaterial) {
        &self.material
    }
}

} // verus!
