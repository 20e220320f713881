//! Spheres.
use crate::angle::{
    acos, atan2, lemma_acos_range, lemma_atan2_range, spec_acos, spec_atan2,
};
use crate::fixed::{lemma_sqrt_is_root, lemma_square_monotone, Fixed, PI_RAW, SCALE};
use crate::math::vector3::{
    in_ratio, lemma_normalize_near_unit, lemma_normalize_parallel, lemma_normalize_unit,
    lemma_square_rounds_down, same_sign, NORMALIZE_REACH,
};
use crate::math::{Point, Vector3};
use crate::rendering::{Intersectable, Ray};
use crate::scene::material::{TextureCoords, UniversalMaterial};
use crate::scene::Distance;
use vstd::arithmetic::div_mod::{
    lemma_div_by_multiple, lemma_fundamental_div_mod, lemma_mod_bound,
};
use vstd::prelude::*;

verus! {

/// A sphere about `center`.
pub struct Sphere {
    pub center: Point,
    pub radius: Distance,
    pub material: UniversalMaterial,
}

/// The nearer of the two places, at the distances `t0 <= t1` along a ray,
/// where the ray's line crosses a sphere, that does not lie behind the ray's
/// origin.
pub open spec fn nearest_root(t0: Fixed, t1: Fixed) -> Option<Fixed> {
    if t0.raw < 0 && t1.raw < 0 {
        None
    } else if t0.raw < 0 {
        Some(t1)
    } else if t1.raw < 0 {
        Some(t0)
    } else {
        Some(t0.spec_min(t1))
    }
}

impl Sphere {
    /// How far along the ray the foot of the perpendicular from the centre
    /// lies.
    pub open spec fn foot(self, ray: Ray) -> Fixed {
        self.center.spec_sub(ray.origin).spec_dot(ray.direction)
    }

    /// The squared distance from the centre to the ray's line.
    pub open spec fn offset_squared(self, ray: Ray) -> Fixed {
        let os = self.center.spec_sub(ray.origin);
        os.spec_dot(os).spec_sub(self.foot(ray).spec_mul(self.foot(ray)))
    }

    /// Half the length of the chord that the sphere cuts from the ray's line.
    pub open spec fn half_chord(self, ray: Ray) -> Fixed {
        self.radius.spec_mul(self.radius).spec_sub(self.offset_squared(ray)).spec_sqrt()
    }

    /// The line misses the sphere where it passes the centre at more than the
    /// radius. Else it crosses the sphere half a chord before and half a chord
    /// after the foot of the perpendicular from the centre.
    pub open spec fn hit(self, ray: Ray) -> Option<Fixed> {
        if self.offset_squared(ray).raw > self.radius.spec_mul(self.radius).raw {
            None
        } else {
            nearest_root(
                self.foot(ray).spec_sub(self.half_chord(ray)),
                self.foot(ray).spec_add(self.half_chord(ray)),
            )
        }
    }

    /// The direction from the centre to the place.
    pub open spec fn normal_at(self, hit_point: Point) -> Vector3 {
        hit_point.spec_sub(self.center).spec_normalize()
    }

    /// The place in spherical coordinates: `u` is the azimuth about the y axis,
    /// brought from the range of minus pi to pi into that of zero to one; `v`
    /// is the angle from the y axis, brought from zero to pi into zero to one.
    pub open spec fn coords_at(self, hit_point: Point) -> TextureCoords {
        let p = hit_point.spec_sub(self.center);
        let phi = spec_atan2(p.z, p.x);
        let theta = spec_acos(p.y.spec_div(self.radius));
        let pi = Fixed { raw: PI_RAW };
        TextureCoords {
            u: Fixed { raw: SCALE }.spec_add(phi.spec_div(pi)).spec_div(Fixed::spec_from_int(2)),
            v: theta.spec_div(pi),
        }
    }
}

/// A ray that starts outside a sphere and runs away from it does not hit it:
/// where the centre is farther from the ray's origin than the radius and
/// does not lie ahead of the origin, as seen along the ray, there is no hit.
pub proof fn lemma_ray_leaving_misses(sphere: Sphere, ray: Ray)
    requires
        sphere.center.spec_sub(ray.origin).spec_norm().raw > sphere.radius.spec_mul(
            sphere.radius,
        ).raw,
        sphere.foot(ray).raw <= 0,
    ensures
        sphere.hit(ray) is None,
{
    let os = sphere.center.spec_sub(ray.origin);
    let f = sphere.foot(ray).raw as int;
    let n = os.spec_dot(os).raw as int;
    let r = sphere.radius.raw as int;
    let r2 = sphere.radius.spec_mul(sphere.radius).raw as int;
    let ff = sphere.foot(ray).spec_mul(sphere.foot(ray)).raw as int;
    let d2 = sphere.offset_squared(ray).raw as int;
    let scale = SCALE as int;
    assert(r * r >= 0 && f * f >= 0) by (nonlinear_arith);
    assert(0 <= (r * r) / scale) by (nonlinear_arith)
        requires
            r * r >= 0,
            scale > 0,
    ;
    assert(0 <= (f * f) / scale) by (nonlinear_arith)
        requires
            f * f >= 0,
            scale > 0,
    ;
    assert(0 <= r2);
    assert(0 <= ff <= (f * f) / scale);
    lemma_fundamental_div_mod(f * f, scale);
    lemma_mod_bound(f * f, scale);
    assert(ff * scale <= f * f) by (nonlinear_arith)
        requires
            0 <= ff <= (f * f) / scale,
            f * f == scale * ((f * f) / scale) + (f * f) % scale,
            0 <= (f * f) % scale,
            scale > 0,
    ;
    assert(d2 == n - ff);
    if d2 <= r2 {
        let x = sphere.radius.spec_mul(sphere.radius).spec_sub(sphere.offset_squared(ray)).raw as int;
        assert(0 <= x <= ff - 1);
        let h = sphere.half_chord(ray).raw as int;
        if x > 0 {
            lemma_sqrt_is_root(
                sphere.radius.spec_mul(sphere.radius).spec_sub(sphere.offset_squared(ray)),
            );
            assert(x * scale <= (ff - 1) * scale) by (nonlinear_arith)
                requires
                    x <= ff - 1,
                    scale > 0,
            ;
            assert(h * h < f * f) by (nonlinear_arith)
                requires
                    h * h <= x * scale,
                    x * scale <= (ff - 1) * scale,
                    ff * scale <= f * f,
                    scale > 0,
            ;
            if h >= -f {
                lemma_square_monotone(-f, h);
                assert((-f) * (-f) == f * f) by (nonlinear_arith);
            }
        }
        assert(0 <= h < -f);
    }
}

/// Both coordinates of a place on a sphere lie between zero and one.
pub proof fn lemma_coords_in_unit_range(sphere: Sphere, hit_point: Point)
    ensures
        0 <= sphere.coords_at(hit_point).u.raw <= SCALE,
        0 <= sphere.coords_at(hit_point).v.raw <= SCALE,
{
    let scale = SCALE as int;
    let pi = PI_RAW as int;
    let p = hit_point.spec_sub(sphere.center);
    let phi = spec_atan2(p.z, p.x);
    let theta = spec_acos(p.y.spec_div(sphere.radius));
    lemma_atan2_range(p.z, p.x);
    lemma_acos_range(p.y.spec_div(sphere.radius));
    lemma_ratio_in_unit_range(theta.raw as int, pi);
    let turn = phi.spec_div(Fixed { raw: PI_RAW });
    if phi.raw >= 0 {
        lemma_ratio_in_unit_range(phi.raw as int, pi);
    } else {
        lemma_ratio_in_unit_range(-phi.raw as int, pi);
        assert(phi.raw * scale < 0) by (nonlinear_arith)
            requires
                phi.raw < 0,
                scale > 0,
        ;
        assert((-phi.raw) * scale == -(phi.raw * scale)) by (nonlinear_arith);
    }
    assert(-scale <= turn.raw <= scale);
    let sum = Fixed { raw: SCALE }.spec_add(turn);
    assert(0 <= sum.raw <= 2 * scale);
    lemma_ratio_in_unit_range(sum.raw as int, 2 * scale);
}

/// A number that is not negative and at most `d`, divided by `d`, gives at
/// most one.
proof fn lemma_ratio_in_unit_range(n: int, d: int)
    requires
        0 <= n <= d,
        0 < d,
    ensures
        0 <= (n * SCALE) / d <= SCALE,
        n * SCALE >= 0,
{
    let scale = SCALE as int;
    assert(0 <= n * scale <= scale * d) by (nonlinear_arith)
        requires
            0 <= n <= d,
            scale > 0,
    ;
    lemma_div_by_multiple(scale, d);
    vstd::arithmetic::div_mod::lemma_div_is_ordered(n * scale, scale * d, d);
    vstd::arithmetic::div_mod::lemma_div_pos_is_pos(n * scale, d);
}

/// A ray in any direction whose line passes through the centre of a sphere
/// hits the sphere the radius before the foot of the perpendicular from the
/// centre, up to rounding. With `f` the raw distance of the foot, `o` the raw
/// squared distance at which the line passes the centre, at most `slack` in
/// magnitude, `r` the raw radius and `t` the raw distance of the hit: the
/// square of `f - t` is at most the square of `r` and `slack` times `SCALE`,
/// and the square of `f - t + 1` is more than the square of `r` less `SCALE`
/// and `slack` times `SCALE`. This holds where the ray starts outside the
/// sphere, before the centre, and the radius is within `NORMALIZE_REACH`.
pub proof fn lemma_hit_through_centre(sphere: Sphere, ray: Ray, slack: int)
    requires
        0 < sphere.radius.raw <= NORMALIZE_REACH,
        sphere.foot(ray).raw > 0,
        -slack <= sphere.offset_squared(ray).raw <= slack,
        slack <= sphere.radius.spec_mul(sphere.radius).raw,
        sphere.radius.raw * sphere.radius.raw + slack * SCALE < sphere.foot(ray).raw
            * sphere.foot(ray).raw,
    ensures
        sphere.hit(ray) is Some,
        0 < sphere.hit(ray)->0.raw <= sphere.foot(ray).raw,
        (sphere.foot(ray).raw - sphere.hit(ray)->0.raw) * (sphere.foot(ray).raw - sphere.hit(
            ray,
        )->0.raw) <= sphere.radius.raw * sphere.radius.raw + slack * SCALE,
        (sphere.foot(ray).raw - sphere.hit(ray)->0.raw + 1) * (sphere.foot(ray).raw
            - sphere.hit(ray)->0.raw + 1) > sphere.radius.raw * sphere.radius.raw - SCALE - slack
            * SCALE,
{
    let scale = SCALE as int;
    let f = sphere.foot(ray).raw as int;
    let o = sphere.offset_squared(ray).raw as int;
    let r = sphere.radius.raw as int;
    lemma_square_rounds_down(sphere.radius);
    let r2 = sphere.radius.spec_mul(sphere.radius);
    let m = r2.raw as int;
    let x = r2.spec_sub(sphere.offset_squared(ray));
    assert(x.raw == m - o);
    let h = sphere.half_chord(ray).raw as int;
    assert((m - o) * scale <= r * r + slack * scale && (m - o) * scale > r * r - scale - slack
        * scale) by (nonlinear_arith)
        requires
            m * scale <= r * r < m * scale + scale,
            -slack <= o <= slack,
            scale > 0,
    ;
    if x.raw > 0 {
        lemma_sqrt_is_root(x);
    } else {
        assert(h == 0);
        assert((m - o) * scale == 0) by (nonlinear_arith)
            requires
                m - o == 0,
        ;
    }
    assert(0 <= h && h * h <= r * r + slack * scale);
    assert((h + 1) * (h + 1) > r * r - scale - slack * scale);
    if h >= f {
        lemma_square_monotone(f, h);
    }
    assert(h < f);
}

/// The ray from the origin straight ahead, down the negative z axis.
pub open spec fn straight_ahead() -> Ray {
    Ray {
        origin: Point::spec_zero(),
        direction: Vector3 {
            x: Fixed { raw: 0 },
            y: Fixed { raw: 0 },
            z: Fixed { raw: (-SCALE) as i64 },
        },
    }
}

/// A ray from the origin straight at a sphere hits it at the distance of the
/// centre less the radius, up to a rounding that grows as the sphere shrinks:
/// never nearer, and farther by at most one step of 2^-32 and the share
/// `SCALE / r` of a step, `r` the raw radius. On a sphere of a radius of more
/// than a half that is one step. This holds of every sphere whose centre lies
/// beyond its radius and no farther than `NORMALIZE_REACH`.
pub proof fn lemma_hit_straight_ahead(sphere: Sphere)
    requires
        sphere.center.x.raw == 0,
        sphere.center.y.raw == 0,
        0 < sphere.radius.raw < -sphere.center.z.raw <= NORMALIZE_REACH,
    ensures
        sphere.hit(straight_ahead()) is Some,
        -sphere.center.z.raw - sphere.radius.raw <= sphere.hit(straight_ahead())->0.raw,
        (sphere.hit(straight_ahead())->0.raw - (-sphere.center.z.raw - sphere.radius.raw) - 1)
            * sphere.radius.raw < SCALE,
        sphere.radius.raw > 0x8000_0000 ==> sphere.hit(straight_ahead())->0.raw
            <= -sphere.center.z.raw - sphere.radius.raw + 1,
{
    let ray = straight_ahead();
    let scale = SCALE as int;
    let d = -sphere.center.z.raw as int;
    let r = sphere.radius.raw as int;
    let os = sphere.center.spec_sub(ray.origin);
    assert(os.x.raw == 0 && os.y.raw == 0 && os.z.raw == -d);
    // The foot of the perpendicular lies at the distance of the centre.
    assert((-d) * (-scale) == d * scale) by (nonlinear_arith);
    assert(d * scale >= 0) by (nonlinear_arith)
        requires
            d > 0,
            scale > 0,
    ;
    lemma_div_by_multiple(d, scale);
    assert(Fixed { raw: 0 }.spec_mul(Fixed { raw: 0 }).raw == 0) by (nonlinear_arith);
    assert(os.z.spec_mul(ray.direction.z).raw == d);
    assert(os.x.spec_mul(ray.direction.x).raw == 0);
    assert(os.y.spec_mul(ray.direction.y).raw == 0);
    assert(sphere.foot(ray).raw == d);
    // The centre lies on the ray's line.
    lemma_square_rounds_down(os.z);
    lemma_square_rounds_down(sphere.foot(ray));
    assert((-d) * (-d) == d * d) by (nonlinear_arith);
    assert(os.spec_dot(os).raw == (d * d) / scale);
    assert(sphere.offset_squared(ray).raw == 0);
    // Half the chord is the radius, less what rounding takes.
    lemma_square_rounds_down(sphere.radius);
    let r2 = sphere.radius.spec_mul(sphere.radius);
    assert(r2.spec_sub(sphere.offset_squared(ray)) == r2);
    let h = sphere.half_chord(ray).raw as int;
    let k = r - h - 1;
    if r2.raw > 0 {
        lemma_sqrt_is_root(r2);
        assert(h * h <= r * r);
        if h > r {
            lemma_square_monotone(r + 1, h);
            assert((r + 1) * (r + 1) > r * r) by (nonlinear_arith)
                requires
                    r >= 0,
            ;
        }
        if k >= 0 {
            assert(k * (2 * r - k) < scale) by (nonlinear_arith)
                requires
                    (r - k) * (r - k) > r * r - scale,
            ;
            assert(k * r <= k * (2 * r - k)) by (nonlinear_arith)
                requires
                    0 <= k <= r,
            ;
            if r > 0x8000_0000 && k >= 1 {
                assert(k * (2 * r - k) >= 2 * r - 1) by (nonlinear_arith)
                    requires
                        1 <= k <= r,
                ;
            }
        } else {
            assert(k * r < scale) by (nonlinear_arith)
                requires
                    k < 0,
                    r > 0,
                    scale > 0,
            ;
        }
    } else {
        assert(h == 0);
        assert(k * r < scale) by (nonlinear_arith)
            requires
                k == r - 1,
                r * r < scale,
                r > 0,
        ;
    }
    assert(0 <= h <= r);
    if r > 0x8000_0000 {
        assert(r * r >= scale) by (nonlinear_arith)
            requires
                r > 0x8000_0000,
                scale == 0x1_0000_0000,
        ;
    }
}

/// The normal at any point runs along the radius through the point,
/// outward, up to rounding: no component has another sign than the radius to
/// the point has, and any two components stand in the ratio in which they
/// stand there. This holds of every sphere and every point.
pub proof fn lemma_surface_normal_parallel(sphere: Sphere, hit_point: Point)
    ensures
        same_sign(sphere.normal_at(hit_point).x, hit_point.spec_sub(sphere.center).x),
        same_sign(sphere.normal_at(hit_point).y, hit_point.spec_sub(sphere.center).y),
        same_sign(sphere.normal_at(hit_point).z, hit_point.spec_sub(sphere.center).z),
        in_ratio(
            sphere.normal_at(hit_point).x,
            sphere.normal_at(hit_point).y,
            hit_point.spec_sub(sphere.center).x,
            hit_point.spec_sub(sphere.center).y,
        ),
        in_ratio(
            sphere.normal_at(hit_point).y,
            sphere.normal_at(hit_point).z,
            hit_point.spec_sub(sphere.center).y,
            hit_point.spec_sub(sphere.center).z,
        ),
        in_ratio(
            sphere.normal_at(hit_point).z,
            sphere.normal_at(hit_point).x,
            hit_point.spec_sub(sphere.center).z,
            hit_point.spec_sub(sphere.center).x,
        ),
{
    lemma_normalize_parallel(hit_point.spec_sub(sphere.center));
}

/// The normal at a point of a sphere's surface has unit length up to a
/// rounding that grows as the sphere shrinks. With `l` the raw length of the
/// radius to the point and `x` the sum of the squares of the normal's raw
/// components, which is the square of `SCALE` at unit length: `x` exceeds the
/// square of `SCALE` by at most the share `(2 l + 1 + 3 SCALE) / l^2` of it and
/// falls short of it by at most `6 SCALE (l + 2^17) / l`. This holds of every
/// sphere no component of whose radius exceeds `NORMALIZE_REACH`, beyond which
/// squares saturate.
pub proof fn lemma_surface_normal(sphere: Sphere, hit_point: Point)
    requires
        hit_point.spec_sub(sphere.center).within_reach(),
    ensures
        radius_length(sphere, hit_point) * radius_length(sphere, hit_point) * sphere.normal_at(
            hit_point,
        ).squares() <= SCALE * SCALE * ((radius_length(sphere, hit_point) + 1) * (radius_length(
            sphere,
            hit_point,
        ) + 1) + 3 * SCALE),
        radius_length(sphere, hit_point) * radius_length(sphere, hit_point) * sphere.normal_at(
            hit_point,
        ).squares() >= SCALE * SCALE * (radius_length(sphere, hit_point) * radius_length(
            sphere,
            hit_point,
        )) - 6 * SCALE * radius_length(sphere, hit_point) * (radius_length(sphere, hit_point)
            + 0x2_0000),
{
    lemma_normalize_near_unit(hit_point.spec_sub(sphere.center));
}

/// The raw length of the radius from the centre to `hit_point`.
pub open spec fn radius_length(sphere: Sphere, hit_point: Point) -> int {
    hit_point.spec_sub(sphere.center).spec_length().raw as int
}

/// On a sphere of a radius of a half or more the normal has unit length to
/// about four parts in a thousand million: the squares of its raw components
/// add up to the square of `SCALE`, give or take sixteen times `SCALE` and 48.
pub proof fn lemma_surface_normal_unit(sphere: Sphere, hit_point: Point)
    requires
        hit_point.spec_sub(sphere.center).within_reach(),
        radius_length(sphere, hit_point) >= 0x8000_0000,
    ensures
        SCALE * SCALE - 16 * SCALE - 48 <= sphere.normal_at(hit_point).squares(),
        sphere.normal_at(hit_point).squares() <= SCALE * SCALE + 16 * SCALE + 48,
{
    lemma_normalize_unit(hit_point.spec_sub(sphere.center));
}

impl Intersectable for Sphere {
    open spec fn spec_intersect(&self, ray: Ray) -> Option<Fixed> {
        self.hit(ray)
    }

    open spec fn spec_surface_normal(&self, hit_point: Point) -> Vector3 {
        self.normal_at(hit_point)
    }

    open spec fn spec_texture_coords(&self, hit_point: Point) -> TextureCoords {
        self.coords_at(hit_point)
    }

    open spec fn spec_material(&self) -> UniversalMaterial {
        self.material
    }

    fn intersect(&self, ray: &Ray) -> (r: Option<Fixed>) {
        let os: Vector3 = self.center - ray.origin;
        let os_on_ray = os.dot(&ray.direction);
        let d2 = os.dot(&os) - (os_on_ray * os_on_ray);
        let r2 = self.radius * self.radius;
        if d2.raw > r2.raw {
            None
        } else {
            let iq_len = (r2 - d2).sqrt();
            let t0 = os_on_ray - iq_len;
            let t1 = os_on_ray + iq_len;
            if t0.raw < 0 && t1.raw < 0 {
                None
            } else if t0.raw < 0 {
                Some(t1)
            } else if t1.raw < 0 {
                Some(t0)
            } else {
                Some(t0.min(t1))
            }
        }
    }

    fn surface_normal(&self, hit_point: &Point) -> (n: Vector3) {
        (*hit_point - self.center).normalize()
    }

    fn texture_coords(&self, hit_point: &Point) -> (uv: TextureCoords) {
        let p = *hit_point - self.center;
        let phi = atan2(p.z, p.x);
        let theta = acos(p.y / self.radius);
        let pi = Fixed { raw: PI_RAW };
        TextureCoords {
            u: (Fixed { raw: SCALE } + phi / pi) / Fixed::from_int(2),
            v: theta / pi,
        }
    }

    fn get_material(&self) -> (m: &UniversalMaterial) {
        &self.material
    }
}

} // verus!
