//! Rays aimed at the centre of a sphere.
use crate::fixed::{
    lemma_quotient_bounded, lemma_quotient_rounds_toward_zero, lemma_square_monotone, magnitude,
    quotient, Fixed, SCALE,
};
use crate::math::vector3::{lemma_normalize_unit, lemma_rounded_square, lemma_square_rounds_down};
use crate::math::{Point, Vector3};
use crate::rendering::Ray;
use crate::scene::item::sphere::lemma_hit_through_centre;
use crate::scene::item::Sphere;
use vstd::prelude::*;

verus! {

/// The largest raw distance for which the law of aimed rays is stated: 2^45,
/// the number 8192.
pub const AIM_REACH: i64 = 0x2000_0000_0000;

/// One component `u` of a direction, carried `d` along and measured back
/// along the direction. With `c` the component of the place reached, `p` its
/// product with `u` and `m` its square: `p` is `u^2 d` and `m` is `u^2 d^2`,
/// scaled, less what rounding takes.
pub proof fn lemma_aimed_component(u: Fixed, d: Fixed)
    requires
        -2 * SCALE <= u.raw <= 2 * SCALE,
        0 < d.raw <= AIM_REACH,
    ensures
        0 <= u.spec_mul(d).spec_mul(u).raw,
        0 <= u.spec_mul(d).spec_mul(u.spec_mul(d)).raw,
        u.spec_mul(d).spec_mul(u).raw * (SCALE * SCALE) <= (u.raw * u.raw) * d.raw,
        u.spec_mul(d).spec_mul(u).raw * (SCALE * SCALE) > (u.raw * u.raw) * d.raw - SCALE
            * magnitude(u.raw as int) - SCALE * SCALE,
        u.spec_mul(d).spec_mul(u.spec_mul(d)).raw * (SCALE * SCALE * SCALE) <= (u.raw * u.raw) * (
        d.raw * d.raw),
        u.spec_mul(d).spec_mul(u.spec_mul(d)).raw * (SCALE * SCALE * SCALE) > (u.raw * u.raw) * (
        d.raw * d.raw) - 2 * (magnitude(u.raw as int) * d.raw) * SCALE - SCALE * SCALE * SCALE,
{
    let s: int = 0x1_0000_0000;
    let a = u.raw as int;
    let b = d.raw as int;
    let ma = magnitude(a);
    let ud = a * b;
    assert(magnitude(ud) == ma * b && (ud < 0 <==> a < 0) && (ud > 0 <==> a > 0) && ma * b
        <= 0x2_0000_0000 * 0x4000_0000_0000) by (nonlinear_arith)
        requires
            ud == a * b,
            ma == magnitude(a),
            0 <= ma <= 0x2_0000_0000,
            0 < b <= 0x2000_0000_0000,
    ;
    lemma_quotient_rounds_toward_zero(ud, s);
    let c = quotient(ud, s);
    let e = ud - c * s;
    lemma_quotient_bounded(ud, s, 0x8000_0000_0000);
    assert(magnitude(c) <= 0x8000_0000_0000 && (a >= 0 ==> c >= 0) && (a <= 0 ==> c <= 0));
    assert(u.spec_mul(d).raw == c);
    // The product with the component.
    let cu = c * a;
    assert(cu >= 0 && cu <= 0x8000_0000_0000 * 0x2_0000_0000) by (nonlinear_arith)
        requires
            cu == c * a,
            (a >= 0 ==> c >= 0) && (a <= 0 ==> c <= 0),
            magnitude(c) <= 0x8000_0000_0000,
            magnitude(a) <= 0x2_0000_0000,
    ;
    lemma_quotient_rounds_toward_zero(cu, s);
    let p = quotient(cu, s);
    assert(0 <= p <= 0x1_0000_0000_0000) by (nonlinear_arith)
        requires
            0 <= cu - p * s < s,
            0 <= cu <= 0x8000_0000_0000 * 0x2_0000_0000,
            s == 0x1_0000_0000,
    ;
    assert(u.spec_mul(d).spec_mul(u).raw == p);
    let eu = e * a;
    assert(0 <= eu <= s * ma) by (nonlinear_arith)
        requires
            eu == e * a,
            ma == magnitude(a),
            ud >= 0 ==> 0 <= e < s,
            ud <= 0 ==> -s < e <= 0,
            ud < 0 <==> a < 0,
            ud > 0 <==> a > 0,
    ;
    assert(p * (s * s) == (a * a) * b - eu - s * (cu - p * s)) by (nonlinear_arith)
        requires
            e == a * b - c * s,
            eu == e * a,
            cu == c * a,
    ;
    assert(0 <= s * (cu - p * s) < s * s) by (nonlinear_arith)
        requires
            0 <= cu - p * s < s,
            s > 0,
    ;
    // The square.
    let cc = c * c;
    assert(0 <= cc <= 0x8000_0000_0000 * 0x8000_0000_0000) by (nonlinear_arith)
        requires
            cc == c * c,
            magnitude(c) <= 0x8000_0000_0000,
    ;
    lemma_quotient_rounds_toward_zero(cc, s);
    let m = quotient(cc, s);
    assert(0 <= m <= 0x4000_0000_0000_0000) by (nonlinear_arith)
        requires
            0 <= cc - m * s < s,
            0 <= cc <= 0x8000_0000_0000 * 0x8000_0000_0000,
            s == 0x1_0000_0000,
    ;
    assert(u.spec_mul(d).spec_mul(u.spec_mul(d)).raw == m);
    lemma_rounded_square(ud, c * s, s);
    assert((c * s) * (c * s) == cc * (s * s)) by (nonlinear_arith)
        requires
            cc == c * c,
    ;
    assert(ud * ud == (a * a) * (b * b)) by (nonlinear_arith)
        requires
            ud == a * b,
    ;
    assert(m * (s * s * s) == cc * (s * s) - (cc - m * s) * (s * s)) by (nonlinear_arith);
    assert(0 <= (cc - m * s) * (s * s) < s * s * s) by (nonlinear_arith)
        requires
            0 <= cc - m * s < s,
            s > 0,
    ;
    assert(2 * magnitude(ud) * s == 2 * (ma * b) * s);
}

/// The direction has unit length to within 32 steps of 2^-32 in its
/// square, as a vector brought to unit length has.
pub open spec fn near_unit(direction: Vector3) -> bool {
    SCALE * SCALE - 32 * SCALE <= direction.squares() <= SCALE * SCALE + 32 * SCALE
}

/// A vector of a length of a half or more, within reach, brought to unit
/// length is a direction of unit length in the sense of `near_unit`.
pub proof fn lemma_normalized_is_near_unit(v: Vector3)
    requires
        v.within_reach(),
        v.spec_length().raw >= 0x8000_0000,
    ensures
        near_unit(v.spec_normalize()),
{
    lemma_normalize_unit(v);
}

/// The ray starts at the origin and the centre of the sphere is the place
/// that lies `d` along the ray.
pub open spec fn aimed(sphere: Sphere, ray: Ray, d: Fixed) -> bool {
    &&& ray.origin == Point::spec_zero()
    &&& near_unit(ray.direction)
    &&& 0 < d.raw <= AIM_REACH
    &&& sphere.center == Point::spec_zero().spec_add(ray.direction.spec_mul(d))
}

/// No component of a direction of unit length exceeds two.
proof fn lemma_unit_component(c: int, rest: int)
    requires
        c * c + rest <= SCALE * SCALE + 32 * SCALE,
        rest >= 0,
    ensures
        -2 * SCALE <= c <= 2 * SCALE,
{
    let m = magnitude(c);
    assert(m * m == c * c) by (nonlinear_arith)
        requires
            m == magnitude(c),
    ;
    if m > 2 * SCALE {
        lemma_square_monotone(2 * SCALE, m);
        assert((2 * SCALE) * (2 * SCALE) > SCALE * SCALE + 32 * SCALE) by (nonlinear_arith)
            requires
                SCALE == 0x1_0000_0000,
        ;
    }
}

/// Where a ray is aimed at the centre of a sphere that lies `d` along it, the
/// foot of the perpendicular from the centre lies `d` along the ray and the
/// ray's line passes through the centre, up to rounding. With `f` the raw
/// distance of the foot and `o` the raw squared distance at which the line
/// passes the centre: `f` differs from `d` by at most the share `32 / SCALE`
/// of it and nine steps, and `o` times the square of `SCALE` is at most `97
/// d^2 + 18 SCALE d + 3 SCALE^2` in magnitude.
pub proof fn lemma_aimed_line(sphere: Sphere, ray: Ray, d: Fixed)
    requires
        aimed(sphere, ray, d),
    ensures
        sphere.foot(ray).raw * SCALE <= d.raw * (SCALE + 32),
        sphere.foot(ray).raw * SCALE > d.raw * (SCALE - 32) - 9 * SCALE,
        sphere.foot(ray).raw >= 0,
        sphere.offset_squared(ray).raw * (SCALE * SCALE) <= 97 * (d.raw * d.raw) + 18 * SCALE
            * d.raw + 3 * (SCALE * SCALE),
        sphere.offset_squared(ray).raw * (SCALE * SCALE) >= -(97 * (d.raw * d.raw) + 18 * SCALE
            * d.raw + 3 * (SCALE * SCALE)),
{
    let s: int = 0x1_0000_0000;
    let u = ray.direction;
    let b = d.raw as int;
    let (ax, ay, az) = (u.x.raw as int, u.y.raw as int, u.z.raw as int);
    let uu = u.squares();
    assert(ax * ax >= 0 && ay * ay >= 0 && az * az >= 0) by (nonlinear_arith);
    lemma_unit_component(ax, ay * ay + az * az);
    lemma_unit_component(ay, ax * ax + az * az);
    lemma_unit_component(az, ax * ax + ay * ay);
    lemma_aimed_component(u.x, d);
    lemma_aimed_component(u.y, d);
    lemma_aimed_component(u.z, d);
    let c = u.spec_mul(d);
    let os = sphere.center.spec_sub(ray.origin);
    assert(os == c);
    let (px, py, pz) = (c.x.spec_mul(u.x).raw as int, c.y.spec_mul(u.y).raw as int, c.z.spec_mul(
        u.z,
    ).raw as int);
    let (mx, my, mz) = (c.x.spec_mul(c.x).raw as int, c.y.spec_mul(c.y).raw as int, c.z.spec_mul(
        c.z,
    ).raw as int);
    let ss = s * s;
    let sss = s * s * s;
    let a1 = magnitude(ax) + magnitude(ay) + magnitude(az);
    assert(0 <= a1 <= 6 * s);
    // The foot.
    let psum = px + py + pz;
    assert(psum * ss == px * ss + py * ss + pz * ss) by (nonlinear_arith)
        requires
            psum == px + py + pz,
    ;
    assert(uu * b == (ax * ax) * b + (ay * ay) * b + (az * az) * b) by (nonlinear_arith)
        requires
            uu == ax * ax + ay * ay + az * az,
    ;
    assert(s * a1 == s * magnitude(ax) + s * magnitude(ay) + s * magnitude(az))
        by (nonlinear_arith)
        requires
            a1 == magnitude(ax) + magnitude(ay) + magnitude(az),
    ;
    assert(psum * ss <= uu * b && psum * ss > uu * b - s * a1 - 3 * ss);
    assert(uu * b <= (ss + 32 * s) * b && uu * b >= (ss - 32 * s) * b) by (nonlinear_arith)
        requires
            ss - 32 * s <= uu <= ss + 32 * s,
            b > 0,
    ;
    assert(psum * s <= b * (s + 32) && psum * s > b * (s - 32) - 9 * s) by (nonlinear_arith)
        requires
            psum * ss <= (ss + 32 * s) * b,
            psum * ss > (ss - 32 * s) * b - s * a1 - 3 * ss,
            a1 <= 6 * s,
            ss == s * s,
            s == 0x1_0000_0000,
    ;
    assert(0 <= psum <= 0x4000_0000_0000) by (nonlinear_arith)
        requires
            psum == px + py + pz,
            px >= 0 && py >= 0 && pz >= 0,
            psum * s <= b * (s + 32),
            0 < b <= 0x2000_0000_0000,
            s == 0x1_0000_0000,
    ;
    let f = sphere.foot(ray).raw as int;
    assert(f == psum);
    // The squared distance of the centre.
    let msum = mx + my + mz;
    let a2 = (magnitude(ax) * b) + (magnitude(ay) * b) + (magnitude(az) * b);
    assert(a2 == a1 * b) by (nonlinear_arith)
        requires
            a2 == (magnitude(ax) * b) + (magnitude(ay) * b) + (magnitude(az) * b),
            a1 == magnitude(ax) + magnitude(ay) + magnitude(az),
    ;
    let bb = b * b;
    assert(msum * sss == mx * sss + my * sss + mz * sss) by (nonlinear_arith)
        requires
            msum == mx + my + mz,
    ;
    assert(uu * bb == (ax * ax) * bb + (ay * ay) * bb + (az * az) * bb) by (nonlinear_arith)
        requires
            uu == ax * ax + ay * ay + az * az,
    ;
    assert(2 * a2 * s == 2 * (magnitude(ax) * b) * s + 2 * (magnitude(ay) * b) * s + 2 * (
    magnitude(az) * b) * s) by (nonlinear_arith)
        requires
            a2 == (magnitude(ax) * b) + (magnitude(ay) * b) + (magnitude(az) * b),
    ;
    assert(msum * sss <= uu * bb && msum * sss > uu * bb - 2 * a2 * s - 3 * sss);
    assert(0 < bb <= 0x2000_0000_0000 * 0x2000_0000_0000) by (nonlinear_arith)
        requires
            bb == b * b,
            0 < b <= 0x2000_0000_0000,
    ;
    assert(uu * bb <= (ss + 32 * s) * bb && uu * bb >= (ss - 32 * s) * bb) by (nonlinear_arith)
        requires
            ss - 32 * s <= uu <= ss + 32 * s,
            bb > 0,
    ;
    assert(2 * a2 * s <= 12 * ss * b) by (nonlinear_arith)
        requires
            a2 == a1 * b,
            0 <= a1 <= 6 * s,
            b > 0,
            ss == s * s,
            s > 0,
    ;
    assert(0 <= msum <= 0x2000_0000_0000_0000) by (nonlinear_arith)
        requires
            msum == mx + my + mz,
            mx >= 0 && my >= 0 && mz >= 0,
            msum * sss <= (ss + 32 * s) * bb,
            bb <= 0x2000_0000_0000 * 0x2000_0000_0000,
            sss == s * s * s,
            ss == s * s,
            s == 0x1_0000_0000,
    ;
    let n = os.spec_dot(os).raw as int;
    assert(n == msum);
    // The square of the foot.
    lemma_square_rounds_down(sphere.foot(ray));
    let ff = sphere.foot(ray).spec_mul(sphere.foot(ray)).raw as int;
    assert(ff * s <= f * f && ff * s > f * f - s);
    let o = sphere.offset_squared(ray).raw as int;
    assert(o == n - ff);
    let fs = f * s;
    assert(fs * fs == (f * f) * ss) by (nonlinear_arith)
        requires
            fs == f * s,
            ss == s * s,
    ;
    assert(ff * sss <= fs * fs && ff * sss > fs * fs - sss) by (nonlinear_arith)
        requires
            ff * s <= f * f,
            ff * s > f * f - s,
            fs * fs == (f * f) * ss,
            sss == s * s * s,
            ss == s * s,
            s > 0,
    ;
    let hi = b * (s + 32);
    assert(fs * fs <= hi * hi) by {
        lemma_square_monotone(fs, hi);
    }
    assert(hi * hi == bb * (ss + 64 * s + 1024)) by (nonlinear_arith)
        requires
            hi == b * (s + 32),
            bb == b * b,
            ss == s * s,
    ;
    assert(fs * fs >= bb * (ss - 64 * s) - 18 * ss * b) by {
        let lo = b * (s - 32) - 9 * s;
        assert(lo * lo >= bb * (ss - 64 * s) - 18 * ss * b) by (nonlinear_arith)
            requires
                lo == b * (s - 32) - 9 * s,
                bb == b * b,
                ss == s * s,
                b > 0,
                s == 0x1_0000_0000,
        ;
        if lo >= 0 {
            lemma_square_monotone(lo, fs);
        } else {
            assert(bb * (ss - 64 * s) - 18 * ss * b <= 0) by (nonlinear_arith)
                requires
                    b * (s - 32) - 9 * s < 0,
                    bb == b * b,
                    ss == s * s,
                    b > 0,
                    s == 0x1_0000_0000,
            ;
            assert(fs * fs >= 0) by (nonlinear_arith);
        }
    }
    assert(o * sss == n * sss - ff * sss) by (nonlinear_arith)
        requires
            o == n - ff,
    ;
    assert(1024 * bb <= s * bb) by (nonlinear_arith)
        requires
            bb > 0,
            s == 0x1_0000_0000,
    ;
    assert(o * ss <= 97 * bb + 18 * s * b + 3 * ss && o * ss >= -(97 * bb + 18 * s * b + 3 * ss))
        by (nonlinear_arith)
        requires
            o * sss <= (ss + 32 * s) * bb - (bb * (ss - 64 * s) - 18 * ss * b) + sss,
            o * sss >= (ss - 32 * s) * bb - 12 * ss * b - 3 * sss - bb * (ss + 64 * s + 1024),
            1024 * bb <= s * bb,
            sss == s * s * s,
            ss == s * s,
            s == 0x1_0000_0000,
            bb > 0,
            b > 0,
    ;
}

/// A ray from the origin aimed in any direction of unit length at the centre
/// of a sphere that lies `d` along it hits the sphere at `d` less the radius,
/// up to a rounding that grows with the distance and as the sphere shrinks.
/// With `f` the raw distance of the foot of the perpendicular from the centre,
/// `r` the raw radius and `t` the raw distance of the hit: `f` differs from `d`
/// by at most the share `32 / SCALE` of it and nine steps; the square of `f - t`
/// is at most the square of `r` and `slack` times `SCALE`, and the square of
/// `f - t + 1` is more than the square of `r` less `SCALE` and `slack` times
/// `SCALE`. Here `slack` is any number that covers the rounding of the line,
/// `(97 d^2 + 18 SCALE d + 3 SCALE^2) / SCALE^2`. The law holds where the
/// sphere is not so small and not so near that this rounding hides it.
pub proof fn lemma_hit_aimed(sphere: Sphere, ray: Ray, d: Fixed, slack: int)
    requires
        aimed(sphere, ray, d),
        0 < sphere.radius.raw <= 0x4000_0000_0000,
        slack * (SCALE * SCALE) >= 97 * (d.raw * d.raw) + 18 * SCALE * d.raw + 3 * (SCALE * SCALE),
        slack <= sphere.radius.spec_mul(sphere.radius).raw,
        d.raw * (SCALE - 32) - 9 * SCALE >= 0,
        (d.raw * (SCALE - 32) - 9 * SCALE) * (d.raw * (SCALE - 32) - 9 * SCALE) >= (
        sphere.radius.raw * sphere.radius.raw + slack * SCALE) * (SCALE * SCALE),
    ensures
        sphere.hit(ray) is Some,
        0 < sphere.hit(ray)->0.raw <= sphere.foot(ray).raw,
        sphere.foot(ray).raw * SCALE <= d.raw * (SCALE + 32),
        sphere.foot(ray).raw * SCALE > d.raw * (SCALE - 32) - 9 * SCALE,
        (sphere.foot(ray).raw - sphere.hit(ray)->0.raw) * (sphere.foot(ray).raw - sphere.hit(
            ray,
        )->0.raw) <= sphere.radius.raw * sphere.radius.raw + slack * SCALE,
        (sphere.foot(ray).raw - sphere.hit(ray)->0.raw + 1) * (sphere.foot(ray).raw
            - sphere.hit(ray)->0.raw + 1) > sphere.radius.raw * sphere.radius.raw - SCALE - slack
            * SCALE,
{
    let s: int = 0x1_0000_0000;
    let ss = s * s;
    let b = d.raw as int;
    let r = sphere.radius.raw as int;
    let f = sphere.foot(ray).raw as int;
    let o = sphere.offset_squared(ray).raw as int;
    lemma_aimed_line(sphere, ray, d);
    assert(-slack <= o <= slack) by (nonlinear_arith)
        requires
            o * ss <= slack * ss,
            o * ss >= -(slack * ss),
            ss > 0,
    ;
    let lo = b * (s - 32) - 9 * s;
    let fs = f * s;
    assert(fs > lo && lo >= 0);
    lemma_square_monotone(lo + 1, fs);
    assert((lo + 1) * (lo + 1) > lo * lo) by (nonlinear_arith)
        requires
            lo >= 0,
    ;
    assert(fs * fs == (f * f) * ss) by (nonlinear_arith)
        requires
            fs == f * s,
            ss == s * s,
    ;
    assert(r * r + slack * s < f * f) by (nonlinear_arith)
        requires
            (f * f) * ss > (r * r + slack * s) * ss,
            ss > 0,
    ;
    assert(f > 0) by (nonlinear_arith)
        requires
            f * s > lo,
            lo >= 0,
            s > 0,
    ;
    lemma_hit_through_centre(sphere, ray, slack);
}

} // verus!
