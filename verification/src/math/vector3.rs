//! Free vectors: directions and displacements.
use crate::fixed::{
    lemma_quotient_bounded, lemma_quotient_rounds_toward_zero, lemma_sqrt_is_root,
    lemma_square_monotone, magnitude, quotient, Fixed, SCALE,
};
use core::ops::Neg;
use vstd::arithmetic::div_mod::{lemma_fundamental_div_mod, lemma_mod_bound};
use vstd::prelude::*;

verus! {

/// A vector with three fixed-point components.
#[derive(Clone, Copy, Debug, PartialEq, Eq, Structural)]
pub struct Vector3 {
    pub x: Fixed,
    pub y: Fixed,
    pub z: Fixed,
}

impl Vector3 {
    /// The vector whose components are all zero.
    pub open spec fn spec_zero() -> Vector3 {
        Vector3 { x: Fixed { raw: 0 }, y: Fixed { raw: 0 }, z: Fixed { raw: 0 } }
    }

    /// The sum of the products of matching components.
    pub open spec fn spec_dot(self, other: Vector3) -> Fixed {
        self.x.spec_mul(other.x).spec_add(self.y.spec_mul(other.y)).spec_add(
            self.z.spec_mul(other.z),
        )
    }

    /// The right-handed cross product.
    pub open spec fn spec_cross(self, other: Vector3) -> Vector3 {
        Vector3 {
            x: self.y.spec_mul(other.z).spec_sub(self.z.spec_mul(other.y)),
            y: self.z.spec_mul(other.x).spec_sub(self.x.spec_mul(other.z)),
            z: self.x.spec_mul(other.y).spec_sub(self.y.spec_mul(other.x)),
        }
    }

    /// The squared length.
    pub open spec fn spec_norm(self) -> Fixed {
        self.spec_dot(self)
    }

    /// The length: the square root of the squared length.
    pub open spec fn spec_length(self) -> Fixed {
        self.spec_norm().spec_sqrt()
    }

    /// Every component divided by the length. A vector too short to have a
    /// length other than zero has no direction: it gives the zero vector.
    pub open spec fn spec_normalize(self) -> Vector3 {
        let len = self.spec_length();
        if len.raw == 0 {
            Vector3::spec_zero()
        } else {
            Vector3 { x: self.x.spec_div(len), y: self.y.spec_div(len), z: self.z.spec_div(len) }
        }
    }

    /// No component exceeds `bound` in magnitude.
    pub open spec fn within(self, bound: int) -> bool {
        &&& -bound <= self.x.raw <= bound
        &&& -bound <= self.y.raw <= bound
        &&& -bound <= self.z.raw <= bound
    }

    /// Every component is at most `NORMALIZE_REACH` in magnitude.
    pub open spec fn within_reach(self) -> bool {
        &&& -NORMALIZE_REACH <= self.x.raw <= NORMALIZE_REACH
        &&& -NORMALIZE_REACH <= self.y.raw <= NORMALIZE_REACH
        &&& -NORMALIZE_REACH <= self.z.raw <= NORMALIZE_REACH
    }

    /// The sum of the squares of the raw components, as an integer.
    pub open spec fn squares(self) -> int {
        self.x.raw * self.x.raw + self.y.raw * self.y.raw + self.z.raw * self.z.raw
    }

    /// The sum, component by component.
    pub open spec fn spec_add(self, rhs: Vector3) -> Vector3 {
        Vector3 {
            x: self.x.spec_add(rhs.x),
            y: self.y.spec_add(rhs.y),
            z: self.z.spec_add(rhs.z),
        }
    }

    /// The difference, component by component.
    pub open spec fn spec_sub(self, rhs: Vector3) -> Vector3 {
        Vector3 {
            x: self.x.spec_sub(rhs.x),
            y: self.y.spec_sub(rhs.y),
            z: self.z.spec_sub(rhs.z),
        }
    }

    /// Every component multiplied by `rhs`.
    pub open spec fn spec_mul(self, rhs: Fixed) -> Vector3 {
        Vector3 {
            x: self.x.spec_mul(rhs),
            y: self.y.spec_mul(rhs),
            z: self.z.spec_mul(rhs),
        }
    }

    /// The opposite vector.
    pub open spec fn spec_neg(self) -> Vector3 {
        Vector3 { x: self.x.spec_neg(), y: self.y.spec_neg(), z: self.z.spec_neg() }
    }

    /// The vector whose components are all zero.
    pub fn zero() -> (r: Vector3)
        ensures
            r == Vector3::spec_zero(),
    {
        Vector3 { x: Fixed { raw: 0 }, y: Fixed { raw: 0 }, z: Fixed { raw: 0 } }
    }

    /// The vector with the given components.
    pub fn new(x: Fixed, y: Fixed, z: Fixed) -> (r: Vector3)
        ensures
            r == (Vector3 { x, y, z }),
    {
        Vector3 { x, y, z }
    }

    /// The sum of the products of matching components.
    pub fn dot(&self, other: &Vector3) -> (r: Fixed)
        ensures
            r == self.spec_dot(*other),
    {
        self.x * other.x + self.y * other.y + self.z * other.z
    }

    /// The right-handed cross product.
    pub fn cross(&self, other: &Vector3) -> (r: Vector3)
        ensures
            r == self.spec_cross(*other),
    {
        Vector3 {
            x: self.y * other.z - self.z * other.y,
            y: self.z * other.x - self.x * other.z,
            z: self.x * other.y - self.y * other.x,
        }
    }

    /// The squared length.
    pub fn norm(&self) -> (r: Fixed)
        ensures
            r == self.spec_norm(),
    {
        self.dot(self)
    }

    /// The length.
    pub fn length(&self) -> (r: Fixed)
        ensures
            r == self.spec_length(),
    {
        self.norm().sqrt()
    }

    /// The vector of unit length in the same direction.
    pub fn normalize(&self) -> (r: Vector3)
        ensures
            r == self.spec_normalize(),
    {
        let len = self.length();
        if len.raw == 0 {
            Vector3::zero()
        } else {
            Vector3 { x: self.x / len, y: self.y / len, z: self.z / len }
        }
    }
}

/// The largest raw magnitude of a component for which the laws of
/// `normalize` are stated: 2^46, the number 16384.
pub const NORMALIZE_REACH: i64 = 0x4000_0000_0000;

/// The square of a component within reach is rounded down by less than one
/// step and does not saturate.
pub proof fn lemma_square_rounds_down(c: Fixed)
    requires
        -NORMALIZE_REACH <= c.raw <= NORMALIZE_REACH,
    ensures
        c.spec_mul(c).raw == (c.raw * c.raw) / (SCALE as int),
        0 <= (c.raw * c.raw) / (SCALE as int) <= 0x1000_0000_0000_0000,
        ((c.raw * c.raw) / (SCALE as int)) * SCALE <= c.raw * c.raw,
        c.raw * c.raw < ((c.raw * c.raw) / (SCALE as int)) * SCALE + SCALE,
{
    let scale = SCALE as int;
    let a = c.raw as int;
    assert(0 <= a * a <= 0x4000_0000_0000 * 0x4000_0000_0000) by (nonlinear_arith)
        requires
            -0x4000_0000_0000 <= a <= 0x4000_0000_0000,
    ;
    lemma_fundamental_div_mod(a * a, scale);
    lemma_mod_bound(a * a, scale);
    let m = (a * a) / scale;
    assert(m * scale == scale * m) by (nonlinear_arith);
    assert(0 <= m <= 0x1000_0000_0000_0000) by (nonlinear_arith)
        requires
            a * a == scale * m + (a * a) % scale,
            0 <= (a * a) % scale < scale,
            0 <= a * a <= 0x4000_0000_0000 * 0x4000_0000_0000,
            scale == 0x1_0000_0000,
    ;
}

/// The length of a vector within reach brackets the true length: its
/// square is at most the sum of the squares of the components, which is less
/// than the square of the next length plus three steps.
pub proof fn lemma_length_brackets(v: Vector3)
    requires
        v.within_reach(),
        v.spec_length().raw > 0,
    ensures
        v.spec_length().raw * v.spec_length().raw <= v.squares(),
        v.squares() < (v.spec_length().raw + 1) * (v.spec_length().raw + 1) + 3 * SCALE,
{
    let scale = SCALE as int;
    let l = v.spec_length().raw as int;
    lemma_square_rounds_down(v.x);
    lemma_square_rounds_down(v.y);
    lemma_square_rounds_down(v.z);
    let n = v.spec_norm().raw as int;
    let mx = (v.x.raw * v.x.raw) / scale;
    let my = (v.y.raw * v.y.raw) / scale;
    let mz = (v.z.raw * v.z.raw) / scale;
    assert(n == mx + my + mz);
    assert(n * scale == mx * scale + my * scale + mz * scale) by (nonlinear_arith)
        requires
            n == mx + my + mz,
    ;
    assert(n > 0);
    lemma_sqrt_is_root(v.spec_norm());
}

/// A component that is not much longer than the length does not saturate
/// when it is divided by the length. Multiplied back by the length it is the
/// component itself, scaled, up to what rounding toward zero took away.
proof fn lemma_normalized_component(c: Fixed, len: Fixed)
    requires
        len.raw > 0,
        magnitude(c.raw * SCALE) <= 0x2_0000_0000_0000 * len.raw,
    ensures
        c.spec_div(len).raw == quotient(c.raw * SCALE, len.raw as int),
        c.raw >= 0 ==> 0 <= c.raw * SCALE - c.spec_div(len).raw * len.raw < len.raw,
        c.raw <= 0 ==> -len.raw < c.raw * SCALE - c.spec_div(len).raw * len.raw <= 0,
        c.raw >= 0 ==> c.spec_div(len).raw >= 0,
        c.raw <= 0 ==> c.spec_div(len).raw <= 0,
{
    let scale = SCALE as int;
    let a = c.raw as int;
    let l = len.raw as int;
    let q = quotient(a * scale, l);
    assert(a >= 0 ==> a * scale >= 0) by (nonlinear_arith)
        requires
            scale > 0,
    ;
    assert(a <= 0 ==> a * scale <= 0) by (nonlinear_arith)
        requires
            scale > 0,
    ;
    lemma_quotient_rounds_toward_zero(a * scale, l);
    assert(a >= 0 ==> q >= 0) by (nonlinear_arith)
        requires
            a >= 0 ==> 0 <= a * scale - q * l < l,
            a >= 0 ==> a * scale >= 0,
            l > 0,
    ;
    assert(a <= 0 ==> q <= 0) by (nonlinear_arith)
        requires
            a <= 0 ==> -l < a * scale - q * l <= 0,
            a <= 0 ==> a * scale <= 0,
            l > 0,
    ;
    lemma_quotient_bounded(a * scale, l, 0x2_0000_0000_0000);
}

/// A component whose square is no more than the squared length `norm` is
/// not much longer than the length: scaled, it is at most 2^49 times the
/// length in magnitude.
proof fn lemma_component_short(c: Fixed, norm: Fixed)
    requires
        norm.raw >= c.spec_mul(c).raw,
        norm.spec_sqrt().raw > 0,
    ensures
        magnitude(c.raw * SCALE) <= 0x2_0000_0000_0000 * norm.spec_sqrt().raw,
{
    let scale: int = 0x1_0000_0000;
    let a = magnitude(c.raw as int);
    let l = norm.spec_sqrt().raw as int;
    let n = norm.raw as int;
    let sq = c.raw * c.raw;
    assert(sq == a * a && sq >= 0) by (nonlinear_arith)
        requires
            sq == c.raw * c.raw,
            a == magnitude(c.raw as int),
    ;
    assert(magnitude(c.raw * SCALE) == a * scale) by (nonlinear_arith)
        requires
            a == magnitude(c.raw as int),
            SCALE == 0x1_0000_0000,
            scale == 0x1_0000_0000,
    ;
    lemma_sqrt_is_root(norm);
    lemma_fundamental_div_mod(sq, scale);
    lemma_mod_bound(sq, scale);
    let m = sq / scale;
    assert(m >= 0 && m * scale > sq - scale) by (nonlinear_arith)
        requires
            sq == scale * m + sq % scale,
            0 <= sq % scale < scale,
            sq >= 0,
            scale == 0x1_0000_0000,
    ;
    if m <= i64::MAX {
        assert(n >= m);
        assert(n * scale >= m * scale) by (nonlinear_arith)
            requires
                n >= m,
                scale > 0,
        ;
        let top = l + 1 + 0x1_0000;
        assert(top * top >= (l + 1) * (l + 1) + scale) by (nonlinear_arith)
            requires
                top == l + 1 + 0x1_0000,
                l > 0,
                scale == 0x1_0000_0000,
        ;
        if a >= top {
            lemma_square_monotone(top, a);
        }
        assert(a * scale <= 0x2_0000_0000_0000 * l) by (nonlinear_arith)
            requires
                a <= l + 0x1_0000,
                l >= 1,
                a >= 0,
                scale == 0x1_0000_0000,
        ;
    } else {
        assert(n == i64::MAX);
        assert(n * scale >= 0x8000_0000_0000 * 0x8000_0000_0000) by (nonlinear_arith)
            requires
                n == 0x7fff_ffff_ffff_ffff,
                scale == 0x1_0000_0000,
        ;
        if l + 1 <= 0x8000_0000_0000 {
            lemma_square_monotone(l + 1, 0x8000_0000_0000);
        }
        assert(a * scale <= 0x2_0000_0000_0000 * l) by (nonlinear_arith)
            requires
                0 <= a <= 0x8000_0000_0000_0000,
                l >= 0x8000_0000_0000,
                scale == 0x1_0000_0000,
        ;
    }
}

/// No component of a vector that has a length is much longer than the
/// length: scaled, each is at most 2^49 times the length in magnitude.
proof fn lemma_components_short(v: Vector3)
    requires
        v.spec_length().raw != 0,
    ensures
        v.spec_length().raw > 0,
        magnitude(v.x.raw * SCALE) <= 0x2_0000_0000_0000 * v.spec_length().raw,
        magnitude(v.y.raw * SCALE) <= 0x2_0000_0000_0000 * v.spec_length().raw,
        magnitude(v.z.raw * SCALE) <= 0x2_0000_0000_0000 * v.spec_length().raw,
{
    let norm = v.spec_norm();
    if norm.raw > 0 {
        lemma_sqrt_is_root(norm);
    }
    lemma_square_not_negative(v.x);
    lemma_square_not_negative(v.y);
    lemma_square_not_negative(v.z);
    lemma_component_short(v.x, norm);
    lemma_component_short(v.y, norm);
    lemma_component_short(v.z, norm);
}

/// No component of a vector brought to unit length exceeds 2^49 in
/// magnitude, whatever the vector.
pub proof fn lemma_normalize_bounded(v: Vector3)
    ensures
        v.spec_normalize().within(0x2_0000_0000_0000),
{
    let len = v.spec_length();
    if len.raw != 0 {
        lemma_components_short(v);
        lemma_quotient_bounded(v.x.raw * SCALE, len.raw as int, 0x2_0000_0000_0000);
        lemma_quotient_bounded(v.y.raw * SCALE, len.raw as int, 0x2_0000_0000_0000);
        lemma_quotient_bounded(v.z.raw * SCALE, len.raw as int, 0x2_0000_0000_0000);
    }
}

/// The square of a number is not negative.
proof fn lemma_square_not_negative(c: Fixed)
    ensures
        c.spec_mul(c).raw >= 0,
{
    assert(c.raw * c.raw >= 0) by (nonlinear_arith);
    assert(magnitude(c.raw * c.raw) <= (c.raw * c.raw) * SCALE) by (nonlinear_arith)
        requires
            c.raw * c.raw >= 0,
            SCALE == 0x1_0000_0000,
    ;
    lemma_quotient_bounded(c.raw * c.raw, SCALE as int, c.raw * c.raw);
}

/// The square of a number rounded toward zero by less than `l` is at most
/// the square of the number, and less than it by at most twice the number's
/// magnitude times `l`.
pub proof fn lemma_rounded_square(p: int, t: int, l: int)
    requires
        l > 0,
        p >= 0 ==> 0 <= p - t < l && t >= 0,
        p <= 0 ==> -l < p - t <= 0 && t <= 0,
    ensures
        t * t <= p * p,
        t * t >= p * p - 2 * magnitude(p) * l,
{
    let m = magnitude(p);
    let u = magnitude(t);
    assert(t * t == u * u && p * p == m * m) by (nonlinear_arith)
        requires
            u == magnitude(t),
            m == magnitude(p),
    ;
    assert(0 <= u <= m && m - u < l);
    lemma_square_monotone(u, m);
    if m >= l {
        lemma_square_monotone(m - l, u);
        assert((m - l) * (m - l) == m * m - 2 * m * l + l * l) by (nonlinear_arith);
        assert(l * l >= 0) by (nonlinear_arith);
    } else {
        assert(m * m - 2 * m * l <= 0) by (nonlinear_arith)
            requires
                0 <= m < l,
        ;
        assert(u * u >= 0) by (nonlinear_arith);
    }
}

/// The square of a normalized component, multiplied back by the length, is
/// at most the square of the scaled component, and less than it by at most
/// twice the component's magnitude times `SCALE` times the length.
proof fn lemma_component_square(c: Fixed, len: Fixed)
    requires
        len.raw > 0,
        magnitude(c.raw * SCALE) <= 0x2_0000_0000_0000 * len.raw,
    ensures
        (c.spec_div(len).raw * len.raw) * (c.spec_div(len).raw * len.raw) <= (c.raw * SCALE) * (
        c.raw * SCALE),
        (c.spec_div(len).raw * len.raw) * (c.spec_div(len).raw * len.raw) >= (c.raw * SCALE) * (
        c.raw * SCALE) - 2 * (magnitude(c.raw as int) * SCALE) * len.raw,
{
    let scale = SCALE as int;
    let l = len.raw as int;
    let a = c.raw as int;
    let q = c.spec_div(len).raw as int;
    lemma_normalized_component(c, len);
    assert((a >= 0 ==> a * scale >= 0) && (a <= 0 ==> a * scale <= 0) && (a * scale >= 0 ==> a >= 0)
        && (a * scale <= 0 ==> a <= 0)) by (nonlinear_arith)
        requires
            scale > 0,
    ;
    assert((q >= 0 ==> q * l >= 0) && (q <= 0 ==> q * l <= 0)) by (nonlinear_arith)
        requires
            l > 0,
    ;
    assert(magnitude(a * scale) == magnitude(a) * scale) by (nonlinear_arith)
        requires
            scale > 0,
    ;
    lemma_rounded_square(a * scale, q * l, l);
}

/// A vector brought to unit length has unit length up to rounding: the
/// squares of its raw components add up to the square of `SCALE`, give or take
/// sixteen times `SCALE` and 48, where the vector lies within reach and is at
/// least a half long.
pub proof fn lemma_normalize_unit(v: Vector3)
    requires
        v.within_reach(),
        v.spec_length().raw >= 0x8000_0000,
    ensures
        SCALE * SCALE - 16 * SCALE - 48 <= v.spec_normalize().squares(),
        v.spec_normalize().squares() <= SCALE * SCALE + 16 * SCALE + 48,
{
    let scale: int = 0x1_0000_0000;
    let len = v.spec_length();
    let l = len.raw as int;
    let n = v.spec_normalize();
    let (ax, ay, az) = (v.x.raw as int, v.y.raw as int, v.z.raw as int);
    let (nx, ny, nz) = (n.x.raw as int, n.y.raw as int, n.z.raw as int);
    lemma_length_brackets(v);
    lemma_components_short(v);
    lemma_component_square(v.x, len);
    lemma_component_square(v.y, len);
    lemma_component_square(v.z, len);
    let q = v.squares();
    let x = n.squares();
    let top = (nx * l) * (nx * l) + (ny * l) * (ny * l) + (nz * l) * (nz * l);
    let full = (ax * scale) * (ax * scale) + (ay * scale) * (ay * scale) + (az * scale) * (az
        * scale);
    assert(top == x * (l * l)) by (nonlinear_arith)
        requires
            top == (nx * l) * (nx * l) + (ny * l) * (ny * l) + (nz * l) * (nz * l),
            x == nx * nx + ny * ny + nz * nz,
    ;
    assert(full == q * (scale * scale)) by (nonlinear_arith)
        requires
            full == (ax * scale) * (ax * scale) + (ay * scale) * (ay * scale) + (az * scale) * (az
                * scale),
            q == ax * ax + ay * ay + az * az,
    ;
    let ll = l * l;
    assert(ll >= 0x8000_0000 * 0x8000_0000) by (nonlinear_arith)
        requires
            ll == l * l,
            l >= 0x8000_0000,
    ;
    // From above.
    assert(top <= full);
    assert((l + 1) * (l + 1) == ll + 2 * l + 1) by (nonlinear_arith)
        requires
            ll == l * l,
    ;
    assert(q * (scale * scale) <= (ll + 2 * l + 3 * scale) * (scale * scale)) by (nonlinear_arith)
        requires
            q < ll + 2 * l + 1 + 3 * scale,
            scale == 0x1_0000_0000,
    ;
    assert(2 * l * (scale * scale) <= 4 * scale * ll) by (nonlinear_arith)
        requires
            ll == l * l,
            scale <= 2 * l,
            scale == 0x1_0000_0000,
    ;
    assert(3 * scale * (scale * scale) <= 12 * scale * ll) by (nonlinear_arith)
        requires
            ll == l * l,
            scale <= 2 * l,
            scale == 0x1_0000_0000,
            l > 0,
    ;
    assert(x * ll <= (scale * scale + 16 * scale) * ll) by (nonlinear_arith)
        requires
            x * ll <= (ll + 2 * l + 3 * scale) * (scale * scale),
            2 * l * (scale * scale) <= 4 * scale * ll,
            3 * scale * (scale * scale) <= 12 * scale * ll,
            scale == 0x1_0000_0000,
    ;
    assert(x <= scale * scale + 16 * scale) by (nonlinear_arith)
        requires
            x * ll <= (scale * scale + 16 * scale) * ll,
            ll > 0,
    ;
    // From below.
    let (mx, my, mz) = (magnitude(ax), magnitude(ay), magnitude(az));
    assert(mx * mx == ax * ax && my * my == ay * ay && mz * mz == az * az) by (nonlinear_arith)
        requires
            mx == magnitude(ax),
            my == magnitude(ay),
            mz == magnitude(az),
    ;
    assert(ax * ax >= 0 && ay * ay >= 0 && az * az >= 0) by (nonlinear_arith);
    assert((l + 4) * (l + 4) == ll + 8 * l + 16) by (nonlinear_arith)
        requires
            ll == l * l,
    ;
    assert(q < (l + 4) * (l + 4));
    if mx >= l + 4 {
        lemma_square_monotone(l + 4, mx);
    }
    if my >= l + 4 {
        lemma_square_monotone(l + 4, my);
    }
    if mz >= l + 4 {
        lemma_square_monotone(l + 4, mz);
    }
    let lost = 2 * (mx * scale) * l + 2 * (my * scale) * l + 2 * (mz * scale) * l;
    assert(top >= full - lost);
    assert(lost <= 6 * scale * ll + 24 * scale * l) by (nonlinear_arith)
        requires
            lost == 2 * (mx * scale) * l + 2 * (my * scale) * l + 2 * (mz * scale) * l,
            0 <= mx < l + 4,
            0 <= my < l + 4,
            0 <= mz < l + 4,
            ll == l * l,
            l > 0,
            scale == 0x1_0000_0000,
    ;
    assert(24 * scale * l <= 48 * ll) by (nonlinear_arith)
        requires
            ll == l * l,
            scale <= 2 * l,
            l > 0,
    ;
    assert(q * (scale * scale) >= ll * (scale * scale)) by (nonlinear_arith)
        requires
            q >= ll,
            scale == 0x1_0000_0000,
    ;
    assert(x * ll >= (scale * scale - 6 * scale - 48) * ll) by (nonlinear_arith)
        requires
            x * ll >= ll * (scale * scale) - lost,
            lost <= 6 * scale * ll + 48 * ll,
            scale == 0x1_0000_0000,
    ;
    assert(x >= scale * scale - 6 * scale - 48) by (nonlinear_arith)
        requires
            x * ll >= (scale * scale - 6 * scale - 48) * ll,
            ll > 0,
    ;
}

/// The square of a product is the product of the squares.
proof fn lemma_square_of_product(a: int, b: int)
    ensures
        (a * b) * (a * b) == (b * b) * (a * a),
{
    assert((a * b) * (a * b) == (b * b) * (a * a)) by (nonlinear_arith);
}

/// A vector of any length brought to unit length has unit length up to a
/// rounding that grows as the vector shrinks. With `l` the raw length of the
/// vector and `x` the sum of the squares of the raw components of the result,
/// which is the square of `SCALE` at unit length: `x` exceeds the square of
/// `SCALE` by at most the share `(2 l + 1 + 3 SCALE) / l^2` of it, and falls
/// short of it by at most `6 SCALE (l + 2^17) / l`. A vector too short to have
/// a length gives the zero vector, of which this says nothing.
pub proof fn lemma_normalize_near_unit(v: Vector3)
    requires
        v.within_reach(),
    ensures
        v.spec_length().raw * v.spec_length().raw * v.spec_normalize().squares() <= SCALE * SCALE
            * ((v.spec_length().raw + 1) * (v.spec_length().raw + 1) + 3 * SCALE),
        v.spec_length().raw * v.spec_length().raw * v.spec_normalize().squares() >= SCALE * SCALE
            * (v.spec_length().raw * v.spec_length().raw) - 6 * SCALE * v.spec_length().raw * (
        v.spec_length().raw + 0x2_0000),
{
    let scale: int = 0x1_0000_0000;
    let len = v.spec_length();
    let l = len.raw as int;
    let n = v.spec_normalize();
    let x = n.squares();
    if l == 0 {
        assert(l * l * x == 0) by (nonlinear_arith)
            requires
                l == 0,
        ;
        assert(6 * scale * l * (l + 0x2_0000) == 0 && scale * scale * (l * l) == 0)
            by (nonlinear_arith)
            requires
                l == 0,
        ;
        assert(scale * scale * ((l + 1) * (l + 1) + 3 * scale) >= 0) by (nonlinear_arith)
            requires
                l == 0,
                scale > 0,
        ;
    } else {
        lemma_components_short(v);
        let (ax, ay, az) = (v.x.raw as int, v.y.raw as int, v.z.raw as int);
        let (nx, ny, nz) = (n.x.raw as int, n.y.raw as int, n.z.raw as int);
        lemma_length_brackets(v);
        lemma_component_square(v.x, len);
        lemma_component_square(v.y, len);
        lemma_component_square(v.z, len);
        let q = v.squares();
        let ll = l * l;
        let top = (nx * l) * (nx * l) + (ny * l) * (ny * l) + (nz * l) * (nz * l);
        let full = (ax * scale) * (ax * scale) + (ay * scale) * (ay * scale) + (az * scale) * (az
            * scale);
        lemma_square_of_product(nx, l);
        lemma_square_of_product(ny, l);
        lemma_square_of_product(nz, l);
        lemma_square_of_product(ax, scale);
        lemma_square_of_product(ay, scale);
        lemma_square_of_product(az, scale);
        assert(top == ll * x) by (nonlinear_arith)
            requires
                top == ll * (nx * nx) + ll * (ny * ny) + ll * (nz * nz),
                x == nx * nx + ny * ny + nz * nz,
        ;
        assert(full == (scale * scale) * q) by (nonlinear_arith)
            requires
                full == (scale * scale) * (ax * ax) + (scale * scale) * (ay * ay) + (scale * scale)
                    * (az * az),
                q == ax * ax + ay * ay + az * az,
        ;
        assert(top <= full);
        assert((scale * scale) * q <= (scale * scale) * ((l + 1) * (l + 1) + 3 * scale))
            by (nonlinear_arith)
            requires
                q < (l + 1) * (l + 1) + 3 * scale,
                scale > 0,
        ;
        // From below.
        let (mx, my, mz) = (magnitude(ax), magnitude(ay), magnitude(az));
        assert(mx * mx == ax * ax && my * my == ay * ay && mz * mz == az * az) by (nonlinear_arith)
            requires
                mx == magnitude(ax),
                my == magnitude(ay),
                mz == magnitude(az),
        ;
        assert(ax * ax >= 0 && ay * ay >= 0 && az * az >= 0) by (nonlinear_arith);
        let reach = l + 1 + 0x2_0000;
        assert(reach * reach >= (l + 1) * (l + 1) + 3 * scale) by (nonlinear_arith)
            requires
                reach == l + 1 + 0x2_0000,
                l > 0,
                scale == 0x1_0000_0000,
        ;
        if mx >= reach {
            lemma_square_monotone(reach, mx);
        }
        if my >= reach {
            lemma_square_monotone(reach, my);
        }
        if mz >= reach {
            lemma_square_monotone(reach, mz);
        }
        let lost = 2 * (mx * scale) * l + 2 * (my * scale) * l + 2 * (mz * scale) * l;
        assert(top >= full - lost);
        assert(lost <= 6 * scale * l * (l + 0x2_0000)) by (nonlinear_arith)
            requires
                lost == 2 * (mx * scale) * l + 2 * (my * scale) * l + 2 * (mz * scale) * l,
                0 <= mx <= l + 0x2_0000,
                0 <= my <= l + 0x2_0000,
                0 <= mz <= l + 0x2_0000,
                l > 0,
                scale == 0x1_0000_0000,
        ;
        assert((scale * scale) * q >= (scale * scale) * ll) by (nonlinear_arith)
            requires
                q >= ll,
                scale > 0,
        ;
        assert(l * l * x == ll * x && scale * scale * (l * l) == (scale * scale) * ll);
    }
}

/// A vector brought to unit length runs along the vector it was made of, in
/// the same sense: no component has changed its sign, and any two components
/// stand in the same ratio as before, up to rounding. This holds of every
/// vector.
pub proof fn lemma_normalize_parallel(v: Vector3)
    ensures
        same_sign(v.spec_normalize().x, v.x),
        same_sign(v.spec_normalize().y, v.y),
        same_sign(v.spec_normalize().z, v.z),
        in_ratio(v.spec_normalize().x, v.spec_normalize().y, v.x, v.y),
        in_ratio(v.spec_normalize().y, v.spec_normalize().z, v.y, v.z),
        in_ratio(v.spec_normalize().z, v.spec_normalize().x, v.z, v.x),
{
    let len = v.spec_length();
    let n = v.spec_normalize();
    if len.raw != 0 {
        lemma_components_short(v);
        lemma_normalized_component(v.x, len);
        lemma_normalized_component(v.y, len);
        lemma_normalized_component(v.z, len);
        lemma_in_ratio(n.x, n.y, v.x, v.y, len);
        lemma_in_ratio(n.y, n.z, v.y, v.z, len);
        lemma_in_ratio(n.z, n.x, v.z, v.x, len);
    } else {
        assert(0 * v.y.raw - 0 * v.x.raw == 0 && 0 * v.z.raw - 0 * v.y.raw == 0 && 0 * v.x.raw - 0
            * v.z.raw == 0);
    }
}

/// `n` is zero or has the sign of `c`.
pub open spec fn same_sign(n: Fixed, c: Fixed) -> bool {
    (c.raw >= 0 ==> n.raw >= 0) && (c.raw <= 0 ==> n.raw <= 0)
}

/// `n1` is to `n2` as `c1` is to `c2`, up to rounding: the cross products of
/// the raw values differ by no more than the magnitudes of `c1` and `c2`
/// together.
pub open spec fn in_ratio(n1: Fixed, n2: Fixed, c1: Fixed, c2: Fixed) -> bool {
    magnitude(n1.raw * c2.raw - n2.raw * c1.raw) <= magnitude(c1.raw as int) + magnitude(
        c2.raw as int,
    )
}

/// Two components that were divided by the same length stand in the ratio
/// in which they stood before, up to rounding.
proof fn lemma_in_ratio(n1: Fixed, n2: Fixed, c1: Fixed, c2: Fixed, len: Fixed)
    requires
        len.raw > 0,
        c1.raw >= 0 ==> 0 <= c1.raw * SCALE - n1.raw * len.raw < len.raw,
        c1.raw <= 0 ==> -len.raw < c1.raw * SCALE - n1.raw * len.raw <= 0,
        c2.raw >= 0 ==> 0 <= c2.raw * SCALE - n2.raw * len.raw < len.raw,
        c2.raw <= 0 ==> -len.raw < c2.raw * SCALE - n2.raw * len.raw <= 0,
    ensures
        in_ratio(n1, n2, c1, c2),
{
    let l = len.raw as int;
    let scale = SCALE as int;
    let e1 = c1.raw * scale - n1.raw * l;
    let e2 = c2.raw * scale - n2.raw * l;
    let d = n1.raw * c2.raw - n2.raw * c1.raw;
    let (m1, m2) = (magnitude(c1.raw as int), magnitude(c2.raw as int));
    assert(d * l == e2 * c1.raw - e1 * c2.raw) by (nonlinear_arith)
        requires
            e1 == c1.raw * scale - n1.raw * l,
            e2 == c2.raw * scale - n2.raw * l,
            d == n1.raw * c2.raw - n2.raw * c1.raw,
    ;
    assert(-(l * m1) <= e2 * c1.raw <= l * m1) by (nonlinear_arith)
        requires
            -l < e2 < l,
            m1 == magnitude(c1.raw as int),
    ;
    assert(-(l * m2) <= e1 * c2.raw <= l * m2) by (nonlinear_arith)
        requires
            -l < e1 < l,
            m2 == magnitude(c2.raw as int),
    ;
    assert(-(m1 + m2) <= d <= m1 + m2) by (nonlinear_arith)
        requires
            -(l * m1) - l * m2 <= d * l <= l * m1 + l * m2,
            l > 0,
    ;
}

impl core::ops::Add for Vector3 {
    type Output = Vector3;

    /// The sum, component by component.
    fn add(self, rhs: Vector3) -> (r: Vector3)
        ensures
            r == self.spec_add(rhs),
    {
        Vector3 { x: self.x + rhs.x, y: self.y + rhs.y, z: self.z + rhs.z }
    }
}

impl vstd::std_specs::ops::AddSpecImpl for Vector3 {
    open spec fn obeys_add_spec() -> bool {
        true
    }

    open spec fn add_req(self, rhs: Vector3) -> bool {
        true
    }

    open spec fn add_spec(self, rhs: Vector3) -> Vector3 {
        self.spec_add(rhs)
    }
}

impl core::ops::Sub for Vector3 {
    type Output = Vector3;

    /// The difference, component by component.
    fn sub(self, rhs: Vector3) -> (r: Vector3)
        ensures
            r == self.spec_sub(rhs),
    {
        Vector3 { x: self.x - rhs.x, y: self.y - rhs.y, z: self.z - rhs.z }
    }
}

impl vstd::std_specs::ops::SubSpecImpl for Vector3 {
    open spec fn obeys_sub_spec() -> bool {
        true
    }

    open spec fn sub_req(self, rhs: Vector3) -> bool {
        true
    }

    open spec fn sub_spec(self, rhs: Vector3) -> Vector3 {
        self.spec_sub(rhs)
    }
}

impl core::ops::Mul<Fixed> for Vector3 {
    type Output = Vector3;

    /// Every component multiplied by `rhs`.
    fn mul(self, rhs: Fixed) -> (r: Vector3)
        ensures
            r == self.spec_mul(rhs),
    {
        Vector3 { x: self.x * rhs, y: self.y * rhs, z: self.z * rhs }
    }
}

impl vstd::std_specs::ops::MulSpecImpl<Fixed> for Vector3 {
    open spec fn obeys_mul_spec() -> bool {
        true
    }

    open spec fn mul_req(self, rhs: Fixed) -> bool {
        true
    }

    open spec fn mul_spec(self, rhs: Fixed) -> Vector3 {
        self.spec_mul(rhs)
    }
}

impl core::ops::Neg for Vector3 {
    type Output = Vector3;

    /// The opposite vector.
    fn neg(self) -> (r: Vector3)
        ensures
            r == self.spec_neg(),
    {
        Vector3 { x: self.x.neg(), y: self.y.neg(), z: self.z.neg() }
    }
}

impl vstd::std_specs::ops::NegSpecImpl for Vector3 {
    open spec fn obeys_neg_spec() -> bool {
        true
    }

    open spec fn neg_req(self) -> bool {
        true
    }

    open spec fn neg_spec(self) -> Vector3 {
        self.spec_neg()
    }
}

} // verus!
