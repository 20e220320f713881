//! Signed fixed-point numbers with 32 fractional bits.
use vstd::arithmetic::div_mod::{
    lemma_div_by_multiple, lemma_div_is_ordered, lemma_div_pos_is_pos, lemma_fundamental_div_mod,
    lemma_fundamental_div_mod_converse, lemma_mod_bound,
};
use vstd::prelude::*;

verus! {

/// The raw value of the number one: 2^32.
pub const SCALE: i64 = 0x1_0000_0000;

/// The raw value closest to pi from below.
pub const PI_RAW: i64 = 13493037704;

/// `v` brought into the range of a raw value.
pub open spec fn saturate(v: int) -> int {
    if v < i64::MIN {
        i64::MIN as int
    } else if v > i64::MAX {
        i64::MAX as int
    } else {
        v
    }
}

/// The absolute value of `v`.
pub open spec fn magnitude(v: int) -> int {
    if v < 0 {
        -v
    } else {
        v
    }
}

/// The quotient of `n` by `d`, rounded toward zero.
pub open spec fn quotient(n: int, d: int) -> int
    recommends
        d != 0,
{
    if (n < 0) == (d < 0) {
        magnitude(n) / magnitude(d)
    } else {
        -(magnitude(n) / magnitude(d))
    }
}

/// `r` is the integer square root of `n`: the largest integer whose square is
/// at most `n`.
pub open spec fn is_root(n: int, r: int) -> bool {
    0 <= r && r * r <= n < (r + 1) * (r + 1)
}

/// The integer square root of `n`, for `n >= 0`.
pub open spec fn root(n: int) -> int {
    choose|r: int| is_root(n, r)
}

/// A value that saturation leaves as it is.
pub open spec fn in_range(v: int) -> bool {
    i64::MIN <= v <= i64::MAX
}

/// A fixed-point number: `raw` counts multiples of 2^-32.
#[derive(Clone, Copy, Debug, PartialEq, Eq, PartialOrd, Ord, Structural)]
pub struct Fixed {
    pub raw: i64,
}

/// `v` brought into the range of a raw value.
fn clamp_wide(v: i128) -> (r: i64)
    ensures
        r == saturate(v as int),
{
    if v < i64::MIN as i128 {
        i64::MIN
    } else if v > i64::MAX as i128 {
        i64::MAX
    } else {
        v as i64
    }
}

/// The absolute value of `v`.
fn magnitude_of(v: i64) -> (m: u128)
    ensures
        m == magnitude(v as int),
        m <= 0x8000_0000_0000_0000,
{
    if v < 0 {
        (-(v as i128)) as u128
    } else {
        v as u128
    }
}

/// The raw value with the given sign and magnitude, saturated.
fn signed(negative: bool, m: u128) -> (r: i64)
    ensures
        r == saturate(
            if negative {
                -(m as int)
            } else {
                m as int
            },
        ),
{
    if m > 0x8000_0000_0000_0000 {
        if negative {
            i64::MIN
        } else {
            i64::MAX
        }
    } else if negative {
        clamp_wide(-(m as i128))
    } else {
        clamp_wide(m as i128)
    }
}

/// The integer square root of `n`, found by bisection.
fn root_of(n: u128) -> (r: u128)
    requires
        n < 0x1_0000_0000_0000_0000_0000_0000,
    ensures
        is_root(n as int, r as int),
        r < 0x1_0000_0000_0000,
{
    let mut lo: u128 = 0;
    let mut hi: u128 = 0x1_0000_0000_0000;
    assert(0x1_0000_0000_0000u128 * 0x1_0000_0000_0000u128 == 0x1_0000_0000_0000_0000_0000_0000u128)
        by (nonlinear_arith);
    while hi - lo > 1
        invariant
            lo < hi <= 0x1_0000_0000_0000,
            lo * lo <= n < hi * hi,
        decreases hi - lo,
    {
        let mid: u128 = lo + (hi - lo) / 2;
        proof {
            lemma_square_monotone(mid as int, 0x1_0000_0000_0000);
        }
        if mid * mid <= n {
            lo = mid;
        } else {
            hi = mid;
        }
    }
    lo
}

impl Fixed {
    /// The sum, saturated.
    pub open spec fn spec_add(self, rhs: Fixed) -> Fixed {
        Fixed { raw: saturate(self.raw + rhs.raw) as i64 }
    }

    /// The difference, saturated.
    pub open spec fn spec_sub(self, rhs: Fixed) -> Fixed {
        Fixed { raw: saturate(self.raw - rhs.raw) as i64 }
    }

    /// The negation, saturated.
    pub open spec fn spec_neg(self) -> Fixed {
        Fixed { raw: saturate(-self.raw) as i64 }
    }

    /// The product, rounded toward zero and saturated.
    pub open spec fn spec_mul(self, rhs: Fixed) -> Fixed {
        Fixed { raw: saturate(quotient(self.raw * rhs.raw, SCALE as int)) as i64 }
    }

    /// The quotient, rounded toward zero and saturated. Division by zero gives
    /// the extreme value with the sign of the dividend, and zero for zero.
    pub open spec fn spec_div(self, rhs: Fixed) -> Fixed {
        if rhs.raw == 0 {
            if self.raw > 0 {
                Fixed { raw: i64::MAX }
            } else if self.raw < 0 {
                Fixed { raw: i64::MIN }
            } else {
                Fixed { raw: 0 }
            }
        } else {
            Fixed { raw: saturate(quotient(self.raw * SCALE, rhs.raw as int)) as i64 }
        }
    }

    /// The square root, rounded down; zero for a negative number.
    pub open spec fn spec_sqrt(self) -> Fixed {
        if self.raw <= 0 {
            Fixed { raw: 0 }
        } else {
            Fixed { raw: root(self.raw * SCALE) as i64 }
        }
    }

    /// The two numbers differ by at most one step of 2^-32.
    pub open spec fn within_step(self, other: Fixed) -> bool {
        -1 <= self.raw - other.raw <= 1
    }

    /// The absolute value, saturated.
    pub open spec fn spec_abs(self) -> Fixed {
        if self.raw < 0 {
            self.spec_neg()
        } else {
            self
        }
    }

    /// The smaller of the two.
    pub open spec fn spec_min(self, rhs: Fixed) -> Fixed {
        if rhs.raw < self.raw {
            rhs
        } else {
            self
        }
    }

    /// The larger of the two.
    pub open spec fn spec_max(self, rhs: Fixed) -> Fixed {
        if rhs.raw > self.raw {
            rhs
        } else {
            self
        }
    }

    /// The whole number `i`.
    pub open spec fn spec_from_int(i: i32) -> Fixed {
        Fixed { raw: (i * SCALE) as i64 }
    }

    /// The number with the given raw value.
    pub fn from_raw(raw: i64) -> (r: Fixed)
        ensures
            r.raw == raw,
    {
        Fixed { raw }
    }

    /// The whole number `i`.
    #[verifier::when_used_as_spec(spec_from_int)]
    pub fn from_int(i: i32) -> (r: Fixed)
        ensures
            r == Fixed::spec_from_int(i),
            r.raw == i * SCALE,
    {
        let wide: i128 = (i as i128) * 0x1_0000_0000;
        Fixed { raw: wide as i64 }
    }

    /// The ratio of two whole numbers.
    pub fn from_ratio(n: i32, d: i32) -> (r: Fixed)
        ensures
            r == Fixed::spec_from_int(n).spec_div(Fixed::spec_from_int(d)),
    {
        Fixed::from_int(n) / Fixed::from_int(d)
    }

    /// The square root, rounded down; zero for a negative number.
    pub fn sqrt(self) -> (r: Fixed)
        ensures
            r == self.spec_sqrt(),
            0 <= r.raw,
    {
        if self.raw <= 0 {
            Fixed { raw: 0 }
        } else {
            let n: u128 = (self.raw as u128) * (SCALE as u128);
            let r = root_of(n);
            proof {
                lemma_root_is(self.raw * SCALE, r as int);
            }
            Fixed { raw: r as i64 }
        }
    }

    /// The absolute value, saturated.
    pub fn abs(self) -> (r: Fixed)
        ensures
            r == self.spec_abs(),
            0 <= r.raw,
    {
        if self.raw < 0 {
            Fixed { raw: clamp_wide(-(self.raw as i128)) }
        } else {
            self
        }
    }

    /// The smaller of the two.
    pub fn min(self, rhs: Fixed) -> (r: Fixed)
        ensures
            r == self.spec_min(rhs),
    {
        if rhs.raw < self.raw {
            rhs
        } else {
            self
        }
    }

    /// The larger of the two.
    pub fn max(self, rhs: Fixed) -> (r: Fixed)
        ensures
            r == self.spec_max(rhs),
    {
        if rhs.raw > self.raw {
            rhs
        } else {
            self
        }
    }
}

impl core::ops::Add for Fixed {
    type Output = Fixed;

    /// The sum, saturated.
    fn add(self, rhs: Fixed) -> (r: Fixed)
        ensures
            r == self.spec_add(rhs),
    {
        Fixed { raw: clamp_wide(self.raw as i128 + rhs.raw as i128) }
    }
}

impl vstd::std_specs::ops::AddSpecImpl for Fixed {
    open spec fn obeys_add_spec() -> bool {
        true
    }

    open spec fn add_req(self, rhs: Fixed) -> bool {
        true
    }

    open spec fn add_spec(self, rhs: Fixed) -> Fixed {
        self.spec_add(rhs)
    }
}

impl core::ops::Sub for Fixed {
    type Output = Fixed;

    /// The difference, saturated.
    fn sub(self, rhs: Fixed) -> (r: Fixed)
        ensures
            r == self.spec_sub(rhs),
    {
        Fixed { raw: clamp_wide(self.raw as i128 - rhs.raw as i128) }
    }
}

impl vstd::std_specs::ops::SubSpecImpl for Fixed {
    open spec fn obeys_sub_spec() -> bool {
        true
    }

    open spec fn sub_req(self, rhs: Fixed) -> bool {
        true
    }

    open spec fn sub_spec(self, rhs: Fixed) -> Fixed {
        self.spec_sub(rhs)
    }
}

impl core::ops::Mul for Fixed {
    type Output = Fixed;

    /// The product, rounded toward zero and saturated.
    fn mul(self, rhs: Fixed) -> (r: Fixed)
        ensures
            r == self.spec_mul(rhs),
    {
        let negative = (self.raw < 0) != (rhs.raw < 0);
        let a = magnitude_of(self.raw);
        let b = magnitude_of(rhs.raw);
        assert(a * b <= 0x8000_0000_0000_0000 * 0x8000_0000_0000_0000) by (nonlinear_arith)
            requires
                a <= 0x8000_0000_0000_0000,
                b <= 0x8000_0000_0000_0000,
        ;
        assert(magnitude(self.raw * rhs.raw) == a * b) by (nonlinear_arith)
            requires
                a == magnitude(self.raw as int),
                b == magnitude(rhs.raw as int),
        ;
        assert((self.raw * rhs.raw < 0) ==> negative) by (nonlinear_arith)
            requires
                negative == ((self.raw < 0) != (rhs.raw < 0)),
        ;
        assert(!(self.raw * rhs.raw < 0) && negative ==> a * b == 0) by (nonlinear_arith)
            requires
                negative == ((self.raw < 0) != (rhs.raw < 0)),
                a == magnitude(self.raw as int),
                b == magnitude(rhs.raw as int),
        ;
        let q: u128 = (a * b) / (SCALE as u128);
        Fixed { raw: signed(negative, q) }
    }
}

impl vstd::std_specs::ops::MulSpecImpl for Fixed {
    open spec fn obeys_mul_spec() -> bool {
        true
    }

    open spec fn mul_req(self, rhs: Fixed) -> bool {
        true
    }

    open spec fn mul_spec(self, rhs: Fixed) -> Fixed {
        self.spec_mul(rhs)
    }
}

impl core::ops::Div for Fixed {
    type Output = Fixed;

    /// The quotient, rounded toward zero and saturated.
    fn div(self, rhs: Fixed) -> (r: Fixed)
        ensures
            r == self.spec_div(rhs),
    {
        if rhs.raw == 0 {
            if self.raw > 0 {
                Fixed { raw: i64::MAX }
            } else if self.raw < 0 {
                Fixed { raw: i64::MIN }
            } else {
                Fixed { raw: 0 }
            }
        } else {
            let negative = (self.raw < 0) != (rhs.raw < 0);
            let a = magnitude_of(self.raw);
            let b = magnitude_of(rhs.raw);
            assert(magnitude(self.raw * SCALE) == a * SCALE) by (nonlinear_arith)
                requires
                    a == magnitude(self.raw as int),
            ;
            assert((self.raw * SCALE < 0) == (self.raw < 0)) by (nonlinear_arith);
            let q: u128 = (a * (SCALE as u128)) / b;
            Fixed { raw: signed(negative, q) }
        }
    }
}

impl vstd::std_specs::ops::DivSpecImpl for Fixed {
    open spec fn obeys_div_spec() -> bool {
        true
    }

    open spec fn div_req(self, rhs: Fixed) -> bool {
        true
    }

    open spec fn div_spec(self, rhs: Fixed) -> Fixed {
        self.spec_div(rhs)
    }
}

impl core::ops::Neg for Fixed {
    type Output = Fixed;

    /// The negation, saturated.
    fn neg(self) -> (r: Fixed)
        ensures
            r == self.spec_neg(),
    {
        Fixed { raw: clamp_wide(-(self.raw as i128)) }
    }
}

impl vstd::std_specs::ops::NegSpecImpl for Fixed {
    open spec fn obeys_neg_spec() -> bool {
        true
    }

    open spec fn neg_req(self) -> bool {
        true
    }

    open spec fn neg_spec(self) -> Fixed {
        self.spec_neg()
    }
}

/// Squaring is monotone on the non-negative integers.
pub proof fn lemma_square_monotone(a: int, b: int)
    requires
        0 <= a <= b,
    ensures
        a * a <= b * b,
{
    assert(a * a <= b * b) by (nonlinear_arith)
        requires
            0 <= a <= b,
    ;
}

/// At most one integer is the integer square root of `n`.
pub proof fn lemma_root_unique(n: int, r: int, s: int)
    requires
        is_root(n, r),
        is_root(n, s),
    ensures
        r == s,
{
    if r < s {
        lemma_square_monotone(r + 1, s);
    } else if s < r {
        lemma_square_monotone(s + 1, r);
    }
}

/// Every non-negative integer has an integer square root.
pub proof fn lemma_root_exists(n: int)
    requires
        0 <= n,
    ensures
        is_root(n, root(n)),
    decreases n,
{
    if n == 0 {
        assert(is_root(0, 0));
    } else {
        lemma_root_exists(n - 1);
        let r = root(n - 1);
        if (r + 1) * (r + 1) <= n {
            assert((r + 1) * (r + 1) == n);
            assert(n < (r + 2) * (r + 2)) by (nonlinear_arith)
                requires
                    (r + 1) * (r + 1) == n,
                    0 <= r,
            ;
            assert(is_root(n, r + 1));
        } else {
            assert(is_root(n, r));
        }
    }
}

/// An integer square root that has been found is the one that `root` names.
pub proof fn lemma_root_is(n: int, r: int)
    requires
        is_root(n, r),
    ensures
        root(n) == r,
{
    lemma_root_unique(n, r, root(n));
}

/// What rounding toward zero takes away lies on the side of the dividend and
/// is smaller than the divisor.
pub proof fn lemma_quotient_rounds_toward_zero(n: int, d: int)
    requires
        d > 0,
    ensures
        n >= 0 ==> 0 <= n - quotient(n, d) * d < d,
        n <= 0 ==> -d < n - quotient(n, d) * d <= 0,
{
    let m = magnitude(n);
    lemma_fundamental_div_mod(m, d);
    lemma_mod_bound(m, d);
    assert(m - (m / d) * d == m % d) by (nonlinear_arith)
        requires
            m == d * (m / d) + m % d,
    ;
    if n < 0 {
        assert((-(m / d)) * d == -((m / d) * d)) by (nonlinear_arith);
    }
}

/// A quotient is no larger than the dividend allows and has its sign: where
/// the dividend is at most `bound` times the divisor in magnitude, the quotient
/// is at most `bound`.
pub proof fn lemma_quotient_bounded(n: int, d: int, bound: int)
    requires
        d > 0,
        magnitude(n) <= bound * d,
    ensures
        magnitude(quotient(n, d)) <= bound,
        n >= 0 ==> quotient(n, d) >= 0,
        n <= 0 ==> quotient(n, d) <= 0,
{
    let m = magnitude(n);
    lemma_div_pos_is_pos(m, d);
    lemma_div_is_ordered(m, bound * d, d);
    assert(bound >= 0) by (nonlinear_arith)
        requires
            0 <= bound * d,
            d > 0,
    ;
    lemma_div_by_multiple(bound, d);
}

/// The quotient of a multiple of the divisor is the other factor.
pub proof fn lemma_quotient_of_multiple(a: int, d: int)
    requires
        d > 0,
    ensures
        quotient(a * d, d) == a,
{
    let m = magnitude(a);
    assert(magnitude(a * d) == m * d && (a * d < 0 <==> a < 0)) by (nonlinear_arith)
        requires
            m == magnitude(a),
            d > 0,
    ;
    lemma_div_by_multiple(m, d);
}

/// A product with a factor between zero and one is no larger in magnitude
/// than the other factor.
pub proof fn lemma_mul_shrinks(a: Fixed, b: Fixed)
    requires
        0 <= a.raw <= SCALE,
    ensures
        magnitude(a.spec_mul(b).raw as int) <= magnitude(b.raw as int),
{
    let bound = magnitude(b.raw as int);
    assert(magnitude(a.raw * b.raw) <= bound * SCALE) by (nonlinear_arith)
        requires
            0 <= a.raw <= SCALE,
            bound == magnitude(b.raw as int),
    ;
    lemma_quotient_bounded(a.raw * b.raw, SCALE as int, bound);
}

/// A quotient by a number of one or more is no larger in magnitude than the
/// dividend.
pub proof fn lemma_div_shrinks(a: Fixed, b: Fixed)
    requires
        b.raw >= SCALE,
    ensures
        magnitude(a.spec_div(b).raw as int) <= magnitude(a.raw as int),
        a.raw >= 0 ==> a.spec_div(b).raw >= 0,
        a.raw <= 0 ==> a.spec_div(b).raw <= 0,
{
    let bound = magnitude(a.raw as int);
    assert(magnitude(a.raw * SCALE) <= bound * b.raw && (a.raw >= 0 ==> a.raw * SCALE >= 0) && (
    a.raw <= 0 ==> a.raw * SCALE <= 0)) by (nonlinear_arith)
        requires
            b.raw >= SCALE,
            SCALE > 0,
            bound == magnitude(a.raw as int),
    ;
    lemma_quotient_bounded(a.raw * SCALE, b.raw as int, bound);
}

/// A product with its sign, once its magnitude `q` is known: `q` is the
/// largest whole number of steps in the product of the magnitudes `ma` and
/// `mb` of the factors.
pub proof fn lemma_mul_is(a: Fixed, b: Fixed, ma: int, mb: int, q: int)
    requires
        ma == magnitude(a.raw as int),
        mb == magnitude(b.raw as int),
        0 <= q <= i64::MAX,
        q * 0x1_0000_0000 <= ma * mb < (q + 1) * 0x1_0000_0000,
    ensures
        a.spec_mul(b).raw == if (a.raw < 0) != (b.raw < 0) {
            -q
        } else {
            q
        },
{
    let m = magnitude(a.raw as int) * magnitude(b.raw as int);
    assert(magnitude(a.raw * b.raw) == m && (a.raw * b.raw < 0 ==> (a.raw < 0) != (b.raw < 0)))
        by (nonlinear_arith)
        requires
            m == magnitude(a.raw as int) * magnitude(b.raw as int),
    ;
    assert(q * SCALE == SCALE * q && (q + 1) * SCALE == SCALE * q + SCALE) by (nonlinear_arith);
    lemma_fundamental_div_mod_converse(m, SCALE as int, q, m - SCALE * q);
    if !(a.raw * b.raw < 0) && ((a.raw < 0) != (b.raw < 0)) {
        assert(m == 0) by (nonlinear_arith)
            requires
                m == magnitude(a.raw * b.raw),
                !(a.raw * b.raw < 0),
                (a.raw < 0) != (b.raw < 0),
        ;
    }
}

/// A quotient with its sign, once its magnitude `q` is known: `q` is the
/// largest whole number of times that the divisor's magnitude `mb` goes into
/// the dividend's magnitude `ma`, scaled.
pub proof fn lemma_div_is(a: Fixed, b: Fixed, ma: int, mb: int, q: int)
    requires
        ma == magnitude(a.raw as int),
        mb == magnitude(b.raw as int),
        mb != 0,
        0 <= q <= i64::MAX,
        q * mb <= ma * 0x1_0000_0000 < (q + 1) * mb,
    ensures
        a.spec_div(b).raw == if (a.raw < 0) != (b.raw < 0) {
            -q
        } else {
            q
        },
{
    let m = magnitude(a.raw as int) * SCALE;
    let d = magnitude(b.raw as int);
    assert(magnitude(a.raw * SCALE) == m && (a.raw * SCALE < 0 <==> a.raw < 0)) by (nonlinear_arith)
        requires
            m == magnitude(a.raw as int) * SCALE,
            SCALE > 0,
    ;
    assert(q * d == d * q && (q + 1) * d == d * q + d) by (nonlinear_arith);
    lemma_fundamental_div_mod_converse(m, d, q, m - d * q);
}

/// A square root, once it is known: `r` is the largest number whose square
/// does not exceed the raw value times `SCALE`.
pub proof fn lemma_sqrt_is(a: Fixed, raw: int, r: int)
    requires
        a.raw == raw,
        raw > 0,
        0 <= r,
        r * r <= raw * 0x1_0000_0000 < (r + 1) * (r + 1),
    ensures
        a.spec_sqrt().raw == r,
{
    lemma_sqrt_is_root(a);
    lemma_root_unique(a.raw * SCALE, r, a.spec_sqrt().raw as int);
}

/// The square root of a positive number is the integer square root of its
/// raw value times `SCALE`: it fits a raw value.
pub proof fn lemma_sqrt_is_root(x: Fixed)
    requires
        x.raw > 0,
    ensures
        is_root(x.raw * SCALE, x.spec_sqrt().raw as int),
{
    let n = x.raw * SCALE;
    lemma_root_exists(n);
    let w = root(n);
    assert(n < 0x1_0000_0000_0000 * 0x1_0000_0000_0000) by (nonlinear_arith)
        requires
            n == x.raw * SCALE,
            0 < x.raw <= 0x7fff_ffff_ffff_ffff,
            SCALE == 0x1_0000_0000,
    ;
    if w >= 0x1_0000_0000_0000 {
        lemma_square_monotone(0x1_0000_0000_0000, w);
    }
}

/// Multiplying a sum by `s` and adding the two products differ by at most
/// one step of 2^-32, where none of the operations saturates: each product is
/// rounded on its own.
pub proof fn lemma_mul_distributes_within_step(a: Fixed, b: Fixed, s: Fixed)
    requires
        in_range(a.raw + b.raw),
        in_range(quotient((a.raw + b.raw) * s.raw, SCALE as int)),
        in_range(quotient(a.raw * s.raw, SCALE as int)),
        in_range(quotient(b.raw * s.raw, SCALE as int)),
        in_range(quotient(a.raw * s.raw, SCALE as int) + quotient(b.raw * s.raw, SCALE as int)),
    ensures
        a.spec_add(b).spec_mul(s).within_step(a.spec_mul(s).spec_add(b.spec_mul(s))),
{
    let scale = SCALE as int;
    let p = a.raw * s.raw;
    let q = b.raw * s.raw;
    assert((a.raw + b.raw) * s.raw == p + q) by (nonlinear_arith)
        requires
            p == a.raw * s.raw,
            q == b.raw * s.raw,
    ;
    lemma_quotient_rounds_toward_zero(p, scale);
    lemma_quotient_rounds_toward_zero(q, scale);
    lemma_quotient_rounds_toward_zero(p + q, scale);
    let e1 = p - quotient(p, scale) * scale;
    let e2 = q - quotient(q, scale) * scale;
    let e3 = p + q - quotient(p + q, scale) * scale;
    let diff = quotient(p + q, scale) - quotient(p, scale) - quotient(q, scale);
    assert(diff * scale == e1 + e2 - e3) by (nonlinear_arith)
        requires
            e1 == p - quotient(p, scale) * scale,
            e2 == q - quotient(q, scale) * scale,
            e3 == p + q - quotient(p + q, scale) * scale,
            diff == quotient(p + q, scale) - quotient(p, scale) - quotient(q, scale),
    ;
    assert(-2 * scale < e1 + e2 - e3 < 2 * scale);
    assert(-1 <= diff <= 1) by (nonlinear_arith)
        requires
            -2 * scale < diff * scale < 2 * scale,
            scale > 0,
    ;
}

/// Multiplying a sum by `s` and adding the two products give the same, where
/// none of the operations saturates and neither product needs rounding.
pub proof fn lemma_mul_distributes(a: Fixed, b: Fixed, s: Fixed)
    requires
        in_range(a.raw + b.raw),
        in_range(quotient((a.raw + b.raw) * s.raw, SCALE as int)),
        in_range(quotient(a.raw * s.raw, SCALE as int)),
        in_range(quotient(b.raw * s.raw, SCALE as int)),
        in_range(quotient(a.raw * s.raw, SCALE as int) + quotient(b.raw * s.raw, SCALE as int)),
        a.raw * s.raw == quotient(a.raw * s.raw, SCALE as int) * SCALE,
        b.raw * s.raw == quotient(b.raw * s.raw, SCALE as int) * SCALE,
    ensures
        a.spec_add(b).spec_mul(s) == a.spec_mul(s).spec_add(b.spec_mul(s)),
{
    let scale = SCALE as int;
    let p = a.raw * s.raw;
    let q = b.raw * s.raw;
    assert((a.raw + b.raw) * s.raw == p + q) by (nonlinear_arith)
        requires
            p == a.raw * s.raw,
            q == b.raw * s.raw,
    ;
    lemma_quotient_rounds_toward_zero(p + q, scale);
    let diff = quotient(p + q, scale) - quotient(p, scale) - quotient(q, scale);
    let e3 = p + q - quotient(p + q, scale) * scale;
    assert(diff * scale == -e3) by (nonlinear_arith)
        requires
            p == quotient(p, scale) * scale,
            q == quotient(q, scale) * scale,
            e3 == p + q - quotient(p + q, scale) * scale,
            diff == quotient(p + q, scale) - quotient(p, scale) - quotient(q, scale),
    ;
    assert(diff == 0) by (nonlinear_arith)
        requires
            -scale < diff * scale < scale,
            scale > 0,
    ;
}

} // verus!
