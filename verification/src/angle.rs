//! Angles from coordinates.
//!
//! The arctangent is kept as a table of its values at the 65 multiples of
//! 1/64 from zero to one, and read off between them along straight lines.
//! The angle of a direction in the plane and the arccosine are built on it.
use crate::fixed::{Fixed, PI_RAW, SCALE};
use core::ops::Neg;
use vstd::prelude::*;

verus! {

/// The arctangent of `i / 64` for `i` from 0 to 64, as raw fixed-point
/// values.
pub const ARCTANGENTS: [i64; 65] = [
    0, 67103403, 134174063, 201179330, 268086748,
    334864142, 401479718, 467902142, 534100635, 600045046,
    665705938, 731054652, 796063384, 860705235, 924954277,
    988785598, 1052175346, 1115100767, 1177540236, 1239473281,
    1300880604, 1361744091, 1422046821, 1481773068, 1540908296,
    1599439150, 1657353445, 1714640149, 1771289359, 1827292279,
    1882641189, 1937329421, 1991351318, 2044702204, 2097378349,
    2149376926, 2200695975, 2251334363, 2301291744, 2350568518,
    2399165791, 2447085334, 2494329546, 2540901408, 2586804454,
    2632042727, 2676620741, 2720543452, 2763816217, 2806444766,
    2848435164, 2889793788, 2930527289, 2970642571, 3010146761,
    3049047184, 3087351340, 3125066878, 3162201579, 3198763333,
    3234760121, 3270199995, 3305091067, 3339441485, 3373259426,
];

/// The raw width of one step of the table: 1/64.
pub const STEP: i64 = 0x400_0000;

/// The raw value of a quarter of pi: the last entry of the table.
pub const QUARTER_PI_RAW: i64 = 3373259426;

/// The raw value of half of pi.
pub const HALF_PI_RAW: i64 = 6746518852;

/// The arctangent of `i / 64`, as a raw value.
#[verifier::opaque]
pub open spec fn arctangent_value(i: int) -> int {
    ARCTANGENTS[i] as int
}

/// The table rises from zero to a quarter of pi.
pub proof fn lemma_arctangents_rise()
    ensures
        forall|i: int, j: int| 0 <= i <= j <= 64 ==> arctangent_value(i) <= arctangent_value(j),
        arctangent_value(0) == 0,
        arctangent_value(64) == QUARTER_PI_RAW,
{
    reveal(arctangent_value);
}

/// The arctangent of `t`, for `t` from zero to one: the table's value at the
/// step below `t`, plus the share of the rise to the next step that `t` has
/// covered, rounded down. Below zero it is taken at zero, above one at one.
pub open spec fn spec_arctangent(t: Fixed) -> Fixed {
    if t.raw <= 0 {
        Fixed { raw: 0 }
    } else if t.raw >= SCALE {
        Fixed { raw: QUARTER_PI_RAW }
    } else {
        let i = t.raw / STEP;
        let part = t.raw % STEP;
        let rise = arctangent_value(i + 1) - arctangent_value(i);
        Fixed { raw: (arctangent_value(i) + (rise * part) / (STEP as int)) as i64 }
    }
}

/// The angle of the direction `(x, y)`, counted from the positive x axis
/// toward the positive y axis, for `x >= 0` and `y >= 0`.
pub open spec fn spec_quadrant_angle(y: Fixed, x: Fixed) -> Fixed {
    if x.raw == 0 && y.raw == 0 {
        Fixed { raw: 0 }
    } else if x.raw >= y.raw {
        spec_arctangent(y.spec_div(x))
    } else {
        Fixed { raw: HALF_PI_RAW }.spec_sub(spec_arctangent(x.spec_div(y)))
    }
}

/// The angle of the direction `(x, y)` from the positive x axis, between
/// minus pi and pi; zero for the direction without length.
pub open spec fn spec_atan2(y: Fixed, x: Fixed) -> Fixed {
    let a = spec_quadrant_angle(y.spec_abs(), x.spec_abs());
    let b = if x.raw < 0 {
        Fixed { raw: PI_RAW }.spec_sub(a)
    } else {
        a
    };
    if y.raw < 0 {
        b.spec_neg()
    } else {
        b
    }
}

/// The angle between zero and pi whose cosine is `c`; `c` is first brought
/// into the range from minus one to one.
pub open spec fn spec_acos(c: Fixed) -> Fixed {
    let k = c.spec_min(Fixed { raw: SCALE }).spec_max(Fixed { raw: (-SCALE) as i64 });
    let s = Fixed { raw: SCALE }.spec_sub(k.spec_mul(k)).spec_sqrt();
    spec_atan2(s, k)
}

/// The highest step among `0..=n` whose arctangent is at most `a`, and 0
/// where there is none.
pub open spec fn step_below(a: int, n: nat) -> nat
    decreases n,
{
    if n == 0 {
        0
    } else if arctangent_value(n as int) <= a {
        n
    } else {
        step_below(a, (n - 1) as nat)
    }
}

/// The number between zero and one whose arctangent is `a`, for `a` from
/// zero to a quarter of pi: the table read the other way round, along the same
/// straight lines, rounded down.
pub open spec fn spec_tangent_low(a: Fixed) -> Fixed {
    if a.raw <= 0 {
        Fixed { raw: 0 }
    } else if a.raw >= QUARTER_PI_RAW {
        Fixed { raw: SCALE }
    } else {
        let i = step_below(a.raw as int, 63) as int;
        let rise = arctangent_value(i + 1) - arctangent_value(i);
        Fixed { raw: (i * STEP + ((a.raw - arctangent_value(i)) * STEP) / rise) as i64 }
    }
}

/// The tangent of the angle `a`, for `a` from zero to half of pi. Above a
/// quarter of pi it is the inverse of the tangent of what `a` lacks to half of
/// pi. Below zero it is taken at zero.
pub open spec fn spec_tangent(a: Fixed) -> Fixed {
    if a.raw <= QUARTER_PI_RAW {
        spec_tangent_low(a)
    } else {
        Fixed { raw: SCALE }.spec_div(spec_tangent_low(Fixed { raw: HALF_PI_RAW }.spec_sub(a)))
    }
}

/// The arctangent lies between zero and a quarter of pi.
pub proof fn lemma_arctangent_range(t: Fixed)
    ensures
        0 <= spec_arctangent(t).raw <= QUARTER_PI_RAW,
{
    lemma_arctangents_rise();
    if 0 < t.raw < SCALE {
        let i = t.raw as int / (STEP as int);
        let part = t.raw as int % (STEP as int);
        let low = arctangent_value(i);
        let rise = arctangent_value(i + 1) - low;
        assert(0 <= i <= 63);
        assert(0 <= rise * part <= rise * STEP) by (nonlinear_arith)
            requires
                0 <= rise,
                0 <= part <= STEP,
        ;
        assert(0 <= (rise * part) / (STEP as int) <= rise) by (nonlinear_arith)
            requires
                0 <= rise * part <= rise * STEP,
                STEP > 0,
        ;
    }
}

/// The angle of a direction lies between minus pi and pi, and is not
/// negative in the upper half of the plane.
pub proof fn lemma_atan2_range(y: Fixed, x: Fixed)
    ensures
        -PI_RAW <= spec_atan2(y, x).raw <= PI_RAW,
        y.raw >= 0 ==> 0 <= spec_atan2(y, x).raw,
{
    lemma_arctangent_range(y.spec_abs().spec_div(x.spec_abs()));
    lemma_arctangent_range(x.spec_abs().spec_div(y.spec_abs()));
}

/// The arccosine lies between zero and pi.
pub proof fn lemma_acos_range(c: Fixed)
    ensures
        0 <= spec_acos(c).raw <= PI_RAW,
{
    let k = c.spec_min(Fixed { raw: SCALE }).spec_max(Fixed { raw: (-SCALE) as i64 });
    let n = Fixed { raw: SCALE }.spec_sub(k.spec_mul(k));
    let s = n.spec_sqrt();
    if n.raw > 0 {
        crate::fixed::lemma_sqrt_is_root(n);
    }
    lemma_atan2_range(s, k);
}

/// The entry `i` of the table.
fn arctangent_at(i: usize) -> (r: i64)
    requires
        i <= 64,
    ensures
        r == arctangent_value(i as int),
{
    proof {
        reveal(arctangent_value);
    }
    ARCTANGENTS[i]
}

/// The arctangent of a number between zero and one.
pub fn arctangent(t: Fixed) -> (r: Fixed)
    ensures
        r == spec_arctangent(t),
        0 <= r.raw <= QUARTER_PI_RAW,
{
    proof {
        lemma_arctangents_rise();
    }
    if t.raw <= 0 {
        Fixed { raw: 0 }
    } else if t.raw >= SCALE {
        Fixed { raw: QUARTER_PI_RAW }
    } else {
        let i: usize = (t.raw / STEP) as usize;
        let part: i64 = t.raw % STEP;
        let low = arctangent_at(i);
        let high = arctangent_at(i + 1);
        let rise: i64 = high - low;
        assert(0 <= rise * part <= rise * STEP) by (nonlinear_arith)
            requires
                0 <= rise,
                0 <= part <= STEP,
        ;
        assert(rise * STEP <= QUARTER_PI_RAW * STEP) by (nonlinear_arith)
            requires
                0 <= rise <= QUARTER_PI_RAW,
                STEP > 0,
        ;
        let share: i128 = ((rise as i128) * (part as i128)) / (STEP as i128);
        assert(share <= rise) by (nonlinear_arith)
            requires
                share == (rise * part) / (STEP as int),
                rise * part <= rise * STEP,
                STEP > 0,
        ;
        Fixed { raw: (low as i128 + share) as i64 }
    }
}

/// The angle of a direction in the first quadrant.
fn quadrant_angle(y: Fixed, x: Fixed) -> (r: Fixed)
    requires
        0 <= x.raw,
        0 <= y.raw,
    ensures
        r == spec_quadrant_angle(y, x),
        0 <= r.raw <= HALF_PI_RAW,
{
    if x.raw == 0 && y.raw == 0 {
        Fixed { raw: 0 }
    } else if x.raw >= y.raw {
        arctangent(y / x)
    } else {
        Fixed { raw: HALF_PI_RAW } - arctangent(x / y)
    }
}

/// The angle of the direction `(x, y)`.
pub fn atan2(y: Fixed, x: Fixed) -> (r: Fixed)
    ensures
        r == spec_atan2(y, x),
        -PI_RAW <= r.raw <= PI_RAW,
        y.raw >= 0 ==> 0 <= r.raw,
{
    let a = quadrant_angle(y.abs(), x.abs());
    let b = if x.raw < 0 {
        Fixed { raw: PI_RAW } - a
    } else {
        a
    };
    if y.raw < 0 {
        b.neg()
    } else {
        b
    }
}

/// The table rises strictly.
pub proof fn lemma_arctangents_rise_strictly()
    ensures
        forall|i: int, j: int| 0 <= i < j <= 64 ==> arctangent_value(i) < arctangent_value(j),
{
    reveal(arctangent_value);
}

/// `step_below(a, n)` is `k` once `k <= n` is known to be the highest step
/// among `0..=n` that `a` reaches.
pub proof fn lemma_step_below(a: int, n: nat, k: nat)
    requires
        k <= n,
        k == 0 || arctangent_value(k as int) <= a,
        forall|j: int| k < j <= n ==> a < arctangent_value(j),
    ensures
        step_below(a, n) == k,
    decreases n,
{
    if n > k {
        lemma_step_below(a, (n - 1) as nat, k);
    }
}

/// The tangent of an angle between zero and a quarter of pi.
fn tangent_low(a: Fixed) -> (r: Fixed)
    ensures
        r == spec_tangent_low(a),
        0 <= r.raw <= SCALE,
{
    if a.raw <= 0 {
        Fixed { raw: 0 }
    } else if a.raw >= QUARTER_PI_RAW {
        Fixed { raw: SCALE }
    } else {
        proof {
            lemma_arctangents_rise();
            lemma_arctangents_rise_strictly();
        }
        let mut lo: usize = 0;
        let mut hi: usize = 64;
        while hi - lo > 1
            invariant
                lo < hi <= 64,
                arctangent_value(lo as int) <= a.raw < arctangent_value(hi as int),
            decreases hi - lo,
        {
            let mid: usize = lo + (hi - lo) / 2;
            if arctangent_at(mid) <= a.raw {
                lo = mid;
            } else {
                hi = mid;
            }
        }
        proof {
            lemma_step_below(a.raw as int, 63, lo as nat);
        }
        let low = arctangent_at(lo);
        let rise: i64 = arctangent_at(lo + 1) - low;
        let over: i64 = a.raw - low;
        assert(0 <= over * STEP < rise * STEP && rise * STEP <= QUARTER_PI_RAW * STEP) by (nonlinear_arith)
            requires
                0 <= over < rise <= QUARTER_PI_RAW,
                STEP > 0,
        ;
        let part: i128 = ((over as i128) * (STEP as i128)) / (rise as i128);
        assert(part < STEP) by (nonlinear_arith)
            requires
                part == (over * STEP) / (rise as int),
                0 <= over * STEP < rise * STEP,
                rise > 0,
        ;
        assert(0 <= part) by (nonlinear_arith)
            requires
                part == (over * STEP) / (rise as int),
                0 <= over * STEP,
                rise > 0,
        ;
        assert(lo * STEP + STEP <= 64 * STEP) by (nonlinear_arith)
            requires
                lo <= 63,
                STEP > 0,
        ;
        Fixed { raw: ((lo as i128) * (STEP as i128) + part) as i64 }
    }
}

/// The tangent of an angle between zero and half of pi.
pub fn tangent(a: Fixed) -> (r: Fixed)
    ensures
        r == spec_tangent(a),
        0 <= r.raw,
{
    if a.raw <= QUARTER_PI_RAW {
        tangent_low(a)
    } else {
        Fixed { raw: SCALE } / tangent_low(Fixed { raw: HALF_PI_RAW } - a)
    }
}

/// Half of an angle given in degrees, in radians.
pub open spec fn spec_half_angle(degrees: Fixed) -> Fixed {
    degrees.spec_mul(Fixed { raw: PI_RAW }).spec_div(Fixed::spec_from_int(360))
}

/// Half of an angle given in degrees, in radians.
pub fn half_angle(degrees: Fixed) -> (r: Fixed)
    ensures
        r == spec_half_angle(degrees),
{
    degrees * Fixed { raw: PI_RAW } / Fixed::from_int(360)
}

/// The angle whose cosine is `c`.
pub fn acos(c: Fixed) -> (r: Fixed)
    ensures
        r == spec_acos(c),
        0 <= r.raw <= PI_RAW,
{
    let k = c.min(Fixed { raw: SCALE }).max(Fixed { raw: -SCALE });
    let s = (Fixed { raw: SCALE } - k * k).sqrt();
    atan2(s, k)
}

} // verus!
