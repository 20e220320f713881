//! Linear RGB colours.
use crate::fixed::{
    in_range, lemma_div_shrinks, lemma_mul_distributes, lemma_mul_distributes_within_step,
    lemma_mul_shrinks, lemma_quotient_bounded, lemma_quotient_of_multiple, quotient, Fixed, SCALE,
};
use crate::gamma::{decode, encode, lemma_level_clamps, level, level_value};
use crate::math::Vector3;
use vstd::prelude::*;

verus! {

/// A colour in linear light. The channels are not kept within zero and one:
/// clamping belongs to the conversion into 8-bit levels.
#[derive(Clone, Copy, Debug, PartialEq, Eq, Structural)]
pub struct Color {
    pub r: Fixed,
    pub g: Fixed,
    pub b: Fixed,
}

/// `c` brought into the range from zero to one.
pub open spec fn unit_clamp(c: Fixed) -> Fixed {
    c.spec_min(Fixed { raw: SCALE }).spec_max(Fixed { raw: 0 })
}

impl Color {
    /// The colour whose channels are all zero.
    pub open spec fn spec_black() -> Color {
        Color { r: Fixed { raw: 0 }, g: Fixed { raw: 0 }, b: Fixed { raw: 0 } }
    }

    /// The colour of the horizon.
    pub open spec fn horizon() -> Color {
        Color { r: Fixed { raw: SCALE }, g: Fixed { raw: SCALE }, b: Fixed { raw: SCALE } }
    }

    /// The colour of the zenith: red 1/2, green 7/10, blue 1.
    pub open spec fn zenith() -> Color {
        Color {
            r: Fixed::spec_from_int(1).spec_div(Fixed::spec_from_int(2)),
            g: Fixed::spec_from_int(7).spec_div(Fixed::spec_from_int(10)),
            b: Fixed { raw: SCALE },
        }
    }

    /// The sum, channel by channel.
    pub open spec fn spec_add(self, rhs: Color) -> Color {
        Color {
            r: self.r.spec_add(rhs.r),
            g: self.g.spec_add(rhs.g),
            b: self.b.spec_add(rhs.b),
        }
    }

    /// Every channel multiplied by `rhs`.
    pub open spec fn spec_scale(self, rhs: Fixed) -> Color {
        Color { r: self.r.spec_mul(rhs), g: self.g.spec_mul(rhs), b: self.b.spec_mul(rhs) }
    }

    /// The product, channel by channel.
    pub open spec fn spec_mul(self, rhs: Color) -> Color {
        Color {
            r: self.r.spec_mul(rhs.r),
            g: self.g.spec_mul(rhs.g),
            b: self.b.spec_mul(rhs.b),
        }
    }

    /// Every channel divided by `rhs`.
    pub open spec fn spec_div(self, rhs: Fixed) -> Color {
        Color { r: self.r.spec_div(rhs), g: self.g.spec_div(rhs), b: self.b.spec_div(rhs) }
    }

    /// Every channel brought into the range from zero to one.
    pub open spec fn spec_clamp(self) -> Color {
        Color { r: unit_clamp(self.r), g: unit_clamp(self.g), b: unit_clamp(self.b) }
    }

    /// The colours added up from the left, starting from black.
    pub open spec fn spec_sum(colors: Seq<Color>) -> Color
        decreases colors.len(),
    {
        if colors.len() == 0 {
            Color::spec_black()
        } else {
            Color::spec_sum(colors.drop_last()).spec_add(colors.last())
        }
    }

    /// The background seen along `direction`: the horizon colour blended into
    /// the zenith colour as the direction rises from straight down to
    /// straight up.
    pub open spec fn spec_sky(direction: Vector3) -> Color {
        let t = direction.y.spec_add(Fixed { raw: SCALE }).spec_div(Fixed::spec_from_int(2));
        Color::horizon().spec_scale(Fixed { raw: SCALE }.spec_sub(t)).spec_add(
            Color::zenith().spec_scale(t),
        )
    }

    /// The two colours differ by at most one step of 2^-32 in each channel.
    pub open spec fn within_step(self, other: Color) -> bool {
        &&& self.r.within_step(other.r)
        &&& self.g.within_step(other.g)
        &&& self.b.within_step(other.b)
    }

    /// No channel exceeds `bound` in magnitude.
    pub open spec fn within(self, bound: int) -> bool {
        &&& -bound <= self.r.raw <= bound
        &&& -bound <= self.g.raw <= bound
        &&& -bound <= self.b.raw <= bound
    }

    /// Every channel lies between zero and one.
    pub open spec fn is_clamped(self) -> bool {
        &&& 0 <= self.r.raw <= SCALE
        &&& 0 <= self.g.raw <= SCALE
        &&& 0 <= self.b.raw <= SCALE
    }

    /// The 8-bit levels of the three channels, followed by full opacity. A
    /// channel below zero has the level 0, one above one the level 255.
    pub fn to_rgba8(self) -> (r: [u8; 4])
        ensures
            r[0] == level(self.r.raw as int),
            r[1] == level(self.g.raw as int),
            r[2] == level(self.b.raw as int),
            r[3] == 255,
    {
        [encode(self.r), encode(self.g), encode(self.b), 255u8]
    }

    /// The colour whose channels are the linear values of the first three
    /// levels; the fourth, the opacity, is not read.
    pub fn from_rgba8(rgba8: [u8; 4]) -> (c: Color)
        ensures
            c.r.raw == level_value(rgba8[0] as int),
            c.g.raw == level_value(rgba8[1] as int),
            c.b.raw == level_value(rgba8[2] as int),
    {
        Color { r: decode(rgba8[0]), g: decode(rgba8[1]), b: decode(rgba8[2]) }
    }

    /// Every channel brought into the range from zero to one.
    pub fn clamp(&self) -> (c: Color)
        ensures
            c == self.spec_clamp(),
            c.is_clamped(),
    {
        let one = Fixed { raw: SCALE };
        let zero = Fixed { raw: 0 };
        Color {
            r: self.r.min(one).max(zero),
            b: self.b.min(one).max(zero),
            g: self.g.min(one).max(zero),
        }
    }

    /// The colour whose channels are all zero.
    pub fn black() -> (c: Color)
        ensures
            c == Color::spec_black(),
    {
        Color { r: Fixed { raw: 0 }, g: Fixed { raw: 0 }, b: Fixed { raw: 0 } }
    }

    /// The colour of the sky along `direction`.
    pub fn sky(direction: &Vector3) -> (c: Color)
        ensures
            c == Color::spec_sky(*direction),
    {
        let one = Fixed { raw: SCALE };
        let t = (direction.y + one) / Fixed::from_int(2);
        let horizon = Color { r: one, g: one, b: one };
        let zenith = Color { r: Fixed::from_ratio(1, 2), g: Fixed::from_ratio(7, 10), b: one };
        horizon * (one - t) + zenith * t
    }

    /// The colours added up from the left, starting from black.
    pub fn sum(colors: &Vec<Color>) -> (c: Color)
        ensures
            c == Color::spec_sum(colors@),
            colors@.len() == 0 ==> c == Color::spec_black(),
    {
        let mut total = Color::black();
        let mut i: usize = 0;
        while i < colors.len()
            invariant
                i <= colors.len(),
                total == Color::spec_sum(colors@.take(i as int)),
            decreases colors.len() - i,
        {
            proof {
                assert(colors@.take(i + 1).drop_last() =~= colors@.take(i as int));
            }
            total = total + colors[i];
            i = i + 1;
        }
        proof {
            assert(colors@.take(i as int) =~= colors@);
        }
        total
    }
}

/// None of the operations saturates when the sum of `a` and `b` is
/// multiplied by `s`, nor when their products with `s` are added.
pub open spec fn scales_exactly(a: Fixed, b: Fixed, s: Fixed) -> bool {
    &&& in_range(a.raw + b.raw)
    &&& in_range(quotient((a.raw + b.raw) * s.raw, SCALE as int))
    &&& in_range(quotient(a.raw * s.raw, SCALE as int))
    &&& in_range(quotient(b.raw * s.raw, SCALE as int))
    &&& in_range(quotient(a.raw * s.raw, SCALE as int) + quotient(b.raw * s.raw, SCALE as int))
}

/// Scaling distributes over the sum of two colours up to rounding: where
/// nothing saturates, `(a + b) * s` and `a * s + b * s` differ by at most one
/// step of 2^-32 in each channel.
pub proof fn lemma_scale_distributes(a: Color, b: Color, s: Fixed)
    requires
        scales_exactly(a.r, b.r, s),
        scales_exactly(a.g, b.g, s),
        scales_exactly(a.b, b.b, s),
    ensures
        a.spec_add(b).spec_scale(s).within_step(a.spec_scale(s).spec_add(b.spec_scale(s))),
{
    lemma_mul_distributes_within_step(a.r, b.r, s);
    lemma_mul_distributes_within_step(a.g, b.g, s);
    lemma_mul_distributes_within_step(a.b, b.b, s);
}

/// The product of `a` and `s` needs no rounding.
pub open spec fn scales_without_rounding(a: Fixed, s: Fixed) -> bool {
    a.raw * s.raw == quotient(a.raw * s.raw, SCALE as int) * SCALE
}

/// Scaling distributes over the sum of two colours: `(a + b) * s` is
/// `a * s + b * s` where nothing saturates and no product needs rounding.
pub proof fn lemma_scale_distributes_exactly(a: Color, b: Color, s: Fixed)
    requires
        scales_exactly(a.r, b.r, s),
        scales_exactly(a.g, b.g, s),
        scales_exactly(a.b, b.b, s),
        scales_without_rounding(a.r, s) && scales_without_rounding(b.r, s),
        scales_without_rounding(a.g, s) && scales_without_rounding(b.g, s),
        scales_without_rounding(a.b, s) && scales_without_rounding(b.b, s),
    ensures
        a.spec_add(b).spec_scale(s) == a.spec_scale(s).spec_add(b.spec_scale(s)),
{
    lemma_mul_distributes(a.r, b.r, s);
    lemma_mul_distributes(a.g, b.g, s);
    lemma_mul_distributes(a.b, b.b, s);
}

/// The 8-bit levels of a colour are those of the colour clamped: `to_rgba8`
/// clamps and encodes in one.
pub proof fn lemma_levels_of_clamped(c: Color)
    ensures
        level(c.spec_clamp().r.raw as int) == level(c.r.raw as int),
        level(c.spec_clamp().g.raw as int) == level(c.g.raw as int),
        level(c.spec_clamp().b.raw as int) == level(c.b.raw as int),
{
    lemma_level_clamps(c.r.raw as int);
    lemma_level_clamps(c.g.raw as int);
    lemma_level_clamps(c.b.raw as int);
    lemma_level_clamps(0);
    lemma_level_clamps(SCALE as int);
}

/// The sum of no colours is black.
pub proof fn lemma_sum_of_none()
    ensures
        Color::spec_sum(Seq::empty()) == Color::spec_black(),
{
}

/// The sum of up to 1024 copies of a colour whose channels are at most 2^52
/// in magnitude has as many times its channels: nothing saturates.
pub proof fn lemma_sum_of_copies(colors: Seq<Color>, c: Color)
    requires
        c.within(0x10_0000_0000_0000),
        colors.len() <= 1024,
        forall|i: int| 0 <= i < colors.len() ==> colors[i] == c,
    ensures
        Color::spec_sum(colors).r.raw == c.r.raw * colors.len(),
        Color::spec_sum(colors).g.raw == c.g.raw * colors.len(),
        Color::spec_sum(colors).b.raw == c.b.raw * colors.len(),
    decreases colors.len(),
{
    if colors.len() > 0 {
        let n = colors.len() as int;
        lemma_sum_of_copies(colors.drop_last(), c);
        assert(colors.drop_last().len() == n - 1);
        assert(colors.last() == c);
        lemma_copies_in_range(c.r, n);
        lemma_copies_in_range(c.g, n);
        lemma_copies_in_range(c.b, n);
    } else {
        assert(c.r.raw * 0 == 0 && c.g.raw * 0 == 0 && c.b.raw * 0 == 0);
    }
}

/// Up to 1024 times a number of at most 2^52 in magnitude is in range, and
/// is one more of it than one time less.
proof fn lemma_copies_in_range(v: Fixed, n: int)
    requires
        -0x10_0000_0000_0000 <= v.raw <= 0x10_0000_0000_0000,
        0 < n <= 1024,
    ensures
        v.raw * (n - 1) + v.raw == v.raw * n,
        -0x4000_0000_0000_0000 <= v.raw * n <= 0x4000_0000_0000_0000,
        -0x4000_0000_0000_0000 <= v.raw * (n - 1) <= 0x4000_0000_0000_0000,
{
    assert(v.raw * (n - 1) + v.raw == v.raw * n) by (nonlinear_arith);
    assert(-0x4000_0000_0000_0000 <= v.raw * n <= 0x4000_0000_0000_0000) by (nonlinear_arith)
        requires
            -0x10_0000_0000_0000 <= v.raw <= 0x10_0000_0000_0000,
            0 < n <= 1024,
    ;
    assert(-0x4000_0000_0000_0000 <= v.raw * (n - 1) <= 0x4000_0000_0000_0000) by (nonlinear_arith)
        requires
            -0x10_0000_0000_0000 <= v.raw <= 0x10_0000_0000_0000,
            0 <= n - 1 <= 1024,
    ;
}

/// The mean of up to 1024 copies of a colour whose channels are at most 2^52
/// in magnitude is that colour.
pub proof fn lemma_mean_of_copies(colors: Seq<Color>, c: Color)
    requires
        c.within(0x10_0000_0000_0000),
        0 < colors.len() <= 1024,
        forall|i: int| 0 <= i < colors.len() ==> colors[i] == c,
    ensures
        Color::spec_sum(colors).spec_div(Fixed::spec_from_int(colors.len() as i32)) == c,
{
    let n = colors.len() as int;
    lemma_sum_of_copies(colors, c);
    let d = n * SCALE;
    assert(0 < d <= 1024 * SCALE) by (nonlinear_arith)
        requires
            0 < n <= 1024,
            d == n * SCALE,
            SCALE == 0x1_0000_0000,
    ;
    assert((c.r.raw * n) * SCALE == c.r.raw * d && (c.g.raw * n) * SCALE == c.g.raw * d && (c.b.raw
        * n) * SCALE == c.b.raw * d) by (nonlinear_arith)
        requires
            d == n * SCALE,
    ;
    lemma_quotient_of_multiple(c.r.raw as int, d);
    lemma_quotient_of_multiple(c.g.raw as int, d);
    lemma_quotient_of_multiple(c.b.raw as int, d);
}

/// No channel of the sky exceeds 2^52 in magnitude along a direction whose
/// height is at most 2^49 in magnitude.
pub proof fn lemma_sky_bounded(direction: Vector3)
    requires
        -0x2_0000_0000_0000 <= direction.y.raw <= 0x2_0000_0000_0000,
    ensures
        Color::spec_sky(direction).within(0x10_0000_0000_0000),
{
    let one = Fixed { raw: SCALE };
    let two = Fixed::spec_from_int(2);
    let lifted = direction.y.spec_add(one);
    let t = lifted.spec_div(two);
    lemma_div_shrinks(lifted, two);
    let rest = one.spec_sub(t);
    lemma_quotient_of_multiple(rest.raw as int, SCALE as int);
    assert(SCALE * rest.raw == rest.raw * SCALE) by (nonlinear_arith);
    assert(one.spec_mul(rest) == rest);
    let half = Fixed::spec_from_int(1).spec_div(two);
    let most = Fixed::spec_from_int(7).spec_div(Fixed::spec_from_int(10));
    lemma_div_shrinks(Fixed::spec_from_int(1), two);
    lemma_quotient_bounded(7 * SCALE * SCALE, 10 * SCALE, SCALE as int);
    assert(7 * SCALE * SCALE >= 0 && 7 * SCALE * SCALE == (7 * SCALE) * SCALE) by (nonlinear_arith);
    lemma_mul_shrinks(half, t);
    lemma_mul_shrinks(most, t);
    lemma_mul_shrinks(one, t);
}

impl Default for Color {
    /// Black.
    fn default() -> (c: Color)
        ensures
            c == Color::spec_black(),
    {
        Color { r: Fixed { raw: 0 }, g: Fixed { raw: 0 }, b: Fixed { raw: 0 } }
    }
}

impl core::ops::Add for Color {
    type Output = Color;

    /// The sum, channel by channel.
    fn add(self, rhs: Color) -> (c: Color)
        ensures
            c == self.spec_add(rhs),
    {
        Color { r: self.r + rhs.r, g: self.g + rhs.g, b: self.b + rhs.b }
    }
}

impl vstd::std_specs::ops::AddSpecImpl for Color {
    open spec fn obeys_add_spec() -> bool {
        true
    }

    open spec fn add_req(self, rhs: Color) -> bool {
        true
    }

    open spec fn add_spec(self, rhs: Color) -> Color {
        self.spec_add(rhs)
    }
}

impl core::ops::AddAssign for Color {
    /// Adds `other`, channel by channel.
    fn add_assign(&mut self, other: Color)
        ensures
            *final(self) == old(self).spec_add(other),
    {
        *self = Color { r: self.r + other.r, g: self.g + other.g, b: self.b + other.b };
    }
}

impl core::ops::Mul<Fixed> for Color {
    type Output = Color;

    /// Every channel multiplied by `rhs`.
    fn mul(self, rhs: Fixed) -> (c: Color)
        ensures
            c == self.spec_scale(rhs),
    {
        Color { r: self.r * rhs, g: self.g * rhs, b: self.b * rhs }
    }
}

impl vstd::std_specs::ops::MulSpecImpl<Fixed> for Color {
    open spec fn obeys_mul_spec() -> bool {
        true
    }

    open spec fn mul_req(self, rhs: Fixed) -> bool {
        true
    }

    open spec fn mul_spec(self, rhs: Fixed) -> Color {
        self.spec_scale(rhs)
    }
}

impl core::ops::Mul<Color> for Color {
    type Output = Color;

    /// The product, channel by channel.
    fn mul(self, rhs: Color) -> (c: Color)
        ensures
            c == self.spec_mul(rhs),
    {
        Color { r: self.r * rhs.r, g: self.g * rhs.g, b: self.b * rhs.b }
    }
}

impl vstd::std_specs::ops::MulSpecImpl<Color> for Color {
    open spec fn obeys_mul_spec() -> bool {
        true
    }

    open spec fn mul_req(self, rhs: Color) -> bool {
        true
    }

    open spec fn mul_spec(self, rhs: Color) -> Color {
        self.spec_mul(rhs)
    }
}

impl core::ops::Div<Fixed> for Color {
    type Output = Color;

    /// Every channel divided by `rhs`.
    fn div(self, rhs: Fixed) -> (c: Color)
        ensures
            c == self.spec_div(rhs),
    {
        Color { r: self.r / rhs, b: self.b / rhs, g: self.g / rhs }
    }
}

impl vstd::std_specs::ops::DivSpecImpl<Fixed> for Color {
    open spec fn obeys_div_spec() -> bool {
        true
    }

    open spec fn div_req(self, rhs: Fixed) -> bool {
        true
    }

    open spec fn div_spec(self, rhs: Fixed) -> Color {
        self.spec_div(rhs)
    }
}

} // verus!
