use raytrace::color::Color;
use raytrace::fixed::Fixed;
use raytrace::gamma::{decode, encode, LEVELS};
use raytrace::math::Vector3;

fn fx(v: f64) -> Fixed {
    Fixed::from_raw((v * 4294967296.0).round() as i64)
}

fn rgb(r: f64, g: f64, b: f64) -> Color {
    Color { r: fx(r), g: fx(g), b: fx(b) }
}

#[test]
fn black_has_no_light() {
    assert_eq!(Color::black(), rgb(0.0, 0.0, 0.0));
}

#[test]
fn the_default_colour_is_black() {
    assert_eq!(Color::default(), Color::black());
}

#[test]
fn levels_clamp_what_lies_outside_zero_and_one() {
    for c in [rgb(-0.5, 0.25, 7.0), rgb(1.0, 0.0, 300.0), rgb(0.3, -2.0, 0.999)] {
        assert_eq!(c.to_rgba8(), c.clamp().to_rgba8());
    }
}

#[test]
fn colours_add_by_channel() {
    assert_eq!(rgb(0.25, 0.5, 1.0) + rgb(1.0, 0.25, 3.0), rgb(1.25, 0.75, 4.0));
}

#[test]
fn a_colour_is_added_to_in_place() {
    let mut c = rgb(0.25, 0.5, 1.0);
    c += rgb(1.0, 0.25, 3.0);
    assert_eq!(c, rgb(1.25, 0.75, 4.0));
}

#[test]
fn colours_scale_by_channel() {
    assert_eq!(rgb(0.25, 0.5, 1.0) * fx(2.0), rgb(0.5, 1.0, 2.0));
    assert_eq!(rgb(0.25, 0.5, 1.0) / fx(2.0), rgb(0.125, 0.25, 0.5));
}

#[test]
fn colours_multiply_by_channel() {
    assert_eq!(rgb(0.5, 2.0, 1.0) * rgb(0.5, 0.25, 3.0), rgb(0.25, 0.5, 3.0));
}

#[test]
fn clamp_brings_channels_between_zero_and_one() {
    assert_eq!(rgb(-0.5, 0.25, 7.0).clamp(), rgb(0.0, 0.25, 1.0));
}

#[test]
fn channels_are_not_clamped_while_light_adds_up() {
    let bright = rgb(0.75, 0.75, 0.75) + rgb(0.75, 0.75, 0.75);
    assert_eq!(bright, rgb(1.5, 1.5, 1.5));
    assert_eq!(bright / fx(2.0), rgb(0.75, 0.75, 0.75));
}

#[test]
fn sum_of_no_colours_is_black() {
    assert_eq!(Color::sum(&Vec::new()), Color::black());
}

#[test]
fn sum_adds_from_the_left() {
    let colors = vec![rgb(0.25, 0.0, 1.0), rgb(0.5, 0.5, 0.5), rgb(1.0, 2.0, 3.0)];
    assert_eq!(Color::sum(&colors), rgb(1.75, 2.5, 4.5));
}

#[test]
fn scaling_distributes_over_a_sum_of_exact_products() {
    let a = rgb(0.25, 1.5, -2.0);
    let b = rgb(3.0, 0.125, 0.75);
    let s = fx(2.5);
    assert_eq!((a + b) * s, a * s + b * s);
}

#[test]
fn scaling_distributes_within_one_step_when_products_are_rounded() {
    let a = Color { r: Fixed::from_raw(1), g: Fixed::from_raw(12345), b: Fixed::from_raw(-7) };
    let b = Color { r: Fixed::from_raw(1), g: Fixed::from_raw(54321), b: Fixed::from_raw(4) };
    let s = fx(0.5);
    let left = (a + b) * s;
    let right = a * s + b * s;
    assert_eq!(left.r.raw, 1);
    assert_eq!(right.r.raw, 0);
    assert!((left.g.raw - right.g.raw).abs() <= 1);
    assert!((left.b.raw - right.b.raw).abs() <= 1);
}

#[test]
fn sky_is_white_at_the_bottom_and_blue_at_the_top() {
    let up = Vector3::new(fx(0.0), fx(1.0), fx(0.0));
    let down = Vector3::new(fx(0.0), fx(-1.0), fx(0.0));
    let level = Vector3::new(fx(0.0), fx(0.0), fx(-1.0));
    let top = Color::sky(&up);
    assert_eq!((top.r.raw, top.g.raw, top.b.raw), (2147483648, 3006477107, 4294967296));
    assert_eq!(Color::sky(&down), rgb(1.0, 1.0, 1.0));
    let middle = Color::sky(&level);
    assert_eq!((middle.r.raw, middle.g.raw, middle.b.raw), (3221225472, 3650722201, 4294967296));
}

#[test]
fn levels_follow_the_power_curve() {
    assert_eq!(LEVELS[0], 0);
    assert_eq!(LEVELS[1], 21806);
    assert_eq!(LEVELS[128], 942830010);
    assert_eq!(LEVELS[255], 4294967296);
    for k in 0..256 {
        let expected = (k as f64 / 255.0).powf(2.2);
        let got = LEVELS[k] as f64 / 4294967296.0;
        assert!((expected - got).abs() < 1e-9);
    }
}

#[test]
fn decode_reads_the_table() {
    assert_eq!(decode(0).raw, 0);
    assert_eq!(decode(64).raw, 205195299);
    assert_eq!(decode(255).raw, 4294967296);
}

#[test]
fn encode_finds_the_highest_level_not_above() {
    assert_eq!(encode(fx(0.5)), 186);
    assert_eq!(encode(fx(0.25)), 135);
    assert_eq!(encode(fx(0.75)), 223);
    assert_eq!(encode(fx(0.001)), 11);
    assert_eq!(encode(Fixed::from_raw(21805)), 0);
    assert_eq!(encode(Fixed::from_raw(21806)), 1);
}

#[test]
fn encode_clamps_what_lies_outside() {
    assert_eq!(encode(fx(-3.0)), 0);
    assert_eq!(encode(fx(0.0)), 0);
    assert_eq!(encode(fx(1.0)), 255);
    assert_eq!(encode(fx(2.0)), 255);
    assert_eq!(encode(Fixed::from_raw(4294967295)), 254);
}

#[test]
fn encode_matches_the_power_curve() {
    for i in 0..1000 {
        let v = i as f64 / 1000.0 + 0.0003;
        let expected = (v.powf(1.0 / 2.2) * 255.0) as u8;
        assert_eq!(encode(fx(v)), expected);
    }
}

#[test]
fn every_level_survives_decoding_and_encoding() {
    for k in 0..=255u8 {
        assert_eq!(encode(decode(k)), k);
        let c = Color::from_rgba8([k, 255 - k, k / 2, 7]);
        assert_eq!(c.to_rgba8(), [k, 255 - k, k / 2, 255]);
    }
}

#[test]
fn to_rgba8_is_opaque() {
    assert_eq!(rgb(0.5, 0.25, 2.0).to_rgba8(), [186, 135, 255, 255]);
    assert_eq!(rgb(-1.0, 0.0, 1.0).to_rgba8(), [0, 0, 255, 255]);
}

#[test]
fn from_rgba8_ignores_opacity() {
    let c = Color::from_rgba8([128, 0, 255, 0]);
    assert_eq!((c.r.raw, c.g.raw, c.b.raw), (942830010, 0, 4294967296));
}
