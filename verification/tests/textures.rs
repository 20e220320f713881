use raytrace::color::Color;
use raytrace::fixed::Fixed;
use raytrace::scene::material::{wrap, Coloration, Texture, TextureCoords};
use raytrace::texels::Texels;

fn fx(v: f64) -> Fixed {
    Fixed::from_raw((v * 4294967296.0).round() as i64)
}

fn grid(width: u32, height: u32) -> Texels {
    let mut bytes = Vec::new();
    for y in 0..height {
        for x in 0..width {
            bytes.push((10 * x) as u8);
            bytes.push((20 * y) as u8);
            bytes.push((x + 4 * y) as u8);
            bytes.push(255);
        }
    }
    Texels::new(width, height, bytes).unwrap()
}

#[test]
fn wrap_multiplies_and_rounds_down() {
    assert_eq!(wrap(fx(0.25), 8), 2);
    assert_eq!(wrap(fx(0.999), 512), 511);
    assert_eq!(wrap(fx(0.0), 5), 0);
}

#[test]
fn wrap_of_a_coordinate_in_the_unit_range_is_the_floor() {
    for i in 0..1000 {
        let v = i as f64 / 1000.0;
        let raw = fx(v).raw;
        assert_eq!(wrap(fx(v), 37) as i64, (raw * 37) >> 32);
    }
}

#[test]
fn wrap_repeats_above_one() {
    assert_eq!(wrap(fx(1.5), 4), 2);
    assert_eq!(wrap(fx(7.0), 7), 0);
    assert_eq!(wrap(fx(3.25), 8), 2);
}

#[test]
fn wrap_repeats_below_zero() {
    assert_eq!(wrap(fx(-0.3), 10), 7);
    assert_eq!(wrap(fx(-2.5), 4), 2);
    assert_eq!(wrap(fx(-0.05), 10), 0);
    assert_eq!(wrap(fx(-1.0), 10), 0);
}

#[test]
fn wrap_stays_below_the_bound() {
    for i in -500..500 {
        let v = i as f64 * 0.137;
        for bound in [1u32, 2, 3, 64, 1000, u32::MAX] {
            assert!(wrap(fx(v), bound) < bound);
        }
    }
    assert!(wrap(Fixed::from_raw(i64::MIN), u32::MAX) < u32::MAX);
    assert!(wrap(Fixed::from_raw(i64::MAX), u32::MAX) < u32::MAX);
}

#[test]
fn a_grid_needs_four_bytes_for_each_texel() {
    assert!(Texels::new(2, 2, vec![0u8; 15]).is_none());
    assert!(Texels::new(2, 2, vec![0u8; 16]).is_some());
    assert!(Texels::new(0, 0, Vec::new()).is_some());
    assert_eq!(Texels::new(2, 1, vec![7u8; 11]).unwrap().texel(1, 0), Some([7, 7, 7, 7]));
    assert!(Texels::new(u32::MAX, u32::MAX, vec![0u8; 16]).is_none());
}

#[test]
fn a_grid_knows_its_size_and_its_texels() {
    let g = grid(4, 3);
    assert_eq!(g.dimensions(), (4, 3));
    assert_eq!(g.texel(0, 0), Some([0, 0, 0, 255]));
    assert_eq!(g.texel(3, 1), Some([30, 20, 7, 255]));
    assert_eq!(g.texel(1, 2), Some([10, 40, 9, 255]));
    assert_eq!(g.texel(4, 0), None);
    assert_eq!(g.texel(0, 3), None);
}

#[test]
fn a_solid_colour_is_the_same_everywhere() {
    let red = Color { r: fx(1.0), g: fx(0.0), b: fx(0.0) };
    let c = Coloration::Color(red);
    assert_eq!(c.color(&TextureCoords { u: fx(0.3), v: fx(-7.0) }), red);
    assert_eq!(c.color(&TextureCoords { u: fx(100.0), v: fx(0.0) }), red);
}

#[test]
fn a_texture_gives_the_texel_under_the_coordinates() {
    let tex = Coloration::Texture(Texture {
        image: grid(4, 3),
        offset_x: fx(0.0),
        offset_y: fx(0.0),
        scale: fx(1.0),
    });
    let c = tex.color(&TextureCoords { u: fx(0.8), v: fx(0.4) });
    assert_eq!(c, Color::from_rgba8([30, 20, 7, 255]));
    assert_eq!(c.to_rgba8(), [30, 20, 7, 255]);
}

#[test]
fn a_texture_is_tiled_and_shifted() {
    let tex = Coloration::Texture(Texture {
        image: grid(4, 3),
        offset_x: fx(0.25),
        offset_y: fx(-0.5),
        scale: fx(0.5),
    });
    // u: (0.3 + 0.25) / 0.5 = 1.1 -> column 0 of the second tile
    // v: (0.1 - 0.5) / 0.5 = -0.8 -> -2 after rounding toward zero -> row 1
    let c = tex.color(&TextureCoords { u: fx(0.3), v: fx(0.1) });
    assert_eq!(c.to_rgba8(), [0, 20, 4, 255]);
}
