use raytrace::color::Color;
use raytrace::fixed::Fixed;
use raytrace::math::Point;
use raytrace::rendering::{
    encode_frame, par_render_pixels, render, render_a_pixel, render_pixel, Ray, NUM_SAMPLE,
};
use raytrace::scene::item::{Item, Sphere};
use raytrace::scene::material::{Coloration, Texture, UniversalMaterial};
use raytrace::scene::{Background, Scene};
use raytrace::texels::Texels;

fn fx(v: f64) -> Fixed {
    Fixed::from_raw((v * 4294967296.0).round() as i64)
}

fn fl(v: Fixed) -> f64 {
    v.raw as f64 / 4294967296.0
}

fn rgb(r: f64, g: f64, b: f64) -> Color {
    Color { r: fx(r), g: fx(g), b: fx(b) }
}

fn surface(color: Coloration, albedo: f64, emmit: f64, is_light: bool) -> UniversalMaterial {
    UniversalMaterial {
        color,
        albedo: fx(albedo),
        index: fx(0.0),
        transparency: fx(0.0),
        reflectivity: fx(0.0),
        emmit: fx(emmit),
        is_light,
    }
}

fn sphere(x: f64, y: f64, z: f64, radius: f64, material: UniversalMaterial) -> Item {
    Item::Sphere(Sphere {
        center: Point::new(fx(x), fx(y), fx(z)),
        radius: fx(radius),
        material,
    })
}

fn scene(width: u32, height: u32, items: Vec<Item>, background: Background) -> Scene {
    Scene { width, height, fov: Fixed::from_int(30), items, lights: Vec::new(), background }
}

fn red_ball_scene() -> Scene {
    let red = Coloration::Color(rgb(1.0, 0.0, 0.0));
    scene(8, 4, vec![sphere(0.0, 0.0, -5.0, 1.0, surface(red, 1.0, 0.0, false))], Background::Black)
}

#[test]
fn a_picture_must_be_wider_than_high() {
    assert!(scene(8, 4, Vec::new(), Background::Black).is_renderable());
    assert!(!scene(4, 4, Vec::new(), Background::Black).is_renderable());
    assert!(!scene(4, 8, Vec::new(), Background::Black).is_renderable());
    assert!(scene(1, 0, Vec::new(), Background::Black).is_renderable());
    assert!(!scene(0, 0, Vec::new(), Background::Black).is_renderable());
}

#[test]
fn the_pixels_of_a_picture_must_be_countable() {
    assert!(scene(65536, 65535, Vec::new(), Background::Black).is_renderable());
    assert!(!scene(65537, 65536, Vec::new(), Background::Black).is_renderable());
    assert!(!scene(u32::MAX, 2, Vec::new(), Background::Black).is_renderable());
}

#[test]
fn a_texture_must_have_texels() {
    let empty = Coloration::Texture(Texture {
        image: Texels::new(0, 5, Vec::new()).unwrap(),
        offset_x: fx(0.0),
        offset_y: fx(0.0),
        scale: fx(1.0),
    });
    assert!(!empty.is_usable());
    assert!(Coloration::Color(rgb(1.0, 0.0, 0.0)).is_usable());
    let good = surface(Coloration::Color(rgb(1.0, 0.0, 0.0)), 1.0, 0.0, false);
    let bad = surface(empty, 1.0, 0.0, false);
    let s = scene(
        8,
        4,
        vec![sphere(0.0, 0.0, -5.0, 1.0, good), sphere(0.0, 0.0, -9.0, 1.0, bad)],
        Background::Black,
    );
    assert!(!s.is_renderable());
}

#[test]
fn a_picture_of_one_row_without_height_has_no_pixels() {
    let s = scene(1, 0, Vec::new(), Background::Black);
    assert_eq!(par_render_pixels(&s).len(), 0);
    let img = render(&s);
    assert_eq!((img.width(), img.height()), (1, 0));
}

#[test]
fn a_scene_without_items_is_all_background() {
    let s = scene(8, 4, Vec::new(), Background::Black);
    let pixels = par_render_pixels(&s);
    assert_eq!(pixels.len(), 32);
    for p in &pixels {
        assert_eq!(*p, Color::black());
    }
    let img = render(&s);
    assert_eq!((img.width(), img.height()), (8, 4));
    let rgba = img.as_rgba8().unwrap();
    for y in 0..4 {
        for x in 0..8 {
            assert_eq!(rgba.get_pixel(x, y).0, [0, 0, 0, 255]);
        }
    }
}

#[test]
fn a_scene_without_items_shows_the_sky() {
    let s = scene(6, 3, Vec::new(), Background::Sky);
    let pixels = par_render_pixels(&s);
    assert_eq!(pixels.len(), 18);
    let img = render(&s);
    assert_eq!((img.width(), img.height()), (6, 3));
    let rgba = img.as_rgba8().unwrap();
    for y in 0..3 {
        for x in 0..6 {
            let expected = Color::sky(&Ray::new_prime(x, y, &s).direction);
            assert_eq!(pixels[(x + y * 6) as usize], expected);
            assert_eq!(rgba.get_pixel(x, y).0, expected.to_rgba8());
        }
    }
    // The sky is bluer at the top of the picture than at the bottom.
    assert!(pixels[0].r.raw < pixels[12].r.raw);
    assert_eq!(pixels[0].b, fx(1.0));
}

#[test]
fn pixels_are_laid_out_row_after_row() {
    let lamp = surface(Coloration::Color(rgb(1.0, 1.0, 0.0)), 0.0, 1.0, true);
    // A lamp on the ray through the upper left pixel.
    let s = scene(8, 4, vec![sphere(-1.875, 0.804, -4.0, 0.3, lamp)], Background::Black);
    let pixels = par_render_pixels(&s);
    assert_eq!(pixels.len(), 32);
    assert_eq!(pixels[0], rgb(1.0, 1.0, 0.0));
    assert_eq!(pixels[7], Color::black());
    assert_eq!(pixels[24], Color::black());
    assert_eq!(pixels[31], Color::black());
    let img = render(&s);
    let rgba = img.as_rgba8().unwrap();
    assert_eq!(rgba.get_pixel(0, 0).0, [255, 255, 0, 255]);
    assert_eq!(rgba.get_pixel(7, 0).0, [0, 0, 0, 255]);
    assert_eq!(rgba.get_pixel(0, 3).0, [0, 0, 0, 255]);
}

#[test]
fn a_lamp_in_the_middle_lights_the_centre_and_not_the_corners() {
    let lamp = surface(Coloration::Color(rgb(1.0, 1.0, 0.0)), 0.0, 0.5, true);
    let s = scene(8, 4, vec![sphere(0.0, 0.0, -5.0, 1.0, lamp)], Background::Black);
    let img = render(&s);
    let rgba = img.as_rgba8().unwrap();
    let level = rgb(0.5, 0.5, 0.0).to_rgba8();
    assert_eq!(level, [186, 186, 0, 255]);
    for (x, y) in [(3, 1), (4, 1), (3, 2), (4, 2)] {
        assert_eq!(rgba.get_pixel(x, y).0, level);
    }
    for (x, y) in [(0, 0), (7, 0), (0, 3), (7, 3)] {
        assert_eq!(rgba.get_pixel(x, y).0, [0, 0, 0, 255]);
    }
}

#[test]
fn a_red_ball_under_the_sky_shows_red_at_the_centre() {
    let mut s = red_ball_scene();
    s.background = Background::Sky;
    let img = render(&s);
    let rgba = img.as_rgba8().unwrap();
    let centre = rgba.get_pixel(4, 2).0;
    assert!(centre[0] > 0);
    assert_eq!((centre[1], centre[2], centre[3]), (0, 0, 255));
    for (x, y) in [(0, 0), (7, 0), (0, 3), (7, 3)] {
        let expected = Color::sky(&Ray::new_prime(x, y, &s).direction).clamp().to_rgba8();
        assert_eq!(rgba.get_pixel(x, y).0, expected);
    }
}

#[test]
fn nothing_is_clamped_before_the_conversion_to_levels() {
    let lamp = surface(Coloration::Color(rgb(1.0, 1.0, 0.0)), 0.0, 2.0, true);
    let s = scene(8, 4, vec![sphere(0.0, 0.0, -5.0, 1.0, lamp)], Background::Black);
    assert_eq!(render_a_pixel(&s, 4, 2), rgb(2.0, 2.0, 0.0));
    assert_eq!(render_a_pixel(&s, 0, 0), Color::black());
    assert_eq!(render_pixel(&s, 2 * 8 + 4), rgb(2.0, 2.0, 0.0));
    assert_eq!(render_pixel(&s, 0), Color::black());
    let pixels = par_render_pixels(&s);
    assert_eq!(pixels[2 * 8 + 4], rgb(2.0, 2.0, 0.0));
    let img = render(&s);
    assert_eq!(img.as_rgba8().unwrap().get_pixel(4, 2).0, [255, 255, 0, 255]);
}

#[test]
fn the_mean_is_taken_before_the_clamp() {
    // Every path sees the lamp of strength 300: so does the mean.
    let bright = surface(Coloration::Color(rgb(1.0, 1.0, 0.0)), 0.0, 300.0, true);
    let s = scene(8, 4, vec![sphere(0.0, 0.0, -5.0, 1.0, bright)], Background::Black);
    assert_eq!(render_pixel(&s, 2 * 8 + 4), rgb(300.0, 300.0, 0.0));
    assert_eq!(rgb(300.0, 300.0, 0.0).to_rgba8(), rgb(1.0, 1.0, 0.0).to_rgba8());
}

#[test]
fn more_paths_bring_a_steadier_pixel() {
    let mut s = red_ball_scene();
    s.background = Background::Sky;
    let spread = |values: &Vec<f64>| -> f64 {
        let mean = values.iter().sum::<f64>() / values.len() as f64;
        (values.iter().map(|v| (v - mean) * (v - mean)).sum::<f64>() / values.len() as f64).sqrt()
    };
    let runs = 150;
    let single: Vec<f64> = (0..runs).map(|_| fl(render_a_pixel(&s, 4, 2).r)).collect();
    let averaged: Vec<f64> = (0..runs).map(|_| fl(render_pixel(&s, 2 * 8 + 4).r)).collect();
    assert_eq!(NUM_SAMPLE, 32);
    assert!(spread(&single) > 0.0);
    assert!(spread(&averaged) < 0.5 * spread(&single));
}

#[test]
fn a_frame_has_four_levels_for_each_pixel() {
    let pixels = vec![rgb(0.5, 0.25, 2.0), rgb(-1.0, 0.0, 1.0), rgb(0.75, 0.001, 0.5)];
    assert_eq!(
        encode_frame(&pixels),
        vec![186, 135, 255, 255, 0, 0, 255, 255, 223, 11, 186, 255]
    );
    assert_eq!(encode_frame(&Vec::new()), Vec::<u8>::new());
}

#[test]
fn a_textured_lamp_is_weakened_by_nothing_and_a_textured_ball_by_its_texels() {
    let mut bytes = Vec::new();
    for _ in 0..4 {
        bytes.extend_from_slice(&[255, 0, 0, 255]);
    }
    let tex = Coloration::Texture(Texture {
        image: Texels::new(2, 2, bytes).unwrap(),
        offset_x: fx(0.0),
        offset_y: fx(0.0),
        scale: fx(1.0),
    });
    let s = scene(8, 4, vec![sphere(0.0, 0.0, -5.0, 1.0, surface(tex, 1.0, 0.0, false))], Background::Sky);
    for _ in 0..20 {
        let c = render_a_pixel(&s, 4, 2);
        assert_eq!((c.g.raw, c.b.raw), (0, 0));
    }
}

#[test]
fn a_larger_picture_of_a_lit_scene() {
    let white = Coloration::Color(rgb(1.0, 1.0, 1.0));
    let blue = Coloration::Color(rgb(0.0, 0.0, 1.0));
    let yellow = Coloration::Color(rgb(1.0, 1.0, 0.0));
    let items = vec![
        sphere(0.0, 0.5, -3.0, 1.2, surface(white, 0.5, 0.0, false)),
        sphere(-7.5, 2.0, -7.5, 5.0, surface(blue, 0.5, 0.0, false)),
        sphere(0.0, 3.0, -1.5, 1.0, surface(yellow, 0.0, 300.0, true)),
        sphere(0.0, -1000.0, -7.5, 995.0, surface(Coloration::Color(rgb(1.0, 1.0, 1.0)), 0.5, 0.0, false)),
    ];
    let s = scene(24, 12, items, Background::Sky);
    let img = render(&s);
    assert_eq!((img.width(), img.height()), (24, 12));
    let rgba = img.as_rgba8().unwrap();
    let mut lit = 0;
    for p in rgba.pixels() {
        assert_eq!(p.0[3], 255);
        if p.0[0] > 0 || p.0[1] > 0 || p.0[2] > 0 {
            lit += 1;
        }
    }
    assert!(lit > 200);
}
