use raytrace::color::Color;
use raytrace::direct::{cast_direct, direct_pixel, render_direct, render_direct_pixels, shader_diffuse};
use raytrace::fixed::Fixed;
use raytrace::math::{Point, Vector3};
use raytrace::rendering::{Light, Ray, MAX_RECURSION};
use raytrace::scene::item::{Item, Plane, Sphere};
use raytrace::scene::light::{DirectionalLight, LightSource, SphericalLight};
use raytrace::scene::material::{Coloration, SurfaceType, UniversalMaterial};
use raytrace::scene::{Background, Scene};

fn fx(v: f64) -> Fixed {
    Fixed::from_raw((v * 4294967296.0).round() as i64)
}

fn fl(v: Fixed) -> f64 {
    v.raw as f64 / 4294967296.0
}

fn vec3(x: f64, y: f64, z: f64) -> Vector3 {
    Vector3::new(fx(x), fx(y), fx(z))
}

fn point(x: f64, y: f64, z: f64) -> Point {
    Point::new(fx(x), fx(y), fx(z))
}

fn rgb(r: f64, g: f64, b: f64) -> Color {
    Color { r: fx(r), g: fx(g), b: fx(b) }
}

fn surface(color: Color, albedo: f64, reflectivity: f64, transparency: f64) -> UniversalMaterial {
    UniversalMaterial {
        color: Coloration::Color(color),
        albedo: fx(albedo),
        index: fx(1.5),
        transparency: fx(transparency),
        reflectivity: fx(reflectivity),
        emmit: fx(0.0),
        is_light: false,
    }
}

fn ball(z: f64, radius: f64, material: UniversalMaterial) -> Item {
    Item::Sphere(Sphere { center: point(0.0, 0.0, z), radius: fx(radius), material })
}

fn sun(intensity: f64) -> LightSource {
    LightSource::Directional(DirectionalLight {
        direction: vec3(0.0, 0.0, -1.0),
        color: rgb(1.0, 1.0, 1.0),
        intensity: fx(intensity),
    })
}

fn bulb(x: f64, y: f64, z: f64, intensity: f64) -> LightSource {
    LightSource::Spherical(SphericalLight {
        position: point(x, y, z),
        color: rgb(1.0, 1.0, 1.0),
        intensity: fx(intensity),
    })
}

fn scene(items: Vec<Item>, lights: Vec<LightSource>, background: Background) -> Scene {
    Scene { width: 8, height: 4, fov: Fixed::from_int(30), items, lights, background }
}

fn ahead() -> Ray {
    Ray { origin: Point::zero(), direction: vec3(0.0, 0.0, -1.0) }
}

#[test]
fn a_material_is_matt_a_mirror_or_a_glass() {
    assert_eq!(surface(rgb(1.0, 0.0, 0.0), 1.0, 0.0, 0.0).surface(), SurfaceType::Diffuse);
    assert_eq!(
        surface(rgb(1.0, 0.0, 0.0), 1.0, 0.25, 0.0).surface(),
        SurfaceType::Reflective { reflectivity: fx(0.25) }
    );
    assert_eq!(
        surface(rgb(1.0, 0.0, 0.0), 1.0, 0.25, 0.5).surface(),
        SurfaceType::Refractive { index: fx(1.5), transparency: fx(0.5) }
    );
}

#[test]
fn a_light_source_is_its_light() {
    let p = point(0.0, 0.0, -4.0);
    let s = sun(3.0);
    assert_eq!(s.intensity(&p), fx(3.0));
    assert_eq!(s.direction_from(&p), vec3(0.0, 0.0, 1.0));
    assert_eq!(s.distance(&p), Fixed::from_raw(i64::MAX));
    assert_eq!(s.color(), rgb(1.0, 1.0, 1.0));
    let b = bulb(0.0, 0.0, -2.0, 50.0);
    assert_eq!(b.intensity(&p).raw, 4272282972);
    assert_eq!(b.direction_from(&p), vec3(0.0, 0.0, 1.0));
    assert_eq!(b.distance(&p), fx(2.0));
    assert_eq!(b.color(), rgb(1.0, 1.0, 1.0));
}

#[test]
fn a_matt_surface_shows_the_light_on_it_over_pi() {
    let red = ball(-5.0, 1.0, surface(rgb(1.0, 0.0, 0.0), 1.0, 0.0, 0.0));
    let s = scene(Vec::new(), vec![sun(3.0)], Background::Black);
    let c = shader_diffuse(&s, &red, point(0.0, 0.0, -4.0), vec3(0.0, 0.0, 1.0));
    assert_eq!((c.r.raw, c.g.raw, c.b.raw), (4101391653, 0, 0));
    assert!((fl(c.r) - 3.0 / std::f64::consts::PI).abs() < 1e-8);
}

#[test]
fn a_matt_surface_is_weakened_by_its_albedo_and_the_cosine() {
    let grey = ball(-5.0, 1.0, surface(rgb(1.0, 1.0, 1.0), 0.5, 0.0, 0.0));
    let s = scene(Vec::new(), vec![sun(3.0)], Background::Black);
    let c = shader_diffuse(&s, &grey, point(0.0, 0.0, -4.0), vec3(0.0, 0.6, 0.8));
    assert_eq!((c.r.raw, c.g.raw, c.b.raw), (1640556661, 1640556661, 1640556661));
}

#[test]
fn the_light_of_all_lights_adds_up() {
    let white = ball(-5.0, 1.0, surface(rgb(1.0, 1.0, 1.0), 1.0, 0.0, 0.0));
    let s = scene(Vec::new(), vec![sun(3.0), bulb(0.0, 0.0, -2.0, 50.0)], Background::Black);
    let c = shader_diffuse(&s, &white, point(0.0, 0.0, -4.0), vec3(0.0, 0.0, 1.0));
    assert_eq!(c.r.raw, 5461301560);
    let none = scene(Vec::new(), Vec::new(), Background::Black);
    assert_eq!(shader_diffuse(&none, &white, point(0.0, 0.0, -4.0), vec3(0.0, 0.0, 1.0)), Color::black());
}

#[test]
fn a_ray_that_hits_a_matt_ball_sees_it_lit() {
    let s = scene(
        vec![ball(-5.0, 1.0, surface(rgb(1.0, 0.0, 0.0), 1.0, 0.0, 0.0))],
        vec![sun(3.0)],
        Background::Black,
    );
    let c = cast_direct(&s, &ahead(), 0);
    assert_eq!((c.r.raw, c.g.raw, c.b.raw), (4101391653, 0, 0));
    assert_eq!(cast_direct(&s, &ahead(), MAX_RECURSION), Color::black());
    let past = Ray { origin: Point::zero(), direction: vec3(0.0, 1.0, 0.0) };
    assert_eq!(cast_direct(&s, &past, 0), Color::black());
}

#[test]
fn a_ball_in_the_way_of_the_light_casts_a_shadow() {
    let floor = Item::Plane(Plane {
        pos: point(0.0, 0.0, -8.0),
        normal: vec3(0.0, 0.0, -1.0),
        material: surface(rgb(1.0, 1.0, 1.0), 1.0, 0.0, 0.0),
    });
    let blocker = ball(-5.0, 1.0, surface(rgb(1.0, 0.0, 0.0), 1.0, 0.0, 0.0));
    let s = scene(vec![floor, blocker], vec![sun(3.0)], Background::Black);
    // Beside the ball the wall behind it is lit; behind the ball it is not.
    let beside = Ray { origin: point(3.0, 0.0, 0.0), direction: vec3(0.0, 0.0, -1.0) };
    assert_eq!(cast_direct(&s, &beside, 0).r.raw, 4101391653);
    let at_the_shadow = Ray { origin: point(0.5, 0.0, -6.5), direction: vec3(0.0, 0.0, -1.0) };
    assert_eq!(cast_direct(&s, &at_the_shadow, 0), Color::black());
}

#[test]
fn a_perfect_mirror_shows_what_the_mirrored_ray_sees() {
    let mirror = ball(-5.0, 1.0, surface(rgb(1.0, 1.0, 1.0), 1.0, 1.0, 0.0));
    let s = scene(vec![mirror], vec![sun(3.0)], Background::Sky);
    let back = vec3(0.0, 0.0, 1.0);
    assert_eq!(cast_direct(&s, &ahead(), 0), Color::sky(&back));
}

#[test]
fn a_half_mirror_blends_its_own_colour_with_the_mirrored() {
    let mirror = ball(-5.0, 1.0, surface(rgb(1.0, 0.0, 0.0), 1.0, 0.5, 0.0));
    let s = scene(vec![mirror], vec![sun(3.0)], Background::Sky);
    let own = rgb(1.0, 0.0, 0.0) * (rgb(3.0, 3.0, 3.0) * fx(1.0) / Fixed::from_raw(13493037704));
    let seen = Color::sky(&vec3(0.0, 0.0, 1.0));
    assert_eq!(cast_direct(&s, &ahead(), 0), own * fx(0.5) + seen * fx(0.5));
}

#[test]
fn two_mirrors_face_to_face_end_in_black() {
    let left = Item::Plane(Plane {
        pos: point(0.0, 0.0, -5.0),
        normal: vec3(0.0, 0.0, -1.0),
        material: surface(rgb(1.0, 1.0, 1.0), 1.0, 1.0, 0.0),
    });
    let right = Item::Plane(Plane {
        pos: point(0.0, 0.0, 5.0),
        normal: vec3(0.0, 0.0, 1.0),
        material: surface(rgb(1.0, 1.0, 1.0), 1.0, 1.0, 0.0),
    });
    let s = scene(vec![left, right], vec![sun(3.0)], Background::Sky);
    assert_eq!(cast_direct(&s, &ahead(), 0), Color::black());
}

#[test]
fn a_clear_glass_ball_shows_mostly_what_lies_behind_it() {
    let glass = ball(-5.0, 1.0, surface(rgb(1.0, 1.0, 1.0), 1.0, 0.0, 1.0));
    let s = scene(vec![glass], Vec::new(), Background::Sky);
    let c = cast_direct(&s, &ahead(), 0);
    let behind = Color::sky(&vec3(0.0, 0.0, -1.0));
    assert!((fl(c.r) - fl(behind.r)).abs() < 0.1);
    assert!((fl(c.g) - fl(behind.g)).abs() < 0.1);
    assert!((fl(c.b) - fl(behind.b)).abs() < 0.1);
}

#[test]
fn a_tinted_glass_colours_the_light() {
    let glass = ball(-5.0, 1.0, surface(rgb(1.0, 0.0, 0.0), 1.0, 0.0, 0.5));
    let s = scene(vec![glass], Vec::new(), Background::Sky);
    let c = cast_direct(&s, &ahead(), 0);
    assert!(c.r.raw > 0);
    assert_eq!((c.g.raw, c.b.raw), (0, 0));
}

#[test]
fn a_red_ball_in_directional_light_is_seen_at_the_centre_of_the_picture() {
    let s = scene(
        vec![ball(-5.0, 1.0, surface(rgb(1.0, 0.0, 0.0), 1.0, 0.0, 0.0))],
        vec![sun(3.0)],
        Background::Black,
    );
    let img = render_direct(&s);
    assert_eq!((img.width(), img.height()), (8, 4));
    let rgba = img.as_rgba8().unwrap();
    for (x, y) in [(3, 1), (4, 1), (3, 2), (4, 2)] {
        let p = rgba.get_pixel(x, y).0;
        assert!(p[0] > 0);
        assert_eq!((p[1], p[2], p[3]), (0, 0, 255));
    }
    for (x, y) in [(0, 0), (7, 0), (0, 3), (7, 3)] {
        assert_eq!(rgba.get_pixel(x, y).0, [0, 0, 0, 255]);
    }
}

#[test]
fn the_worked_picture_has_the_worked_colours() {
    let s = scene(
        vec![ball(-5.0, 1.0, surface(rgb(1.0, 0.0, 0.0), 1.0, 0.0, 0.0))],
        vec![sun(1.0)],
        Background::Black,
    );
    let pixels = render_direct_pixels(&s);
    for i in [11, 12, 19, 20] {
        let c = pixels[i];
        assert_eq!((c.r.raw, c.g.raw, c.b.raw), (1261003031, 0, 0));
    }
    for i in [0, 7, 24, 31] {
        assert_eq!(pixels[i], Color::black());
    }
    let d = Ray::new_prime(4, 2, &s).direction;
    assert_eq!((d.x.raw, d.y.raw, d.z.raw), (286434138, -286434138, -4275822149));
    let e = Ray::new_prime(0, 0, &s).direction;
    assert_eq!((e.x.raw, e.y.raw, e.z.raw), (-1794030344, 768870147, -3825838195));
}

#[test]
fn direct_pixels_keep_the_full_range_of_the_light() {
    let s = scene(
        vec![ball(-5.0, 1.0, surface(rgb(1.0, 0.0, 0.0), 1.0, 0.0, 0.0))],
        vec![sun(30.0)],
        Background::Black,
    );
    let c = direct_pixel(&s, 2 * 8 + 4);
    assert!(fl(c.r) > 5.0);
    assert_eq!(render_direct(&s).as_rgba8().unwrap().get_pixel(4, 2).0, [255, 0, 0, 255]);
}

#[test]
fn direct_pixels_are_laid_out_row_after_row() {
    let s = scene(
        vec![ball(-5.0, 1.0, surface(rgb(1.0, 0.0, 0.0), 1.0, 0.0, 0.0))],
        vec![sun(3.0)],
        Background::Sky,
    );
    let pixels = render_direct_pixels(&s);
    assert_eq!(pixels.len(), 32);
    let img = render_direct(&s);
    let rgba = img.as_rgba8().unwrap();
    for i in 0..32u32 {
        let (x, y) = (i % 8, i / 8);
        let expected = cast_direct(&s, &Ray::new_prime(x, y, &s), 0);
        assert_eq!(direct_pixel(&s, i), expected);
        assert_eq!(pixels[i as usize], expected);
        assert_eq!(rgba.get_pixel(x, y).0, expected.to_rgba8());
    }
}

#[test]
fn a_scene_without_items_is_all_background_under_direct_light() {
    let s = scene(Vec::new(), vec![sun(3.0)], Background::Sky);
    let pixels = render_direct_pixels(&s);
    for i in 0..32u32 {
        let expected = Color::sky(&Ray::new_prime(i % 8, i / 8, &s).direction);
        assert_eq!(pixels[i as usize], expected);
    }
    let dark = scene(Vec::new(), Vec::new(), Background::Black);
    let img = render_direct(&dark);
    assert_eq!((img.width(), img.height()), (8, 4));
    for p in img.as_rgba8().unwrap().pixels() {
        assert_eq!(p.0, [0, 0, 0, 255]);
    }
}
