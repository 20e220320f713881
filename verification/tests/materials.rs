use raytrace::color::Color;
use raytrace::fixed::Fixed;
use raytrace::math::{Point, Vector3};
use raytrace::rendering::{Ray, SHADOW_BIAS};
use raytrace::scene::material::{
    first_in_unit_sphere, random_in_unit_sphere, reflect, refract, unit_sphere_candidate,
    Coloration, Material, SurfaceType, UniversalMaterial,
};

fn fx(v: f64) -> Fixed {
    Fixed::from_raw((v * 4294967296.0).round() as i64)
}

fn vec3(x: f64, y: f64, z: f64) -> Vector3 {
    Vector3::new(fx(x), fx(y), fx(z))
}

fn point(x: f64, y: f64, z: f64) -> Point {
    Point::new(fx(x), fx(y), fx(z))
}

fn material(albedo: f64, emmit: f64, is_light: bool) -> UniversalMaterial {
    UniversalMaterial {
        color: Coloration::Color(Color { r: fx(1.0), g: fx(0.5), b: fx(0.25) }),
        albedo: fx(albedo),
        index: fx(1.5),
        transparency: fx(0.0),
        reflectivity: fx(0.0),
        emmit: fx(emmit),
        is_light,
    }
}

fn some_ray() -> Ray {
    Ray { origin: Point::zero(), direction: vec3(0.0, 0.0, -1.0) }
}

#[test]
fn reflect_mirrors_at_the_surface() {
    assert_eq!(reflect(&vec3(1.0, -1.0, 0.0), &vec3(0.0, 1.0, 0.0)), vec3(1.0, 1.0, 0.0));
    assert_eq!(reflect(&vec3(0.0, 0.0, -1.0), &vec3(0.0, 0.0, 1.0)), vec3(0.0, 0.0, 1.0));
    assert_eq!(reflect(&vec3(1.0, 0.0, 0.0), &vec3(0.0, 1.0, 0.0)), vec3(1.0, 0.0, 0.0));
}

#[test]
fn refract_bends_toward_the_normal_in_a_denser_medium() {
    let r = refract(&vec3(1.0, -1.0, 0.0), &vec3(0.0, 1.0, 0.0), fx(0.5)).unwrap();
    assert_eq!((r.x.raw, r.y.raw, r.z.raw), (1518500250, -4017574027, 0));
}

#[test]
fn refract_has_no_result_where_all_light_is_reflected() {
    assert_eq!(refract(&vec3(1.0, -0.1, 0.0), &vec3(0.0, 1.0, 0.0), fx(1.5)), None);
}

#[test]
fn a_candidate_is_a_point_of_the_cube() {
    assert_eq!(unit_sphere_candidate(1 << 31, 1 << 31, 1 << 31), Some(vec3(0.0, 0.0, 0.0)));
    assert_eq!(unit_sphere_candidate(0, 1 << 31, 1 << 31), Some(vec3(-1.0, 0.0, 0.0)));
    let p = unit_sphere_candidate(1 << 31, 3 << 30, 1 << 30).unwrap();
    assert_eq!(p, vec3(0.0, 0.5, -0.5));
}

#[test]
fn a_candidate_outside_the_sphere_is_rejected() {
    assert_eq!(unit_sphere_candidate(0, 0, 0), None);
    assert_eq!(unit_sphere_candidate(u32::MAX, u32::MAX, 1 << 31), None);
    assert_eq!(unit_sphere_candidate(0, 1 << 31, (1 << 31) + (1 << 16)), None);
}

#[test]
fn random_points_lie_within_the_unit_sphere() {
    let mut distinct = 0;
    let first = random_in_unit_sphere();
    for _ in 0..2000 {
        let p = random_in_unit_sphere();
        assert!(p.norm().raw <= 4294967296);
        if p != first {
            distinct += 1;
        }
    }
    assert!(distinct > 1990);
}

#[test]
fn random_points_fill_the_sphere_evenly() {
    let mut sum = [0.0f64; 3];
    let n = 20000;
    for _ in 0..n {
        let p = random_in_unit_sphere();
        sum[0] += p.x.raw as f64 / 4294967296.0;
        sum[1] += p.y.raw as f64 / 4294967296.0;
        sum[2] += p.z.raw as f64 / 4294967296.0;
    }
    for s in sum {
        assert!((s / n as f64).abs() < 0.03);
    }
}

#[test]
fn a_surface_gives_off_yellow_light_of_its_strength() {
    let lamp = material(0.0, 300.0, true);
    let c = lamp.emmit(&some_ray(), &point(0.0, 0.0, -4.0));
    assert_eq!(c, Color { r: fx(300.0), g: fx(300.0), b: fx(0.0) });
    let dark = material(2.0, 0.0, false);
    assert_eq!(dark.emmit(&some_ray(), &point(0.0, 0.0, -4.0)), Color::black());
}

#[test]
fn scattering_toward_a_point_sends_the_ray_on() {
    let m = material(2.0, 0.0, false);
    let hit = point(1.0, 2.0, 3.0);
    let uv = m_uv();
    let s = m.scatter_toward(&vec3(0.0, 1.0, 0.0), &hit, &uv, vec3(0.5, 0.0, 0.0));
    let bounce = s.ray.unwrap();
    let d = bounce.direction;
    assert_eq!((d.x.raw, d.y.raw, d.z.raw), (1920767767, 3841535534, 0));
    assert_eq!(bounce.origin, hit + vec3(0.0, 1.0, 0.0) * Fixed::from_raw(SHADOW_BIAS));
    let o = bounce.origin;
    assert_eq!((o.x.raw, o.y.raw, o.z.raw), (4294967296, 8590000128, 12884901888));
    assert_eq!(s.color, Color { r: fx(2.0), g: fx(1.0), b: fx(0.5) });
}

fn m_uv() -> raytrace::scene::material::TextureCoords {
    raytrace::scene::material::TextureCoords { u: fx(0.0), v: fx(0.0) }
}

#[test]
fn a_scattered_ray_starts_off_the_surface_along_the_normal() {
    let m = material(1.0, 0.0, false);
    let normal = vec3(0.0, 0.0, 1.0);
    let s = m.scatter_toward(&normal, &Point::zero(), &m_uv(), vec3(1.0, 0.0, 0.0));
    let bounce = s.ray.unwrap();
    let o = bounce.origin;
    assert_eq!((o.x.raw, o.y.raw, o.z.raw), (0, 0, 65536));
    for _ in 0..100 {
        let hit = point(2.0, -1.0, 0.5);
        let t = m.scatter(&some_ray(), &normal, &hit, &m_uv());
        assert_eq!(t.ray.unwrap().origin, hit + normal * Fixed::from_raw(SHADOW_BIAS));
    }
}

#[test]
fn the_first_draw_within_the_sphere_is_taken() {
    let outside = (0u32, 0u32, 0u32);
    let also_outside = (u32::MAX, u32::MAX, 1u32 << 31);
    let inside = (1u32 << 31, 3u32 << 30, 1u32 << 30);
    let later = (0u32, 1u32 << 31, 1u32 << 31);
    assert_eq!(first_in_unit_sphere(&vec![outside, also_outside, inside, later]), vec3(0.0, 0.5, -0.5));
    assert_eq!(first_in_unit_sphere(&vec![later, inside]), vec3(-1.0, 0.0, 0.0));
    assert_eq!(first_in_unit_sphere(&vec![inside]), vec3(0.0, 0.5, -0.5));
}

#[test]
fn the_centre_is_given_where_no_draw_lies_within_the_sphere() {
    assert_eq!(first_in_unit_sphere(&Vec::new()), Vector3::zero());
    assert_eq!(first_in_unit_sphere(&vec![(0, 0, 0), (u32::MAX, 0, u32::MAX)]), Vector3::zero());
}

#[test]
fn a_lamp_ends_the_path() {
    let lamp = material(0.5, 10.0, true);
    let s = lamp.scatter_toward(&vec3(0.0, 1.0, 0.0), &point(0.0, 0.0, 0.0), &m_uv(), vec3(0.0, 0.0, 0.0));
    assert!(s.ray.is_none());
    assert_eq!(s.color, Color { r: fx(0.5), g: fx(0.25), b: fx(0.125) });
    let t = lamp.scatter(&some_ray(), &vec3(0.0, 1.0, 0.0), &point(0.0, 0.0, 0.0), &m_uv());
    assert!(t.ray.is_none());
}

#[test]
fn scattering_leaves_the_surface_on_the_side_of_the_normal() {
    let m = material(1.0, 0.0, false);
    let normal = vec3(0.0, 0.0, 1.0);
    let hit = point(0.0, 0.0, -4.0);
    for _ in 0..500 {
        let s = m.scatter(&some_ray(), &normal, &hit, &m_uv());
        let bounce = s.ray.unwrap();
        assert!(bounce.direction.dot(&normal).raw >= 0);
        let len = bounce.direction.length().raw as f64 / 4294967296.0;
        assert!(len == 0.0 || (len - 1.0).abs() < 1e-6);
        assert_eq!(s.color, Color { r: fx(1.0), g: fx(0.5), b: fx(0.25) });
    }
}

#[test]
fn surface_kinds_carry_their_numbers() {
    let glass = SurfaceType::Refractive { index: fx(1.5), transparency: fx(0.9) };
    assert!(glass != SurfaceType::Diffuse);
    assert_eq!(SurfaceType::Reflective { reflectivity: fx(0.5) }, SurfaceType::Reflective { reflectivity: fx(0.5) });
}
