use raytrace::color::Color;
use raytrace::fixed::Fixed;
use raytrace::math::{Point, Vector3};
use raytrace::rendering::{Intersectable, Ray};
use raytrace::scene::item::{Item, Plane, Sphere};
use raytrace::scene::material::{Coloration, UniversalMaterial};

fn fx(v: f64) -> Fixed {
    Fixed::from_raw((v * 4294967296.0).round() as i64)
}

fn fl(v: Fixed) -> f64 {
    v.raw as f64 / 4294967296.0
}

fn vec3(x: f64, y: f64, z: f64) -> Vector3 {
    Vector3::new(fx(x), fx(y), fx(z))
}

fn point(x: f64, y: f64, z: f64) -> Point {
    Point::new(fx(x), fx(y), fx(z))
}

fn matte(albedo: f64) -> UniversalMaterial {
    UniversalMaterial {
        color: Coloration::Color(Color { r: fx(1.0), g: fx(0.0), b: fx(0.0) }),
        albedo: fx(albedo),
        index: fx(0.0),
        transparency: fx(0.0),
        reflectivity: fx(0.0),
        emmit: fx(0.0),
        is_light: false,
    }
}

fn sphere(x: f64, y: f64, z: f64, radius: f64) -> Sphere {
    Sphere { center: point(x, y, z), radius: fx(radius), material: matte(1.0) }
}

fn ray(origin: Point, direction: Vector3) -> Ray {
    Ray { origin, direction: direction.normalize() }
}

#[test]
fn a_ray_at_a_sphere_hits_at_the_distance_less_the_radius() {
    let s = sphere(0.0, 0.0, -5.0, 1.0);
    let r = ray(Point::zero(), vec3(0.0, 0.0, -1.0));
    assert_eq!(s.intersect(&r), Some(fx(4.0)));
}

#[test]
fn hit_distance_is_distance_less_radius_in_any_direction() {
    for i in 0..50 {
        let a = i as f64 * 0.7;
        let dir = vec3(a.cos() * 0.6, a.sin() * 0.6, -0.8).normalize();
        for (d, r) in [(5.0, 1.0), (12.5, 3.25), (100.0, 99.0), (2.0, 0.001)] {
            let center = Point::zero() + dir * fx(d);
            let s = Sphere { center, radius: fx(r), material: matte(1.0) };
            let hit = s.intersect(&Ray { origin: Point::zero(), direction: dir }).unwrap();
            assert!((fl(hit) - (d - r)).abs() < 1e-6);
        }
    }
}

#[test]
fn a_ray_from_within_a_sphere_hits_the_far_side() {
    let s = sphere(0.0, 0.0, 0.0, 2.0);
    let r = ray(point(0.0, 0.0, 1.0), vec3(0.0, 0.0, -1.0));
    assert_eq!(s.intersect(&r), Some(fx(3.0)));
}

#[test]
fn a_ray_past_a_sphere_misses() {
    let s = sphere(0.0, 0.0, -5.0, 1.0);
    let r = ray(Point::zero(), vec3(0.0, 1.0, -1.0));
    assert_eq!(s.intersect(&r), None);
}

#[test]
fn a_ray_that_grazes_a_sphere_hits_once() {
    let s = sphere(0.0, 1.0, -5.0, 1.0);
    let r = ray(Point::zero(), vec3(0.0, 0.0, -1.0));
    assert_eq!(s.intersect(&r), Some(fx(5.0)));
}

#[test]
fn a_ray_that_leaves_a_sphere_behind_misses() {
    let s = sphere(0.0, 0.0, -5.0, 1.0);
    assert_eq!(s.intersect(&ray(Point::zero(), vec3(0.0, 0.0, 1.0))), None);
    assert_eq!(s.intersect(&ray(Point::zero(), vec3(0.3, -0.2, 0.1))), None);
    for i in 0..200 {
        let a = i as f64 * 0.37;
        let b = i as f64 * 0.11;
        let dir = vec3(a.cos() * b.sin(), a.sin() * b.sin(), b.cos().abs() + 0.001);
        assert_eq!(s.intersect(&ray(Point::zero(), dir)), None);
    }
}

#[test]
fn a_sphere_of_no_radius_is_hit_at_its_centre() {
    let s = sphere(0.0, 0.0, -5.0, 0.0);
    assert_eq!(s.intersect(&ray(Point::zero(), vec3(0.0, 0.0, -1.0))), Some(fx(5.0)));
    assert_eq!(s.intersect(&ray(Point::zero(), vec3(0.0, 0.1, -1.0))), None);
}

#[test]
fn the_normal_of_a_sphere_points_outward() {
    let s = sphere(1.0, 2.0, 3.0, 5.0);
    let n = s.surface_normal(&point(4.0, 6.0, 3.0));
    assert_eq!((n.x.raw, n.y.raw, n.z.raw), (2576980377, 3435973836, 0));
}

#[test]
fn the_normal_of_a_sphere_has_unit_length_and_runs_along_the_radius() {
    let s = sphere(-1.0, 0.5, -7.0, 2.5);
    for i in 0..100 {
        let a = i as f64 * 0.61;
        let b = i as f64 * 0.23;
        let offset = vec3(a.cos() * b.sin(), a.sin() * b.sin(), b.cos()) * fx(2.5);
        let hit = s.center + offset;
        let n = s.surface_normal(&hit);
        assert!((fl(n.length()) - 1.0).abs() < 1e-8);
        let across = n.cross(&(hit - s.center));
        assert!(fl(across.length()) < 1e-8);
        assert!(fl(n.dot(&(hit - s.center))) > 0.0);
    }
}

#[test]
fn sphere_coordinates_at_the_front_the_side_and_the_top() {
    let s = sphere(0.0, 0.0, -5.0, 1.0);
    let front = s.texture_coords(&point(0.0, 0.0, -4.0));
    assert_eq!((front.u.raw, front.v.raw), (3221225472, 2147483648));
    let side = s.texture_coords(&point(1.0, 0.0, -5.0));
    assert_eq!((side.u.raw, side.v.raw), (2147483648, 2147483648));
    let top = s.texture_coords(&point(0.0, 1.0, -5.0));
    assert_eq!((top.u.raw, top.v.raw), (2147483648, 0));
    let wide = sphere(0.0, 0.0, -5.0, 2.0).texture_coords(&point(-2.0, 0.0, -5.0));
    assert_eq!((wide.u.raw, wide.v.raw), (4294967296, 2147483648));
}

#[test]
fn sphere_coordinates_lie_between_zero_and_one() {
    let s = sphere(0.0, 0.0, 0.0, 3.0);
    for i in 0..200 {
        let a = i as f64 * 0.61;
        let b = i as f64 * 0.23;
        let hit = point(3.0 * a.cos() * b.sin(), 3.0 * b.cos(), 3.0 * a.sin() * b.sin());
        let uv = s.texture_coords(&hit);
        assert!(0 <= uv.u.raw && uv.u.raw <= 4294967296);
        assert!(0 <= uv.v.raw && uv.v.raw <= 4294967296);
        let u = 0.5 * (1.0 + (hit.z.raw as f64).atan2(hit.x.raw as f64) / std::f64::consts::PI);
        let v = (fl(hit.y) / 3.0).acos() / std::f64::consts::PI;
        assert!((fl(uv.u) - u).abs() < 1e-4);
        assert!((fl(uv.v) - v).abs() < 1e-4);
    }
}

#[test]
fn a_sphere_has_its_material() {
    let s = sphere(0.0, 0.0, 0.0, 1.0);
    assert_eq!(s.get_material().albedo, fx(1.0));
}

fn floor() -> Plane {
    Plane { pos: point(0.0, -2.0, 0.0), normal: vec3(0.0, -1.0, 0.0), material: matte(0.5) }
}

#[test]
fn a_ray_down_at_a_floor_hits_it() {
    let r = ray(Point::zero(), vec3(0.0, -1.0, 0.0));
    assert_eq!(floor().intersect(&r), Some(fx(2.0)));
    let slanted = ray(Point::zero(), vec3(0.0, -1.0, -1.0));
    assert_eq!(floor().intersect(&slanted).unwrap().raw, 12148001999);
}

#[test]
fn a_ray_away_from_a_floor_misses_it() {
    assert_eq!(floor().intersect(&ray(Point::zero(), vec3(0.0, 1.0, 0.0))), None);
    assert_eq!(floor().intersect(&ray(Point::zero(), vec3(1.0, 0.0, -1.0))), None);
}

#[test]
fn a_ray_from_below_a_floor_misses_it() {
    assert_eq!(floor().intersect(&ray(point(0.0, -5.0, 0.0), vec3(0.0, -1.0, 0.0))), None);
    assert_eq!(floor().intersect(&ray(point(0.0, -5.0, 0.0), vec3(0.0, 1.0, 0.0))), None);
}

#[test]
fn a_ray_nearly_along_a_floor_misses_it() {
    let r = Ray { origin: Point::zero(), direction: vec3(1.0, -0.0000005, 0.0) };
    assert_eq!(floor().intersect(&r), None);
    let steeper = Ray { origin: Point::zero(), direction: vec3(1.0, -0.000002, 0.0) };
    assert!(floor().intersect(&steeper).is_some());
}

#[test]
fn the_normal_of_a_plane_is_the_opposite_of_the_stored_one() {
    assert_eq!(floor().surface_normal(&point(3.0, -2.0, 9.0)), vec3(0.0, 1.0, 0.0));
}

#[test]
fn plane_coordinates_are_measured_along_its_axes() {
    let uv = floor().texture_coords(&point(1.5, -2.0, -3.25));
    assert_eq!((uv.u, uv.v), (fx(-1.5), fx(3.25)));
}

#[test]
fn a_plane_across_the_z_axis_takes_its_other_axis() {
    let wall = Plane { pos: point(0.0, 0.0, -5.0), normal: vec3(0.0, 0.0, -1.0), material: matte(0.5) };
    let uv = wall.texture_coords(&point(1.5, 2.0, -5.0));
    assert_eq!((uv.u, uv.v), (fx(1.5), fx(-2.0)));
}

#[test]
fn plane_coordinates_keep_distances_on_a_slanted_plane() {
    let slope = Plane { pos: Point::zero(), normal: vec3(0.0, 0.6, 0.8), material: matte(0.5) };
    let a = slope.texture_coords(&point(1.0, 0.0, 0.0));
    assert_eq!((a.u.raw, a.v.raw), (4294967297, 0));
    let b = slope.texture_coords(&point(0.0, 0.8, -0.6));
    assert_eq!((b.u.raw, b.v.raw), (0, 4294967296));
    let c = slope.texture_coords(&point(2.0, -1.6, 1.2));
    assert_eq!((c.u.raw, c.v.raw), (8589934594, -8589934592));
}

#[test]
fn plane_coordinates_are_zero_at_the_plane_s_own_point() {
    let slope = Plane { pos: point(3.0, 1.0, -2.0), normal: vec3(0.0, 0.6, 0.8), material: matte(0.5) };
    let uv = slope.texture_coords(&point(3.0, 1.0, -2.0));
    assert_eq!((uv.u.raw, uv.v.raw), (0, 0));
}

#[test]
fn plane_coordinates_keep_the_distance_between_two_places() {
    let normal = vec3(0.3, -0.5, 0.4).normalize();
    let pos = point(1.0, 2.0, -3.0);
    let wall = Plane { pos, normal, material: matte(0.5) };
    let first = normal.cross(&vec3(0.0, 0.0, 1.0)).normalize();
    let second = normal.cross(&first);
    for i in 0..50 {
        let (s, t) = (i as f64 * 0.37 - 5.0, 3.0 - i as f64 * 0.21);
        let (s2, t2) = (i as f64 * -0.11 + 1.0, i as f64 * 0.45 - 7.0);
        let p = pos + first * fx(s) + second * fx(t);
        let q = pos + first * fx(s2) + second * fx(t2);
        let (a, b) = (wall.texture_coords(&p), wall.texture_coords(&q));
        let apart = ((fl(a.u) - fl(b.u)).powi(2) + (fl(a.v) - fl(b.v)).powi(2)).sqrt();
        let truly = fl((p - q).length());
        assert!((apart - truly).abs() < 1e-6);
    }
}

#[test]
fn an_item_does_what_its_shape_does() {
    let ball = Item::Sphere(sphere(0.0, 0.0, -5.0, 1.0));
    let ground = Item::Plane(floor());
    let ahead = ray(Point::zero(), vec3(0.0, 0.0, -1.0));
    let down = ray(Point::zero(), vec3(0.0, -1.0, 0.0));
    assert_eq!(ball.intersect(&ahead), Some(fx(4.0)));
    assert_eq!(ball.intersect(&down), None);
    assert_eq!(ground.intersect(&down), Some(fx(2.0)));
    assert_eq!(ground.intersect(&ahead), None);
    assert_eq!(ball.surface_normal(&point(0.0, 0.0, -4.0)), vec3(0.0, 0.0, 1.0));
    assert_eq!(ground.surface_normal(&point(0.0, -2.0, 0.0)), vec3(0.0, 1.0, 0.0));
    assert_eq!(ball.texture_coords(&point(0.0, 1.0, -5.0)).v, fx(0.0));
    assert_eq!(ground.texture_coords(&point(1.5, -2.0, -3.25)).u, fx(-1.5));
    assert_eq!(ball.get_material().albedo, fx(1.0));
    assert_eq!(ground.get_material().albedo, fx(0.5));
}
