use raytrace::fixed::Fixed;
use raytrace::math::{Point, Vector3};

fn fx(v: f64) -> Fixed {
    Fixed::from_raw((v * 4294967296.0).round() as i64)
}

fn vec3(x: f64, y: f64, z: f64) -> Vector3 {
    Vector3::new(fx(x), fx(y), fx(z))
}

fn point(x: f64, y: f64, z: f64) -> Point {
    Point::new(fx(x), fx(y), fx(z))
}

#[test]
fn dot_product_of_two_vectors() {
    let a = vec3(0.5, -1.5, 2.0);
    let b = vec3(4.0, 0.25, -0.125);
    assert_eq!(a.dot(&b).raw, 5905580032);
    assert_eq!(a.dot(&b), fx(1.375));
}

#[test]
fn cross_product_is_right_handed() {
    let x = vec3(1.0, 0.0, 0.0);
    let y = vec3(0.0, 1.0, 0.0);
    assert_eq!(x.cross(&y), vec3(0.0, 0.0, 1.0));
    assert_eq!(y.cross(&x), vec3(0.0, 0.0, -1.0));
    assert_eq!(vec3(1.0, 2.0, 3.0).cross(&vec3(4.0, 5.0, 6.0)), vec3(-3.0, 6.0, -3.0));
}

#[test]
fn norm_is_the_squared_length() {
    let v = vec3(3.0, 4.0, 0.0);
    assert_eq!(v.norm(), fx(25.0));
    assert_eq!(v.length(), fx(5.0));
    assert_eq!(vec3(1.0, 1.0, 1.0).length().raw, 7439101573);
}

#[test]
fn normalize_divides_by_the_length() {
    let n = vec3(3.0, 4.0, 0.0).normalize();
    assert_eq!(n.x.raw, 2576980377);
    assert_eq!(n.y.raw, 3435973836);
    assert_eq!(n.z.raw, 0);
}

#[test]
fn normalize_gives_unit_length_within_rounding() {
    let n = vec3(-2.5, 7.0, 0.3).normalize();
    let len = n.length().raw as f64 / 4294967296.0;
    assert!((len - 1.0).abs() < 1e-8);
}

#[test]
fn normalize_of_the_zero_vector_is_the_zero_vector() {
    assert_eq!(Vector3::zero().normalize(), Vector3::zero());
    let tiny = Vector3::new(Fixed::from_raw(3), Fixed::from_raw(0), Fixed::from_raw(0));
    assert_eq!(tiny.normalize(), Vector3::zero());
}

#[test]
fn vector_arithmetic_is_by_component() {
    let a = vec3(1.0, 2.0, 3.0);
    let b = vec3(0.5, -2.0, 4.0);
    assert_eq!(a + b, vec3(1.5, 0.0, 7.0));
    assert_eq!(a - b, vec3(0.5, 4.0, -1.0));
    assert_eq!(a * fx(-2.0), vec3(-2.0, -4.0, -6.0));
    assert_eq!(-a, vec3(-1.0, -2.0, -3.0));
}

#[test]
fn the_origin_is_zero() {
    assert_eq!(Point::zero(), point(0.0, 0.0, 0.0));
}

#[test]
fn points_differ_by_a_vector() {
    let p = point(1.0, 2.0, 3.0);
    let q = point(4.0, 6.0, 8.0);
    assert_eq!(q - p, vec3(3.0, 4.0, 5.0));
    assert_eq!(p + vec3(3.0, 4.0, 5.0), q);
    assert_eq!(q - vec3(3.0, 4.0, 5.0), p);
}
