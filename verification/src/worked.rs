//! A worked picture: a red ball under one light.
//!
//! The small picture is eight pixels wide and four high, taken with a field
//! of view of thirty degrees, of a matt red ball of radius one that lies five
//! units ahead under a white light that shines along the view. The rays
//! through its four corners pass the ball; those through the four pixels at
//! its centre hit the ball where the light falls on it. Every step is an
//! operation on known numbers, and is written down with its result.
use crate::angle::{
    arctangent_value, lemma_arctangents_rise, lemma_step_below, spec_half_angle, spec_tangent,
};
use crate::color::Color;
use crate::direct::{
    direct_radiance, light_on, lights_on, spec_direct_pixel, spec_shader_diffuse,
};
use crate::fixed::{lemma_div_is, lemma_mul_is, lemma_sqrt_is, magnitude, Fixed, PI_RAW, SCALE};
use crate::gamma::{lemma_level_at_least, level, level_value};
use crate::math::{Point, Vector3};
use crate::rendering::{lemma_nearest, nearest, Ray, SHADOW_BIAS};
use crate::scene::item::sphere::lemma_ray_leaving_misses;
use crate::scene::item::{Item, Sphere};
use crate::scene::light::{DirectionalLight, LightSource};
use crate::scene::material::{Coloration, SurfaceType};
use crate::scene::{Background, Scene};
use vstd::prelude::*;

verus! {

/// The picture is eight pixels wide and four high, and the field of view is
/// thirty degrees.
pub open spec fn small_picture(scene: Scene) -> bool {
    scene.width == 8 && scene.height == 4 && scene.fov == Fixed::spec_from_int(30)
}

/// The tangent of half a field of view of thirty degrees.
pub proof fn lemma_tangent_of_fifteen_degrees()
    ensures
        spec_tangent(spec_half_angle(Fixed::spec_from_int(30))).raw == 1150866632,
{
    let fov = Fixed::spec_from_int(30);
    let pi = Fixed { raw: PI_RAW };
    lemma_mul_is(fov, pi, 128849018880, 13493037704, 404791131120);
    lemma_div_is(fov.spec_mul(pi), Fixed::spec_from_int(360), 404791131120, 1546188226560, 1124419808);
    let a = spec_half_angle(fov);
    assert(a.raw == 1124419808);
    lemma_arctangents_rise();
    assert(arctangent_value(17) == 1115100767 && arctangent_value(18) == 1177540236) by {
        reveal(arctangent_value);
    }
    lemma_step_below(1124419808, 63, 17);
    assert((9319041int * 67108864int) / 62439469int == 10015944int) by (nonlinear_arith);
}

/// The rays through the four corner pixels of the small picture.
pub proof fn lemma_corner_ray(scene: Scene, x: u32, y: u32)
    requires
        small_picture(scene),
        x == 0 || x == 7,
        y == 0 || y == 3,
    ensures
        magnitude(Ray::spec_new_prime(x, y, scene).direction.x.raw as int) == 1794030344,
        magnitude(Ray::spec_new_prime(x, y, scene).direction.y.raw as int) == 768870147,
        Ray::spec_new_prime(x, y, scene).direction.z.raw == -3825838195,
        Ray::spec_new_prime(x, y, scene).origin == Point::spec_zero(),
{
    let one = Fixed { raw: SCALE };
    lemma_tangent_of_fifteen_degrees();
    let ct = spec_tangent(spec_half_angle(scene.fov));
    let aspect = Fixed { raw: 8 }.spec_div(Fixed { raw: 4 });
    lemma_div_is(Fixed { raw: 8 }, Fixed { raw: 4 }, 8, 4, 8589934592);
    let px = Fixed { raw: (2 * x + 1) as i64 }.spec_div(Fixed { raw: 8 });
    if x == 0 {
        lemma_div_is(Fixed { raw: 1 }, Fixed { raw: 8 }, 1, 8, 536870912);
    } else {
        lemma_div_is(Fixed { raw: 15 }, Fixed { raw: 8 }, 15, 8, 8053063680);
    }
    let nx = px.spec_sub(one);
    lemma_mul_is(nx, aspect, 3758096384, 8589934592, 7516192768);
    let wide = nx.spec_mul(aspect);
    lemma_mul_is(wide, ct, 7516192768, 1150866632, 2014016606);
    let sx = wide.spec_mul(ct);
    let py = Fixed { raw: (2 * y + 1) as i64 }.spec_div(Fixed { raw: 4 });
    if y == 0 {
        lemma_div_is(Fixed { raw: 1 }, Fixed { raw: 4 }, 1, 4, 1073741824);
    } else {
        lemma_div_is(Fixed { raw: 7 }, Fixed { raw: 4 }, 7, 4, 7516192768);
    }
    let ny = py.spec_sub(one).spec_neg();
    lemma_mul_is(ny, ct, 3221225472, 1150866632, 863149974);
    let sy = ny.spec_mul(ct);
    let sz = one.spec_neg();
    let v = Vector3 { x: sx, y: sy, z: sz };
    assert(v == Ray::sensor_direction(x, y, scene));
    lemma_mul_is(sx, sx, 2014016606, 2014016606, 944422299);
    lemma_mul_is(sy, sy, 863149974, 863149974, 173465320);
    lemma_mul_is(sz, sz, 4294967296, 4294967296, 4294967296);
    assert(v.spec_norm().raw == 5412854915);
    lemma_sqrt_is(v.spec_norm(), 5412854915, 4821621598);
    let len = v.spec_length();
    lemma_div_is(sx, len, 2014016606, 4821621598, 1794030344);
    lemma_div_is(sy, len, 863149974, 4821621598, 768870147);
    lemma_div_is(sz, len, 4294967296, 4821621598, 3825838195);
}

/// The rays through the four pixels at the centre of the small picture.
pub proof fn lemma_centre_ray(scene: Scene, x: u32, y: u32)
    requires
        small_picture(scene),
        x == 3 || x == 4,
        y == 1 || y == 2,
    ensures
        magnitude(Ray::spec_new_prime(x, y, scene).direction.x.raw as int) == 286434138,
        magnitude(Ray::spec_new_prime(x, y, scene).direction.y.raw as int) == 286434138,
        Ray::spec_new_prime(x, y, scene).direction.z.raw == -4275822149,
        Ray::spec_new_prime(x, y, scene).origin == Point::spec_zero(),
{
    let one = Fixed { raw: SCALE };
    lemma_tangent_of_fifteen_degrees();
    let ct = spec_tangent(spec_half_angle(scene.fov));
    let aspect = Fixed { raw: 8 }.spec_div(Fixed { raw: 4 });
    lemma_div_is(Fixed { raw: 8 }, Fixed { raw: 4 }, 8, 4, 8589934592);
    let px = Fixed { raw: (2 * x + 1) as i64 }.spec_div(Fixed { raw: 8 });
    if x == 3 {
        lemma_div_is(Fixed { raw: 7 }, Fixed { raw: 8 }, 7, 8, 3758096384);
    } else {
        lemma_div_is(Fixed { raw: 9 }, Fixed { raw: 8 }, 9, 8, 4831838208);
    }
    let nx = px.spec_sub(one);
    lemma_mul_is(nx, aspect, 536870912, 8589934592, 1073741824);
    let wide = nx.spec_mul(aspect);
    lemma_mul_is(wide, ct, 1073741824, 1150866632, 287716658);
    let sx = wide.spec_mul(ct);
    let py = Fixed { raw: (2 * y + 1) as i64 }.spec_div(Fixed { raw: 4 });
    if y == 1 {
        lemma_div_is(Fixed { raw: 3 }, Fixed { raw: 4 }, 3, 4, 3221225472);
    } else {
        lemma_div_is(Fixed { raw: 5 }, Fixed { raw: 4 }, 5, 4, 5368709120);
    }
    let ny = py.spec_sub(one).spec_neg();
    lemma_mul_is(ny, ct, 1073741824, 1150866632, 287716658);
    let sy = ny.spec_mul(ct);
    let sz = one.spec_neg();
    let v = Vector3 { x: sx, y: sy, z: sz };
    assert(v == Ray::sensor_direction(x, y, scene));
    lemma_mul_is(sx, sx, 287716658, 287716658, 19273924);
    lemma_mul_is(sy, sy, 287716658, 287716658, 19273924);
    lemma_mul_is(sz, sz, 4294967296, 4294967296, 4294967296);
    assert(v.spec_norm().raw == 4333515144);
    lemma_sqrt_is(v.spec_norm(), 4333515144, 4314198166);
    let len = v.spec_length();
    lemma_div_is(sx, len, 287716658, 4314198166, 286434138);
    lemma_div_is(sy, len, 287716658, 4314198166, 286434138);
    lemma_div_is(sz, len, 4294967296, 4314198166, 4275822149);
}

/// The ball of the worked picture: a sphere of radius one, five units ahead
/// of the camera.
pub open spec fn is_the_ball(ball: Sphere) -> bool {
    &&& ball.center.x.raw == 0
    &&& ball.center.y.raw == 0
    &&& ball.center.z.raw == -21474836480
    &&& ball.radius.raw == SCALE
}

/// A ray through a corner of the small picture passes the ball.
pub proof fn lemma_corner_misses(ball: Sphere, ray: Ray)
    requires
        is_the_ball(ball),
        ray.origin == Point::spec_zero(),
        magnitude(ray.direction.x.raw as int) == 1794030344,
        magnitude(ray.direction.y.raw as int) == 768870147,
        ray.direction.z.raw == -3825838195,
    ensures
        ball.hit(ray) is None,
{
    let os = ball.center.spec_sub(ray.origin);
    let d = ray.direction;
    lemma_mul_is(os.x, d.x, 0, 1794030344, 0);
    lemma_mul_is(os.y, d.y, 0, 768870147, 0);
    lemma_mul_is(os.z, d.z, 21474836480, 3825838195, 19129190975);
    assert(ball.foot(ray).raw == 19129190975);
    lemma_mul_is(os.x, os.x, 0, 0, 0);
    lemma_mul_is(os.y, os.y, 0, 0, 0);
    lemma_mul_is(os.z, os.z, 21474836480, 21474836480, 107374182400);
    lemma_mul_is(ball.foot(ray), ball.foot(ray), 19129190975, 19129190975, 85198773853);
    assert(ball.offset_squared(ray).raw == 22175408547);
    lemma_mul_is(ball.radius, ball.radius, 4294967296, 4294967296, 4294967296);
}

/// A ray through the centre of the small picture hits the ball on its
/// near side.
pub proof fn lemma_centre_hits(ball: Sphere, ray: Ray)
    requires
        is_the_ball(ball),
        ray.origin == Point::spec_zero(),
        magnitude(ray.direction.x.raw as int) == 286434138,
        magnitude(ray.direction.y.raw as int) == 286434138,
        ray.direction.z.raw == -4275822149,
    ensures
        ball.hit(ray) == Some(Fixed { raw: 17591694941 }),
{
    let os = ball.center.spec_sub(ray.origin);
    let d = ray.direction;
    lemma_mul_is(os.x, d.x, 0, 286434138, 0);
    lemma_mul_is(os.y, d.y, 0, 286434138, 0);
    lemma_mul_is(os.z, d.z, 21474836480, 4275822149, 21379110745);
    assert(ball.foot(ray).raw == 21379110745);
    lemma_mul_is(os.x, os.x, 0, 0, 0);
    lemma_mul_is(os.y, os.y, 0, 0, 0);
    lemma_mul_is(os.z, os.z, 21474836480, 21474836480, 107374182400);
    lemma_mul_is(ball.foot(ray), ball.foot(ray), 21379110745, 21379110745, 106419058574);
    assert(ball.offset_squared(ray).raw == 955123826);
    lemma_mul_is(ball.radius, ball.radius, 4294967296, 4294967296, 4294967296);
    let inner = ball.radius.spec_mul(ball.radius).spec_sub(ball.offset_squared(ray));
    assert(inner.raw == 3339843470);
    lemma_sqrt_is(inner, 3339843470, 3787415804);
    assert(ball.half_chord(ray).raw == 3787415804);
}

/// The place where a ray through the centre of the small picture hits the
/// ball.
pub open spec fn hit_place(ray: Ray) -> Point {
    ray.origin.spec_add(ray.direction.spec_mul(Fixed { raw: 17591694941 }))
}

/// The place where a ray through the centre of the small picture hits the
/// ball, and the normal there: it leans toward the camera, and to the side to
/// which the place lies.
pub proof fn lemma_centre_normal(ball: Sphere, ray: Ray)
    requires
        is_the_ball(ball),
        ray.origin == Point::spec_zero(),
        magnitude(ray.direction.x.raw as int) == 286434138,
        magnitude(ray.direction.y.raw as int) == 286434138,
        ray.direction.z.raw == -4275822149,
    ensures
        magnitude(hit_place(ray).x.raw as int) == 1173201477,
        magnitude(hit_place(ray).y.raw as int) == 1173201477,
        hit_place(ray).z.raw == -17513278608,
        magnitude(ball.normal_at(hit_place(ray)).x.raw as int) == 1173201473,
        magnitude(ball.normal_at(hit_place(ray)).y.raw as int) == 1173201473,
        ball.normal_at(hit_place(ray)).z.raw == 3961557860,
        (hit_place(ray).x.raw < 0) == (ball.normal_at(hit_place(ray)).x.raw < 0),
        (hit_place(ray).y.raw < 0) == (ball.normal_at(hit_place(ray)).y.raw < 0),
{
    let t = Fixed { raw: 17591694941 };
    let d = ray.direction;
    lemma_mul_is(d.x, t, 286434138, 17591694941, 1173201477);
    lemma_mul_is(d.y, t, 286434138, 17591694941, 1173201477);
    lemma_mul_is(d.z, t, 4275822149, 17591694941, 17513278608);
    let p = hit_place(ray);
    let w = p.spec_sub(ball.center);
    assert(w.z.raw == 3961557872);
    lemma_mul_is(w.x, w.x, 1173201477, 1173201477, 320468495);
    lemma_mul_is(w.y, w.y, 1173201477, 1173201477, 320468495);
    lemma_mul_is(w.z, w.z, 3961557872, 3961557872, 3654030331);
    assert(w.spec_norm().raw == 4294967321);
    lemma_sqrt_is(w.spec_norm(), 4294967321, 4294967308);
    let len = w.spec_length();
    lemma_div_is(w.x, len, 1173201477, 4294967308, 1173201473);
    lemma_div_is(w.y, len, 1173201477, 4294967308, 1173201473);
    lemma_div_is(w.z, len, 3961557872, 4294967308, 3961557860);
}

/// Nothing stands between the light and the place where a ray through the
/// centre of the small picture hits the ball: the ray from that place toward
/// the light leaves the ball behind.
pub proof fn lemma_centre_is_lit(ball: Sphere, place: Point, normal: Vector3)
    requires
        is_the_ball(ball),
        magnitude(place.x.raw as int) == 1173201477,
        magnitude(place.y.raw as int) == 1173201477,
        place.z.raw == -17513278608,
        magnitude(normal.x.raw as int) == 1173201473,
        magnitude(normal.y.raw as int) == 1173201473,
        normal.z.raw == 3961557860,
        (place.x.raw < 0) == (normal.x.raw < 0),
        (place.y.raw < 0) == (normal.y.raw < 0),
    ensures
        ball.hit(shadow_of(place, normal)) is None,
{
    let toward = Vector3 { x: Fixed { raw: 0 }, y: Fixed { raw: 0 }, z: Fixed { raw: SCALE } };
    let bias = Fixed { raw: SHADOW_BIAS };
    lemma_mul_is(normal.x, bias, 1173201473, 65536, 17901);
    lemma_mul_is(normal.y, bias, 1173201473, 65536, 17901);
    lemma_mul_is(normal.z, bias, 3961557860, 65536, 60448);
    let start = place.spec_add(normal.spec_mul(bias));
    assert(magnitude(start.x.raw as int) == 1173219378);
    assert(magnitude(start.y.raw as int) == 1173219378);
    assert(start.z.raw == -17513218160);
    let shadow = Ray { origin: start, direction: toward };
    let os = ball.center.spec_sub(start);
    assert(magnitude(os.x.raw as int) == 1173219378);
    assert(magnitude(os.y.raw as int) == 1173219378);
    assert(os.z.raw == -3961618320);
    lemma_mul_is(os.x, os.x, 1173219378, 1173219378, 320478274);
    lemma_mul_is(os.y, os.y, 1173219378, 1173219378, 320478274);
    lemma_mul_is(os.z, os.z, 3961618320, 3961618320, 3654141843);
    lemma_mul_is(ball.radius, ball.radius, 4294967296, 4294967296, 4294967296);
    lemma_mul_is(os.x, toward.x, 1173219378, 0, 0);
    lemma_mul_is(os.y, toward.y, 1173219378, 0, 0);
    lemma_mul_is(os.z, toward.z, 3961618320, 4294967296, 3961618320);
    assert(ball.foot(shadow).raw == -3961618320);
    lemma_ray_leaving_misses(ball, shadow);
}

/// The ray from a place on a surface toward the light of the worked picture.
pub open spec fn shadow_of(place: Point, normal: Vector3) -> Ray {
    Ray {
        origin: place.spec_add(normal.spec_mul(Fixed { raw: SHADOW_BIAS })),
        direction: Vector3 { x: Fixed { raw: 0 }, y: Fixed { raw: 0 }, z: Fixed { raw: SCALE } },
    }
}

/// The worked scene: the small picture of the ball, which is matt and red,
/// under one white light of strength one that shines along the view, before
/// a black background.
pub open spec fn is_the_scene(scene: Scene, ball: Sphere) -> bool {
    &&& small_picture(scene)
    &&& is_the_ball(ball)
    &&& scene.items@.len() == 1
    &&& scene.items@[0] == Item::Sphere(ball)
    &&& ball.material.color == Coloration::Color(
        Color { r: Fixed { raw: SCALE }, g: Fixed { raw: 0 }, b: Fixed { raw: 0 } },
    )
    &&& ball.material.albedo.raw == SCALE
    &&& ball.material.transparency.raw == 0
    &&& ball.material.reflectivity.raw == 0
    &&& scene.lights@.len() == 1
    &&& scene.lights@[0] == LightSource::Directional(
        DirectionalLight {
            direction: Vector3 {
                x: Fixed { raw: 0 },
                y: Fixed { raw: 0 },
                z: Fixed { raw: (-SCALE) as i64 },
            },
            color: Color {
                r: Fixed { raw: SCALE },
                g: Fixed { raw: SCALE },
                b: Fixed { raw: SCALE },
            },
            intensity: Fixed { raw: SCALE },
        },
    )
    &&& scene.background == Background::Black
}

/// The red that the ball shows at the centre of the picture.
pub open spec fn lit_red() -> Color {
    Color { r: Fixed { raw: 1261003031 }, g: Fixed { raw: 0 }, b: Fixed { raw: 0 } }
}

/// A corner pixel of the worked picture is black: its ray hits nothing.
pub proof fn lemma_corner_pixel(scene: Scene, ball: Sphere, x: u32, y: u32)
    requires
        is_the_scene(scene, ball),
        x == 0 || x == 7,
        y == 0 || y == 3,
    ensures
        spec_direct_pixel(scene, x + 8 * y) == Color::spec_black(),
{
    let i = (x + 8 * y) as int;
    assert((i % 8) as u32 == x && (i / 8) as u32 == y);
    let ray = Ray::spec_new_prime(x, y, scene);
    lemma_corner_ray(scene, x, y);
    lemma_corner_misses(ball, ray);
    lemma_nearest(scene.items@, ray);
    assert(scene.items@[0].hit(ray) is None);
    assert(nearest(scene.items@, ray) is None);
}

/// The light that falls on the ball where a ray through the centre of the
/// picture hits it: white, weakened by the cosine of the angle at which it
/// falls.
pub open spec fn light_at_centre() -> Color {
    Color {
        r: Fixed { raw: 3961557860 },
        g: Fixed { raw: 3961557860 },
        b: Fixed { raw: 3961557860 },
    }
}

/// The light of the worked scene on a place that nothing shadows, where the
/// normal leans toward the camera as at the centre of the picture.
pub proof fn lemma_light_on_centre(scene: Scene, ball: Sphere, place: Point, normal: Vector3)
    requires
        is_the_scene(scene, ball),
        magnitude(normal.x.raw as int) == 1173201473,
        magnitude(normal.y.raw as int) == 1173201473,
        normal.z.raw == 3961557860,
        nearest(scene.items@, shadow_of(place, normal)) is None,
    ensures
        light_on(scene, scene.lights@[0], place, normal) == light_at_centre(),
{
    let light = scene.lights@[0];
    assert(light.direction_toward(place) == shadow_of(place, normal).direction);
    let zero = Fixed { raw: 0 };
    let one = Fixed { raw: SCALE };
    let pi = Fixed { raw: PI_RAW };
    lemma_mul_is(normal.x, zero, 1173201473, 0, 0);
    lemma_mul_is(normal.y, zero, 1173201473, 0, 0);
    lemma_mul_is(normal.z, one, 3961557860, 4294967296, 3961557860);
    lemma_mul_is(one, Fixed { raw: 3961557860 }, 4294967296, 3961557860, 3961557860);
    lemma_mul_is(one, Fixed { raw: 3961557860 }, 4294967296, 3961557860, 3961557860);
}

/// The colour of the ball under the light at the centre of the picture.
pub proof fn lemma_diffuse_at_centre(scene: Scene, ball: Sphere, place: Point, normal: Vector3)
    requires
        is_the_scene(scene, ball),
        light_on(scene, scene.lights@[0], place, normal) == light_at_centre(),
    ensures
        spec_shader_diffuse(scene, scene.items@[0], place, normal) == lit_red(),
{
    let zero = Fixed { raw: 0 };
    let one = Fixed { raw: SCALE };
    let pi = Fixed { raw: PI_RAW };
    lemma_mul_is(Fixed { raw: 3961557860 }, one, 3961557860, 4294967296, 3961557860);
    lemma_div_is(Fixed { raw: 3961557860 }, pi, 3961557860, 13493037704, 1261003031);
    lemma_mul_is(one, Fixed { raw: 1261003031 }, 4294967296, 1261003031, 1261003031);
    lemma_mul_is(zero, Fixed { raw: 1261003031 }, 0, 1261003031, 0);
    reveal_with_fuel(lights_on, 2);
    assert(lights_on(scene, place, normal, 1) == light_at_centre());
}

/// A ray through the centre of the worked picture hits the ball and nothing
/// before it.
pub proof fn lemma_centre_is_hit(scene: Scene, ball: Sphere, x: u32, y: u32)
    requires
        is_the_scene(scene, ball),
        x == 3 || x == 4,
        y == 1 || y == 2,
    ensures
        nearest(scene.items@, Ray::spec_new_prime(x, y, scene)) == Some(
            (0int, Fixed { raw: 17591694941 }),
        ),
{
    let ray = Ray::spec_new_prime(x, y, scene);
    lemma_centre_ray(scene, x, y);
    lemma_centre_hits(ball, ray);
    lemma_nearest(scene.items@, ray);
    assert(scene.items@[0].hit(ray) == Some(Fixed { raw: 17591694941 }));
}

/// Nothing shadows the place where a ray through the centre of the worked
/// picture hits the ball, and the normal there leans toward the camera.
pub proof fn lemma_centre_is_not_shadowed(scene: Scene, ball: Sphere, x: u32, y: u32)
    requires
        is_the_scene(scene, ball),
        x == 3 || x == 4,
        y == 1 || y == 2,
    ensures
        nearest(
            scene.items@,
            shadow_of(
                hit_place(Ray::spec_new_prime(x, y, scene)),
                ball.normal_at(hit_place(Ray::spec_new_prime(x, y, scene))),
            ),
        ) is None,
        magnitude(ball.normal_at(hit_place(Ray::spec_new_prime(x, y, scene))).x.raw as int)
            == 1173201473,
        magnitude(ball.normal_at(hit_place(Ray::spec_new_prime(x, y, scene))).y.raw as int)
            == 1173201473,
        ball.normal_at(hit_place(Ray::spec_new_prime(x, y, scene))).z.raw == 3961557860,
{
    let ray = Ray::spec_new_prime(x, y, scene);
    let place = hit_place(ray);
    let normal = ball.normal_at(place);
    let shadow = shadow_of(place, normal);
    lemma_centre_ray(scene, x, y);
    lemma_centre_normal(ball, ray);
    lemma_centre_is_lit(ball, place, normal);
    lemma_nearest(scene.items@, shadow);
    assert(scene.items@[0].hit(shadow) is None);
}

/// What a ray through the centre of the worked picture meets: the ball, at
/// a place where it shows its lit red.
pub proof fn lemma_centre_meets_the_ball(scene: Scene, ball: Sphere, x: u32, y: u32)
    requires
        is_the_scene(scene, ball),
        x == 3 || x == 4,
        y == 1 || y == 2,
    ensures
        nearest(scene.items@, Ray::spec_new_prime(x, y, scene)) == Some(
            (0int, Fixed { raw: 17591694941 }),
        ),
        spec_shader_diffuse(
            scene,
            scene.items@[0],
            hit_place(Ray::spec_new_prime(x, y, scene)),
            ball.normal_at(hit_place(Ray::spec_new_prime(x, y, scene))),
        ) == lit_red(),
{
    let ray = Ray::spec_new_prime(x, y, scene);
    let place = hit_place(ray);
    let normal = ball.normal_at(place);
    lemma_centre_is_hit(scene, ball, x, y);
    lemma_centre_is_not_shadowed(scene, ball, x, y);
    lemma_light_on_centre(scene, ball, place, normal);
    lemma_diffuse_at_centre(scene, ball, place, normal);
}

/// A pixel at the centre of the worked picture shows the ball, lit: it is
/// red.
pub proof fn lemma_centre_pixel(scene: Scene, ball: Sphere, x: u32, y: u32)
    requires
        is_the_scene(scene, ball),
        x == 3 || x == 4,
        y == 1 || y == 2,
    ensures
        spec_direct_pixel(scene, x + 8 * y) == lit_red(),
{
    let i = (x + 8 * y) as int;
    assert((i % 8) as u32 == x && (i / 8) as u32 == y);
    let ray = Ray::spec_new_prime(x, y, scene);
    let item = scene.items@[0];
    lemma_centre_meets_the_ball(scene, ball, x, y);
    assert(item.normal_at(hit_place(ray)) == ball.normal_at(hit_place(ray)));
    assert(item.material().spec_surface() == SurfaceType::Diffuse);
    assert(direct_radiance(scene, ray, 0) == lit_red());
}

/// The worked picture: the four pixels at its centre are not black, in the
/// picture of colours and in the picture of 8-bit levels, and its four corners
/// are black.
pub proof fn lemma_red_ball_picture(scene: Scene, ball: Sphere)
    requires
        is_the_scene(scene, ball),
    ensures
        spec_direct_pixel(scene, 11) == lit_red(),
        spec_direct_pixel(scene, 12) == lit_red(),
        spec_direct_pixel(scene, 19) == lit_red(),
        spec_direct_pixel(scene, 20) == lit_red(),
        lit_red().r.raw > 0,
        level(lit_red().r.raw as int) > 0,
        spec_direct_pixel(scene, 0) == Color::spec_black(),
        spec_direct_pixel(scene, 7) == Color::spec_black(),
        spec_direct_pixel(scene, 24) == Color::spec_black(),
        spec_direct_pixel(scene, 31) == Color::spec_black(),
{
    lemma_centre_pixel(scene, ball, 3, 1);
    lemma_centre_pixel(scene, ball, 4, 1);
    lemma_centre_pixel(scene, ball, 3, 2);
    lemma_centre_pixel(scene, ball, 4, 2);
    lemma_corner_pixel(scene, ball, 0, 0);
    lemma_corner_pixel(scene, ball, 7, 0);
    lemma_corner_pixel(scene, ball, 0, 3);
    lemma_corner_pixel(scene, ball, 7, 3);
    assert(level_value(1) == 21806) by {
        reveal(level_value);
    }
    lemma_level_at_least(lit_red().r.raw as int, 1, 255);
}

} // verus!
