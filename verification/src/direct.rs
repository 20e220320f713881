//! Rendering by direct lighting.
//!
//! A surface is lit by the lights of the scene, as far as nothing stands
//! between them and it. A mirror adds what a mirrored ray sees; a glass
//! blends what a mirrored and a refracted ray see. Nothing is left to chance:
//! one ray through each pixel gives its colour.
use crate::color::Color;
use crate::fixed::{Fixed, PI_RAW, SCALE};
use crate::math::{Point, Vector3};
use crate::rendering::{
    background, color_from_light, empty_pixel, encode_frame, frame_bytes, fresnel, lemma_nearest,
    nearest, spec_fresnel, trace, Ray, MAX_RECURSION, SHADOW_BIAS,
};
use crate::scene::item::Item;
use crate::scene::light::LightSource;
use crate::scene::material::SurfaceType;
use crate::scene::Scene;
use crate::texels::{image_bytes, image_height, image_width, Texels};
use rayon::iter::{IntoParallelIterator, ParallelIterator};
use vstd::prelude::*;

verus! {

/// The light that `light` throws on the surface at `hit_point`: its colour
/// times its strength there times the cosine of the angle at which it falls,
/// where nothing nearer than the light lies on the way to it and the light
/// falls on the surface from the front; black elsewhere.
pub open spec fn light_on(
    scene: Scene,
    light: LightSource,
    hit_point: Point,
    surface_normal: Vector3,
) -> Color {
    let toward = light.direction_toward(hit_point);
    let cosine = surface_normal.spec_dot(toward).spec_max(Fixed { raw: 0 });
    let shadow_ray = Ray {
        origin: hit_point.spec_add(surface_normal.spec_mul(Fixed { raw: SHADOW_BIAS })),
        direction: toward,
    };
    let lit = match nearest(scene.items@, shadow_ray) {
        None => true,
        Some((_, d)) => d.raw > light.distance_to(hit_point).raw,
    };
    light.hue().spec_scale(
        if lit {
            light.intensity_at(hit_point).spec_mul(cosine)
        } else {
            Fixed { raw: 0 }
        },
    )
}

/// The light that the first `n` lights of the scene throw on the surface at
/// `hit_point`, added up in their order.
pub open spec fn lights_on(scene: Scene, hit_point: Point, surface_normal: Vector3, n: nat) -> Color
    decreases n,
{
    if n == 0 {
        Color::spec_black()
    } else {
        lights_on(scene, hit_point, surface_normal, (n - 1) as nat).spec_add(
            light_on(scene, scene.lights@[n - 1], hit_point, surface_normal),
        )
    }
}

/// The colour of a matt surface at `hit_point`: the light of all lights on
/// it, times the albedo, divided by pi, times the surface's own colour.
pub open spec fn spec_shader_diffuse(
    scene: Scene,
    item: Item,
    hit_point: Point,
    surface_normal: Vector3,
) -> Color {
    item.material().color.spec_color(item.coords_at(hit_point)).spec_mul(
        lights_on(scene, hit_point, surface_normal, scene.lights@.len()).spec_scale(
            item.material().albedo,
        ).spec_div(Fixed { raw: PI_RAW }),
    )
}

/// The colour of a matt surface at `hit_point` under the lights of the
/// scene.
pub fn shader_diffuse(scene: &Scene, item: &Item, hit_point: Point, surface_normal: Vector3) -> (c:
    Color)
    requires
        item.wf(),
    ensures
        c == spec_shader_diffuse(*scene, *item, hit_point, surface_normal),
{
    let uv = item.texture_coords(&hit_point);
    let mut sum = Color::black();
    let mut i: usize = 0;
    while i < scene.lights.len()
        invariant
            i <= scene.lights@.len(),
            sum == lights_on(*scene, hit_point, surface_normal, i as nat),
        decreases scene.lights@.len() - i,
    {
        let from_light = color_from_light(scene, &scene.lights[i], hit_point, surface_normal);
        assert(from_light == light_on(*scene, scene.lights@[i as int], hit_point, surface_normal));
        sum = sum + from_light;
        i = i + 1;
    }
    let color = sum * item.get_material().albedo / Fixed { raw: PI_RAW };
    item.get_material().color.color(&uv) * color
}

/// The light that comes back along `ray` after `depth` bounces. A path of
/// `MAX_RECURSION` bounces brings no light. A ray that hits nothing sees the
/// background. A matt surface shows the light of the lights on it. A mirror
/// blends that with what the mirrored ray sees, by its reflectivity. A glass
/// blends what the mirrored and the refracted ray see, by Fresnel's share of
/// reflected light, and weakens it by its transparency and its colour; where
/// no light passes, all of it is reflected.
pub open spec fn direct_radiance(scene: Scene, ray: Ray, depth: nat) -> Color
    decreases MAX_RECURSION - depth,
{
    if depth >= MAX_RECURSION {
        Color::spec_black()
    } else {
        match nearest(scene.items@, ray) {
            None => background(scene, ray.direction),
            Some((k, d)) => {
                let item = scene.items@[k];
                let one = Fixed { raw: SCALE };
                let bias = Fixed { raw: SHADOW_BIAS };
                let hit_point = ray.origin.spec_add(ray.direction.spec_mul(d));
                let normal = item.normal_at(hit_point);
                let mirrored = Ray::spec_create_reflection(normal, ray.direction, hit_point, bias);
                match item.material().spec_surface() {
                    SurfaceType::Diffuse => spec_shader_diffuse(scene, item, hit_point, normal),
                    SurfaceType::Reflective { reflectivity } => spec_shader_diffuse(
                        scene,
                        item,
                        hit_point,
                        normal,
                    ).spec_scale(one.spec_sub(reflectivity)).spec_add(
                        direct_radiance(scene, mirrored, depth + 1).spec_scale(reflectivity),
                    ),
                    SurfaceType::Refractive { index, transparency } => {
                        let reflection = direct_radiance(scene, mirrored, depth + 1);
                        let passing = Ray::spec_create_transmission(
                            normal,
                            ray.direction,
                            hit_point,
                            bias,
                            index,
                        );
                        let kr = match passing {
                            None => one,
                            Some(_) => spec_fresnel(ray.direction, normal, index),
                        };
                        let refraction = match passing {
                            None => Color::spec_black(),
                            Some(bent) => direct_radiance(scene, bent, depth + 1),
                        };
                        reflection.spec_scale(kr).spec_add(
                            refraction.spec_scale(one.spec_sub(kr)),
                        ).spec_scale(transparency).spec_mul(
                            item.material().color.spec_color(item.coords_at(hit_point)),
                        )
                    },
                }
            },
        }
    }
}

/// The light that comes back along `ray`, which has bounced `depth` times.
pub fn cast_direct(scene: &Scene, ray: &Ray, depth: usize) -> (c: Color)
    requires
        scene.wf(),
    ensures
        c == direct_radiance(*scene, *ray, depth as nat),
    decreases MAX_RECURSION - depth,
{
    if depth >= MAX_RECURSION {
        return Color::black();
    }
    proof {
        lemma_nearest(scene.items@, *ray);
    }
    match trace(scene, ray) {
        None => match scene.background {
            crate::scene::Background::Black => Color::black(),
            crate::scene::Background::Sky => Color::sky(&ray.direction),
        },
        Some(hit) => {
            let one = Fixed { raw: SCALE };
            let bias = Fixed { raw: SHADOW_BIAS };
            let item = hit.item;
            let hit_point = ray.origin + (ray.direction * hit.distance);
            let normal = item.surface_normal(&hit_point);
            match item.get_material().surface() {
                SurfaceType::Diffuse => shader_diffuse(scene, item, hit_point, normal),
                SurfaceType::Reflective { reflectivity } => {
                    let own = shader_diffuse(scene, item, hit_point, normal);
                    let mirrored = Ray::create_reflection(normal, ray.direction, hit_point, bias);
                    let reflection = cast_direct(scene, &mirrored, depth + 1);
                    own * (one - reflectivity) + reflection * reflectivity
                },
                SurfaceType::Refractive { index, transparency } => {
                    let surface_color = item.get_material().color.color(
                        &item.texture_coords(&hit_point),
                    );
                    let mirrored = Ray::create_reflection(normal, ray.direction, hit_point, bias);
                    let reflection = cast_direct(scene, &mirrored, depth + 1);
                    let passing = Ray::create_transmission(
                        normal,
                        ray.direction,
                        hit_point,
                        bias,
                        index,
                    );
                    let (kr, refraction) = match passing {
                        None => (one, Color::black()),
                        Some(bent) => (
                            fresnel(ray.direction, normal, index),
                            cast_direct(scene, &bent, depth + 1),
                        ),
                    };
                    (reflection * kr + refraction * (one - kr)) * transparency * surface_color
                },
            }
        },
    }
}

/// The colour of the pixel with the index `i`, counted along the rows from
/// the top left: the light along the ray through its centre, at its full
/// range.
pub open spec fn spec_direct_pixel(scene: Scene, i: int) -> Color {
    direct_radiance(
        scene,
        Ray::spec_new_prime(
            (i % (scene.width as int)) as u32,
            (i / (scene.width as int)) as u32,
            scene,
        ),
        0,
    )
}

/// In a scene without items every pixel has the colour of the background.
pub proof fn lemma_empty_scene_direct_pixel(scene: Scene, i: int)
    requires
        scene.items@.len() == 0,
    ensures
        spec_direct_pixel(scene, i) == empty_pixel(scene, i),
{
    lemma_nearest(
        scene.items@,
        Ray::spec_new_prime(
            (i % (scene.width as int)) as u32,
            (i / (scene.width as int)) as u32,
            scene,
        ),
    );
}

/// The colour of the pixel with the index `i`.
pub fn direct_pixel(scene: &Scene, i: u32) -> (c: Color)
    requires
        scene.wf(),
        scene.width > scene.height,
    ensures
        c == spec_direct_pixel(*scene, i as int),
        scene.items@.len() == 0 ==> c == empty_pixel(*scene, i as int),
{
    let x = i % scene.width;
    let y = i / scene.width;
    let ray = Ray::new_prime(x, y, scene);
    proof {
        if scene.items@.len() == 0 {
            lemma_empty_scene_direct_pixel(*scene, i as int);
        }
    }
    cast_direct(scene, &ray, 0)
}

/// rayon's `into_par_iter`, `map` and `collect` on a range: the colours of
/// the pixels `0..n`, each worked out by `direct_pixel` on some thread, in the
/// order of their indices.
#[verifier::external_body]
fn par_direct_pixels(scene: &Scene, n: u32) -> (pixels: Vec<Color>)
    requires
        scene.wf(),
        scene.width > scene.height,
    ensures
        pixels@.len() == n,
        forall|i: int| 0 <= i < n ==> #[trigger] pixels@[i] == spec_direct_pixel(*scene, i),
{
    (0..n).into_par_iter().map(|i| direct_pixel(scene, i)).collect()
}

/// The colours of all pixels, row after row from the top, each row from the
/// left.
pub fn render_direct_pixels(scene: &Scene) -> (pixels: Vec<Color>)
    requires
        scene.wf(),
        scene.width > scene.height,
        scene.width * scene.height <= u32::MAX,
    ensures
        pixels@ == Seq::new(
            (scene.width * scene.height) as nat,
            |i: int| spec_direct_pixel(*scene, i),
        ),
{
    let pixels = par_direct_pixels(scene, scene.width * scene.height);
    assert(pixels@ =~= Seq::new(
        (scene.width * scene.height) as nat,
        |i: int| spec_direct_pixel(*scene, i),
    ));
    pixels
}

/// The picture of the scene under its lights: `width` by `height` pixels,
/// clamped and encoded as 8-bit levels.
pub fn render_direct(scene: &Scene) -> (img: image::DynamicImage)
    requires
        scene.wf(),
        scene.width > scene.height,
        scene.width * scene.height <= u32::MAX,
    ensures
        image_width(img) == scene.width,
        image_height(img) == scene.height,
        image_bytes(img) == frame_bytes(
            Seq::new((scene.width * scene.height) as nat, |i: int| spec_direct_pixel(*scene, i)),
        ),
{
    let pixels = render_direct_pixels(scene);
    let bytes = encode_frame(&pixels);
    assert(4 * scene.width * scene.height == 4 * (scene.width * scene.height)) by (nonlinear_arith);
    let grid = Texels::from_raw(scene.width, scene.height, bytes);
    grid.unwrap().into_image()
}

} // verus!
