//! Rays, what they hit, and the light that comes back along them.
use crate::angle::{half_angle, spec_half_angle, spec_tangent, tangent};
use crate::color::Color;
use crate::fixed::{Fixed, SCALE};
use crate::gamma::level;
use crate::math::{Point, Vector3};
use crate::scene::item::Item;
use crate::scene::material::{is_draw, Material, TextureCoords, UniversalMaterial};
use crate::scene::{Background, Distance, Scene};
use crate::texels::{image_bytes, image_height, image_width, Texels};
use core::ops::Neg;
use rayon::iter::{IntoParallelIterator, ParallelIterator};
use vstd::prelude::*;

verus! {

/// How far off a surface a ray that leaves it starts, so that it does not
/// hit the surface it comes from: the raw value of 2^-16.
pub const SHADOW_BIAS: i64 = 0x1_0000;

/// The number of bounces after which a path is given up as black.
pub const MAX_RECURSION: usize = 25;

/// The number of paths that are traced and averaged for every pixel.
pub const NUM_SAMPLE: usize = 32;

/// A half-line: where it starts and the direction in which it runs.
#[derive(Debug)]
pub struct Ray {
    pub origin: Point,
    pub direction: Vector3,
}

impl Ray {
    /// The direction, before it is brought to unit length, from the camera
    /// through the centre of the pixel in column `x` of row `y`. The film
    /// stands one unit in front of the camera; its rows run from the top down.
    pub open spec fn sensor_direction(x: u32, y: u32, scene: Scene) -> Vector3 {
        let one = Fixed { raw: SCALE };
        let aspect_ratio = Fixed { raw: scene.width as i64 }.spec_div(
            Fixed { raw: scene.height as i64 },
        );
        let fov_adjustment = spec_tangent(spec_half_angle(scene.fov));
        Vector3 {
            x: Fixed { raw: (2 * x + 1) as i64 }.spec_div(Fixed { raw: scene.width as i64 })
                .spec_sub(one).spec_mul(aspect_ratio).spec_mul(fov_adjustment),
            y: Fixed { raw: (2 * y + 1) as i64 }.spec_div(Fixed { raw: scene.height as i64 })
                .spec_sub(one).spec_neg().spec_mul(fov_adjustment),
            z: one.spec_neg(),
        }
    }

    /// The ray from the camera through the centre of a pixel.
    pub open spec fn spec_new_prime(x: u32, y: u32, scene: Scene) -> Ray {
        Ray {
            origin: Point::spec_zero(),
            direction: Self::sensor_direction(x, y, scene).spec_normalize(),
        }
    }

    /// The mirrored ray: it starts just off the surface, on the side of the
    /// normal, and runs in the incident direction mirrored at the surface.
    pub open spec fn spec_create_reflection(
        normal: Vector3,
        incident: Vector3,
        intersection: Point,
        bias: Fixed,
    ) -> Ray {
        Ray {
            origin: intersection.spec_add(normal.spec_mul(bias)),
            direction: incident.spec_sub(
                normal.spec_mul(Fixed::spec_from_int(2).spec_mul(incident.spec_dot(normal))),
            ),
        }
    }

    /// The ray that passes through the surface, bent by the refractive index;
    /// nothing where all light is reflected.
    pub open spec fn spec_create_transmission(
        normal: Vector3,
        incident: Vector3,
        intersection: Point,
        bias: Fixed,
        index: Fixed,
    ) -> Option<Ray> {
        let one = Fixed { raw: SCALE };
        let dot = incident.spec_dot(normal);
        let is_into = dot.raw > 0;
        let i_n = if is_into {
            dot
        } else {
            dot.spec_neg()
        };
        let eta = if is_into {
            index
        } else {
            one.spec_div(index)
        };
        let n = if is_into {
            normal.spec_neg()
        } else {
            normal
        };
        let k = one.spec_sub(one.spec_sub(i_n.spec_mul(i_n)).spec_mul(eta).spec_mul(eta));
        if k.raw < 0 {
            None
        } else {
            Some(
                Ray {
                    origin: intersection.spec_add(n.spec_neg().spec_mul(bias)),
                    direction: incident.spec_add(n.spec_mul(i_n)).spec_mul(eta).spec_sub(
                        n.spec_mul(k.spec_sqrt()),
                    ).spec_normalize(),
                },
            )
        }
    }

    /// The ray from the camera through the centre of the pixel in column `x`
    /// of row `y`.
    pub fn new_prime(x: u32, y: u32, scene: &Scene) -> (r: Ray)
        requires
            scene.width > scene.height,
        ensures
            r == Ray::spec_new_prime(x, y, *scene),
    {
        let one = Fixed { raw: SCALE };
        let aspect_ratio = Fixed { raw: scene.width as i64 } / Fixed { raw: scene.height as i64 };
        let fov_adjustment = tangent(half_angle(scene.fov));
        let sensor_x = (Fixed { raw: 2 * (x as i64) + 1 } / Fixed { raw: scene.width as i64 } - one)
            * aspect_ratio * fov_adjustment;
        let sensor_y = (Fixed { raw: 2 * (y as i64) + 1 } / Fixed { raw: scene.height as i64 }
            - one).neg() * fov_adjustment;

        Ray {
            origin: Point::zero(),
            direction: Vector3 { x: sensor_x, y: sensor_y, z: one.neg() }.normalize(),
        }
    }

    /// The ray that leaves a surface as in a mirror.
    pub fn create_reflection(
        normal: Vector3,
        incident: Vector3,
        intersection: Point,
        bias: Fixed,
    ) -> (r: Ray)
        ensures
            r == Ray::spec_create_reflection(normal, incident, intersection, bias),
    {
        Ray {
            origin: intersection + (normal * bias),
            direction: incident - normal * (Fixed::from_int(2) * incident.dot(&normal)),
        }
    }

    /// The ray that passes through a surface, if any light does.
    pub fn create_transmission(
        normal: Vector3,
        incident: Vector3,
        intersection: Point,
        bias: Fixed,
        index: Fixed,
    ) -> (r: Option<Ray>)
        ensures
            r == Ray::spec_create_transmission(normal, incident, intersection, bias, index),
    {
        let one = Fixed { raw: SCALE };
        let mut i_n = incident.dot(&normal);
        let is_into = i_n.raw > 0;
        let (eta, n) = if is_into {
            (index, normal.neg())
        } else {
            i_n = i_n.neg();
            (one / index, normal)
        };
        let i_n_2 = i_n * i_n;
        let i = incident;
        let k = one - (one - i_n_2) * eta * eta;
        if k.raw < 0 {
            None
        } else {
            let t = (i + n * i_n) * eta - n * k.sqrt();
            Some(Ray { origin: intersection + (n.neg() * bias), direction: t.normalize() })
        }
    }
}

/// What a ray can hit.
pub trait Intersectable {
    /// How far along the ray it hits, if it does.
    spec fn spec_intersect(&self, ray: Ray) -> Option<Distance>;

    /// The unit vector that stands on the surface at `hit_point`.
    spec fn spec_surface_normal(&self, hit_point: Point) -> Vector3;

    /// Where on the surface `hit_point` lies, in the surface's own coordinates.
    spec fn spec_texture_coords(&self, hit_point: Point) -> TextureCoords;

    /// What the surface is made of.
    spec fn spec_material(&self) -> UniversalMaterial;

    fn intersect(&self, ray: &Ray) -> (r: Option<Distance>)
        ensures
            r == self.spec_intersect(*ray),
    ;

    fn surface_normal(&self, hit_point: &Point) -> (n: Vector3)
        ensures
            n == self.spec_surface_normal(*hit_point),
    ;

    fn texture_coords(&self, hit_point: &Point) -> (uv: TextureCoords)
        ensures
            uv == self.spec_texture_coords(*hit_point),
    ;

    fn get_material(&self) -> (m: &UniversalMaterial)
        ensures
            *m == self.spec_material(),
    ;
}

/// A source of light, seen from a place that it lights.
pub trait Light {
    /// How strong the light is when it arrives at `hit_point`.
    spec fn spec_intensity(&self, hit_point: Point) -> Fixed;

    /// How far the light is from `hit_point`.
    spec fn spec_distance(&self, hit_point: Point) -> Distance;

    /// The colour of the light.
    spec fn spec_color(&self) -> Color;

    /// The unit vector from `hit_point` toward the light.
    spec fn spec_direction_from(&self, hit_point: Point) -> Vector3;

    fn intensity(&self, hit_point: &Point) -> (r: Fixed)
        ensures
            r == self.spec_intensity(*hit_point),
    ;

    fn distance(&self, hit_point: &Point) -> (r: Distance)
        ensures
            r == self.spec_distance(*hit_point),
    ;

    fn color(&self) -> (r: Color)
        ensures
            r == self.spec_color(),
    ;

    fn direction_from(&self, hit_point: &Point) -> (r: Vector3)
        ensures
            r == self.spec_direction_from(*hit_point),
    ;
}

/// Where a ray hits: how far along the ray, and what.
pub struct Intersection<'a> {
    pub distance: Distance,
    pub item: &'a Item,
}

impl<'a> Intersection<'a> {
    /// The hit of `item` at `distance`.
    pub fn new(distance: Fixed, item: &'a Item) -> (r: Intersection<'a>)
        ensures
            r.distance == distance,
            r.item == item,
    {
        Intersection { distance, item }
    }
}

/// The nearest among the first `n` of the hits: its index and its distance.
/// Of two hits at the same distance the one that comes first is kept.
pub open spec fn nearest_hit(hits: Seq<Option<Fixed>>, n: nat) -> Option<(int, Fixed)>
    decreases n,
{
    if n == 0 {
        None
    } else {
        let before = nearest_hit(hits, (n - 1) as nat);
        match hits[n - 1] {
            None => before,
            Some(d) => match before {
                None => Some((n - 1, d)),
                Some((_, best)) => if best.raw <= d.raw {
                    before
                } else {
                    Some((n - 1, d))
                },
            },
        }
    }
}

/// Where the ray hits each of the items, in their order.
pub open spec fn hits(items: Seq<Item>, ray: Ray) -> Seq<Option<Fixed>> {
    Seq::new(items.len(), |j: int| items[j].hit(ray))
}

/// The nearest hit of the ray among the items: the index of the item and the
/// distance.
pub open spec fn nearest(items: Seq<Item>, ray: Ray) -> Option<(int, Fixed)> {
    nearest_hit(hits(items, ray), items.len())
}

/// There is no hit among the first `n`, or the one that `nearest_hit` names
/// is one of them, none of them is at a smaller distance, and none that comes
/// before it is at the same distance.
pub proof fn lemma_nearest_hit(hits: Seq<Option<Fixed>>, n: nat)
    requires
        n <= hits.len(),
    ensures
        match nearest_hit(hits, n) {
            None => forall|j: int| 0 <= j < n ==> hits[j] is None,
            Some((k, d)) => {
                &&& 0 <= k < n
                &&& hits[k] == Some(d)
                &&& forall|j: int| 0 <= j < n && hits[j] is Some ==> d.raw <= hits[j]->0.raw
                &&& forall|j: int| 0 <= j < k && hits[j] is Some ==> d.raw < hits[j]->0.raw
            },
        },
    decreases n,
{
    if n > 0 {
        lemma_nearest_hit(hits, (n - 1) as nat);
    }
}

/// The ray hits no item, or the hit that `nearest` names is a hit of the item
/// that it names, no item is hit at a smaller distance, and none that comes
/// before it at the same distance.
pub proof fn lemma_nearest(items: Seq<Item>, ray: Ray)
    ensures
        match nearest(items, ray) {
            None => forall|j: int| 0 <= j < items.len() ==> (#[trigger] items[j]).hit(ray) is None,
            Some((k, d)) => {
                &&& 0 <= k < items.len()
                &&& items[k].hit(ray) == Some(d)
                &&& forall|j: int|
                    0 <= j < items.len() && (#[trigger] items[j]).hit(ray) is Some ==> d.raw
                        <= items[j].hit(ray)->0.raw
                &&& forall|j: int|
                    0 <= j < k && (#[trigger] items[j]).hit(ray) is Some ==> d.raw < items[j].hit(
                        ray,
                    )->0.raw
            },
        },
{
    let all = hits(items, ray);
    lemma_nearest_hit(all, items.len());
    assert forall|j: int| 0 <= j < items.len() implies all[j] == (#[trigger] items[j]).hit(ray) by {}
}

/// The nearest hit of the ray in the scene, if it hits anything.
pub fn trace<'a>(scene: &'a Scene, ray: &Ray) -> (r: Option<Intersection<'a>>)
    ensures
        match nearest(scene.items@, *ray) {
            None => r is None,
            Some((k, d)) => r is Some && r->0.distance == d && *r->0.item == scene.items@[k],
        },
        r is None <==> forall|j: int|
            0 <= j < scene.items@.len() ==> (#[trigger] scene.items@[j]).hit(*ray) is None,
        r is Some ==> forall|j: int|
            0 <= j < scene.items@.len() && (#[trigger] scene.items@[j]).hit(*ray) is Some
                ==> r->0.distance.raw <= scene.items@[j].hit(*ray)->0.raw,
{
    proof {
        lemma_nearest(scene.items@, *ray);
    }
    let mut best: Option<Intersection<'a>> = None;
    let mut i: usize = 0;
    while i < scene.items.len()
        invariant
            i <= scene.items@.len(),
            match nearest_hit(hits(scene.items@, *ray), i as nat) {
                None => best is None,
                Some((k, d)) => best is Some && best->0.distance == d && *best->0.item
                    == scene.items@[k],
            },
        decreases scene.items@.len() - i,
    {
        let item = &scene.items[i];
        if let Some(d) = item.intersect(ray) {
            let closer = match &best {
                None => true,
                Some(found) => d.raw < found.distance.raw,
            };
            if closer {
                best = Some(Intersection::new(d, item));
            }
        }
        i = i + 1;
    }
    best
}

/// What a ray that hits nothing sees.
pub open spec fn background(scene: Scene, direction: Vector3) -> Color {
    match scene.background {
        Background::Black => Color::spec_black(),
        Background::Sky => Color::spec_sky(direction),
    }
}

/// The first of the random points, and the origin where none is left.
pub open spec fn first_jitter(jitters: Seq<Vector3>) -> Vector3 {
    if jitters.len() > 0 {
        jitters[0]
    } else {
        Vector3::spec_zero()
    }
}

/// The random points after the first.
pub open spec fn later_jitters(jitters: Seq<Vector3>) -> Seq<Vector3> {
    if jitters.len() > 0 {
        jitters.skip(1)
    } else {
        jitters
    }
}

/// Every one of the points can come of `random_in_unit_sphere`.
pub open spec fn all_draws(jitters: Seq<Vector3>) -> bool {
    forall|i: int| 0 <= i < jitters.len() ==> is_draw(#[trigger] jitters[i])
}

/// The light that comes back along `ray` after `depth` bounces, when the
/// random points drawn at the bounces that follow are `jitters`, in order.
/// A path of `MAX_RECURSION` bounces brings no light. A ray that hits nothing
/// sees the background. A ray that hits an item sees the light that the item
/// gives off and, unless the item ends the path, the light that comes back
/// along the scattered ray, weakened by the item's colour.
pub open spec fn radiance(scene: Scene, ray: Ray, depth: nat, jitters: Seq<Vector3>) -> Color
    decreases MAX_RECURSION - depth, 1nat,
{
    if depth >= MAX_RECURSION {
        Color::spec_black()
    } else {
        match nearest(scene.items@, ray) {
            None => background(scene, ray.direction),
            Some((k, d)) => shaded(scene, ray, scene.items@[k], d, depth, jitters),
        }
    }
}

/// The light that comes back along `ray` from the place where it hits `item`
/// at `distance`.
pub open spec fn shaded(
    scene: Scene,
    ray: Ray,
    item: Item,
    distance: Fixed,
    depth: nat,
    jitters: Seq<Vector3>,
) -> Color
    decreases MAX_RECURSION - depth, 0nat,
{
    if depth < MAX_RECURSION {
        let hit_point = ray.origin.spec_add(ray.direction.spec_mul(distance));
        let scatter = item.material().scattered(
            item.normal_at(hit_point),
            hit_point,
            item.coords_at(hit_point),
            first_jitter(jitters),
        );
        match scatter.ray {
            None => item.material().emitted(),
            Some(bounce) => item.material().emitted().spec_add(
                scatter.color.spec_mul(radiance(scene, bounce, depth + 1, later_jitters(jitters))),
            ),
        }
    } else {
        Color::spec_black()
    }
}

/// `c` is the light that comes back along `ray` for some random points that
/// can be drawn.
pub open spec fn is_radiance(scene: Scene, ray: Ray, depth: nat, c: Color) -> bool {
    exists|jitters: Seq<Vector3>|
        all_draws(jitters) && c == #[trigger] radiance(scene, ray, depth, jitters)
}

/// `c` is the light that comes back from `item` for some random points that
/// can be drawn.
pub open spec fn is_shaded(
    scene: Scene,
    ray: Ray,
    item: Item,
    distance: Fixed,
    depth: nat,
    c: Color,
) -> bool {
    exists|jitters: Seq<Vector3>|
        all_draws(jitters) && c == #[trigger] shaded(
            scene,
            ray,
            item,
            distance,
            depth,
            jitters,
        )
}

/// The light that comes back along `ray`, which has bounced `depth` times.
pub fn cast_ray(scene: &Scene, ray: &Ray, depth: usize) -> (c: Color)
    requires
        scene.wf(),
    ensures
        is_radiance(*scene, *ray, depth as nat, c),
        depth >= MAX_RECURSION ==> c == Color::spec_black(),
    decreases MAX_RECURSION - depth, 1nat,
{
    if depth >= MAX_RECURSION {
        assert(Color::spec_black() == radiance(*scene, *ray, depth as nat, Seq::empty()));
        return Color::black();
    }
    let intersection = trace(scene, ray);
    proof {
        lemma_nearest(scene.items@, *ray);
    }
    match intersection {
        Some(i) => {
            let c = get_color(scene, ray, &i, depth);
            proof {
                let jitters = choose|jitters: Seq<Vector3>|
                    all_draws(jitters) && c == #[trigger] shaded(
                        *scene,
                        *ray,
                        *i.item,
                        i.distance,
                        depth as nat,
                        jitters,
                    );
                assert(c == radiance(*scene, *ray, depth as nat, jitters));
            }
            c
        },
        None => {
            let c = match scene.background {
                Background::Black => Color::black(),
                Background::Sky => Color::sky(&ray.direction),
            };
            assert(c == radiance(*scene, *ray, depth as nat, Seq::empty()));
            c
        },
    }
}

/// The light that comes back along `ray` from the place where it hits.
pub fn get_color(scene: &Scene, ray: &Ray, intersection: &Intersection, depth: usize) -> (c: Color)
    requires
        scene.wf(),
        intersection.item.wf(),
    ensures
        is_shaded(*scene, *ray, *intersection.item, intersection.distance, depth as nat, c),
    decreases MAX_RECURSION - depth, 0nat,
{
    let hit_point = ray.origin + (ray.direction * intersection.distance);
    let surface_normal = intersection.item.surface_normal(&hit_point);
    let emmited = intersection.item.get_material().emmit(ray, &hit_point);
    if depth < MAX_RECURSION {
        let scatter = intersection.item.get_material().scatter(
            ray,
            &surface_normal,
            &hit_point,
            &intersection.item.texture_coords(&hit_point),
        );
        let ghost material = intersection.item.material();
        let ghost uv = intersection.item.coords_at(hit_point);
        let ghost jitter = choose|jitter: Vector3|
            is_draw(jitter) && scatter == #[trigger] material.spec_scatter(
                *ray,
                surface_normal,
                hit_point,
                uv,
                jitter,
            );
        match &scatter.ray {
            None => {
                proof {
                    let jitters = seq![jitter];
                    assert(emmited == shaded(
                        *scene,
                        *ray,
                        *intersection.item,
                        intersection.distance,
                        depth as nat,
                        jitters,
                    ));
                }
                emmited
            },
            Some(bounce) => {
                let incoming = cast_ray(scene, bounce, depth + 1);
                let c = emmited + scatter.color * incoming;
                proof {
                    let later = choose|later: Seq<Vector3>|
                        all_draws(later) && incoming == #[trigger] radiance(
                            *scene,
                            *bounce,
                            (depth + 1) as nat,
                            later,
                        );
                    let jitters = seq![jitter] + later;
                    assert(later_jitters(jitters) =~= later);
                    assert(c == shaded(
                        *scene,
                        *ray,
                        *intersection.item,
                        intersection.distance,
                        depth as nat,
                        jitters,
                    ));
                }
                c
            },
        }
    } else {
        assert(Color::spec_black() == shaded(
            *scene,
            *ray,
            *intersection.item,
            intersection.distance,
            depth as nat,
            Seq::empty(),
        ));
        Color::black()
    }
}

/// The ray from `hit_point`, lifted just off the surface, toward the light.
pub open spec fn shadow_ray<L: Light>(light: &L, hit_point: Point, surface_normal: Vector3) -> Ray {
    Ray {
        origin: hit_point.spec_add(surface_normal.spec_mul(Fixed { raw: SHADOW_BIAS })),
        direction: light.spec_direction_from(hit_point),
    }
}

/// The light reaches `hit_point`: nothing lies on the way to it, or what
/// lies there is farther than the light.
pub open spec fn is_lit<L: Light>(
    scene: Scene,
    light: &L,
    hit_point: Point,
    surface_normal: Vector3,
) -> bool {
    match nearest(scene.items@, shadow_ray(light, hit_point, surface_normal)) {
        None => true,
        Some((_, d)) => d.raw > light.spec_distance(hit_point).raw,
    }
}

/// The light that `light` throws on the surface at `hit_point`: its colour
/// times its strength there times the cosine of the angle at which it falls,
/// where the light reaches the place and falls on the surface from the front;
/// black elsewhere.
pub open spec fn spec_color_from_light<L: Light>(
    scene: Scene,
    light: &L,
    hit_point: Point,
    surface_normal: Vector3,
) -> Color {
    let cosine = surface_normal.spec_dot(light.spec_direction_from(hit_point)).spec_max(
        Fixed { raw: 0 },
    );
    light.spec_color().spec_scale(
        if is_lit(scene, light, hit_point, surface_normal) {
            light.spec_intensity(hit_point).spec_mul(cosine)
        } else {
            Fixed { raw: 0 }
        },
    )
}

/// The light that `light` throws on the surface at `hit_point`.
pub fn color_from_light<L: Light>(
    scene: &Scene,
    light: &L,
    hit_point: Point,
    surface_normal: Vector3,
) -> (c: Color)
    ensures
        c == spec_color_from_light(*scene, light, hit_point, surface_normal),
{
    let dir = light.direction_from(&hit_point);
    let theta = surface_normal.dot(&dir).max(Fixed { raw: 0 });
    let shadow_ray = Ray {
        origin: hit_point + surface_normal * Fixed { raw: SHADOW_BIAS },
        direction: dir,
    };
    let shadow_intersection = trace(scene, &shadow_ray);
    let is_in_light = match shadow_intersection {
        None => true,
        Some(i) => i.distance.raw > light.distance(&hit_point).raw,
    };
    light.color() * if is_in_light {
        light.intensity(&hit_point) * theta
    } else {
        Fixed { raw: 0 }
    }
}

/// The sine of the angle at which light that falls along `incident` on a
/// surface with the given normal goes on beyond the surface, by Snell's law.
/// Light that runs with the normal leaves the medium of the given refractive
/// index; light that runs against it enters that medium.
pub open spec fn refracted_sine(incident: Vector3, normal: Vector3, index: Fixed) -> Fixed {
    let one = Fixed { raw: SCALE };
    let i_dot_n = incident.spec_dot(normal);
    let eta_i = if i_dot_n.raw > 0 {
        index
    } else {
        one
    };
    let eta_t = if i_dot_n.raw > 0 {
        one
    } else {
        index
    };
    eta_i.spec_div(eta_t).spec_mul(
        one.spec_sub(i_dot_n.spec_mul(i_dot_n)).spec_max(Fixed { raw: 0 }).spec_sqrt(),
    )
}

/// The share of the light that is reflected: all of it where the sine of
/// the refracted angle exceeds one, and else the mean of the two polarised
/// reflectances of Fresnel's equations.
pub open spec fn spec_fresnel(incident: Vector3, normal: Vector3, index: Fixed) -> Fixed {
    let one = Fixed { raw: SCALE };
    let i_dot_n = incident.spec_dot(normal);
    let eta_i = if i_dot_n.raw > 0 {
        index
    } else {
        one
    };
    let eta_t = if i_dot_n.raw > 0 {
        one
    } else {
        index
    };
    let sin_t = refracted_sine(incident, normal, index);
    if sin_t.raw > SCALE {
        one
    } else {
        let cos_t = one.spec_sub(sin_t.spec_mul(sin_t)).spec_max(Fixed { raw: 0 }).spec_sqrt();
        let cos_i = i_dot_n.spec_abs();
        let r_s = eta_t.spec_mul(cos_i).spec_sub(eta_i.spec_mul(cos_t)).spec_div(
            eta_t.spec_mul(cos_i).spec_add(eta_i.spec_mul(cos_t)),
        );
        let r_p = eta_i.spec_mul(cos_i).spec_sub(eta_t.spec_mul(cos_t)).spec_div(
            eta_i.spec_mul(cos_i).spec_add(eta_t.spec_mul(cos_t)),
        );
        r_s.spec_mul(r_s).spec_add(r_p.spec_mul(r_p)).spec_div(Fixed::spec_from_int(2))
    }
}

/// The share of the light that a surface of the given refractive index
/// reflects.
pub fn fresnel(incident: Vector3, normal: Vector3, index: Fixed) -> (r: Fixed)
    ensures
        r == spec_fresnel(incident, normal, index),
        refracted_sine(incident, normal, index).raw > SCALE ==> r.raw == SCALE,
{
    let one = Fixed { raw: SCALE };
    let zero = Fixed { raw: 0 };
    let i_dot_n = incident.dot(&normal);
    let mut eta_i = one;
    let mut eta_t = index;
    if i_dot_n.raw > 0 {
        eta_i = eta_t;
        eta_t = one;
    }
    let sin_t = eta_i / eta_t * (one - i_dot_n * i_dot_n).max(zero).sqrt();
    if sin_t.raw > SCALE {
        one
    } else {
        let cos_t = (one - sin_t * sin_t).max(zero).sqrt();
        let cos_i = i_dot_n.abs();
        let r_s = ((eta_t * cos_i) - (eta_i * cos_t)) / ((eta_t * cos_i) + (eta_i * cos_t));
        let r_p = ((eta_i * cos_i) - (eta_t * cos_t)) / ((eta_i * cos_i) + (eta_t * cos_t));
        (r_s * r_s + r_p * r_p) / Fixed::from_int(2)
    }
}

/// `c` can come of one path through the pixel in column `x` of row `y`: it
/// is the light that comes back along the ray through the pixel, for some
/// random points that can be drawn. Nothing is clamped: that belongs to the
/// conversion into 8-bit levels.
pub open spec fn is_sample(scene: Scene, x: u32, y: u32, c: Color) -> bool {
    is_radiance(scene, Ray::spec_new_prime(x, y, scene), 0, c)
}

/// `c` can come of the pixel with the index `i`, counted along the rows from
/// the top left: it is the mean of `NUM_SAMPLE` paths through that pixel, at
/// the full range of the light that they bring.
pub open spec fn is_pixel(scene: Scene, i: int, c: Color) -> bool {
    exists|samples: Seq<Color>|
        {
            &&& samples.len() == NUM_SAMPLE
            &&& forall|s: int|
                0 <= s < NUM_SAMPLE ==> is_sample(
                    scene,
                    (i % (scene.width as int)) as u32,
                    (i / (scene.width as int)) as u32,
                    #[trigger] samples[s],
                )
            &&& c == (#[trigger] Color::spec_sum(samples)).spec_div(
                Fixed::spec_from_int(NUM_SAMPLE as i32),
            )
        }
}

/// The colour of a pixel of a scene without items: the background along
/// the ray through the pixel.
pub open spec fn empty_pixel(scene: Scene, i: int) -> Color {
    background(
        scene,
        Ray::spec_new_prime(
            (i % (scene.width as int)) as u32,
            (i / (scene.width as int)) as u32,
            scene,
        ).direction,
    )
}

/// No channel of the background exceeds 2^52 in magnitude, whatever the
/// direction of a primary ray: the mean of equal samples does not saturate.
pub proof fn lemma_empty_pixel_bounded(scene: Scene, i: int)
    ensures
        empty_pixel(scene, i).within(0x10_0000_0000_0000),
{
    let x = (i % (scene.width as int)) as u32;
    let y = (i / (scene.width as int)) as u32;
    crate::math::vector3::lemma_normalize_bounded(Ray::sensor_direction(x, y, scene));
    crate::color::lemma_sky_bounded(Ray::spec_new_prime(x, y, scene).direction);
}

/// In a scene without items every pixel has the colour of the background:
/// whatever random points are drawn, no ray hits anything.
pub proof fn lemma_empty_scene_pixel(scene: Scene, i: int, c: Color)
    requires
        scene.items@.len() == 0,
        is_pixel(scene, i, c),
    ensures
        c == empty_pixel(scene, i),
{
    let x = (i % (scene.width as int)) as u32;
    let y = (i / (scene.width as int)) as u32;
    let ray = Ray::spec_new_prime(x, y, scene);
    let b = empty_pixel(scene, i);
    let samples = choose|samples: Seq<Color>|
        {
            &&& samples.len() == NUM_SAMPLE
            &&& forall|s: int|
                0 <= s < NUM_SAMPLE ==> is_sample(scene, x, y, #[trigger] samples[s])
            &&& c == (#[trigger] Color::spec_sum(samples)).spec_div(
                Fixed::spec_from_int(NUM_SAMPLE as i32),
            )
        };
    assert forall|s: int| 0 <= s < samples.len() implies samples[s] == b by {
        assert(is_sample(scene, x, y, samples[s]));
        let jitters = choose|jitters: Seq<Vector3>|
            all_draws(jitters) && samples[s] == #[trigger] radiance(scene, ray, 0, jitters);
        assert(nearest(scene.items@, ray) is None);
    }
    lemma_empty_pixel_bounded(scene, i);
    crate::color::lemma_mean_of_copies(samples, b);
}

/// The colour that one path through the pixel in column `x` of row `y`
/// brings.
pub fn render_a_pixel(scene: &Scene, x: u32, y: u32) -> (c: Color)
    requires
        scene.wf(),
        scene.width > scene.height,
    ensures
        is_sample(*scene, x, y, c),
{
    let ray = Ray::new_prime(x, y, scene);
    cast_ray(scene, &ray, 0)
}

/// The colour of the pixel with the index `i`: the mean of `NUM_SAMPLE`
/// paths through it.
pub fn render_pixel(scene: &Scene, i: u32) -> (c: Color)
    requires
        scene.wf(),
        scene.width > scene.height,
    ensures
        is_pixel(*scene, i as int, c),
{
    let x = i % scene.width;
    let y = i / scene.width;
    let mut samples: Vec<Color> = Vec::new();
    while samples.len() < NUM_SAMPLE
        invariant
            scene.wf(),
            scene.width > scene.height,
            samples@.len() <= NUM_SAMPLE,
            forall|s: int| 0 <= s < samples@.len() ==> is_sample(*scene, x, y, #[trigger] samples@[s]),
        decreases NUM_SAMPLE - samples@.len(),
    {
        let sample = render_a_pixel(scene, x, y);
        samples.push(sample);
    }
    Color::sum(&samples) / Fixed::from_int(NUM_SAMPLE as i32)
}

/// rayon's `into_par_iter`, `map` and `collect` on a range: the colours of
/// the pixels `0..n`, each worked out by `render_pixel` on some thread, in the
/// order of their indices.
#[verifier::external_body]
fn par_pixels(scene: &Scene, n: u32) -> (pixels: Vec<Color>)
    requires
        scene.wf(),
        scene.width > scene.height,
    ensures
        pixels@.len() == n,
        forall|i: int| 0 <= i < n ==> is_pixel(*scene, i, #[trigger] pixels@[i]),
{
    (0..n).into_par_iter().map(|i| render_pixel(scene, i)).collect()
}

/// The colours of all pixels, row after row from the top, each row from the
/// left.
pub fn par_render_pixels(scene: &Scene) -> (pixels: Vec<Color>)
    requires
        scene.wf(),
        scene.width > scene.height,
        scene.width * scene.height <= u32::MAX,
    ensures
        pixels@.len() == scene.width * scene.height,
        forall|i: int| 0 <= i < pixels@.len() ==> is_pixel(*scene, i, #[trigger] pixels@[i]),
        scene.items@.len() == 0 ==> forall|i: int|
            0 <= i < pixels@.len() ==> #[trigger] pixels@[i] == empty_pixel(*scene, i),
{
    let w = scene.width;
    let h = scene.height;
    let pixels = par_pixels(scene, w * h);
    proof {
        if scene.items@.len() == 0 {
            assert forall|i: int| 0 <= i < pixels@.len() implies #[trigger] pixels@[i]
                == empty_pixel(*scene, i) by {
                lemma_empty_scene_pixel(*scene, i, pixels@[i]);
            }
        }
    }
    pixels
}

/// The 8-bit level of the channel `k` of a colour; the fourth channel, the
/// opacity, is full.
pub open spec fn channel_level(c: Color, k: int) -> u8 {
    if k == 0 {
        level(c.r.raw as int) as u8
    } else if k == 1 {
        level(c.g.raw as int) as u8
    } else if k == 2 {
        level(c.b.raw as int) as u8
    } else {
        255
    }
}

/// The pixels as bytes: four 8-bit levels for each, in the order of the
/// pixels.
pub open spec fn frame_bytes(pixels: Seq<Color>) -> Seq<u8> {
    Seq::new(4 * pixels.len(), |j: int| channel_level(pixels[j / 4], j % 4))
}

/// The pixels as bytes.
pub fn encode_frame(pixels: &Vec<Color>) -> (bytes: Vec<u8>)
    ensures
        bytes@ == frame_bytes(pixels@),
{
    let mut bytes: Vec<u8> = Vec::new();
    let mut i: usize = 0;
    while i < pixels.len()
        invariant
            i <= pixels@.len(),
            bytes@ == frame_bytes(pixels@.take(i as int)),
        decreases pixels@.len() - i,
    {
        let rgba = pixels[i].to_rgba8();
        bytes.push(rgba[0]);
        bytes.push(rgba[1]);
        bytes.push(rgba[2]);
        bytes.push(rgba[3]);
        proof {
            crate::gamma::lemma_level_is_byte(pixels@[i as int].r.raw as int);
            crate::gamma::lemma_level_is_byte(pixels@[i as int].g.raw as int);
            crate::gamma::lemma_level_is_byte(pixels@[i as int].b.raw as int);
            assert(bytes@ =~= frame_bytes(pixels@.take(i + 1)));
        }
        i = i + 1;
    }
    proof {
        assert(pixels@.take(i as int) =~= pixels@);
    }
    bytes
}

/// The picture of the scene: `width` by `height` pixels, each the mean of
/// `NUM_SAMPLE` paths, clamped and encoded as 8-bit levels.
pub fn render(scene: &Scene) -> (img: image::DynamicImage)
    requires
        scene.wf(),
        scene.width > scene.height,
        scene.width * scene.height <= u32::MAX,
    ensures
        image_width(img) == scene.width,
        image_height(img) == scene.height,
        exists|pixels: Seq<Color>|
            {
                &&& pixels.len() == scene.width * scene.height
                &&& forall|i: int| 0 <= i < pixels.len() ==> is_pixel(*scene, i, #[trigger] pixels[i])
                &&& image_bytes(img) == #[trigger] frame_bytes(pixels)
            },
        scene.items@.len() == 0 ==> image_bytes(img) == frame_bytes(
            Seq::new((scene.width * scene.height) as nat, |i: int| empty_pixel(*scene, i)),
        ),
{
    let pixels = par_render_pixels(scene);
    proof {
        if scene.items@.len() == 0 {
            assert(pixels@ =~= Seq::new(
                (scene.width * scene.height) as nat,
                |i: int| empty_pixel(*scene, i),
            ));
        }
    }
    let bytes = encode_frame(&pixels);
    assert(4 * scene.width * scene.height == 4 * (scene.width * scene.height)) by (nonlinear_arith);
    let grid = Texels::from_raw(scene.width, scene.height, bytes);
    grid.unwrap().into_image()
}

} // verus!
