//! Surfaces: what colour they have and how they pass light on.
use crate::color::Color;
use crate::fixed::{magnitude, quotient, Fixed, SCALE};
use crate::gamma::level_value;
use crate::math::{Point, Vector3};
use crate::rendering::{Ray, SHADOW_BIAS};
use crate::texels::{texels_height, texels_width, Texels};
use vstd::arithmetic::div_mod::{
    lemma_fundamental_div_mod, lemma_fundamental_div_mod_converse, lemma_mod_bound,
    lemma_small_mod,
};
use vstd::prelude::*;

verus! {

/// How often a random point is drawn before the centre of the unit sphere is
/// taken in its place.
pub const MAX_DRAWS: usize = 64;

/// A picture laid over a surface in tiles.
pub struct Texture {
    pub image: Texels,
    pub offset_x: Fixed,
    pub offset_y: Fixed,
    pub scale: Fixed,
}

/// The colour of a surface: the same everywhere, or read from a texture.
pub enum Coloration {
    Color(Color),
    Texture(Texture),
}

/// A place on a surface, in the surface's own two coordinates.
pub struct TextureCoords {
    pub u: Fixed,
    pub v: Fixed,
}

/// The whole part of `val * bound`, rounded toward zero.
pub open spec fn scaled_index(val: Fixed, bound: u32) -> int {
    quotient(val.raw * bound, SCALE as int)
}

/// The texel index that the coordinate `val` falls on in a row or column of
/// `bound` texels that repeats without end in both directions.
pub open spec fn spec_wrap(val: Fixed, bound: u32) -> int {
    scaled_index(val, bound) % (bound as int)
}

/// The index of the texel under `val`, where one unit of `val` spans the
/// `bound` texels. Rust's `%` keeps the sign of the dividend; this is the
/// remainder that is never negative.
pub fn wrap(val: Fixed, bound: u32) -> (r: u32)
    requires
        bound > 0,
    ensures
        r == spec_wrap(val, bound),
        r < bound,
        0 <= val.raw < SCALE ==> r == (val.raw * bound) / (SCALE as int),
{
    let negative = val.raw < 0;
    let m: u128 = if negative {
        (-(val.raw as i128)) as u128
    } else {
        val.raw as u128
    };
    assert(m * bound <= 0x8000_0000_0000_0000 * 0x1_0000_0000) by (nonlinear_arith)
        requires
            m <= 0x8000_0000_0000_0000,
            bound <= 0x1_0000_0000,
    ;
    assert(magnitude(val.raw * bound) == m * bound && (val.raw * bound < 0 <==> negative)) by (nonlinear_arith)
        requires
            m == magnitude(val.raw as int),
            negative == (val.raw < 0),
            bound > 0,
    ;
    let q: u128 = (m * (bound as u128)) / (SCALE as u128);
    let rem: u128 = q % (bound as u128);
    proof {
        let b = bound as int;
        let k = q as int / b;
        lemma_fundamental_div_mod(q as int, b);
        lemma_mod_bound(q as int, b);
        if negative {
            assert(scaled_index(val, bound) == -(q as int));
            if rem == 0 {
                assert(-(q as int) == b * (-k) + 0) by (nonlinear_arith)
                    requires
                        q as int == b * k + 0,
                ;
                lemma_fundamental_div_mod_converse(-(q as int), b, -k, 0);
            } else {
                assert(-(q as int) == b * (-k - 1) + (b - rem)) by (nonlinear_arith)
                    requires
                        q as int == b * k + rem,
                ;
                lemma_fundamental_div_mod_converse(-(q as int), b, -k - 1, b - rem);
            }
        } else {
            assert(scaled_index(val, bound) == q as int);
        }
        if 0 <= val.raw < SCALE {
            assert(q < b) by (nonlinear_arith)
                requires
                    q == (val.raw * bound) / 0x1_0000_0000,
                    0 <= val.raw < 0x1_0000_0000,
                    b == bound,
                    bound > 0,
            ;
            lemma_small_mod(q as nat, b as nat);
        }
    }
    if negative && rem != 0 {
        (bound as u128 - rem) as u32
    } else {
        rem as u32
    }
}

impl Texture {
    /// The picture has at least one texel.
    pub open spec fn wf(self) -> bool {
        texels_width(self.image) > 0 && texels_height(self.image) > 0
    }

    /// The column of the texel under `uv`.
    pub open spec fn column(self, uv: TextureCoords) -> int {
        spec_wrap(uv.u.spec_add(self.offset_x).spec_div(self.scale), texels_width(self.image))
    }

    /// The row of the texel under `uv`.
    pub open spec fn row(self, uv: TextureCoords) -> int {
        spec_wrap(uv.v.spec_add(self.offset_y).spec_div(self.scale), texels_height(self.image))
    }

    /// The linear colour of the texel under `uv`.
    pub open spec fn spec_color(self, uv: TextureCoords) -> Color {
        let texel = self.image.texel_at(self.column(uv) as u32, self.row(uv) as u32);
        Color {
            r: Fixed { raw: level_value(texel[0] as int) as i64 },
            g: Fixed { raw: level_value(texel[1] as int) as i64 },
            b: Fixed { raw: level_value(texel[2] as int) as i64 },
        }
    }
}

impl Coloration {
    /// A texture has at least one texel.
    pub open spec fn wf(self) -> bool {
        match self {
            Coloration::Color(_) => true,
            Coloration::Texture(tex) => tex.wf(),
        }
    }

    /// Whether a colour can be asked for: whether a texture has texels.
    pub fn is_usable(&self) -> (b: bool)
        ensures
            b == self.wf(),
    {
        match self {
            Coloration::Color(_) => true,
            Coloration::Texture(tex) => {
                let (width, height) = tex.image.dimensions();
                width > 0 && height > 0
            },
        }
    }

    /// The colour at `uv`.
    pub open spec fn spec_color(self, uv: TextureCoords) -> Color {
        match self {
            Coloration::Color(c) => c,
            Coloration::Texture(tex) => tex.spec_color(uv),
        }
    }

    /// The colour at `texture_coords`.
    pub fn color(&self, texture_coords: &TextureCoords) -> (c: Color)
        requires
            self.wf(),
        ensures
            c == self.spec_color(*texture_coords),
    {
        match self {
            Self::Color(c) => *c,
            Self::Texture(tex) => {
                let u = wrap((texture_coords.u + tex.offset_x) / tex.scale, tex.image.width());
                let v = wrap((texture_coords.v + tex.offset_y) / tex.scale, tex.image.height());
                Color::from_rgba8(tex.image.get_pixel(u, v))
            },
        }
    }
}

/// How a surface treats the light that falls on it.
#[derive(Clone, Copy, Debug, PartialEq, Eq, Structural)]
pub enum SurfaceType {
    Diffuse,
    Reflective { reflectivity: Fixed },
    Refractive { index: Fixed, transparency: Fixed },
}

/// What becomes of a ray at a surface: the ray that carries on, if any, and
/// the colour by which the light that it brings in is weakened.
#[derive(Debug)]
pub struct Scatter {
    pub ray: Option<Ray>,
    pub color: Color,
}

/// `p` lies within the sphere of radius one about the origin.
pub open spec fn in_unit_ball(p: Vector3) -> bool {
    p.spec_norm().raw <= SCALE
}

/// `p` can come of `random_in_unit_sphere`: it lies within the unit sphere
/// and is the point of the cube that some three draws stand for.
pub open spec fn is_draw(p: Vector3) -> bool {
    in_unit_ball(p) && exists|a: u32, b: u32, c: u32| p == #[trigger] spec_cube_point(a, b, c)
}

/// A surface that gives off light of its own and passes light on.
///
/// `scatter` draws a random point; `spec_scatter` says what it gives for each
/// point that can be drawn.
pub trait Material {
    /// The material can be asked for its colour.
    spec fn wf(&self) -> bool;

    /// What `scatter` gives when the point drawn is `jitter`.
    spec fn spec_scatter(
        &self,
        ray: Ray,
        normal: Vector3,
        hit_point: Point,
        uv: TextureCoords,
        jitter: Vector3,
    ) -> Scatter;

    /// The light that the surface gives off at `hit_point` against `ray`.
    spec fn spec_emmit(&self, ray: Ray, hit_point: Point) -> Color;

    fn scatter(&self, ray: &Ray, normal: &Vector3, hit_point: &Point, uv: &TextureCoords) -> (s:
        Scatter)
        requires
            self.wf(),
        ensures
            exists|jitter: Vector3|
                is_draw(jitter) && s == #[trigger] self.spec_scatter(
                    *ray,
                    *normal,
                    *hit_point,
                    *uv,
                    jitter,
                ),
    ;

    fn emmit(&self, ray: &Ray, hit_point: &Point) -> (c: Color)
        ensures
            c == self.spec_emmit(*ray, *hit_point),
    ;
}

/// One material for every surface: its fields say how far it is a lamp, a
/// mirror or a glass.
pub struct UniversalMaterial {
    pub color: Coloration,
    pub albedo: Fixed,
    pub index: Fixed,
    pub transparency: Fixed,
    pub reflectivity: Fixed,
    pub emmit: Fixed,
    pub is_light: bool,
}

impl UniversalMaterial {
    /// The direction in which light bounces off a rough surface with the
    /// given normal when the random point drawn is `jitter`.
    pub open spec fn bounce_direction(normal: Vector3, hit_point: Point, jitter: Vector3) -> Vector3 {
        hit_point.spec_add(normal).spec_add(jitter).spec_sub(hit_point).spec_normalize()
    }

    /// What becomes of a ray at `hit_point` when the random point drawn is
    /// `jitter`: a lamp ends the path; any other surface sends the ray on in
    /// the bounce direction, from the place lifted off the surface along the
    /// normal. The light is weakened by the surface's colour at `uv` times the
    /// albedo.
    pub open spec fn scattered(
        self,
        normal: Vector3,
        hit_point: Point,
        uv: TextureCoords,
        jitter: Vector3,
    ) -> Scatter {
        let direction = Self::bounce_direction(normal, hit_point, jitter);
        Scatter {
            ray: if self.is_light {
                None
            } else {
                Some(
                    Ray {
                        origin: hit_point.spec_add(normal.spec_mul(Fixed { raw: SHADOW_BIAS })),
                        direction,
                    },
                )
            },
            color: self.color.spec_color(uv).spec_scale(self.albedo),
        }
    }

    /// How the surface treats the light that falls on it, for rendering by
    /// direct lighting: a surface that lets light through is refractive, one
    /// that lets none through and mirrors some is reflective, any other is
    /// diffuse.
    pub open spec fn spec_surface(self) -> SurfaceType {
        if self.transparency.raw > 0 {
            SurfaceType::Refractive { index: self.index, transparency: self.transparency }
        } else if self.reflectivity.raw > 0 {
            SurfaceType::Reflective { reflectivity: self.reflectivity }
        } else {
            SurfaceType::Diffuse
        }
    }

    /// How the surface treats the light that falls on it.
    pub fn surface(&self) -> (s: SurfaceType)
        ensures
            s == self.spec_surface(),
    {
        if self.transparency.raw > 0 {
            SurfaceType::Refractive { index: self.index, transparency: self.transparency }
        } else if self.reflectivity.raw > 0 {
            SurfaceType::Reflective { reflectivity: self.reflectivity }
        } else {
            SurfaceType::Diffuse
        }
    }

    /// The light that the surface gives off: yellow, of the strength `emmit`.
    pub open spec fn emitted(self) -> Color {
        Color { r: Fixed { raw: SCALE }, g: Fixed { raw: SCALE }, b: Fixed { raw: 0 } }.spec_scale(
            self.emmit,
        )
    }

    /// `scatter` for a given random point.
    pub fn scatter_toward(
        &self,
        normal: &Vector3,
        hit_point: &Point,
        uv: &TextureCoords,
        jitter: Vector3,
    ) -> (s: Scatter)
        requires
            self.color.wf(),
        ensures
            s == self.scattered(*normal, *hit_point, *uv, jitter),
    {
        let target = *hit_point + *normal + jitter;
        let new_v = (target - *hit_point).normalize();
        Scatter {
            ray: if self.is_light {
                None
            } else {
                Some(Ray { origin: *hit_point + *normal * Fixed { raw: SHADOW_BIAS }, direction: new_v })
            },
            color: self.color.color(uv) * self.albedo,
        }
    }
}

impl Material for UniversalMaterial {
    open spec fn wf(&self) -> bool {
        self.color.wf()
    }

    open spec fn spec_scatter(
        &self,
        ray: Ray,
        normal: Vector3,
        hit_point: Point,
        uv: TextureCoords,
        jitter: Vector3,
    ) -> Scatter {
        self.scattered(normal, hit_point, uv, jitter)
    }

    open spec fn spec_emmit(&self, ray: Ray, hit_point: Point) -> Color {
        self.emitted()
    }

    fn scatter(&self, ray: &Ray, normal: &Vector3, hit_point: &Point, uv: &TextureCoords) -> (s:
        Scatter) {
        let jitter = random_in_unit_sphere();
        let s = self.scatter_toward(normal, hit_point, uv, jitter);
        assert(s == self.spec_scatter(*ray, *normal, *hit_point, *uv, jitter));
        s
    }

    fn emmit(&self, ray: &Ray, hit_point: &Point) -> (c: Color) {
        Color { r: Fixed { raw: SCALE }, g: Fixed { raw: SCALE }, b: Fixed { raw: 0 } } * self.emmit
    }
}

/// `rand::random`: 32 bits from the generator of the calling thread. Nothing
/// is claimed of them.
#[verifier::external_body]
fn random_bits() -> (bits: u32) {
    rand::random::<u32>()
}

/// The point of the cube from -1 to 1 that three draws of 32 bits stand for:
/// each draw is read as a number in the range from zero to one, doubled and
/// lowered by one.
pub open spec fn spec_cube_point(a: u32, b: u32, c: u32) -> Vector3 {
    Vector3 { x: Fixed { raw: a as i64 }, y: Fixed { raw: b as i64 }, z: Fixed { raw: c as i64 } }
        .spec_mul(Fixed::spec_from_int(2)).spec_sub(
        Vector3 {
            x: Fixed::spec_from_int(1),
            y: Fixed::spec_from_int(1),
            z: Fixed::spec_from_int(1),
        },
    )
}

/// The point that three draws stand for, if it lies within the unit sphere.
pub fn unit_sphere_candidate(a: u32, b: u32, c: u32) -> (r: Option<Vector3>)
    ensures
        r == if in_unit_ball(spec_cube_point(a, b, c)) {
            Some(spec_cube_point(a, b, c))
        } else {
            None::<Vector3>
        },
{
    let p = Vector3::new(Fixed { raw: a as i64 }, Fixed { raw: b as i64 }, Fixed { raw: c as i64 })
        * Fixed::from_int(2) - Vector3::new(
        Fixed::from_int(1),
        Fixed::from_int(1),
        Fixed::from_int(1),
    );
    if p.norm().raw <= SCALE {
        Some(p)
    } else {
        None
    }
}

/// The centre of the unit sphere is the point that three draws of 2^31
/// stand for.
pub proof fn lemma_centre_is_draw()
    ensures
        is_draw(Vector3::spec_zero()),
{
    let half: u32 = 0x8000_0000;
    assert(0x8000_0000int * 0x2_0000_0000int == 0x1_0000_0000int * 0x1_0000_0000int)
        by (nonlinear_arith);
    assert(0x1_0000_0000int * 0x1_0000_0000int / 0x1_0000_0000int == 0x1_0000_0000int)
        by (nonlinear_arith);
    assert(Fixed { raw: 0x8000_0000 }.spec_mul(Fixed::spec_from_int(2)).raw == 0x1_0000_0000);
    assert(spec_cube_point(half, half, half) == Vector3::spec_zero());
    assert(Fixed { raw: 0 }.spec_mul(Fixed { raw: 0 }).raw == 0) by (nonlinear_arith);
}

/// The first of the points that the draws stand for, three numbers each,
/// that lies within the unit sphere, and the centre where none does.
pub open spec fn spec_first_in_unit_sphere(draws: Seq<(u32, u32, u32)>) -> Vector3
    decreases draws.len(),
{
    if draws.len() == 0 {
        Vector3::spec_zero()
    } else if in_unit_ball(spec_cube_point(draws[0].0, draws[0].1, draws[0].2)) {
        spec_cube_point(draws[0].0, draws[0].1, draws[0].2)
    } else {
        spec_first_in_unit_sphere(draws.skip(1))
    }
}

/// None of the draws stands for a point within the unit sphere.
pub open spec fn all_rejected(draws: Seq<(u32, u32, u32)>) -> bool {
    forall|j: int|
        0 <= j < draws.len() ==> !in_unit_ball(
            spec_cube_point((#[trigger] draws[j]).0, draws[j].1, draws[j].2),
        )
}

/// Draws that are all rejected do not count: the first point within the
/// sphere is the first among the draws that follow them.
pub proof fn lemma_first_after_rejected(rejected: Seq<(u32, u32, u32)>, rest: Seq<(u32, u32, u32)>)
    requires
        all_rejected(rejected),
    ensures
        spec_first_in_unit_sphere(rejected + rest) == spec_first_in_unit_sphere(rest),
    decreases rejected.len(),
{
    if rejected.len() == 0 {
        assert(rejected + rest =~= rest);
    } else {
        let all = rejected + rest;
        assert(all[0] == rejected[0]);
        assert(all.skip(1) =~= rejected.skip(1) + rest);
        assert forall|j: int| 0 <= j < rejected.skip(1).len() implies !in_unit_ball(
            spec_cube_point(
                (#[trigger] rejected.skip(1)[j]).0,
                rejected.skip(1)[j].1,
                rejected.skip(1)[j].2,
            ),
        ) by {
            assert(rejected.skip(1)[j] == rejected[j + 1]);
        }
        lemma_first_after_rejected(rejected.skip(1), rest);
    }
}

/// The first of the points that the draws stand for that lies within the
/// unit sphere, and the centre where none does.
pub fn first_in_unit_sphere(draws: &Vec<(u32, u32, u32)>) -> (p: Vector3)
    ensures
        p == spec_first_in_unit_sphere(draws@),
{
    let mut i: usize = 0;
    while i < draws.len()
        invariant
            i <= draws@.len(),
            all_rejected(draws@.take(i as int)),
        decreases draws@.len() - i,
    {
        let (a, b, c) = draws[i];
        if let Some(p) = unit_sphere_candidate(a, b, c) {
            proof {
                lemma_first_after_rejected(draws@.take(i as int), draws@.skip(i as int));
                assert(draws@.take(i as int) + draws@.skip(i as int) =~= draws@);
                assert(draws@.skip(i as int)[0] == draws@[i as int]);
            }
            return p;
        }
        proof {
            assert forall|j: int| 0 <= j < i + 1 implies !in_unit_ball(
                spec_cube_point(
                    (#[trigger] draws@.take(i + 1)[j]).0,
                    draws@.take(i + 1)[j].1,
                    draws@.take(i + 1)[j].2,
                ),
            ) by {
                if j < i {
                    assert(draws@.take(i + 1)[j] == draws@.take(i as int)[j]);
                }
            }
        }
        i = i + 1;
    }
    proof {
        lemma_first_after_rejected(draws@.take(i as int), Seq::empty());
        assert(draws@.take(i as int) + Seq::empty() =~= draws@);
    }
    Vector3::zero()
}

/// A random point within the unit sphere: points of the cube around it are
/// drawn until one lies within. After `MAX_DRAWS` points outside, which chance
/// all but rules out, the centre is given. The point is the first within the
/// sphere among the draws that were made.
pub fn random_in_unit_sphere() -> (p: Vector3)
    ensures
        is_draw(p),
        exists|draws: Seq<(u32, u32, u32)>|
            draws.len() <= MAX_DRAWS && p == #[trigger] spec_first_in_unit_sphere(draws),
{
    let mut draws: usize = 0;
    let ghost mut drawn: Seq<(u32, u32, u32)> = Seq::empty();
    while draws < MAX_DRAWS
        invariant
            draws <= MAX_DRAWS,
            drawn.len() == draws,
            all_rejected(drawn),
        decreases MAX_DRAWS - draws,
    {
        let a = random_bits();
        let b = random_bits();
        let c = random_bits();
        let candidate = unit_sphere_candidate(a, b, c);
        let ghost before = drawn;
        proof {
            drawn = drawn.push((a, b, c));
        }
        if let Some(p) = candidate {
            proof {
                lemma_first_after_rejected(before, seq![(a, b, c)]);
                assert(before + seq![(a, b, c)] =~= drawn);
                assert(seq![(a, b, c)][0] == (a, b, c));
            }
            return p;
        }
        proof {
            assert forall|j: int| 0 <= j < drawn.len() implies !in_unit_ball(
                spec_cube_point((#[trigger] drawn[j]).0, drawn[j].1, drawn[j].2),
            ) by {
                if j < before.len() {
                    assert(drawn[j] == before[j]);
                }
            }
        }
        draws = draws + 1;
    }
    proof {
        lemma_centre_is_draw();
        lemma_first_after_rejected(drawn, Seq::empty());
        assert(drawn + Seq::empty() =~= drawn);
    }
    Vector3::zero()
}

/// `v` mirrored at a surface with the given unit normal.
pub open spec fn spec_reflect(v: Vector3, normal: Vector3) -> Vector3 {
    v.spec_sub(normal.spec_mul(Fixed::spec_from_int(2)).spec_mul(v.spec_dot(normal)))
}

/// `v` mirrored at a surface with the given unit normal.
pub fn reflect(v: &Vector3, normal: &Vector3) -> (r: Vector3)
    ensures
        r == spec_reflect(*v, *normal),
{
    *v - *normal * Fixed::from_int(2) * v.dot(normal)
}

/// The direction of `v` bent at a surface with the given unit normal, where
/// `eta` is the ratio of the two refractive indices; nothing where all light
/// is reflected.
pub open spec fn spec_refract(v: Vector3, normal: Vector3, eta: Fixed) -> Option<Vector3> {
    let one = Fixed { raw: SCALE };
    let uv = v.spec_normalize();
    let dt = uv.spec_dot(normal);
    let discriminant = one.spec_sub(eta.spec_mul(eta).spec_mul(one.spec_sub(dt.spec_mul(dt))));
    if discriminant.raw > 0 {
        Some(
            uv.spec_sub(normal.spec_mul(dt)).spec_mul(eta).spec_sub(
                normal.spec_mul(discriminant.spec_sqrt()),
            ),
        )
    } else {
        None
    }
}

/// The direction of `v` bent at a surface, if any light passes.
pub fn refract(v: &Vector3, normal: &Vector3, eta: Fixed) -> (r: Option<Vector3>)
    ensures
        r == spec_refract(*v, *normal, eta),
{
    let one = Fixed { raw: SCALE };
    let uv = v.normalize();
    let dt = uv.dot(normal);
    let discriminant = one - eta * eta * (one - dt * dt);
    if discriminant.raw > 0 {
        Some((uv - *normal * dt) * eta - *normal * discriminant.sqrt())
    } else {
        None
    }
}

} // verus!
