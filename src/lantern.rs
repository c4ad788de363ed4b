//! The renderer: ray–sphere intersection, per-pixel shading and the accumulation
//! of samples over frames.
use vstd::prelude::*;

use crate::fixed::{
    div_trunc, dot, fmul, isqrt, bounded, is_unit, lemma_cauchy_schwarz, lemma_fmul_bound, lemma_fmul_nonneg, div_trunc_i128, scale_component, lemma_sqrt_floor_exists, lemma_mul_bounded, lemma_mul_bounds, normalize, normalize_spec, sqrt_floor, vec_of, Vec3,
    ONE,
};
use crate::ray::{Ray, DIRECTION_LIMIT, ORIGIN_LIMIT};
use crate::camera::{Camera, MAX_VIEWPORT};
use crate::scene::{Material, Scene, Sphere, SCENE_LIMIT};
use crate::util::random_vec;

verus! {

/// Largest distance, in fixed point, at which a ray still meets a sphere.
pub const MAX_DISTANCE: i64 = 0x4_0000_0000;

/// Largest magnitude of a hit position's coordinates.
pub const POSITION_LIMIT: i64 = 0x80_0000_0000;

/// Number of rays traced per pixel: the camera ray and one bounce.
pub const BOUNCE_LIMIT: usize = 2;

/// The colour of the sky, seen where a ray meets nothing: (0.6, 0.7, 0.9).
pub const SKY_R: i64 = 39322;
pub const SKY_G: i64 = 45875;
pub const SKY_B: i64 = 58982;

/// Each bounce contributes this fraction (0.7) of the one before it.
pub const DECAY: i64 = 45875;

/// Distance (about 0.0001) by which a bounce starts off the surface, along its normal.
pub const SURFACE_OFFSET: i64 = 7;

/// The unit vector toward the light: the light shines along (-1, -1, 1) normalized.
pub const TOWARD_LIGHT_X: i64 = 37837;
pub const TOWARD_LIGHT_Y: i64 = 37837;
pub const TOWARD_LIGHT_Z: i64 = -37837;

/// Largest magnitude of a random perturbation's components (one half).
pub const JITTER_LIMIT: i64 = 32768;

/// Largest Lambertian intensity (about 1.049): a fixed-point unit normal may be up to
/// `sqrt(1.1)` long.
pub const INTENSITY_MAX: i64 = 68735;

/// Largest value of a colour channel of one sample (about 1.783): the first hit at full
/// weight plus the second at weight 0.7, each at most `INTENSITY_MAX`; a ray that
/// escapes to the sky adds less.
pub const CHANNEL_MAX: i64 = 116849;

/// The vector toward the light.
pub open spec fn toward_light() -> Vec3 {
    Vec3 { x: TOWARD_LIGHT_X, y: TOWARD_LIGHT_Y, z: TOWARD_LIGHT_Z }
}

/// The facts about an intersection that shading needs.
#[derive(Clone, Copy, Debug, PartialEq, Eq, Structural)]
pub struct HitPayload {
    pub distance: i64,
    pub position: Vec3,
    pub normal: Vec3,
    pub sphere_index: usize,
}

/// The coefficients `(a, b, c)` of `a t^2 + b t + c = 0`, whose roots are where the ray
/// meets the sphere, at scale `ONE * ONE`.
pub open spec fn coefficients(ray: Ray, sphere: Sphere) -> (int, int, int) {
    let ox = ray.origin.x - sphere.position.x;
    let oy = ray.origin.y - sphere.position.y;
    let oz = ray.origin.z - sphere.position.z;
    let d = ray.direction;
    (
        dot(d, d),
        2 * (ox * d.x + oy * d.y + oz * d.z),
        ox * ox + oy * oy + oz * oz - sphere.radius * sphere.radius,
    )
}

/// The distance along the ray to the near intersection with the sphere, in fixed point:
/// `(-b - sqrt(b^2 - 4ac)) / 2a`, the square root rounded down. `None` when the
/// direction is zero, the discriminant is negative, the near root lies behind the
/// origin, or it is beyond `MAX_DISTANCE`. The near root is negative exactly when
/// `b > 0` (the ray points away from the centre) or `c < 0` (the origin is inside the
/// sphere); that is tested on the exact coefficients, not on the rounded root.
pub open spec fn hit_distance_spec(ray: Ray, sphere: Sphere) -> Option<int> {
    let (a, b, c) = coefficients(ray, sphere);
    let disc = b * b - 4 * a * c;
    if a == 0 || disc < 0 || b > 0 || c < 0 {
        None
    } else {
        let t = ((-b - sqrt_floor(disc)) * ONE) / (2 * a);
        if t > MAX_DISTANCE {
            None
        } else {
            Some(t)
        }
    }
}

/// Sphere `i` is hit, no sphere is hit nearer, and every sphere before it is hit
/// strictly farther away: it is the first of the nearest.
pub open spec fn is_closest(ray: Ray, spheres: Seq<Sphere>, i: int) -> bool {
    &&& 0 <= i < spheres.len()
    &&& hit_distance_spec(ray, spheres[i]) is Some
    &&& forall|j: int|
        0 <= j < spheres.len() && (#[trigger] hit_distance_spec(ray, spheres[j])) is Some
            ==> hit_distance_spec(ray, spheres[j])->0 >= hit_distance_spec(ray, spheres[i])->0
    &&& forall|j: int|
        0 <= j < i && (#[trigger] hit_distance_spec(ray, spheres[j])) is Some
            ==> hit_distance_spec(ray, spheres[j])->0 > hit_distance_spec(ray, spheres[i])->0
}

/// The ray meets some sphere of the list.
pub open spec fn hits_any(ray: Ray, spheres: Seq<Sphere>) -> bool {
    exists|j: int| 0 <= j < spheres.len() && (#[trigger] hit_distance_spec(ray, spheres[j])) is Some
}

/// The index of the first nearest sphere that the ray meets.
pub open spec fn closest_index(ray: Ray, spheres: Seq<Sphere>) -> int {
    choose|i: int| is_closest(ray, spheres, i)
}

/// The world's up direction, taken as the normal where none can be computed.
pub open spec fn up_unit() -> Vec3 {
    Vec3 { x: 0, y: ONE, z: 0 }
}

/// The hit point relative to the sphere's centre.
pub open spec fn local_hit(ray: Ray, sphere: Sphere, t: int) -> Vec3 {
    let d = ray.direction;
    vec_of(
        ray.origin.x - sphere.position.x + fmul(d.x as int, t),
        ray.origin.y - sphere.position.y + fmul(d.y as int, t),
        ray.origin.z - sphere.position.z + fmul(d.z as int, t),
    )
}

/// The payload of a hit at distance `t`: the position in the world, and the unit
/// normal, which is the local hit point divided by the radius (so a negative radius
/// turns it inward). Where the hit point is too close to the centre to have a
/// direction, the normal is the world's up direction.
pub open spec fn payload_spec(ray: Ray, sphere: Sphere, index: int, t: int) -> HitPayload {
    let p = local_hit(ray, sphere, t);
    let q = if sphere.radius < 0 {
        vec_of(-p.x, -p.y, -p.z)
    } else {
        p
    };
    HitPayload {
        distance: t as i64,
        position: vec_of(p.x + sphere.position.x, p.y + sphere.position.y, p.z + sphere.position.z),
        normal: match normalize_spec(q) {
            Some(n) => n,
            None => up_unit(),
        },
        sphere_index: index as usize,
    }
}

/// What tracing a ray through the spheres gives: the payload of the first nearest hit.
pub open spec fn trace_spec(ray: Ray, spheres: Seq<Sphere>) -> Option<HitPayload> {
    if hits_any(ray, spheres) {
        let i = closest_index(ray, spheres);
        Some(payload_spec(ray, spheres[i], i, hit_distance_spec(ray, spheres[i])->0))
    } else {
        None
    }
}

/// Only one sphere is the first of the nearest.
pub proof fn lemma_closest_unique(ray: Ray, spheres: Seq<Sphere>, i: int)
    requires
        is_closest(ray, spheres, i),
    ensures
        closest_index(ray, spheres) == i,
{
    let k = closest_index(ray, spheres);
    assert(is_closest(ray, spheres, k));
    if k < i {
        assert(hit_distance_spec(ray, spheres[k]) is Some);
    } else if i < k {
        assert(hit_distance_spec(ray, spheres[i]) is Some);
    }
}

/// A ray that starts strictly inside a sphere does not meet it, whichever way it
/// points: the near root of the quadratic lies behind the origin.
pub proof fn lemma_inside_misses(ray: Ray, sphere: Sphere)
    requires
        (ray.origin.x - sphere.position.x) * (ray.origin.x - sphere.position.x) + (ray.origin.y
            - sphere.position.y) * (ray.origin.y - sphere.position.y) + (ray.origin.z
            - sphere.position.z) * (ray.origin.z - sphere.position.z) < sphere.radius
            * sphere.radius,
    ensures
        hit_distance_spec(ray, sphere) is None,
{
}

/// A ray that starts outside a sphere or on it, pointing away from its centre, does
/// not meet it either.
pub proof fn lemma_pointing_away_misses(ray: Ray, sphere: Sphere)
    requires
        coefficients(ray, sphere).1 > 0,
    ensures
        hit_distance_spec(ray, sphere) is None,
{
}

/// Where the ray meets some sphere, there is a first nearest one.
pub proof fn lemma_closest_exists(ray: Ray, s: Seq<Sphere>)
    requires
        hits_any(ray, s),
    ensures
        is_closest(ray, s, closest_index(ray, s)),
    decreases s.len(),
{
    let n = s.len() as int;
    let p = s.subrange(0, n - 1);
    assert(forall|j: int| 0 <= j < n - 1 ==> p[j] == s[j]);
    let dl = hit_distance_spec(ray, s[n - 1]);
    if hits_any(ray, p) {
        lemma_closest_exists(ray, p);
        let k = closest_index(ray, p);
        let dk = hit_distance_spec(ray, s[k])->0;
        assert(hit_distance_spec(ray, p[k]) == hit_distance_spec(ray, s[k]));
        if dl is Some && dl->0 < dk {
            assert forall|j: int|
                0 <= j < n && (#[trigger] hit_distance_spec(ray, s[j])) is Some implies hit_distance_spec(ray, s[j])->0 >= dl->0 by {
                if j < n - 1 {
                    assert(hit_distance_spec(ray, p[j]) is Some);
                }
            }
            assert forall|j: int|
                0 <= j < n - 1 && (#[trigger] hit_distance_spec(ray, s[j])) is Some implies hit_distance_spec(ray, s[j])->0 > dl->0 by {
                assert(hit_distance_spec(ray, p[j]) is Some);
            }
            assert(is_closest(ray, s, n - 1));
        } else {
            assert forall|j: int|
                0 <= j < n && (#[trigger] hit_distance_spec(ray, s[j])) is Some implies hit_distance_spec(ray, s[j])->0 >= dk by {
                if j < n - 1 {
                    assert(hit_distance_spec(ray, p[j]) is Some);
                }
            }
            assert forall|j: int|
                0 <= j < k && (#[trigger] hit_distance_spec(ray, s[j])) is Some implies hit_distance_spec(ray, s[j])->0 > dk by {
                assert(hit_distance_spec(ray, p[j]) is Some);
            }
            assert(is_closest(ray, s, k));
        }
    } else {
        let w = choose|j: int| 0 <= j < s.len() && (#[trigger] hit_distance_spec(ray, s[j])) is Some;
        if w < n - 1 {
            assert(hit_distance_spec(ray, p[w]) is Some);
        }
        assert forall|j: int|
            0 <= j < n - 1 implies (#[trigger] hit_distance_spec(ray, s[j])) is None by {
            if hit_distance_spec(ray, s[j]) is Some {
                assert(hit_distance_spec(ray, p[j]) is Some);
            }
        }
        assert(is_closest(ray, s, n - 1));
    }
}

/// Tracing returns the nearest hit: whenever sphere `j` is hit, the trace reports a
/// hit no farther away, and a hit at the same distance only from `j` or a sphere
/// before it.
pub proof fn lemma_trace_keeps_nearest(ray: Ray, spheres: Seq<Sphere>, j: int)
    requires
        0 <= j < spheres.len(),
        hit_distance_spec(ray, spheres[j]) is Some,
    ensures
        trace_spec(ray, spheres) is Some,
        hit_distance_spec(ray, spheres[closest_index(ray, spheres)])->0 <= hit_distance_spec(
            ray,
            spheres[j],
        )->0,
        hit_distance_spec(ray, spheres[closest_index(ray, spheres)])->0 == hit_distance_spec(
            ray,
            spheres[j],
        )->0 ==> closest_index(ray, spheres) <= j,
{
    assert(hits_any(ray, spheres));
    lemma_closest_exists(ray, spheres);
}

/// On a perfectly smooth surface (roughness zero) the random vector has no effect:
/// the bounce reflects about the normal itself, `d - 2 (d . n) n`.
pub proof fn lemma_smooth_bounce_is_mirror(d: Vec3, n: Vec3, j: Vec3)
    requires
        bounded(j, JITTER_LIMIT as int),
    ensures
        bounce_axis(n, 0, j) == n,
        mirror(d, bounce_axis(n, 0, j)) == mirror(d, n),
{
    assert(fmul(j.x as int, 0) == 0 && fmul(j.y as int, 0) == 0 && fmul(j.z as int, 0) == 0);
}

/// On a fully rough surface (roughness one) the normal is perturbed by the random
/// vector itself, each component up to one half either way, before renormalization.
pub proof fn lemma_rough_perturbation_is_jitter(j: Vec3)
    requires
        bounded(j, JITTER_LIMIT as int),
    ensures
        perturbation(j, ONE as int) == j,
        bounded(perturbation(j, ONE as int), JITTER_LIMIT as int),
{
    assert(fmul(j.x as int, ONE as int) == j.x) by {
        vstd::arithmetic::div_mod::lemma_div_multiples_vanish(j.x as int, ONE as int);
        if j.x < 0 {
            vstd::arithmetic::div_mod::lemma_div_multiples_vanish(-j.x, ONE as int);
        }
    }
    assert(fmul(j.y as int, ONE as int) == j.y) by {
        vstd::arithmetic::div_mod::lemma_div_multiples_vanish(j.y as int, ONE as int);
        if j.y < 0 {
            vstd::arithmetic::div_mod::lemma_div_multiples_vanish(-j.y, ONE as int);
        }
    }
    assert(fmul(j.z as int, ONE as int) == j.z) by {
        vstd::arithmetic::div_mod::lemma_div_multiples_vanish(j.z as int, ONE as int);
        if j.z < 0 {
            vstd::arithmetic::div_mod::lemma_div_multiples_vanish(-j.z, ONE as int);
        }
    }
}

/// Every sphere of the scene is drawn with a perfectly smooth material.
pub open spec fn all_smooth(scene: Scene) -> bool {
    forall|i: int|
        0 <= i < scene.spheres@.len() ==> (#[trigger] scene.material_of(scene.spheres@[i])).roughness
            == 0
}

/// In a scene whose materials all have roughness zero, the random vectors do not matter:
/// a path gathers the same colour whichever vectors are drawn.
pub proof fn lemma_smooth_path_ignores_jitter(
    scene: Scene,
    ray: Ray,
    j1: Seq<Vec3>,
    j2: Seq<Vec3>,
    i: int,
    mult: int,
)
    requires
        all_smooth(scene),
        scene.spheres@.len() <= usize::MAX,
        j1.len() == BOUNCE_LIMIT,
        j2.len() == BOUNCE_LIMIT,
    ensures
        path_spec(scene, ray, j1, i, mult) == path_spec(scene, ray, j2, i, mult),
    decreases BOUNCE_LIMIT - i,
{
    if 0 <= i < BOUNCE_LIMIT {
        let sp = scene.spheres@;
        if hits_any(ray, sp) {
            lemma_closest_exists(ray, sp);
            let k = closest_index(ray, sp);
            let hit = trace_spec(ray, sp)->0;
            assert(hit.sphere_index as int == k);
            let m = scene.material_of(sp[k]);
            assert(m.roughness == 0);
            let n = hit.normal;
            assert(bounce_axis(n, 0, j1[i]) == n) by {
                assert(fmul(j1[i].x as int, 0) == 0 && fmul(j1[i].y as int, 0) == 0 && fmul(j1[i].z as int, 0) == 0);
            }
            assert(bounce_axis(n, 0, j2[i]) == n) by {
                assert(fmul(j2[i].x as int, 0) == 0 && fmul(j2[i].y as int, 0) == 0 && fmul(j2[i].z as int, 0) == 0);
            }
            assert(next_ray_spec(ray, hit, 0, j1[i]) == next_ray_spec(ray, hit, 0, j2[i]));
            match next_ray_spec(ray, hit, 0, j1[i]) {
                Some(nr) => {
                    lemma_smooth_path_ignores_jitter(scene, nr, j1, j2, i + 1, fmul(mult, DECAY as int));
                },
                None => {},
            }
        }
    }
}

/// In a scene whose materials all have roughness zero, a pixel's colour is the same
/// whichever random vectors are drawn: shading is deterministic.
pub proof fn lemma_smooth_pixel_is_deterministic(scene: Scene, ray: Ray, j1: Seq<Vec3>, j2: Seq<Vec3>)
    requires
        all_smooth(scene),
        scene.spheres@.len() <= usize::MAX,
        j1.len() == BOUNCE_LIMIT,
        j2.len() == BOUNCE_LIMIT,
    ensures
        pixel_color_spec(scene, ray, j1) == pixel_color_spec(scene, ray, j2),
{
    lemma_smooth_path_ignores_jitter(scene, ray, j1, j2, 0, ONE as int);
}

/// The sum of a pixel's samples, frame by frame.
pub open spec fn running_sum(samples: Seq<Color>) -> Color
    decreases samples.len(),
{
    if samples.len() == 0 {
        zero_color()
    } else {
        color_add(running_sum(samples.drop_last()), samples.last())
    }
}

/// Frames `ls[0]` to `ls[n]` of a run that starts from an invalidated state and then
/// accumulates without invalidation: each frame adds `samples[k]` to pixel `i` and
/// displays the new sum over the counter it started with, as `Lantern::update` does.
pub open spec fn steady_run(ls: Seq<Lantern>, samples: Seq<Color>, i: int) -> bool {
    &&& ls.len() == samples.len() + 1
    &&& ls[0].acc_counter == 1
    &&& forall|k: int|
        1 <= k <= samples.len() ==> {
            &&& (#[trigger] ls[k]).acc_counter == ls[k - 1].acc_counter + 1
            &&& ls[k].path_acc@[i] == color_add(accumulation_base(ls[k - 1], i), samples[k - 1])
            &&& ls[k].final_image_data@[i] == display_spec(
                ls[k].path_acc@[i],
                ls[k - 1].acc_counter as int,
            )
        }
}

/// After a reset and `n` accumulating frames, a pixel's running sum is the sum of its
/// `n` samples, the counter is `n + 1`, and the pixel shows that sum divided by `n`:
/// the mean of all the samples taken since the reset.
pub proof fn lemma_steady_run_sums_samples(ls: Seq<Lantern>, samples: Seq<Color>, i: int)
    requires
        steady_run(ls, samples, i),
        samples.len() >= 1,
    ensures
        ls.last().path_acc@[i] == running_sum(samples),
        ls.last().acc_counter == samples.len() + 1,
        ls.last().final_image_data@[i] == display_spec(running_sum(samples), samples.len() as int),
    decreases samples.len(),
{
    let n = samples.len() as int;
    assert(ls[n].acc_counter == ls[n - 1].acc_counter + 1);
    assert(ls.last() == ls[n]);
    assert(samples.last() == samples[n - 1]);
    assert(ls[n].path_acc@[i] == color_add(accumulation_base(ls[n - 1], i), samples[n - 1]));
    if n == 1 {
        assert(samples.drop_last().len() == 0);
        assert(running_sum(samples.drop_last()) == zero_color());
        assert(running_sum(samples) == color_add(zero_color(), samples[0]));
    } else {
        let ls0 = ls.drop_last();
        let s0 = samples.drop_last();
        assert forall|k: int| 1 <= k <= s0.len() implies {
            &&& (#[trigger] ls0[k]).acc_counter == ls0[k - 1].acc_counter + 1
            &&& ls0[k].path_acc@[i] == color_add(accumulation_base(ls0[k - 1], i), s0[k - 1])
            &&& ls0[k].final_image_data@[i] == display_spec(
                ls0[k].path_acc@[i],
                ls0[k - 1].acc_counter as int,
            )
        } by {
            assert(ls0[k] == ls[k]);
            assert(ls[k].acc_counter == ls[k - 1].acc_counter + 1);
        }
        assert(steady_run(ls0, s0, i));
        lemma_steady_run_sums_samples(ls0, s0, i);
        assert(ls0.last() == ls[n - 1]);
        assert(ls[n - 1].acc_counter == n);
        assert(accumulation_base(ls[n - 1], i) == running_sum(s0));
        assert(running_sum(samples) == color_add(running_sum(s0), samples[n - 1]));
    }
}

/// Once the accumulation is invalidated (the counter is one), the next frame adds each
/// pixel's sample to zero, not to the stale sum.
pub proof fn lemma_invalidated_frame_starts_from_zero(l: Lantern, i: int)
    requires
        l.acc_counter == 1,
    ensures
        accumulation_base(l, i) == zero_color(),
{
}

/// A pixel whose samples do not vary keeps its value as samples accumulate: the mean of
/// `n` equal samples is the sample.
pub proof fn lemma_steady_samples_keep_their_mean(c: Color, n: int)
    requires
        n >= 1,
        0 <= c.r,
        0 <= c.g,
        0 <= c.b,
        0 <= c.a,
        n * c.r <= i64::MAX,
        n * c.g <= i64::MAX,
        n * c.b <= i64::MAX,
        n * c.a <= i64::MAX,
    ensures
        average(
            Color {
                r: (n * c.r) as i64,
                g: (n * c.g) as i64,
                b: (n * c.b) as i64,
                a: (n * c.a) as i64,
            },
            n,
        ) == c,
{
    vstd::arithmetic::div_mod::lemma_div_multiples_vanish(c.r as int, n);
    vstd::arithmetic::div_mod::lemma_div_multiples_vanish(c.g as int, n);
    vstd::arithmetic::div_mod::lemma_div_multiples_vanish(c.b as int, n);
    vstd::arithmetic::div_mod::lemma_div_multiples_vanish(c.a as int, n);
    assert(n * c.r == c.r * n && n * c.g == c.g * n && n * c.b == c.b * n && n * c.a == c.a * n) by (nonlinear_arith);
}

/// The distance along `ray` at which it meets `sphere`, as `hit_distance_spec` gives it.
pub fn hit_distance(ray: &Ray, sphere: &Sphere) -> (r: Option<i64>)
    requires
        ray.wf(),
        sphere.wf(),
    ensures
        r matches Some(t) ==> hit_distance_spec(*ray, *sphere) == Some(t as int),
        r is None ==> hit_distance_spec(*ray, *sphere) is None,
        r matches Some(t) ==> 0 <= t <= MAX_DISTANCE,
{
    let o = ray.origin.sub(&sphere.position);
    let d = ray.direction;
    proof {
        lemma_mul_bounded(d.x as int, d.x as int, DIRECTION_LIMIT as int);
        lemma_mul_bounded(d.y as int, d.y as int, DIRECTION_LIMIT as int);
        lemma_mul_bounded(d.z as int, d.z as int, DIRECTION_LIMIT as int);
        lemma_mul_bounds(o.x as int, d.x as int, 0x20_0000_0000, DIRECTION_LIMIT as int);
        lemma_mul_bounds(o.y as int, d.y as int, 0x20_0000_0000, DIRECTION_LIMIT as int);
        lemma_mul_bounds(o.z as int, d.z as int, 0x20_0000_0000, DIRECTION_LIMIT as int);
        lemma_mul_bounded(o.x as int, o.x as int, 0x20_0000_0000);
        lemma_mul_bounded(o.y as int, o.y as int, 0x20_0000_0000);
        lemma_mul_bounded(o.z as int, o.z as int, 0x20_0000_0000);
        lemma_mul_bounded(sphere.radius as int, sphere.radius as int, SCENE_LIMIT as int);
        assert(d.x * d.x >= 0 && d.y * d.y >= 0 && d.z * d.z >= 0) by (nonlinear_arith);
    }
    let a: i128 = d.dot(&d);
    let half_b: i128 = o.dot(&d);
    let b: i128 = 2 * half_b;
    let r: i128 = sphere.radius as i128;
    let c: i128 = o.dot(&o) - r * r;
    if a == 0 {
        return None;
    }
    proof {
        assert(0 <= a <= 0xc_0000_0000);
        assert(-0x1000_0000_0000_0000_0000 <= c <= 0x1000_0000_0000_0000_0000);
        assert(-0x200_0000_0000_0000 <= b <= 0x200_0000_0000_0000);
        lemma_mul_bounded(b as int, b as int, 0x200_0000_0000_0000);
        assert(-0x4_0000_0000_0000_0000_0000_0000_0000 <= 4 * a * c <= 0x4_0000_0000_0000_0000_0000_0000_0000) by (nonlinear_arith)
            requires
                0 <= a <= 0xc_0000_0000,
                -0x1000_0000_0000_0000_0000 <= c <= 0x1000_0000_0000_0000_0000,
        ;
    }
    let disc: i128 = b * b - 4 * a * c;
    if disc < 0 || b > 0 || c < 0 {
        return None;
    }
    let s = isqrt(disc as u128);
    proof {
        assert(4 * a * c >= 0) by (nonlinear_arith)
            requires
                a >= 0,
                c >= 0,
        ;
        assert(s <= -b) by (nonlinear_arith)
            requires
                s * s <= disc,
                disc <= b * b,
                b <= 0,
                s >= 0,
        ;
    }
    let num: i128 = -b - (s as i128);
    let t: i128 = (num * (ONE as i128)) / (2 * a);
    if t > MAX_DISTANCE as i128 {
        return None;
    }
    Some(t as i64)
}



/// Lambertian intensity of a surface with normal `n`, in fixed point: `max(0, n . l)`.
pub open spec fn intensity_spec(n: Vec3) -> int {
    if dot(n, toward_light()) <= 0 {
        0
    } else {
        dot(n, toward_light()) / (ONE as int)
    }
}

/// `d` reflected about the unit axis `n`: `d - 2 (d . n) n`, in fixed point.
pub open spec fn mirror(d: Vec3, n: Vec3) -> Vec3 {
    let k = div_trunc(2 * dot(d, n), ONE as int);
    vec_of(d.x - fmul(n.x as int, k), d.y - fmul(n.y as int, k), d.z - fmul(n.z as int, k))
}

/// The random vector `j` scaled by the roughness.
pub open spec fn perturbation(j: Vec3, roughness: int) -> Vec3 {
    vec_of(fmul(j.x as int, roughness), fmul(j.y as int, roughness), fmul(j.z as int, roughness))
}

/// The axis that a bounce reflects about: the normal plus the random vector `j` scaled
/// by the roughness, renormalized. With no perturbation the axis is the normal itself;
/// where the sum has no direction the normal is kept.
pub open spec fn bounce_axis(n: Vec3, roughness: int, j: Vec3) -> Vec3 {
    let p = perturbation(j, roughness);
    if p.x == 0 && p.y == 0 && p.z == 0 {
        n
    } else {
        match normalize_spec(vec_of(n.x + p.x, n.y + p.y, n.z + p.z)) {
            Some(a) => a,
            None => n,
        }
    }
}

/// The ray that continues a path after `hit`: it leaves from just off the surface,
/// along the mirror image of the incoming direction about the bounce axis, renormalized.
/// `None` when the path cannot go on: the start lies outside the handled region or the
/// reflected direction has no length.
pub open spec fn next_ray_spec(ray: Ray, hit: HitPayload, roughness: int, j: Vec3) -> Option<Ray> {
    let n = hit.normal;
    let origin = vec_of(
        hit.position.x + fmul(n.x as int, SURFACE_OFFSET as int),
        hit.position.y + fmul(n.y as int, SURFACE_OFFSET as int),
        hit.position.z + fmul(n.z as int, SURFACE_OFFSET as int),
    );
    if !bounded(origin, ORIGIN_LIMIT as int) {
        None
    } else {
        match normalize_spec(mirror(ray.direction, bounce_axis(n, roughness, j))) {
            Some(d) => Some(Ray { origin, direction: d }),
            None => None,
        }
    }
}

/// The light that a hit sends back, weighted by `mult`: the albedo times the
/// Lambertian intensity.
pub open spec fn hit_light(scene: Scene, hit: HitPayload, mult: int) -> (int, int, int) {
    let m = scene.material_of(scene.spheres@[hit.sphere_index as int]);
    let i = intensity_spec(hit.normal);
    (
        fmul(fmul(m.albedo.x as int, i), mult),
        fmul(fmul(m.albedo.y as int, i), mult),
        fmul(fmul(m.albedo.z as int, i), mult),
    )
}

/// The colour gathered along a path from bounce `i` on, with weight `mult`, using the
/// random vectors `jit` for the bounces: the sky where the ray escapes, otherwise the
/// light of the hit plus what the next ray gathers at weight `mult * DECAY`.
pub open spec fn path_spec(scene: Scene, ray: Ray, jit: Seq<Vec3>, i: int, mult: int) -> (int, int, int)
    decreases BOUNCE_LIMIT - i,
{
    if i < 0 || i >= BOUNCE_LIMIT {
        (0, 0, 0)
    } else {
        match trace_spec(ray, scene.spheres@) {
            None => (fmul(SKY_R as int, mult), fmul(SKY_G as int, mult), fmul(SKY_B as int, mult)),
            Some(hit) => {
                let c = hit_light(scene, hit, mult);
                let m = scene.material_of(scene.spheres@[hit.sphere_index as int]);
                match next_ray_spec(ray, hit, m.roughness as int, jit[i]) {
                    None => c,
                    Some(nr) => {
                        let rest = path_spec(scene, nr, jit, i + 1, fmul(mult, DECAY as int));
                        (c.0 + rest.0, c.1 + rest.1, c.2 + rest.2)
                    },
                }
            },
        }
    }
}

/// The colour of a pixel whose camera ray is `ray`, with alpha one.
pub open spec fn pixel_color_spec(scene: Scene, ray: Ray, jit: Seq<Vec3>) -> Color {
    let c = path_spec(scene, ray, jit, 0, ONE as int);
    Color { r: c.0 as i64, g: c.1 as i64, b: c.2 as i64, a: ONE }
}

/// Each component of every random vector lies in `[-1/2, 1/2]`.
pub open spec fn jitter_ok(jit: Seq<Vec3>) -> bool {
    forall|k: int| 0 <= k < jit.len() ==> bounded(#[trigger] jit[k], JITTER_LIMIT as int)
}


/// The Lambertian intensity of a surface with unit normal `n`.
pub fn intensity(n: &Vec3) -> (r: i64)
    requires
        bounded(*n, ONE as int),
        is_unit(*n),
    ensures
        r == intensity_spec(*n),
        0 <= r <= INTENSITY_MAX,
{
    let l = Vec3 { x: TOWARD_LIGHT_X, y: TOWARD_LIGHT_Y, z: TOWARD_LIGHT_Z };
    proof {
        lemma_mul_bounds(n.x as int, TOWARD_LIGHT_X as int, ONE as int, 37837);
        lemma_mul_bounds(n.y as int, TOWARD_LIGHT_Y as int, ONE as int, 37837);
        lemma_mul_bounds(n.z as int, TOWARD_LIGHT_Z as int, ONE as int, 37837);
    }
    let d: i128 = n.dot(&l);
    if d <= 0 {
        0
    } else {
        let q: u128 = (d as u128) / 65536;
        proof {
            lemma_cauchy_schwarz(*n, l);
            let ns = crate::fixed::norm_sq(*n);
            assert(crate::fixed::norm_sq(l) == 4294915707);
            vstd::arithmetic::div_mod::lemma_fundamental_div_mod(d as int, 65536);
            vstd::arithmetic::div_mod::lemma_mod_pos_bound(d as int, 65536);
            assert(65536 * q <= d);
            assert(100 * q * q <= 110 * 65536 * 65536) by (nonlinear_arith)
                requires
                    0 <= 65536 * q <= d,
                    d * d <= ns * 4294915707,
                    10 * ns <= 11 * (65536 * 65536),
                    0 <= ns,
            ;
            assert(q <= 68735) by (nonlinear_arith)
                requires
                    100 * q * q <= 110 * 65536 * 65536,
                    q >= 0,
            ;
        }
        q as i64
    }
}

/// `d` reflected about the unit axis `n`, as `mirror` describes it.
pub fn reflect(d: &Vec3, n: &Vec3) -> (r: Vec3)
    requires
        bounded(*d, DIRECTION_LIMIT as int),
        bounded(*n, ONE as int),
    ensures
        r == mirror(*d, *n),
        bounded(r, 0x20_0000),
{
    proof {
        lemma_mul_bounds(d.x as int, n.x as int, DIRECTION_LIMIT as int, ONE as int);
        lemma_mul_bounds(d.y as int, n.y as int, DIRECTION_LIMIT as int, ONE as int);
        lemma_mul_bounds(d.z as int, n.z as int, DIRECTION_LIMIT as int, ONE as int);
    }
    let dt: i128 = d.dot(n);
    let k: i128 = div_trunc_i128(2 * dt, ONE as i128);
    proof {
        assert(-0x10_0000 <= k <= 0x10_0000);
        lemma_fmul_bound(n.x as int, k as int, ONE as int, 0x10_0000);
        lemma_fmul_bound(n.y as int, k as int, ONE as int, 0x10_0000);
        lemma_fmul_bound(n.z as int, k as int, ONE as int, 0x10_0000);
    }
    let step = n.scale(k as i64);
    d.sub(&step)
}

/// The axis that a bounce reflects about, as `bounce_axis` describes it.
pub fn perturbed_axis(n: &Vec3, roughness: i64, j: &Vec3) -> (r: Vec3)
    requires
        bounded(*n, ONE as int),
        is_unit(*n),
        0 <= roughness <= ONE,
        bounded(*j, JITTER_LIMIT as int),
    ensures
        r == bounce_axis(*n, roughness as int, *j),
        bounded(r, ONE as int),
        is_unit(r),
{
    proof {
        lemma_fmul_bound(j.x as int, roughness as int, JITTER_LIMIT as int, ONE as int);
        lemma_fmul_bound(j.y as int, roughness as int, JITTER_LIMIT as int, ONE as int);
        lemma_fmul_bound(j.z as int, roughness as int, JITTER_LIMIT as int, ONE as int);
    }
    let p = j.scale(roughness);
    if p.x == 0 && p.y == 0 && p.z == 0 {
        return *n;
    }
    let s = n.add(&p);
    match normalize(&s) {
        Some(a) => a,
        None => *n,
    }
}

/// The ray that continues a path after `hit`, as `next_ray_spec` describes it.
pub fn next_ray(ray: &Ray, hit: &HitPayload, roughness: i64, j: &Vec3) -> (r: Option<Ray>)
    requires
        ray.wf(),
        bounded(hit.normal, ONE as int),
        is_unit(hit.normal),
        bounded(hit.position, POSITION_LIMIT as int),
        0 <= roughness <= ONE,
        bounded(*j, JITTER_LIMIT as int),
    ensures
        r == next_ray_spec(*ray, *hit, roughness as int, *j),
        r matches Some(nr) ==> nr.wf(),
{
    proof {
        lemma_fmul_bound(hit.normal.x as int, SURFACE_OFFSET as int, ONE as int, SURFACE_OFFSET as int);
        lemma_fmul_bound(hit.normal.y as int, SURFACE_OFFSET as int, ONE as int, SURFACE_OFFSET as int);
        lemma_fmul_bound(hit.normal.z as int, SURFACE_OFFSET as int, ONE as int, SURFACE_OFFSET as int);
    }
    let off = hit.normal.scale(SURFACE_OFFSET);
    let origin = hit.position.add(&off);
    if origin.x < -ORIGIN_LIMIT || origin.x > ORIGIN_LIMIT || origin.y < -ORIGIN_LIMIT || origin.y
        > ORIGIN_LIMIT || origin.z < -ORIGIN_LIMIT || origin.z > ORIGIN_LIMIT {
        return None;
    }
    let axis = perturbed_axis(&hit.normal, roughness, j);
    let raw = reflect(&ray.direction, &axis);
    match normalize(&raw) {
        Some(d) => Some(Ray { origin, direction: d }),
        None => None,
    }
}

/// The light that `hit` sends back at weight `mult`, as `hit_light` describes it.
fn light_of_hit(scene: &Scene, hit: &HitPayload, m: &Material, mult: i64) -> (r: (i64, i64, i64))
    requires
        scene.wf(),
        hit.sphere_index < scene.spheres@.len(),
        *m == scene.material_of(scene.spheres@[hit.sphere_index as int]),
        bounded(hit.normal, ONE as int),
        is_unit(hit.normal),
        0 <= mult <= ONE,
    ensures
        r.0 == hit_light(*scene, *hit, mult as int).0,
        r.1 == hit_light(*scene, *hit, mult as int).1,
        r.2 == hit_light(*scene, *hit, mult as int).2,
        0 <= r.0 <= (INTENSITY_MAX as int * mult) / (ONE as int),
        0 <= r.1 <= (INTENSITY_MAX as int * mult) / (ONE as int),
        0 <= r.2 <= (INTENSITY_MAX as int * mult) / (ONE as int),
{
    let i = intensity(&hit.normal);
    proof {
        assert(m.wf());
        lemma_fmul_nonneg(m.albedo.x as int, i as int, ONE as int, INTENSITY_MAX as int);
        lemma_fmul_nonneg(m.albedo.y as int, i as int, ONE as int, INTENSITY_MAX as int);
        lemma_fmul_nonneg(m.albedo.z as int, i as int, ONE as int, INTENSITY_MAX as int);
    }
    let cx = scale_component(m.albedo.x, i);
    let cy = scale_component(m.albedo.y, i);
    let cz = scale_component(m.albedo.z, i);
    proof {
        lemma_fmul_nonneg(cx as int, mult as int, INTENSITY_MAX as int, mult as int);
        lemma_fmul_nonneg(cy as int, mult as int, INTENSITY_MAX as int, mult as int);
        lemma_fmul_nonneg(cz as int, mult as int, INTENSITY_MAX as int, mult as int);
    }
    (scale_component(cx, mult), scale_component(cy, mult), scale_component(cz, mult))
}


/// The largest channel value of a path's colour after `i` bounces.
pub open spec fn bound_after(i: int) -> int {
    if i <= 0 {
        0
    } else if i == 1 {
        INTENSITY_MAX as int
    } else {
        CHANNEL_MAX as int
    }
}

/// The colour of a pixel whose camera ray is `ray`, given the random vectors used at
/// each bounce, as `pixel_color_spec` describes it.
pub fn shade(scene: &Scene, ray: &Ray, jit: &Vec<Vec3>) -> (r: Color)
    requires
        scene.wf(),
        ray.wf(),
        jit@.len() >= BOUNCE_LIMIT,
        jitter_ok(jit@),
    ensures
        r == pixel_color_spec(*scene, *ray, jit@),
        0 <= r.r <= CHANNEL_MAX,
        0 <= r.g <= CHANNEL_MAX,
        0 <= r.b <= CHANNEL_MAX,
        r.a == ONE,
{
    let ghost whole = path_spec(*scene, *ray, jit@, 0, ONE as int);
    let mut cur = *ray;
    let mut mult: i64 = ONE;
    let mut cr: i64 = 0;
    let mut cg: i64 = 0;
    let mut cb: i64 = 0;
    let mut i: usize = 0;
    let mut done = false;
    while i < BOUNCE_LIMIT && !done
        invariant
            scene.wf(),
            cur.wf(),
            jit@.len() >= BOUNCE_LIMIT,
            jitter_ok(jit@),
            whole == path_spec(*scene, *ray, jit@, 0, ONE as int),
            0 <= mult <= ONE,
            0 <= i <= BOUNCE_LIMIT,
            i == 0 ==> mult == ONE,
            i == 1 && !done ==> mult == DECAY,
            0 <= cr <= bound_after(i as int),
            0 <= cg <= bound_after(i as int),
            0 <= cb <= bound_after(i as int),
            done ==> whole == (cr as int, cg as int, cb as int),
            !done ==> ({
                let rest = path_spec(*scene, cur, jit@, i as int, mult as int);
                whole == (cr + rest.0, cg + rest.1, cb + rest.2)
            }),
        decreases BOUNCE_LIMIT - i,
    {
        let ghost rest = path_spec(*scene, cur, jit@, i as int, mult as int);
        match trace_ray_in(&cur, scene) {
            None => {
                proof {
                    lemma_fmul_nonneg(SKY_R as int, mult as int, SKY_R as int, mult as int);
                    lemma_fmul_nonneg(SKY_G as int, mult as int, SKY_G as int, mult as int);
                    lemma_fmul_nonneg(SKY_B as int, mult as int, SKY_B as int, mult as int);
                }
                cr = cr + scale_component(SKY_R, mult);
                cg = cg + scale_component(SKY_G, mult);
                cb = cb + scale_component(SKY_B, mult);
                done = true;
            },
            Some(hit) => {
                let m = scene.material_for(&scene.spheres[hit.sphere_index]);
                let c = light_of_hit(scene, &hit, &m, mult);
                cr = cr + c.0;
                cg = cg + c.1;
                cb = cb + c.2;
                assert(jit@[i as int] == jit[i as int]);
                assert(bounded(jit@[i as int], JITTER_LIMIT as int));
                match next_ray(&cur, &hit, m.roughness, &jit[i]) {
                    None => {
                        done = true;
                    },
                    Some(nr) => {
                        proof {
                            lemma_fmul_nonneg(mult as int, DECAY as int, ONE as int, DECAY as int);
                        }
                        cur = nr;
                        mult = scale_component(mult, DECAY);
                    },
                }
            },
        }
        i = i + 1;
    }
    Color { r: cr, g: cg, b: cb, a: ONE }
}


/// The ray of pixel `i` of the camera: from its position along the stored direction.
pub open spec fn camera_ray(camera: Camera, i: int) -> Ray {
    Ray { origin: camera.position, direction: camera.rays@[i] }
}

/// `c` is a colour that shading pixel `i` can give, for some choice of the random
/// vectors used at its bounces.
pub open spec fn is_sample(scene: Scene, camera: Camera, i: int, c: Color) -> bool {
    exists|jit: Seq<Vec3>|
        jit.len() == BOUNCE_LIMIT && jitter_ok(jit) && c == #[trigger] pixel_color_spec(
            scene,
            camera_ray(camera, i),
            jit,
        )
}

/// The channelwise sum of two colours.
pub open spec fn color_add(a: Color, b: Color) -> Color {
    Color {
        r: (a.r + b.r) as i64,
        g: (a.g + b.g) as i64,
        b: (a.b + b.b) as i64,
        a: (a.a + b.a) as i64,
    }
}

/// The black, transparent colour.
pub open spec fn zero_color() -> Color {
    Color { r: 0, g: 0, b: 0, a: 0 }
}

/// The mean of `n` accumulated samples whose sum is `sum`.
pub open spec fn average(sum: Color, n: int) -> Color {
    Color {
        r: ((sum.r as int) / n) as i64,
        g: ((sum.g as int) / n) as i64,
        b: ((sum.b as int) / n) as i64,
        a: ((sum.a as int) / n) as i64,
    }
}

/// The largest of four values.
pub open spec fn max4(a: int, b: int, c: int, d: int) -> int {
    let ab = if a >= b { a } else { b };
    let cd = if c >= d { c } else { d };
    if ab >= cd { ab } else { cd }
}

/// `c` divided by its largest channel, so that no channel exceeds one; black where
/// every channel is zero.
pub open spec fn tone_map_spec(c: Color) -> Color {
    let m = max4(c.r as int, c.g as int, c.b as int, c.a as int);
    if m <= 0 {
        zero_color()
    } else {
        Color {
            r: ((c.r * ONE) / m) as i64,
            g: ((c.g * ONE) / m) as i64,
            b: ((c.b * ONE) / m) as i64,
            a: ((c.a * ONE) / m) as i64,
        }
    }
}

/// A channel clamped to `[0, 1]` and scaled to a byte.
pub open spec fn channel_byte(v: int) -> int {
    let c = if v < 0 {
        0
    } else if v > ONE {
        ONE as int
    } else {
        v
    };
    (c * 255) / (ONE as int)
}

/// Four bytes packed into a word: red in bits 0-7, green in 8-15, blue in 16-23 and
/// alpha in 24-31.
pub open spec fn pack_spec(r: int, g: int, b: int, a: int) -> int {
    a * 0x100_0000 + b * 0x1_0000 + g * 0x100 + r
}

/// A colour clamped to `[0, 1]` and packed as RGBA bytes.
pub open spec fn rgba_spec(c: Color) -> u32 {
    pack_spec(channel_byte(c.r as int), channel_byte(c.g as int), channel_byte(c.b as int), channel_byte(c.a as int)) as u32
}

/// The displayed pixel for the running sum `sum` of `n` samples.
pub open spec fn display_spec(sum: Color, n: int) -> u32 {
    rgba_spec(tone_map_spec(average(sum, n)))
}

/// The sample counter after a frame: one more when accumulating (starting over once it
/// would overflow), one otherwise.
pub open spec fn next_counter(counter: u32, accumulate: bool) -> u32 {
    if accumulate && counter < u32::MAX {
        (counter + 1) as u32
    } else {
        1
    }
}


/// A colour clamped to `[0, 1]` and packed as RGBA bytes, as `rgba_spec` gives it.
pub fn vec4_to_rgba(c: &Color) -> (r: u32)
    ensures
        r == rgba_spec(*c),
{
    let red = to_byte(c.r);
    let green = to_byte(c.g);
    let blue = to_byte(c.b);
    let alpha = to_byte(c.a);
    alpha * 0x100_0000 + blue * 0x1_0000 + green * 0x100 + red
}

/// A channel clamped to `[0, 1]` and scaled to a byte, as `channel_byte` gives it.
fn to_byte(v: i64) -> (r: u32)
    ensures
        r == channel_byte(v as int),
        r <= 255,
{
    let c: u64 = if v < 0 {
        0
    } else if v > ONE {
        ONE as u64
    } else {
        v as u64
    };
    proof {
        vstd::arithmetic::div_mod::lemma_div_is_ordered((c * 255) as int, 65536int * 255, 65536int);
    }
    ((c * 255) / 65536) as u32
}

/// A colour divided by its largest channel, as `tone_map_spec` gives it.
pub fn tone_map(c: &Color) -> (r: Color)
    requires
        0 <= c.r <= CHANNEL_MAX,
        0 <= c.g <= CHANNEL_MAX,
        0 <= c.b <= CHANNEL_MAX,
        0 <= c.a <= CHANNEL_MAX,
    ensures
        r == tone_map_spec(*c),
{
    let ab = if c.r >= c.g { c.r } else { c.g };
    let cd = if c.b >= c.a { c.b } else { c.a };
    let m = if ab >= cd { ab } else { cd };
    if m <= 0 {
        return Color { r: 0, g: 0, b: 0, a: 0 };
    }
    let mu = m as u64;
    Color {
        r: ((c.r as u64 * 65536) / mu) as i64,
        g: ((c.g as u64 * 65536) / mu) as i64,
        b: ((c.b as u64 * 65536) / mu) as i64,
        a: ((c.a as u64 * 65536) / mu) as i64,
    }
}

/// A running sum's mean, as `average` gives it, for a sum of at most `n` samples.
fn average_of(sum: &Color, n: u32) -> (r: Color)
    requires
        n >= 1,
        0 <= sum.r <= n * CHANNEL_MAX,
        0 <= sum.g <= n * CHANNEL_MAX,
        0 <= sum.b <= n * CHANNEL_MAX,
        0 <= sum.a <= n * CHANNEL_MAX,
    ensures
        r == average(*sum, n as int),
        0 <= r.r <= CHANNEL_MAX,
        0 <= r.g <= CHANNEL_MAX,
        0 <= r.b <= CHANNEL_MAX,
        0 <= r.a <= CHANNEL_MAX,
{
    proof {
        lemma_mean_bound(sum.r as int, n as int);
        lemma_mean_bound(sum.g as int, n as int);
        lemma_mean_bound(sum.b as int, n as int);
        lemma_mean_bound(sum.a as int, n as int);
    }
    let d = n as u64;
    Color {
        r: ((sum.r as u64) / d) as i64,
        g: ((sum.g as u64) / d) as i64,
        b: ((sum.b as u64) / d) as i64,
        a: ((sum.a as u64) / d) as i64,
    }
}

/// The mean of `n` values of at most `CHANNEL_MAX` is at most `CHANNEL_MAX`.
proof fn lemma_mean_bound(s: int, n: int)
    requires
        n >= 1,
        0 <= s <= n * (CHANNEL_MAX as int),
    ensures
        0 <= s / n <= CHANNEL_MAX,
{
    vstd::arithmetic::div_mod::lemma_div_pos_is_pos(s, n);
    vstd::arithmetic::div_mod::lemma_div_is_ordered(s, n * (CHANNEL_MAX as int), n);
    vstd::arithmetic::div_mod::lemma_div_multiples_vanish(CHANNEL_MAX as int, n);
}

/// Whether frames are averaged together.
#[derive(Clone, Copy, Debug, PartialEq, Eq, Structural)]
pub struct Settings {
    pub should_accumulate: bool,
}

impl Default for Settings {
    fn default() -> (r: Settings)
        ensures
            r.should_accumulate,
    {
        Settings { should_accumulate: true }
    }
}

/// A colour with alpha, each channel in fixed point.
#[derive(Clone, Copy, Debug, PartialEq, Eq, Structural)]
pub struct Color {
    pub r: i64,
    pub g: i64,
    pub b: i64,
    pub a: i64,
}

/// The progressive renderer: a running sum of the samples of each pixel, the packed
/// pixels shown to the user, and the number of the frame being accumulated.
pub struct Lantern {
    pub width: u32,
    pub height: u32,
    pub final_image_data: Vec<u32>,
    pub path_acc: Vec<Color>,
    pub acc_counter: u32,
    pub settings: Settings,
}

impl Lantern {
    /// Buffers sized to the viewport, a valid counter, and running sums that hold
    /// `acc_counter - 1` samples (none to speak of when the counter is one: those sums
    /// are cleared before the next frame adds to them).
    pub open spec fn wf(&self) -> bool {
        &&& self.width <= MAX_VIEWPORT
        &&& self.height <= MAX_VIEWPORT
        &&& self.final_image_data@.len() == self.width * self.height
        &&& self.path_acc@.len() == self.width * self.height
        &&& self.acc_counter >= 1
        &&& self.acc_counter > 1 ==> forall|i: int|
            0 <= i < self.path_acc@.len() ==> sum_bounded(
                #[trigger] self.path_acc@[i],
                self.acc_counter - 1,
            )
    }

    /// A renderer for a viewport of `width` by `height` pixels, with black buffers and
    /// the counter at one.
    pub fn new(width: u32, height: u32) -> (r: Lantern)
        requires
            width <= MAX_VIEWPORT,
            height <= MAX_VIEWPORT,
        ensures
            r.wf(),
            r.width == width,
            r.height == height,
            r.acc_counter == 1,
            r.settings.should_accumulate,
            forall|i: int| 0 <= i < r.path_acc@.len() ==> #[trigger] r.path_acc@[i] == zero_color(),
            forall|i: int| 0 <= i < r.final_image_data@.len() ==> #[trigger] r.final_image_data@[i] == 0,
    {
        let (image, acc) = black_buffers(width, height);
        Lantern {
            width,
            height,
            final_image_data: image,
            path_acc: acc,
            acc_counter: 1,
            settings: Settings::default(),
        }
    }

    /// Reallocates both buffers for a new viewport size and starts accumulating again.
    /// The current size, or a side over `MAX_VIEWPORT`, leaves everything as it is.
    pub fn resize(&mut self, width: u32, height: u32)
        requires
            old(self).wf(),
        ensures
            final(self).wf(),
            (width > MAX_VIEWPORT || height > MAX_VIEWPORT || (width == old(self).width && height
                == old(self).height)) ==> *final(self) == *old(self),
            !(width > MAX_VIEWPORT || height > MAX_VIEWPORT || (width == old(self).width && height
                == old(self).height)) ==> {
                &&& final(self).width == width
                &&& final(self).height == height
                &&& final(self).acc_counter == 1
                &&& final(self).settings == old(self).settings
                &&& forall|i: int| 0 <= i < final(self).path_acc@.len() ==> #[trigger] final(self).path_acc@[i] == zero_color()
                &&& forall|i: int| 0 <= i < final(self).final_image_data@.len() ==> #[trigger] final(self).final_image_data@[i] == 0
            },
    {
        if width > MAX_VIEWPORT || height > MAX_VIEWPORT {
            return ;
        }
        if width == self.width && height == self.height {
            return ;
        }
        let (image, acc) = black_buffers(width, height);
        self.width = width;
        self.height = height;
        self.final_image_data = image;
        self.path_acc = acc;
        self.acc_counter = 1;
    }

    /// Marks the accumulated samples as stale: the counter returns to one, so the next
    /// frame clears the running sums before it adds to them.
    pub fn reset_counter(&mut self)
        requires
            old(self).wf(),
        ensures
            final(self).wf(),
            final(self).acc_counter == 1,
            final(self).width == old(self).width,
            final(self).height == old(self).height,
            final(self).settings == old(self).settings,
            final(self).final_image_data == old(self).final_image_data,
            final(self).path_acc == old(self).path_acc,
    {
        self.acc_counter = 1;
    }

    /// Renders one frame: each pixel's new sample is added to its running sum (the sums
    /// start from zero when the counter is one), the mean is tone-mapped and packed into
    /// the image, and then the counter moves on. A camera whose viewport differs from
    /// the buffers leaves everything as it is.
    pub fn update(&mut self, scene: &Scene, camera: &Camera)
        requires
            old(self).wf(),
            scene.wf(),
            camera.wf(),
        ensures
            final(self).wf(),
            (camera.width != old(self).width || camera.height != old(self).height) ==> *final(self)
                == *old(self),
            (camera.width == old(self).width && camera.height == old(self).height) ==> {
                &&& final(self).width == old(self).width
                &&& final(self).height == old(self).height
                &&& final(self).settings == old(self).settings
                &&& final(self).acc_counter == next_counter(
                    old(self).acc_counter,
                    old(self).settings.should_accumulate,
                )
                &&& forall|i: int|
                    0 <= i < final(self).path_acc@.len() ==> accumulated(
                        *scene,
                        *camera,
                        *old(self),
                        i,
                        #[trigger] final(self).path_acc@[i],
                    )
                &&& forall|i: int|
                    0 <= i < final(self).final_image_data@.len() ==> #[trigger] final(self).final_image_data@[i]
                        == display_spec(final(self).path_acc@[i], old(self).acc_counter as int)
            },
    {
        if camera.width != self.width || camera.height != self.height {
            return ;
        }
        let w = self.width;
        let h = self.height;
        proof {
            vstd::arithmetic::mul::lemma_mul_upper_bound(w as int, MAX_VIEWPORT as int, h as int, MAX_VIEWPORT as int);
        }
        let n: u32 = w * h;
        let counter = self.acc_counter;
        let mut acc: Vec<Color> = Vec::new();
        let mut image: Vec<u32> = Vec::new();
        let mut i: u32 = 0;
        while i < n
            invariant
                self.wf(),
                scene.wf(),
                camera.wf(),
                w == self.width && h == self.height,
                w == camera.width && h == camera.height,
                n == w * h,
                counter == self.acc_counter,
                i <= n,
                acc@.len() == i,
                image@.len() == i,
                forall|k: int| 0 <= k < i ==> sum_bounded(#[trigger] acc@[k], counter as int),
                forall|k: int| 0 <= k < i ==> accumulated(*scene, *camera, *self, k, #[trigger] acc@[k]),
                forall|k: int|
                    0 <= k < i ==> #[trigger] image@[k] == display_spec(acc@[k], counter as int),
            decreases n - i,
        {
            let x = i % w;
            let y = i / w;
            proof {
                vstd::arithmetic::div_mod::lemma_fundamental_div_mod(i as int, w as int);
                assert(y < h) by (nonlinear_arith)
                    requires
                        i == w * y + x,
                        0 <= x,
                        i < w * h,
                        w > 0,
                ;
                assert(y * w + x == i) by (nonlinear_arith)
                    requires
                        i == w * y + x,
                ;
            }
            let c = self.per_pixel(scene, camera, x, y);
            let base = if counter == 1 {
                Color { r: 0, g: 0, b: 0, a: 0 }
            } else {
                self.path_acc[i as usize]
            };
            proof {
                if counter > 1 {
                    assert(sum_bounded(self.path_acc@[i as int], counter - 1));
                }
                assert(sum_bounded(base, counter - 1));
                assert((counter - 1) * CHANNEL_MAX + CHANNEL_MAX == counter * CHANNEL_MAX) by (nonlinear_arith);
                assert((counter - 1) * ONE + ONE == counter * ONE) by (nonlinear_arith);
                assert(counter * ONE <= counter * CHANNEL_MAX) by (nonlinear_arith)
                    requires
                        counter >= 1,
                ;
                assert(counter * CHANNEL_MAX <= 0x4_0000 * 0x1_0000_0000) by (nonlinear_arith)
                    requires
                        counter <= 0xffff_ffff,
                ;
            }
            let sum = Color { r: base.r + c.r, g: base.g + c.g, b: base.b + c.b, a: base.a + c.a };
            let avg = average_of(&sum, counter);
            let mapped = tone_map(&avg);
            let px = vec4_to_rgba(&mapped);
            proof {
                assert(sum == color_add(accumulation_base(*self, i as int), c));
                assert(is_sample(*scene, *camera, i as int, c));
                assert(accumulated(*scene, *camera, *self, i as int, sum));
            }
            acc.push(sum);
            image.push(px);
            i = i + 1;
        }
        self.path_acc = acc;
        self.final_image_data = image;
        if self.settings.should_accumulate && counter < u32::MAX {
            self.acc_counter = counter + 1;
        } else {
            self.acc_counter = 1;
        }
    }

    /// The colour of pixel `(x, y)`: its camera ray shaded with random vectors drawn
    /// for its bounces, each component in `[-1/2, 1/2]`.
    pub fn per_pixel(&self, scene: &Scene, camera: &Camera, x: u32, y: u32) -> (r: Color)
        requires
            scene.wf(),
            camera.wf(),
            x < camera.width,
            y < camera.height,
        ensures
            is_sample(*scene, *camera, y * camera.width + x, r),
            0 <= r.r <= CHANNEL_MAX,
            0 <= r.g <= CHANNEL_MAX,
            0 <= r.b <= CHANNEL_MAX,
            r.a == ONE,
    {
        proof {
            vstd::arithmetic::mul::lemma_mul_upper_bound(camera.width as int, MAX_VIEWPORT as int, camera.height as int, MAX_VIEWPORT as int);
            assert(y * camera.width + x < camera.width * camera.height) by (nonlinear_arith)
                requires
                    x < camera.width,
                    y < camera.height,
            ;
        }
        let index = (y * camera.width + x) as usize;
        let ray = Ray { origin: camera.position, direction: camera.rays[index] };
        let mut jit: Vec<Vec3> = Vec::new();
        let mut k: usize = 0;
        while k < BOUNCE_LIMIT
            invariant
                k <= BOUNCE_LIMIT,
                jit@.len() == k,
                jitter_ok(jit@),
            decreases BOUNCE_LIMIT - k,
        {
            let j = random_vec(-JITTER_LIMIT, JITTER_LIMIT);
            jit.push(j);
            k = k + 1;
        }
        let c = shade(scene, &ray, &jit);
        assert(ray == camera_ray(*camera, y * camera.width + x));
        assert(jit@.len() == BOUNCE_LIMIT && jitter_ok(jit@) && c == pixel_color_spec(*scene, ray, jit@));
        c
    }
}

/// `sum` is the running sum of pixel `i` after a frame that started from `l`: a sample
/// of the pixel added to what `accumulation_base` gives.
pub open spec fn accumulated(scene: Scene, camera: Camera, l: Lantern, i: int, sum: Color) -> bool {
    exists|c: Color| #[trigger] is_sample(scene, camera, i, c) && sum == color_add(accumulation_base(l, i), c)
}

/// What a pixel's new sample is added to: zero when the counter is one, else its
/// running sum.
pub open spec fn accumulation_base(l: Lantern, i: int) -> Color {
    if l.acc_counter == 1 {
        zero_color()
    } else {
        l.path_acc@[i]
    }
}

/// Every channel of a running sum of `n` samples lies in `[0, n * CHANNEL_MAX]`, and
/// its alpha is exactly `n` times one.
pub open spec fn sum_bounded(c: Color, n: int) -> bool {
    &&& 0 <= c.r <= n * CHANNEL_MAX
    &&& 0 <= c.g <= n * CHANNEL_MAX
    &&& 0 <= c.b <= n * CHANNEL_MAX
    &&& c.a == n * ONE
}

/// A black image and zero running sums for a viewport of `width` by `height` pixels.
fn black_buffers(width: u32, height: u32) -> (r: (Vec<u32>, Vec<Color>))
    requires
        width <= MAX_VIEWPORT,
        height <= MAX_VIEWPORT,
    ensures
        r.0@.len() == width * height,
        r.1@.len() == width * height,
        forall|i: int| 0 <= i < r.0@.len() ==> #[trigger] r.0@[i] == 0,
        forall|i: int| 0 <= i < r.1@.len() ==> #[trigger] r.1@[i] == zero_color(),
{
    proof {
        vstd::arithmetic::mul::lemma_mul_upper_bound(width as int, MAX_VIEWPORT as int, height as int, MAX_VIEWPORT as int);
    }
    let n: u32 = width * height;
    let mut image: Vec<u32> = Vec::new();
    let mut acc: Vec<Color> = Vec::new();
    let mut i: u32 = 0;
    while i < n
        invariant
            i <= n,
            image@.len() == i,
            acc@.len() == i,
            forall|k: int| 0 <= k < i ==> #[trigger] image@[k] == 0,
            forall|k: int| 0 <= k < i ==> #[trigger] acc@[k] == zero_color(),
        decreases n - i,
    {
        image.push(0);
        acc.push(Color { r: 0, g: 0, b: 0, a: 0 });
        i = i + 1;
    }
    (image, acc)
}

impl Lantern {
    /// The hit of `ray` on `sphere` at `distance`, as `payload_spec` describes it.
    pub fn closest_hit(&self, ray: &Ray, distance: i64, sphere: &Sphere, sphere_index: usize) -> (r:
        HitPayload)
        requires
            ray.wf(),
            sphere.wf(),
            0 <= distance <= MAX_DISTANCE,
        ensures
            r == payload_spec(*ray, *sphere, sphere_index as int, distance as int),
            is_unit(r.normal),
    {
        hit_at(ray, distance, sphere, sphere_index)
    }

    /// Traces `ray` through the spheres of `scene` and returns the hit on the first of
    /// the nearest spheres: a sphere replaces the one found so far only when it is hit
    /// strictly nearer.
    pub fn trace_ray(&self, ray: &Ray, scene: &Scene) -> (r: Option<HitPayload>)
        requires
            ray.wf(),
            scene.wf(),
        ensures
            r == trace_spec(*ray, scene.spheres@),
            r matches Some(h) ==> is_closest(*ray, scene.spheres@, h.sphere_index as int),
            r matches Some(h) ==> 0 <= h.distance <= MAX_DISTANCE && is_unit(h.normal),
    {
        trace_ray_in(ray, scene)
    }
}

/// The hit of `ray` on `sphere` at `distance`.
fn hit_at(ray: &Ray, distance: i64, sphere: &Sphere, sphere_index: usize) -> (r: HitPayload)
    requires
        ray.wf(),
        sphere.wf(),
        0 <= distance <= MAX_DISTANCE,
    ensures
        r == payload_spec(*ray, *sphere, sphere_index as int, distance as int),
        is_unit(r.normal),
        bounded(r.normal, ONE as int),
        bounded(r.position, POSITION_LIMIT as int),
{
    let o = ray.origin.sub(&sphere.position);
    proof {
        lemma_fmul_bound(ray.direction.x as int, distance as int, DIRECTION_LIMIT as int, MAX_DISTANCE as int);
        lemma_fmul_bound(ray.direction.y as int, distance as int, DIRECTION_LIMIT as int, MAX_DISTANCE as int);
        lemma_fmul_bound(ray.direction.z as int, distance as int, DIRECTION_LIMIT as int, MAX_DISTANCE as int);
    }
    let step = ray.direction.scale(distance);
    let p = o.add(&step);
    let q = if sphere.radius < 0 {
        p.neg()
    } else {
        p
    };
    let normal = match normalize(&q) {
        Some(n) => n,
        None => Vec3 { x: 0, y: ONE, z: 0 },
    };
    assert(is_unit(Vec3 { x: 0, y: ONE, z: 0 }));
    let position = p.add(&sphere.position);
    HitPayload { distance, position, normal, sphere_index }
}

/// The hit of `ray` on the first of the nearest spheres of `scene`.
fn trace_ray_in(ray: &Ray, scene: &Scene) -> (r: Option<HitPayload>)
    requires
        ray.wf(),
        scene.wf(),
    ensures
        r == trace_spec(*ray, scene.spheres@),
        r matches Some(h) ==> is_closest(*ray, scene.spheres@, h.sphere_index as int),
        r matches Some(h) ==> 0 <= h.distance <= MAX_DISTANCE && is_unit(h.normal),
        r matches Some(h) ==> bounded(h.normal, ONE as int) && bounded(h.position, POSITION_LIMIT as int),
        r matches Some(h) ==> h.sphere_index < scene.spheres@.len(),
{
    let ghost sp = scene.spheres@;
    let mut closest: Option<(usize, i64)> = None;
    let mut i: usize = 0;
    while i < scene.spheres.len()
        invariant
            sp == scene.spheres@,
            ray.wf(),
            scene.wf(),
            i <= sp.len(),
            closest is None ==> forall|j: int| 0 <= j < i ==> (#[trigger] hit_distance_spec(*ray, sp[j])) is None,
            closest matches Some(kt) ==> {
                &&& kt.0 < i
                &&& hit_distance_spec(*ray, sp[kt.0 as int]) == Some(kt.1 as int)
                &&& 0 <= kt.1 <= MAX_DISTANCE
                &&& forall|j: int|
                    0 <= j < i && (#[trigger] hit_distance_spec(*ray, sp[j])) is Some
                        ==> hit_distance_spec(*ray, sp[j])->0 >= kt.1
                &&& forall|j: int|
                    0 <= j < kt.0 && (#[trigger] hit_distance_spec(*ray, sp[j])) is Some
                        ==> hit_distance_spec(*ray, sp[j])->0 > kt.1
            },
        decreases sp.len() - i,
    {
        let sphere = &scene.spheres[i];
        assert(sphere.wf());
        match hit_distance(ray, sphere) {
            None => {},
            Some(t) => {
                match closest {
                    None => {
                        closest = Some((i, t));
                    },
                    Some(kt) => {
                        if kt.1 > t {
                            closest = Some((i, t));
                        }
                    },
                }
            },
        }
        i += 1;
    }
    match closest {
        None => {
            assert(!hits_any(*ray, sp));
            None
        },
        Some(kt) => {
            proof {
                assert(is_closest(*ray, sp, kt.0 as int));
                lemma_closest_unique(*ray, sp, kt.0 as int);
            }
            let sphere = &scene.spheres[kt.0];
            Some(hit_at(ray, kt.1, sphere, kt.0))
        },
    }
}

} // verus!
