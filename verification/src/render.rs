//! Light transport: the colour that arrives along a ray.

use vstd::prelude::*;
use core::ops::AddAssign;
use crate::camera::Camera;
use crate::hitable::{HitRecord, Hitable};
use crate::hitable_list::{closest_hit, lemma_closest_hit_is_minimum, HitableList};
use crate::material::Scattering;
use crate::ray::Ray;
use crate::sampler::{disk_point_spec, disk_taken, lemma_rest_of_rest, rest, Sampler, Stream};
use crate::scalar::{
    lemma_operations_in_range, lemma_sqrt_bounds, quot, Scalar, MAX_RAW, ONE_RAW,
};
use crate::sphere::Sphere;
use crate::vec3::Vec3;

verus! {

/// The number of scatterings after which a path is cut off.
pub const MAX_DEPTH: i32 = 50;

/// The colour black, which is no light at all.
pub open spec fn black() -> Vec3 {
    Vec3 { x: Scalar::of_int(0), y: Scalar::of_int(0), z: Scalar::of_int(0) }
}

/// The colour of the sky in the direction of `r`: white at the horizon
/// below, the blue `(0.5, 0.7, 1)` straight above, and between them in
/// proportion to `t = (y + 1) / 2` for the height `y` of the unit
/// direction.
pub open spec fn sky_spec(r: &Ray) -> Vec3 {
    let one = Scalar::of_int(1);
    let white = Vec3 { x: one, y: one, z: one };
    let blue = Vec3 { x: Scalar::of_ratio(1, 2), y: Scalar::of_ratio(7, 10), z: one };
    let t = Scalar::of_ratio(1, 2).times(r.direction.unit_spec().y.plus(one));
    white.scaled(one.minus(t)).plus(blue.scaled(t))
}

/// The first surface that `r` meets: the closest hit from a little after
/// the origin of the ray, so that a scattered ray does not hit the surface
/// it leaves, and without a far bound.
pub open spec fn first_hit(spheres: Seq<Sphere>, r: &Ray) -> Option<HitRecord> {
    closest_hit(spheres, r, Scalar::of_ratio(1, 1000), Scalar { raw: MAX_RAW })
}

/// Whether light can travel along `path` to arrive along `r`, where `r` has
/// been scattered `depth` times already: each scattering of the path is
/// one that the material of the surface hit can give, and the path ends
/// where the ray meets nothing, is absorbed, or has reached
/// [`MAX_DEPTH`].
pub open spec fn is_light_path(
    spheres: Seq<Sphere>,
    r: Ray,
    depth: int,
    path: Seq<Scattering>,
) -> bool
    decreases path.len(),
{
    match first_hit(spheres, &r) {
        None => path.len() == 0,
        Some(hit) => if path.len() == 0 {
            depth >= MAX_DEPTH || hit.material.may_scatter(&r, &hit.p, &hit.normal, None)
        } else {
            &&& depth < MAX_DEPTH
            &&& hit.material.may_scatter(&r, &hit.p, &hit.normal, Some(path[0]))
            &&& is_light_path(spheres, path[0].ray, depth + 1, path.drop_first())
        },
    }
}

/// The light that arrives along `r` by way of `path`: at the end of the
/// path the sky where the ray meets nothing and black where it meets a
/// surface; before that, what arrives along the scattered ray, each
/// channel multiplied by the attenuation.
pub open spec fn path_radiance(spheres: Seq<Sphere>, r: Ray, path: Seq<Scattering>) -> Vec3
    decreases path.len(),
{
    if path.len() == 0 {
        match first_hit(spheres, &r) {
            None => sky_spec(&r),
            Some(_) => black(),
        }
    } else {
        path[0].attenuation.times(path_radiance(spheres, path[0].ray, path.drop_first()))
    }
}

/// No light path is longer than what is left of [`MAX_DEPTH`]: a ray that
/// has not been scattered yet is followed through fifty scatterings at
/// most, whatever the scene and its materials.
pub proof fn lemma_light_path_bounded(
    spheres: Seq<Sphere>,
    r: Ray,
    depth: int,
    path: Seq<Scattering>,
)
    requires
        is_light_path(spheres, r, depth, path),
    ensures
        depth >= MAX_DEPTH ==> path.len() == 0,
        depth <= MAX_DEPTH ==> path.len() <= MAX_DEPTH - depth,
        depth >= 0 ==> path.len() <= MAX_DEPTH,
    decreases path.len(),
{
    if path.len() > 0 {
        lemma_light_path_bounded(spheres, path[0].ray, depth + 1, path.drop_first());
    }
}

/// The sky is never darker than its blue nor brighter than white: red
/// lies between one half and one, green between `7/10` and one, and blue
/// is one, whatever the direction of the ray.
pub proof fn lemma_sky_in_range(r: &Ray)
    ensures
        ONE_RAW / 2 <= sky_spec(r).x@ <= ONE_RAW,
        Scalar::of_ratio(7, 10)@ <= sky_spec(r).y@ <= ONE_RAW,
        sky_spec(r).z@ == ONE_RAW,
{
    r.direction.lemma_unit_in_range();
    let one = Scalar::of_int(1);
    let half = Scalar::of_ratio(1, 2);
    let green = Scalar::of_ratio(7, 10);
    assert(half@ == 0x80_0000) by {
        assert(ONE_RAW * ONE_RAW == 0x1_0000_0000_0000);
        assert(0x1_0000_0000_0000int / 0x200_0000int == 0x80_0000int);
    }
    assert(green@ == 11744051) by {
        assert(7 * ONE_RAW * ONE_RAW == 0x7_0000_0000_0000);
        assert(0x7_0000_0000_0000int / 167772160int == 11744051int);
    }
    let y = r.direction.unit_spec().y;
    let s = y.plus(one);
    assert(0 <= s@ <= 2 * ONE_RAW);
    let t = half.times(s);
    assert(half@ * s@ == 0x80_0000 * s@) by (nonlinear_arith)
        requires
            half@ == 0x80_0000,
    ;
    assert(t@ == (0x80_0000 * s@) / 0x100_0000);
    assert(0 <= t@ <= ONE_RAW);
    let w = one.minus(t);
    assert(w@ == ONE_RAW - t@);
    assert(one.times(w) == w && one.times(t) == t) by {
        assert(one@ * w@ == w@ * ONE_RAW) by (nonlinear_arith)
            requires
                one@ == ONE_RAW,
        ;
        assert(one@ * t@ == t@ * ONE_RAW) by (nonlinear_arith)
            requires
                one@ == ONE_RAW,
        ;
        assert((w@ * ONE_RAW) / (ONE_RAW as int) == w@);
        assert((t@ * ONE_RAW) / (ONE_RAW as int) == t@);
    }
    let red_part = half.times(t);
    assert(half@ * t@ == 0x80_0000 * t@) by (nonlinear_arith)
        requires
            half@ == 0x80_0000,
    ;
    assert(red_part@ == (0x80_0000 * t@) / 0x100_0000);
    let green_part = green.times(t);
    assert(green@ * t@ == 11744051 * t@) by (nonlinear_arith)
        requires
            green@ == 11744051,
    ;
    assert(green_part@ == (11744051 * t@) / 0x100_0000);
    assert(sky_spec(r).x@ == w@ + red_part@);
    assert(sky_spec(r).y@ == w@ + green_part@);
    assert(sky_spec(r).z@ == w@ + t@);
}

/// Whether each channel of `c` lies between zero and one.
pub open spec fn is_colour(c: Vec3) -> bool {
    &&& 0 <= c.x@ <= ONE_RAW
    &&& 0 <= c.y@ <= ONE_RAW
    &&& 0 <= c.z@ <= ONE_RAW
}

/// Whether no material of the scene brightens the light: each channel of
/// each albedo lies between zero and one.
pub open spec fn is_dimming(spheres: Seq<Sphere>) -> bool {
    forall|i: int| 0 <= i < spheres.len() ==> is_colour((#[trigger] spheres[i]).material.tint())
}

/// The product of two numbers between zero and one lies between zero and
/// one.
pub proof fn lemma_times_in_unit_range(a: Scalar, b: Scalar)
    requires
        0 <= a@ <= ONE_RAW,
        0 <= b@ <= ONE_RAW,
    ensures
        0 <= a.times(b)@ <= ONE_RAW,
{
    assert(0 <= a@ * b@ <= ONE_RAW * ONE_RAW) by (nonlinear_arith)
        requires
            0 <= a@ <= ONE_RAW,
            0 <= b@ <= ONE_RAW,
    ;
    assert(0 <= (a@ * b@) / (ONE_RAW as int) <= ONE_RAW) by (nonlinear_arith)
        requires
            0 <= a@ * b@ <= ONE_RAW * ONE_RAW,
            ONE_RAW == 0x100_0000,
    ;
}

/// In a scene whose materials do not brighten the light, the light that
/// arrives by way of a light path is a colour: each channel lies between
/// zero and one.
pub proof fn lemma_path_radiance_is_colour(
    spheres: Seq<Sphere>,
    r: Ray,
    depth: int,
    path: Seq<Scattering>,
)
    requires
        is_light_path(spheres, r, depth, path),
        is_dimming(spheres),
    ensures
        is_colour(path_radiance(spheres, r, path)),
    decreases path.len(),
{
    if path.len() == 0 {
        lemma_sky_in_range(&r);
        assert(Scalar::of_ratio(7, 10)@ >= 0) by {
            lemma_operations_in_range(Scalar::of_int(7), Scalar::of_int(10));
            assert(7 * ONE_RAW * ONE_RAW == 0x7_0000_0000_0000);
            assert(0x7_0000_0000_0000int / 167772160int == 11744051int);
        }
    } else {
        let eps = Scalar::of_ratio(1, 1000);
        let far = Scalar { raw: MAX_RAW };
        lemma_closest_hit_is_minimum(spheres, &r, eps, far);
        let hit = first_hit(spheres, &r)->Some_0;
        hit.material.lemma_scatter_outcomes(&r, &hit.p, &hit.normal, Some(path[0]));
        let tail = path_radiance(spheres, path[0].ray, path.drop_first());
        lemma_path_radiance_is_colour(spheres, path[0].ray, depth + 1, path.drop_first());
        let a = path[0].attenuation;
        assert(is_colour(a));
        lemma_times_in_unit_range(a.x, tail.x);
        lemma_times_in_unit_range(a.y, tail.y);
        lemma_times_in_unit_range(a.z, tail.z);
    }
}

/// The colour of the sky in the direction of `r`.
pub fn sky(r: &Ray) -> (out: Vec3)
    ensures
        out == sky_spec(r),
{
    let one: Scalar = Scalar::from_int(1);
    let unit_direction: Vec3 = r.direction.unit();
    let t: Scalar = Scalar::ratio(1, 2) * (unit_direction.y() + one);
    (one - t) * Vec3::new(one, one, one) + t * Vec3::new(
        Scalar::ratio(1, 2),
        Scalar::ratio(7, 10),
        one,
    )
}

/// The light path that is followed from `r` with the draws of `stream`,
/// where `r` has been scattered `depth` times already: the scatterings one
/// after another, each with the draws that the one before has left, until
/// the ray meets nothing, is absorbed, or has reached [`MAX_DEPTH`].
pub open spec fn light_path_spec(
    spheres: Seq<Sphere>,
    r: Ray,
    depth: int,
    stream: Stream,
) -> Seq<Scattering>
    decreases MAX_DEPTH - depth,
{
    match first_hit(spheres, &r) {
        None => Seq::empty(),
        Some(hit) => if depth >= MAX_DEPTH {
            Seq::empty()
        } else {
            match hit.material.scatter_drawn(&r, &hit.p, &hit.normal, stream) {
                None => Seq::empty(),
                Some(s) => seq![s] + light_path_spec(
                    spheres,
                    s.ray,
                    depth + 1,
                    rest(stream, hit.material.scatter_taken(&r, &hit.normal, stream)),
                ),
            }
        },
    }
}

/// How many draws are taken along the light path from `r`.
pub open spec fn light_path_taken(
    spheres: Seq<Sphere>,
    r: Ray,
    depth: int,
    stream: Stream,
) -> nat
    decreases MAX_DEPTH - depth,
{
    match first_hit(spheres, &r) {
        None => 0,
        Some(hit) => if depth >= MAX_DEPTH {
            0
        } else {
            let taken = hit.material.scatter_taken(&r, &hit.normal, stream);
            match hit.material.scatter_drawn(&r, &hit.p, &hit.normal, stream) {
                None => taken,
                Some(s) => taken + light_path_taken(
                    spheres,
                    s.ray,
                    depth + 1,
                    rest(stream, taken),
                ),
            }
        },
    }
}

/// Specification of [`radiance`]: the light that arrives by way of the
/// light path that the draws of `stream` give.
pub open spec fn radiance_spec(
    spheres: Seq<Sphere>,
    r: Ray,
    depth: int,
    stream: Stream,
) -> Vec3 {
    path_radiance(spheres, r, light_path_spec(spheres, r, depth, stream))
}

/// Follows one light path backward from `r` and returns it with the light
/// that arrives along it.
fn trace(r: &Ray, world: &HitableList, depth: i32, rng: &mut Sampler) -> (out: (
    Vec3,
    Ghost<Seq<Scattering>>,
))
    ensures
        out.1@ == light_path_spec(world.spheres@, *r, depth as int, old(rng).stream()),
        final(rng).stream() == rest(
            old(rng).stream(),
            light_path_taken(world.spheres@, *r, depth as int, old(rng).stream()),
        ),
        is_light_path(world.spheres@, *r, depth as int, out.1@),
        out.0 == path_radiance(world.spheres@, *r, out.1@),
    decreases MAX_DEPTH - depth,
{
    let zero: Scalar = Scalar::from_int(0);
    let ghost start = rng.stream();
    proof {
        lemma_rest_of_rest(start, 0, 0);
    }
    if let Some(hit) = world.hit(r, Scalar::ratio(1, 1000), Scalar::max_value()) {
        if depth < MAX_DEPTH {
            let ghost taken = hit.material.scatter_taken(r, &hit.normal, start);
            if let Some(scatter) = hit.material.scatter(r, &hit.p, &hit.normal, rng) {
                let ghost left = rng.stream();
                let (incoming, Ghost(tail)) = trace(&scatter.ray, world, depth + 1, rng);
                let ghost path = seq![scatter] + tail;
                proof {
                    assert(path[0] == scatter);
                    assert(path.drop_first() == tail);
                    lemma_rest_of_rest(
                        start,
                        taken,
                        light_path_taken(world.spheres@, scatter.ray, depth + 1, left),
                    );
                }
                return (scatter.attenuation * incoming, Ghost(path));
            }
        }
        (Vec3::new(zero, zero, zero), Ghost(Seq::empty()))
    } else {
        (sky(r), Ghost(Seq::empty()))
    }
}

/// The light that arrives along `r` from the scene `world`, where `r` has
/// been scattered `depth` times already. The ray is followed from surface
/// to surface, as the materials scatter it with the draws of `rng`, until
/// it meets nothing and sees the sky, is absorbed, or has been scattered
/// [`MAX_DEPTH`] times. The result is a function of the ray, the scene,
/// the depth and the draws: one seed gives one image.
pub fn radiance(r: &Ray, world: &HitableList, depth: i32, rng: &mut Sampler) -> (out: Vec3)
    ensures
        out == radiance_spec(world.spheres@, *r, depth as int, old(rng).stream()),
        final(rng).stream() == rest(
            old(rng).stream(),
            light_path_taken(world.spheres@, *r, depth as int, old(rng).stream()),
        ),
        is_light_path(
            world.spheres@,
            *r,
            depth as int,
            light_path_spec(world.spheres@, *r, depth as int, old(rng).stream()),
        ),
        depth >= 0 ==> light_path_spec(
            world.spheres@,
            *r,
            depth as int,
            old(rng).stream(),
        ).len() <= MAX_DEPTH,
        first_hit(world.spheres@, r) is None ==> out == sky_spec(r),
        first_hit(world.spheres@, r) is Some && depth >= MAX_DEPTH ==> out == black(),
        is_dimming(world.spheres@) ==> is_colour(out),
{
    let (out, Ghost(path)) = trace(r, world, depth, rng);
    proof {
        lemma_light_path_bounded(world.spheres@, *r, depth as int, path);
        if is_dimming(world.spheres@) {
            lemma_path_radiance_is_colour(world.spheres@, *r, depth as int, path);
        }
    }
    out
}

/// The image coordinate of a sample in the pixel `index` of `size`, moved
/// within the pixel by `draw`: `(index + draw) / size`.
pub open spec fn image_coordinate_spec(index: int, draw: Scalar, size: int) -> Scalar {
    Scalar::of_int(index).plus(draw).over(Scalar::of_int(size))
}

/// The ray of one sample of the pixel `(i, j)` of an image of `nx` by `ny`
/// pixels: two draws move it within the pixel, and the point of the disk
/// that the draws after them give is where it goes through the lens.
pub open spec fn sample_ray(
    camera: Camera,
    i: int,
    j: int,
    nx: int,
    ny: int,
    stream: Stream,
) -> Ray {
    camera.ray_spec(
        image_coordinate_spec(i, stream(0), nx),
        image_coordinate_spec(j, stream(1), ny),
        disk_point_spec(rest(stream, 2)),
    )
}

/// How many draws the ray of one sample takes.
pub open spec fn sample_ray_taken(stream: Stream) -> nat {
    2 + disk_taken(rest(stream, 2))
}

/// One sample of the pixel `(i, j)`: the light along the ray of the
/// sample, followed with the draws that the ray has left.
#[verifier::opaque]
pub open spec fn sample_spec(
    camera: Camera,
    spheres: Seq<Sphere>,
    i: int,
    j: int,
    nx: int,
    ny: int,
    stream: Stream,
) -> Vec3 {
    radiance_spec(
        spheres,
        sample_ray(camera, i, j, nx, ny, stream),
        0,
        rest(stream, sample_ray_taken(stream)),
    )
}

/// How many draws one sample takes.
#[verifier::opaque]
pub open spec fn sample_taken(
    camera: Camera,
    spheres: Seq<Sphere>,
    i: int,
    j: int,
    nx: int,
    ny: int,
    stream: Stream,
) -> nat {
    sample_ray_taken(stream) + light_path_taken(
        spheres,
        sample_ray(camera, i, j, nx, ny, stream),
        0,
        rest(stream, sample_ray_taken(stream)),
    )
}

/// The first `count` samples of the pixel `(i, j)`, each taken with the
/// draws that the one before has left.
pub open spec fn samples_spec(
    camera: Camera,
    spheres: Seq<Sphere>,
    i: int,
    j: int,
    nx: int,
    ny: int,
    count: nat,
    stream: Stream,
) -> Seq<Vec3>
    decreases count,
{
    if count == 0 {
        Seq::empty()
    } else {
        seq![sample_spec(camera, spheres, i, j, nx, ny, stream)] + samples_spec(
            camera,
            spheres,
            i,
            j,
            nx,
            ny,
            (count - 1) as nat,
            rest(stream, sample_taken(camera, spheres, i, j, nx, ny, stream)),
        )
    }
}

/// How many draws the first `count` samples of a pixel take.
pub open spec fn samples_taken(
    camera: Camera,
    spheres: Seq<Sphere>,
    i: int,
    j: int,
    nx: int,
    ny: int,
    count: nat,
    stream: Stream,
) -> nat
    decreases count,
{
    if count == 0 {
        0
    } else {
        let taken = sample_taken(camera, spheres, i, j, nx, ny, stream);
        taken + samples_taken(
            camera,
            spheres,
            i,
            j,
            nx,
            ny,
            (count - 1) as nat,
            rest(stream, taken),
        )
    }
}

/// The number of samples that [`sample_pixel`] takes for `ns`: none where
/// `ns` is negative.
pub open spec fn sample_count(ns: int) -> nat {
    if ns > 0 {
        ns as nat
    } else {
        0
    }
}

/// Specification of [`sample_pixel`]: the sum of the samples over their
/// number.
pub open spec fn pixel_spec(
    camera: Camera,
    spheres: Seq<Sphere>,
    i: int,
    j: int,
    nx: int,
    ny: int,
    ns: int,
    stream: Stream,
) -> Vec3 {
    sum_of(samples_spec(camera, spheres, i, j, nx, ny, sample_count(ns), stream)).over(
        Scalar::of_int(ns),
    )
}

/// The sum of some colours, added from the first to the last.
pub open spec fn sum_of(samples: Seq<Vec3>) -> Vec3
    decreases samples.len(),
{
    if samples.len() == 0 {
        black()
    } else {
        sum_of(samples.drop_last()).plus(samples.last())
    }
}

/// The value from 0 to 255 of one channel of a colour: the square root,
/// which corrects for a display gamma of two, times 255.99, and of that
/// the whole part.
pub open spec fn channel_spec(c: Scalar) -> int {
    quot(Scalar::of_ratio(25599, 100).times(c.sqrt_spec())@, ONE_RAW as int)
}

/// The image coordinate of a sample.
pub fn image_coordinate(index: i32, draw: Scalar, size: i32) -> (out: Scalar)
    ensures
        out == image_coordinate_spec(index as int, draw, size as int),
{
    (Scalar::from_int(index) + draw) / Scalar::from_int(size)
}

/// One sample of the pixel `(i, j)`: the light along a ray through a
/// random point of the pixel and a random point of the lens.
pub fn sample(
    camera: &Camera,
    world: &HitableList,
    i: i32,
    j: i32,
    nx: i32,
    ny: i32,
    rng: &mut Sampler,
) -> (out: Vec3)
    ensures
        out == sample_spec(
            *camera,
            world.spheres@,
            i as int,
            j as int,
            nx as int,
            ny as int,
            old(rng).stream(),
        ),
        final(rng).stream() == rest(
            old(rng).stream(),
            sample_taken(
                *camera,
                world.spheres@,
                i as int,
                j as int,
                nx as int,
                ny as int,
                old(rng).stream(),
            ),
        ),
{
    reveal(sample_spec);
    reveal(sample_taken);
    let ghost here = rng.stream();
    let du: Scalar = rng.uniform();
    let dv: Scalar = rng.uniform();
    let u: Scalar = image_coordinate(i, du, nx);
    let v: Scalar = image_coordinate(j, dv, ny);
    proof {
        lemma_rest_of_rest(here, 1, 1);
    }
    let r: Ray = camera.get_ray(u, v, rng);
    proof {
        lemma_rest_of_rest(here, 2, disk_taken(rest(here, 2)));
        lemma_rest_of_rest(
            here,
            sample_ray_taken(here),
            light_path_taken(world.spheres@, r, 0, rest(here, sample_ray_taken(here))),
        );
    }
    radiance(&r, world, 0, rng)
}

/// The colour of the pixel `(i, j)`, counted from the lower left, of an
/// image of `nx` by `ny` pixels: the mean of `ns` samples, each the light
/// along a ray through a random point of the pixel.
pub fn sample_pixel(
    camera: &Camera,
    world: &HitableList,
    i: i32,
    j: i32,
    nx: i32,
    ny: i32,
    ns: i32,
    rng: &mut Sampler,
) -> (out: Vec3)
    ensures
        out == pixel_spec(
            *camera,
            world.spheres@,
            i as int,
            j as int,
            nx as int,
            ny as int,
            ns as int,
            old(rng).stream(),
        ),
        final(rng).stream() == rest(
            old(rng).stream(),
            samples_taken(
                *camera,
                world.spheres@,
                i as int,
                j as int,
                nx as int,
                ny as int,
                sample_count(ns as int),
                old(rng).stream(),
            ),
        ),
{
    let zero: Scalar = Scalar::from_int(0);
    let mut col: Vec3 = Vec3::new(zero, zero, zero);
    let ghost start = rng.stream();
    let ghost count = sample_count(ns as int);
    let ghost mut samples: Seq<Vec3> = Seq::empty();
    let ghost mut taken: nat = 0;
    let mut s: i32 = 0;
    proof {
        lemma_rest_of_rest(start, 0, 0);
        assert(samples + samples_spec(
            *camera,
            world.spheres@,
            i as int,
            j as int,
            nx as int,
            ny as int,
            count,
            start,
        ) =~= samples_spec(
            *camera,
            world.spheres@,
            i as int,
            j as int,
            nx as int,
            ny as int,
            count,
            start,
        ));
    }
    while s < ns
        invariant
            0 <= s <= count,
            count == sample_count(ns as int),
            start == old(rng).stream(),
            samples.len() == s,
            col == sum_of(samples),
            rng.stream() == rest(start, taken),
            samples_spec(
                *camera,
                world.spheres@,
                i as int,
                j as int,
                nx as int,
                ny as int,
                count,
                start,
            ) == samples + samples_spec(
                *camera,
                world.spheres@,
                i as int,
                j as int,
                nx as int,
                ny as int,
                (count - s) as nat,
                rng.stream(),
            ),
            samples_taken(
                *camera,
                world.spheres@,
                i as int,
                j as int,
                nx as int,
                ny as int,
                count,
                start,
            ) == taken + samples_taken(
                *camera,
                world.spheres@,
                i as int,
                j as int,
                nx as int,
                ny as int,
                (count - s) as nat,
                rng.stream(),
            ),
        decreases ns - s,
    {
        let ghost here = rng.stream();
        let value: Vec3 = sample(camera, world, i, j, nx, ny, rng);
        proof {
            let one = sample_taken(
                *camera,
                world.spheres@,
                i as int,
                j as int,
                nx as int,
                ny as int,
                here,
            );
            lemma_rest_of_rest(start, taken, one);
            let ghost before = samples;
            let ghost later = samples_spec(
                *camera,
                world.spheres@,
                i as int,
                j as int,
                nx as int,
                ny as int,
                (count - s - 1) as nat,
                rng.stream(),
            );
            samples = samples.push(value);
            taken = taken + one;
            assert(samples.drop_last() == before);
            assert(before + (seq![value] + later) =~= samples + later);
        }
        col.add_assign(value);
        s = s + 1;
    }
    proof {
        assert(samples + Seq::<Vec3>::empty() =~= samples);
    }
    col / Scalar::from_int(ns)
}

/// The value from 0 to 255 of one channel of a colour.
pub fn channel(c: Scalar) -> (out: i32)
    ensures
        out == channel_spec(c),
{
    proof {
        lemma_sqrt_bounds(c);
    }
    let scaled: Scalar = Scalar::ratio(25599, 100) * c.sqrt();
    let whole: i64 = scaled.to_int();
    assert(-0x8000_0000 <= whole < 0x8000_0000) by {
        lemma_channel_bounds(c);
    }
    whole as i32
}

/// The red, green and blue values of a colour, as they are written to an
/// image of eight bits a channel.
pub fn pixel_value(col: &Vec3) -> (out: (i32, i32, i32))
    ensures
        out.0 == channel_spec(col.x),
        out.1 == channel_spec(col.y),
        out.2 == channel_spec(col.z),
{
    (channel(col.r()), channel(col.g()), channel(col.b()))
}

/// The value of a channel is not negative, and less than `2^28`; from zero
/// to one it stays below 256.
pub proof fn lemma_channel_bounds(c: Scalar)
    ensures
        0 <= channel_spec(c) < 0x1000_0000,
        c@ <= ONE_RAW ==> channel_spec(c) <= 255,
{
    lemma_sqrt_bounds(c);
    let k = Scalar::of_ratio(25599, 100);
    assert(k@ == 4294799523) by {
        assert(Scalar::of_int(25599)@ == 25599 * 0x100_0000);
        assert(Scalar::of_int(100)@ == 100 * 0x100_0000);
        assert(25599 * 0x100_0000 * 0x100_0000 == 7205477928816082944int);
        assert(7205477928816082944int / 1677721600int == 4294799523int);
    }
    let root = c.sqrt_spec();
    let product = k@ * root@;
    assert(0 <= product <= 4294799523 * 0x1000_0000_0000) by (nonlinear_arith)
        requires
            product == k@ * root@,
            k@ == 4294799523,
            0 <= root@ < 0x1000_0000_0000,
    ;
    let scaled = product / (ONE_RAW as int);
    assert(0 <= scaled <= 4294799523 * 0x10_0000);
    let whole = scaled / (ONE_RAW as int);
    assert(0 <= whole < 0x1000_0000);
    if c@ <= ONE_RAW {
        if c@ > 0 {
            let n = c@ * ONE_RAW;
            assert(root@ <= ONE_RAW) by (nonlinear_arith)
                requires
                    root@ >= 0,
                    root@ * root@ <= n,
                    n <= 0x100_0000 * 0x100_0000,
                    ONE_RAW == 0x100_0000,
            ;
        }
        assert(product <= 4294799523 * 0x100_0000) by (nonlinear_arith)
            requires
                product == k@ * root@,
                k@ == 4294799523,
                0 <= root@ <= 0x100_0000,
        ;
    }
}

} // verus!
