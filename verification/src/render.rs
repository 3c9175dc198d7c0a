//! One pixel: the sum of the colours along randomly jittered rays through it.

use vstd::prelude::*;
use crate::camera::Camera;
use crate::hittable::Hittable;
use crate::integrator::{color_at, lemma_color_agrees, lemma_color_end, ray_color};
use crate::ray::Ray;
use crate::sampler::{agree, extends, unit_at, Sampler};
use crate::sampling::MAX_TRIES;
use crate::scalar::{Fixed, SCALE};
use crate::vec3::{Color, Vec3};

verus! {

broadcast use Fixed::lemma_of;

/// The position across the image of a sample in column or row `index` of
/// `count`, jittered by `jitter` from `[0, 1)`: `(index + jitter) / (count - 1)`.
pub open spec fn spec_image_coordinate(index: u32, count: u32, jitter: Fixed) -> Fixed {
    Fixed::spec_from_int(index as int).spec_add(jitter).spec_div(
        Fixed::spec_from_int(count as int).spec_sub(Fixed::of(SCALE as int)),
    )
}

/// The colour of one sample of pixel `(i, j)` read at `at`: two words jitter
/// the position, then the camera and the integrator read theirs.
pub open spec fn sample_at<W: Hittable>(
    cam: Camera,
    world: &W,
    pixel: (u32, u32),
    size: (u32, u32),
    depth: nat,
    words: Seq<u64>,
    at: int,
) -> (Color, int) {
    let u = spec_image_coordinate(pixel.0, size.0, unit_at(words, at));
    let v = spec_image_coordinate(pixel.1, size.1, unit_at(words, at + 1));
    let (ray, middle) = cam.ray_at(u, v, words, at + 2);
    color_at(world, ray, depth, words, middle)
}

/// The sum of the colours of the first `samples` samples of pixel `(i, j)`,
/// read from `at` on.
pub open spec fn pixel_at<W: Hittable>(
    cam: Camera,
    world: &W,
    pixel: (u32, u32),
    size: (u32, u32),
    samples: nat,
    depth: nat,
    words: Seq<u64>,
    at: int,
) -> (Color, int)
    decreases samples,
{
    if samples == 0 {
        (Vec3::spec_zero(), at)
    } else {
        let (sum, middle) = pixel_at(cam, world, pixel, size, (samples - 1) as nat, depth, words, at);
        let (color, end) = sample_at(cam, world, pixel, size, depth, words, middle);
        (sum.spec_add(color), end)
    }
}

/// A sample never reads backward, and depends only on the words that were
/// read for it.
pub proof fn lemma_sample_agrees<W: Hittable>(
    cam: Camera,
    world: &W,
    pixel: (u32, u32),
    size: (u32, u32),
    depth: nat,
    first: Seq<u64>,
    second: Seq<u64>,
    at: int,
)
    requires
        0 <= at,
        agree(first, second, sample_at(cam, world, pixel, size, depth, first, at).1),
    ensures
        sample_at(cam, world, pixel, size, depth, first, at).1 >= at + 2,
        sample_at(cam, world, pixel, size, depth, second, at) == sample_at(
            cam,
            world,
            pixel,
            size,
            depth,
            first,
            at,
        ),
{
    let u = spec_image_coordinate(pixel.0, size.0, unit_at(first, at));
    let v = spec_image_coordinate(pixel.1, size.1, unit_at(first, at + 1));
    let (ray, middle) = cam.ray_at(u, v, first, at + 2);
    Vec3::lemma_disk_end(first, at + 2, MAX_TRIES as nat);
    lemma_color_end(world, ray, depth, first, middle);
    Vec3::lemma_disk_agrees(first, second, at + 2, MAX_TRIES as nat);
    lemma_color_agrees(world, ray, depth, first, second, middle);
}

/// A pixel never reads backward, and depends only on the words that were
/// read for it.
pub proof fn lemma_pixel_agrees<W: Hittable>(
    cam: Camera,
    world: &W,
    pixel: (u32, u32),
    size: (u32, u32),
    samples: nat,
    depth: nat,
    first: Seq<u64>,
    second: Seq<u64>,
    at: int,
)
    requires
        0 <= at,
        agree(first, second, pixel_at(cam, world, pixel, size, samples, depth, first, at).1),
    ensures
        pixel_at(cam, world, pixel, size, samples, depth, first, at).1 >= at,
        pixel_at(cam, world, pixel, size, samples, depth, second, at) == pixel_at(
            cam,
            world,
            pixel,
            size,
            samples,
            depth,
            first,
            at,
        ),
    decreases samples,
{
    if samples > 0 {
        let (sum, middle) = pixel_at(
            cam,
            world,
            pixel,
            size,
            (samples - 1) as nat,
            depth,
            first,
            at,
        );
        lemma_sample_end(cam, world, pixel, size, depth, first, middle);
        lemma_pixel_end(cam, world, pixel, size, (samples - 1) as nat, depth, first, at);
        lemma_pixel_agrees(cam, world, pixel, size, (samples - 1) as nat, depth, first, second, at);
        lemma_sample_agrees(cam, world, pixel, size, depth, first, second, middle);
    }
}

/// A pixel never reads backward.
pub proof fn lemma_pixel_end<W: Hittable>(
    cam: Camera,
    world: &W,
    pixel: (u32, u32),
    size: (u32, u32),
    samples: nat,
    depth: nat,
    words: Seq<u64>,
    at: int,
)
    ensures
        pixel_at(cam, world, pixel, size, samples, depth, words, at).1 >= at,
    decreases samples,
{
    if samples > 0 {
        lemma_pixel_end(cam, world, pixel, size, (samples - 1) as nat, depth, words, at);
        let middle = pixel_at(cam, world, pixel, size, (samples - 1) as nat, depth, words, at).1;
        lemma_sample_end(cam, world, pixel, size, depth, words, middle);
    }
}

/// A sample reads at least its two words of jitter.
pub proof fn lemma_sample_end<W: Hittable>(
    cam: Camera,
    world: &W,
    pixel: (u32, u32),
    size: (u32, u32),
    depth: nat,
    words: Seq<u64>,
    at: int,
)
    ensures
        sample_at(cam, world, pixel, size, depth, words, at).1 >= at + 2,
{
    let u = spec_image_coordinate(pixel.0, size.0, unit_at(words, at));
    let v = spec_image_coordinate(pixel.1, size.1, unit_at(words, at + 1));
    let (ray, middle) = cam.ray_at(u, v, words, at + 2);
    Vec3::lemma_disk_end(words, at + 2, MAX_TRIES as nat);
    lemma_color_end(world, ray, depth, words, middle);
}

pub fn image_coordinate(index: u32, count: u32, jitter: Fixed) -> (r: Fixed)
    ensures
        r == spec_image_coordinate(index, count, jitter),
{
    (Fixed::from_int(index as i64) + jitter) / (Fixed::from_int(count as i64) - Fixed::one())
}

/// The colour of one randomly jittered sample of the pixel in column
/// `pixel.0` and row `pixel.1` of an image of `size.0` by `size.1` pixels.
pub fn sample_color<W: Hittable>(
    cam: &Camera,
    world: &W,
    pixel: (u32, u32),
    size: (u32, u32),
    depth: u64,
    rng: &mut Sampler,
) -> (c: Color)
    ensures
        extends(final(rng).history(), old(rng).history()),
        (c, final(rng).history().len() as int) == sample_at(
            *cam,
            world,
            pixel,
            size,
            depth as nat,
            final(rng).history(),
            old(rng).history().len() as int,
        ),
{
    let ghost at = rng.history().len() as int;
    let u: Fixed = image_coordinate(pixel.0, size.0, rng.next_unit());
    let v: Fixed = image_coordinate(pixel.1, size.1, rng.next_unit());
    let r: Ray = cam.get_ray(u, v, rng);
    let ghost middle = rng.history();
    let c: Color = ray_color(&r, world, depth, rng);
    proof {
        Vec3::lemma_disk_agrees(middle, rng.history(), at + 2, MAX_TRIES as nat);
    }
    c
}

/// The sum of the colours of `samples` samples of a pixel; dividing it by
/// `samples` gives the estimate of the pixel's colour.
pub fn pixel_color<W: Hittable>(
    cam: &Camera,
    world: &W,
    pixel: (u32, u32),
    size: (u32, u32),
    samples: u64,
    depth: u64,
    rng: &mut Sampler,
) -> (c: Color)
    ensures
        extends(final(rng).history(), old(rng).history()),
        (c, final(rng).history().len() as int) == pixel_at(
            *cam,
            world,
            pixel,
            size,
            samples as nat,
            depth as nat,
            final(rng).history(),
            old(rng).history().len() as int,
        ),
{
    let ghost at = rng.history().len() as int;
    let mut sum: Color = Vec3::zero();
    let mut done: u64 = 0;
    while done < samples
        invariant
            done <= samples,
            at == old(rng).history().len(),
            extends(rng.history(), old(rng).history()),
            (sum, rng.history().len() as int) == pixel_at(
                *cam,
                world,
                pixel,
                size,
                done as nat,
                depth as nat,
                rng.history(),
                at,
            ),
        decreases samples - done,
    {
        let ghost earlier = rng.history();
        let c: Color = sample_color(cam, world, pixel, size, depth, rng);
        proof {
            lemma_pixel_agrees(
                *cam,
                world,
                pixel,
                size,
                done as nat,
                depth as nat,
                earlier,
                rng.history(),
                at,
            );
        }
        sum.add_assign(c);
        done = done + 1;
    }
    sum
}

} // verus!
