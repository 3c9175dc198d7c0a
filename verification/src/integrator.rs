//! The integrator: the colour that arrives along a ray.

use vstd::prelude::*;
use crate::hittable::Hittable;
use crate::ray::Ray;
use crate::sampler::{agree, extends, Sampler};
use crate::scalar::{Fixed, RAW_MAX, SCALE};
use crate::vec3::{Color, Vec3};

verus! {

broadcast use Fixed::lemma_of;

/// The lower end of the interval in which hits count: `0.001`, which keeps a
/// scattered ray from hitting the surface it has just left.
pub open spec fn spec_t_min() -> Fixed {
    Fixed::spec_from_ratio(1, 1000)
}

/// The colour of the sky along `r`: white at the bottom and `(0.5, 0.7, 1.0)`
/// at the top, mixed by `t = (y + 1) / 2` for the height `y` of the unit
/// direction.
pub open spec fn spec_background(r: Ray) -> Color {
    let one = Fixed::of(SCALE as int);
    let t = Fixed::spec_from_ratio(1, 2).spec_mul(r.direction.spec_unit().1.spec_add(one));
    let blue = Vec3(Fixed::spec_from_ratio(1, 2), Fixed::spec_from_ratio(7, 10), one);
    Vec3::spec_ones().spec_scale(one.spec_sub(t)).spec_add(blue.spec_scale(t))
}

/// What [`ray_color`] returns when it starts to read `words` at `at`, and
/// where it stops: black once the depth is used up; the sky where the ray
/// hits nothing; black where the surface absorbs the ray; and otherwise the
/// colour along the scattered ray, attenuated by the surface.
pub open spec fn color_at<W: Hittable>(world: &W, r: Ray, depth: nat, words: Seq<u64>, at: int) -> (
    Color,
    int,
)
    decreases depth,
{
    if depth == 0 {
        (Vec3::spec_zero(), at)
    } else {
        match world.spec_hit(r, (spec_t_min(), Fixed::of(RAW_MAX as int))) {
            Some(rec) => {
                let (scattered, mid) = rec.material.scatter_at(r, rec, words, at);
                match scattered {
                    Some((ray, attenuation)) => {
                        let (color, end) = color_at(world, ray, (depth - 1) as nat, words, mid);
                        (attenuation.spec_mul(color), end)
                    },
                    None => (Vec3::spec_zero(), mid),
                }
            },
            None => (spec_background(r), at),
        }
    }
}

/// The integrator never reads backward.
pub proof fn lemma_color_end<W: Hittable>(
    world: &W,
    r: Ray,
    depth: nat,
    words: Seq<u64>,
    at: int,
)
    ensures
        color_at(world, r, depth, words, at).1 >= at,
    decreases depth,
{
    if depth > 0 {
        match world.spec_hit(r, (spec_t_min(), Fixed::of(RAW_MAX as int))) {
            Some(rec) => {
                rec.material.lemma_scatter_end(r, rec, words, at);
                let (scattered, mid) = rec.material.scatter_at(r, rec, words, at);
                match scattered {
                    Some((ray, attenuation)) => {
                        lemma_color_end(world, ray, (depth - 1) as nat, words, mid);
                    },
                    None => {},
                }
            },
            None => {},
        }
    }
}

/// The colour along a ray is determined by the scene, the ray, the depth and
/// the random words that are read for it: two runs that start at the same
/// place in sequences of words that hold the same words up to where the first
/// run stops return the same colour and stop at the same place.
pub proof fn lemma_color_agrees<W: Hittable>(
    world: &W,
    r: Ray,
    depth: nat,
    first: Seq<u64>,
    second: Seq<u64>,
    at: int,
)
    requires
        0 <= at,
        agree(first, second, color_at(world, r, depth, first, at).1),
    ensures
        color_at(world, r, depth, second, at) == color_at(world, r, depth, first, at),
    decreases depth,
{
    if depth > 0 {
        match world.spec_hit(r, (spec_t_min(), Fixed::of(RAW_MAX as int))) {
            Some(rec) => {
                rec.material.lemma_scatter_end(r, rec, first, at);
                let (scattered, mid) = rec.material.scatter_at(r, rec, first, at);
                match scattered {
                    Some((ray, attenuation)) => {
                        lemma_color_end(world, ray, (depth - 1) as nat, first, mid);
                        rec.material.lemma_scatter_agrees(r, rec, first, second, at);
                        lemma_color_agrees(world, ray, (depth - 1) as nat, first, second, mid);
                    },
                    None => {
                        rec.material.lemma_scatter_agrees(r, rec, first, second, at);
                    },
                }
            },
            None => {},
        }
    }
}

pub fn background(r: &Ray) -> (c: Color)
    ensures
        c == spec_background(*r),
{
    let unit: Vec3 = r.direction.unit_vec3();
    let t: Fixed = Fixed::from_ratio(1, 2) * (unit.1 + Fixed::one());
    let blue: Vec3 = Vec3(Fixed::from_ratio(1, 2), Fixed::from_ratio(7, 10), Fixed::one());
    Vec3::ones() * (Fixed::one() - t) + blue * t
}

/// The colour that arrives along `r` in the scene `world`, following the ray
/// over at most `depth` bounces.
pub fn ray_color<W: Hittable>(r: &Ray, world: &W, depth: u64, rng: &mut Sampler) -> (c: Color)
    ensures
        extends(final(rng).history(), old(rng).history()),
        (c, final(rng).history().len() as int) == color_at(
            world,
            *r,
            depth as nat,
            final(rng).history(),
            old(rng).history().len() as int,
        ),
        depth == 0 ==> c == Vec3::spec_zero() && final(rng).history() == old(rng).history(),
    decreases depth,
{
    if depth == 0 {
        return Vec3::zero();
    }
    let ghost at = rng.history().len() as int;
    if let Some(rec) = world.hit(r, (Fixed::from_ratio(1, 1000), Fixed::max_value())) {
        if let Some((scattered, attenuation)) = rec.material.scatter(r, &rec, rng) {
            let ghost middle = rng.history();
            let color: Color = ray_color(&scattered, world, depth - 1, rng);
            proof {
                rec.material.lemma_scatter_agrees(*r, rec, middle, rng.history(), at);
            }
            return attenuation * color;
        }
        return Vec3::zero();
    }
    background(r)
}

} // verus!
