//! Random vectors: uniform in a cube, and by rejection in the unit ball and
//! the unit disk.
//!
//! Each routine is specified by a reader: a function of a sequence of words
//! and of the position where reading starts, which gives the vector and the
//! position where reading stops.

use core::ops::Neg;
use vstd::prelude::*;
use crate::sampler::{agree, extends, unit_at, Sampler};
use crate::scalar::{quotient, saturate, Fixed, SCALE};
use crate::vec3::Vec3;

verus! {

broadcast use Fixed::lemma_of;

/// How many candidates a rejection sampler draws before it gives up and
/// returns the zero vector.
pub const MAX_TRIES: u64 = 1048576;

/// The value `min + u (max - min)`, which runs over `[min, max)` as `u` runs
/// over `[0, 1)`.
pub open spec fn spec_spread(u: Fixed, min: Fixed, max: Fixed) -> Fixed {
    u.spec_mul(max.spec_sub(min)).spec_add(min)
}

/// A number of `[0, 1)` is spread into `[min, max)`.
pub proof fn lemma_spread_in_range(u: Fixed, min: Fixed, max: Fixed)
    requires
        0 <= u@ < SCALE,
        min.wf(),
        max.wf(),
        min@ < max@,
    ensures
        min@ <= spec_spread(u, min, max)@ < max@,
{
    min.lemma_range();
    max.lemma_range();
    let width = max.spec_sub(min)@;
    assert(width == saturate(max@ - min@));
    assert(0 <= u@ * width < SCALE * width) by (nonlinear_arith)
        requires
            0 <= u@ < SCALE,
            0 < width,
    ;
    assert((u@ * width) / (SCALE as int) < width) by (nonlinear_arith)
        requires
            0 <= u@ * width < SCALE * width,
            SCALE > 0,
    ;
    assert(0 <= (u@ * width) / (SCALE as int)) by (nonlinear_arith)
        requires
            0 <= u@ * width,
            SCALE > 0,
    ;
}

pub fn spread(u: Fixed, min: Fixed, max: Fixed) -> (r: Fixed)
    ensures
        r == spec_spread(u, min, max),
        0 <= u@ < SCALE && min@ < max@ ==> min@ <= r@ < max@,
{
    proof {
        use_type_invariant(min);
        use_type_invariant(max);
        if 0 <= u@ < SCALE && min@ < max@ {
            lemma_spread_in_range(u, min, max);
        }
    }
    u * (max - min) + min
}

/// Whether `p` lies strictly inside the unit ball.
pub open spec fn in_unit_ball(p: Vec3) -> bool {
    p.spec_length_squared()@ < SCALE
}

/// The zero vector lies inside the unit ball.
pub proof fn lemma_zero_in_unit_ball()
    ensures
        in_unit_ball(Vec3::spec_zero()),
{
    let z = Fixed::of(0);
    assert(z@ == 0);
    assert(z@ * z@ == 0) by (nonlinear_arith)
        requires
            z@ == 0,
    ;
    assert(quotient(0, SCALE as int) == 0);
    assert(z.spec_mul(z)@ == 0);
    assert(z.spec_mul(z).spec_add(z.spec_mul(z))@ == 0);
}

impl Vec3 {
    /// The vector whose components are spread over `[min, max)` by the three
    /// words at `at`.
    pub open spec fn random_at(words: Seq<u64>, at: int, min: Fixed, max: Fixed) -> Vec3 {
        Vec3(
            spec_spread(unit_at(words, at), min, max),
            spec_spread(unit_at(words, at + 1), min, max),
            spec_spread(unit_at(words, at + 2), min, max),
        )
    }

    /// The candidate for the unit ball read at `at`: uniform in `[-1, 1)^3`.
    pub open spec fn cube_at(words: Seq<u64>, at: int) -> Vec3 {
        Vec3::random_at(words, at, Fixed::of(-(SCALE as int)), Fixed::of(SCALE as int))
    }

    /// The candidate for the unit disk read at `at`: uniform in `[-1, 1)^2`,
    /// with the third component zero.
    pub open spec fn square_at(words: Seq<u64>, at: int) -> Vec3 {
        Vec3(
            spec_spread(unit_at(words, at), Fixed::of(-(SCALE as int)), Fixed::of(SCALE as int)),
            spec_spread(
                unit_at(words, at + 1),
                Fixed::of(-(SCALE as int)),
                Fixed::of(SCALE as int),
            ),
            Fixed::of(0),
        )
    }

    /// The first of at most `tries` candidates from `at` on that lies inside
    /// the unit ball, with the position behind it; the zero vector if none
    /// does.
    pub open spec fn ball_at(words: Seq<u64>, at: int, tries: nat) -> (Vec3, int)
        decreases tries,
    {
        if tries == 0 {
            (Vec3::spec_zero(), at)
        } else if in_unit_ball(Vec3::cube_at(words, at)) {
            (Vec3::cube_at(words, at), at + 3)
        } else {
            Vec3::ball_at(words, at + 3, (tries - 1) as nat)
        }
    }

    /// The first of at most `tries` candidates from `at` on that lies inside
    /// the unit disk, with the position behind it; the zero vector if none
    /// does.
    pub open spec fn disk_at(words: Seq<u64>, at: int, tries: nat) -> (Vec3, int)
        decreases tries,
    {
        if tries == 0 {
            (Vec3::spec_zero(), at)
        } else if in_unit_ball(Vec3::square_at(words, at)) {
            (Vec3::square_at(words, at), at + 2)
        } else {
            Vec3::disk_at(words, at + 2, (tries - 1) as nat)
        }
    }

    /// A sample of the unit ball, divided by its length.
    pub open spec fn unit_vector_at(words: Seq<u64>, at: int) -> (Vec3, int) {
        let (p, end) = Vec3::ball_at(words, at, MAX_TRIES as nat);
        (p.spec_unit(), end)
    }

    /// A sample of the unit ball, turned into the half space of `normal`.
    pub open spec fn hemisphere_at(words: Seq<u64>, at: int, normal: Vec3) -> (Vec3, int) {
        let (p, end) = Vec3::ball_at(words, at, MAX_TRIES as nat);
        if p.spec_dot(normal)@ > 0 {
            (p, end)
        } else {
            (p.spec_neg(), end)
        }
    }

    /// Reading a sample of the ball never moves backward.
    pub proof fn lemma_ball_end(words: Seq<u64>, at: int, tries: nat)
        ensures
            Vec3::ball_at(words, at, tries).1 >= at,
        decreases tries,
    {
        if tries > 0 {
            Vec3::lemma_ball_end(words, at + 3, (tries - 1) as nat);
        }
    }

    /// Reading a sample of the disk never moves backward.
    pub proof fn lemma_disk_end(words: Seq<u64>, at: int, tries: nat)
        ensures
            Vec3::disk_at(words, at, tries).1 >= at,
        decreases tries,
    {
        if tries > 0 {
            Vec3::lemma_disk_end(words, at + 2, (tries - 1) as nat);
        }
    }

    /// A sample of the ball depends only on the words that were read for it.
    pub proof fn lemma_ball_agrees(first: Seq<u64>, second: Seq<u64>, at: int, tries: nat)
        requires
            0 <= at,
            agree(first, second, Vec3::ball_at(first, at, tries).1),
        ensures
            Vec3::ball_at(second, at, tries) == Vec3::ball_at(first, at, tries),
        decreases tries,
    {
        if tries > 0 {
            Vec3::lemma_ball_end(first, at + 3, (tries - 1) as nat);
            if !in_unit_ball(Vec3::cube_at(first, at)) {
                Vec3::lemma_ball_agrees(first, second, at + 3, (tries - 1) as nat);
            }
        }
    }

    /// A sample of the disk depends only on the words that were read for it.
    pub proof fn lemma_disk_agrees(first: Seq<u64>, second: Seq<u64>, at: int, tries: nat)
        requires
            0 <= at,
            agree(first, second, Vec3::disk_at(first, at, tries).1),
        ensures
            Vec3::disk_at(second, at, tries) == Vec3::disk_at(first, at, tries),
        decreases tries,
    {
        if tries > 0 {
            Vec3::lemma_disk_end(first, at + 2, (tries - 1) as nat);
            if !in_unit_ball(Vec3::square_at(first, at)) {
                Vec3::lemma_disk_agrees(first, second, at + 2, (tries - 1) as nat);
            }
        }
    }

    /// After `done` rejected candidates the search goes on behind them.
    proof fn lemma_ball_rejected(words: Seq<u64>, at: int, done: nat, tries: nat)
        requires
            done <= tries,
            forall|k: int| 0 <= k < done ==> !in_unit_ball(#[trigger] Vec3::cube_at(words, at + 3 * k)),
        ensures
            Vec3::ball_at(words, at, tries) == Vec3::ball_at(
                words,
                at + 3 * done,
                (tries - done) as nat,
            ),
        decreases done,
    {
        if done > 0 {
            assert(!in_unit_ball(Vec3::cube_at(words, at + 3 * 0)));
            assert forall|k: int| 0 <= k < done - 1 implies !in_unit_ball(
                #[trigger] Vec3::cube_at(words, at + 3 + 3 * k),
            ) by {
                assert(!in_unit_ball(Vec3::cube_at(words, at + 3 * (k + 1))));
            }
            Vec3::lemma_ball_rejected(words, at + 3, (done - 1) as nat, (tries - 1) as nat);
        }
    }

    /// After `done` rejected candidates the search goes on behind them.
    proof fn lemma_disk_rejected(words: Seq<u64>, at: int, done: nat, tries: nat)
        requires
            done <= tries,
            forall|k: int|
                0 <= k < done ==> !in_unit_ball(#[trigger] Vec3::square_at(words, at + 2 * k)),
        ensures
            Vec3::disk_at(words, at, tries) == Vec3::disk_at(
                words,
                at + 2 * done,
                (tries - done) as nat,
            ),
        decreases done,
    {
        if done > 0 {
            assert(!in_unit_ball(Vec3::square_at(words, at + 2 * 0)));
            assert forall|k: int| 0 <= k < done - 1 implies !in_unit_ball(
                #[trigger] Vec3::square_at(words, at + 2 + 2 * k),
            ) by {
                assert(!in_unit_ball(Vec3::square_at(words, at + 2 * (k + 1))));
            }
            Vec3::lemma_disk_rejected(words, at + 2, (done - 1) as nat, (tries - 1) as nat);
        }
    }

    /// The vector whose components are `u0`, `u1` and `u2` spread over
    /// `[min, max)`.
    pub fn from_units(u0: Fixed, u1: Fixed, u2: Fixed, min: Fixed, max: Fixed) -> (r: Vec3)
        ensures
            r == Vec3(spec_spread(u0, min, max), spec_spread(u1, min, max), spec_spread(u2, min, max)),
            0 <= u0@ < SCALE && min@ < max@ ==> min@ <= r.0@ < max@,
            0 <= u1@ < SCALE && min@ < max@ ==> min@ <= r.1@ < max@,
            0 <= u2@ < SCALE && min@ < max@ ==> min@ <= r.2@ < max@,
    {
        Vec3(spread(u0, min, max), spread(u1, min, max), spread(u2, min, max))
    }

    /// A vector with each component uniform in `[min, max)`, from three words.
    pub fn random(rng: &mut Sampler, min: Fixed, max: Fixed) -> (r: Vec3)
        ensures
            extends(final(rng).history(), old(rng).history()),
            final(rng).history().len() == old(rng).history().len() + 3,
            r == Vec3::random_at(final(rng).history(), old(rng).history().len() as int, min, max),
            min@ < max@ ==> min@ <= r.0@ < max@ && min@ <= r.1@ < max@ && min@ <= r.2@ < max@,
    {
        let u0: Fixed = rng.next_unit();
        let u1: Fixed = rng.next_unit();
        let u2: Fixed = rng.next_unit();
        Vec3::from_units(u0, u1, u2, min, max)
    }

    /// A point strictly inside the unit ball, by rejection.
    pub fn random_in_unit_sphere(rng: &mut Sampler) -> (r: Vec3)
        ensures
            extends(final(rng).history(), old(rng).history()),
            (r, final(rng).history().len() as int) == Vec3::ball_at(
                final(rng).history(),
                old(rng).history().len() as int,
                MAX_TRIES as nat,
            ),
            in_unit_ball(r),
    {
        let ghost before = rng.history();
        let ghost at = before.len() as int;
        let mut tries: u64 = 0;
        while tries < MAX_TRIES
            invariant
                tries <= MAX_TRIES,
                before == old(rng).history(),
                at == before.len(),
                extends(rng.history(), before),
                rng.history().len() == at + 3 * tries,
                forall|k: int|
                    0 <= k < tries ==> !in_unit_ball(
                        #[trigger] Vec3::cube_at(rng.history(), at + 3 * k),
                    ),
            decreases MAX_TRIES - tries,
        {
            let ghost earlier = rng.history();
            let p: Vec3 = Vec3::random(rng, Fixed::from_int(-1), Fixed::from_int(1));
            proof {
                assert forall|k: int| 0 <= k < tries implies !in_unit_ball(
                    #[trigger] Vec3::cube_at(rng.history(), at + 3 * k),
                ) by {
                    assert(Vec3::cube_at(rng.history(), at + 3 * k) == Vec3::cube_at(
                        earlier,
                        at + 3 * k,
                    ));
                }
            }
            if p.length_squared() < Fixed::one() {
                proof {
                    Vec3::lemma_ball_rejected(rng.history(), at, tries as nat, MAX_TRIES as nat);
                }
                return p;
            }
            tries = tries + 1;
        }
        proof {
            Vec3::lemma_ball_rejected(rng.history(), at, MAX_TRIES as nat, MAX_TRIES as nat);
            lemma_zero_in_unit_ball();
        }
        Vec3::zero()
    }

    /// A point strictly inside the unit disk of the plane `z = 0`, by
    /// rejection.
    pub fn random_in_unit_disk(rng: &mut Sampler) -> (r: Vec3)
        ensures
            extends(final(rng).history(), old(rng).history()),
            (r, final(rng).history().len() as int) == Vec3::disk_at(
                final(rng).history(),
                old(rng).history().len() as int,
                MAX_TRIES as nat,
            ),
            in_unit_ball(r),
            r.2 == Fixed::of(0),
    {
        let ghost before = rng.history();
        let ghost at = before.len() as int;
        let mut tries: u64 = 0;
        while tries < MAX_TRIES
            invariant
                tries <= MAX_TRIES,
                before == old(rng).history(),
                at == before.len(),
                extends(rng.history(), before),
                rng.history().len() == at + 2 * tries,
                forall|k: int|
                    0 <= k < tries ==> !in_unit_ball(
                        #[trigger] Vec3::square_at(rng.history(), at + 2 * k),
                    ),
            decreases MAX_TRIES - tries,
        {
            let ghost earlier = rng.history();
            let x: Fixed = spread(rng.next_unit(), Fixed::from_int(-1), Fixed::from_int(1));
            let y: Fixed = spread(rng.next_unit(), Fixed::from_int(-1), Fixed::from_int(1));
            let p: Vec3 = Vec3(x, y, Fixed::zero());
            proof {
                assert forall|k: int| 0 <= k < tries implies !in_unit_ball(
                    #[trigger] Vec3::square_at(rng.history(), at + 2 * k),
                ) by {
                    assert(Vec3::square_at(rng.history(), at + 2 * k) == Vec3::square_at(
                        earlier,
                        at + 2 * k,
                    ));
                }
            }
            if p.length_squared() < Fixed::one() {
                proof {
                    Vec3::lemma_disk_rejected(rng.history(), at, tries as nat, MAX_TRIES as nat);
                }
                return p;
            }
            tries = tries + 1;
        }
        proof {
            Vec3::lemma_disk_rejected(rng.history(), at, MAX_TRIES as nat, MAX_TRIES as nat);
            lemma_zero_in_unit_ball();
        }
        Vec3::zero()
    }

    /// A sample of the unit ball scaled to unit length.
    pub fn random_unit_vector(rng: &mut Sampler) -> (r: Vec3)
        ensures
            extends(final(rng).history(), old(rng).history()),
            (r, final(rng).history().len() as int) == Vec3::unit_vector_at(
                final(rng).history(),
                old(rng).history().len() as int,
            ),
    {
        Vec3::random_in_unit_sphere(rng).unit_vec3()
    }

    /// A sample of the unit ball on the side of the surface that `normal`
    /// points to.
    pub fn random_in_hemisphere(rng: &mut Sampler, normal: &Vec3) -> (r: Vec3)
        ensures
            extends(final(rng).history(), old(rng).history()),
            (r, final(rng).history().len() as int) == Vec3::hemisphere_at(
                final(rng).history(),
                old(rng).history().len() as int,
                *normal,
            ),
            in_unit_ball(r),
            r.spec_dot(*normal)@ >= 0,
    {
        let in_unit: Vec3 = Vec3::random_in_unit_sphere(rng);
        proof {
            use_type_invariant(&in_unit.0);
            use_type_invariant(&in_unit.1);
            use_type_invariant(&in_unit.2);
            use_type_invariant(&normal.0);
            use_type_invariant(&normal.1);
            use_type_invariant(&normal.2);
            in_unit.lemma_dot_neg(*normal);
            in_unit.lemma_length_squared_of_negation();
        }
        if in_unit.dot(normal) > Fixed::zero() {
            in_unit
        } else {
            in_unit.neg()
        }
    }
}

} // verus!
