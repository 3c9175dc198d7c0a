//! The demonstration scene: a large ground sphere, a field of small spheres
//! of random materials, and four large spheres in the middle.

use vstd::prelude::*;
use crate::hittable_list::HittableList;
use crate::material::{Dielectric, Lambertian, Material, Metal};
use crate::sampler::{agree, extends, unit_at, Sampler};
use crate::scalar::Fixed;
use crate::sphere::Sphere;
use crate::vec3::Vec3;

verus! {

broadcast use Fixed::lemma_of;

/// The field has one cell for each pair of whole numbers in `[-16, 16)`.
pub const CELLS: u32 = 1024;

/// The ground: a sphere of radius 1000 that touches the plane `y = 0`.
pub open spec fn spec_ground() -> Sphere {
    Sphere {
        center: Vec3(Fixed::spec_from_int(0), Fixed::spec_from_int(-1000), Fixed::spec_from_int(-1)),
        radius: Fixed::spec_from_int(1000),
        material: Material::Lambertian(
            Lambertian(
                Vec3(
                    Fixed::spec_from_ratio(49, 100),
                    Fixed::spec_from_ratio(69, 100),
                    Fixed::spec_from_ratio(35, 100),
                ),
            ),
        ),
    }
}

/// The four large spheres: a glass ball, the hollow inside it (a negative
/// radius), a matte ball and a mirror ball.
pub open spec fn spec_features() -> Seq<Sphere> {
    let glass = Material::Dielectric(Dielectric(Fixed::spec_from_ratio(3, 2)));
    let middle = Vec3(Fixed::spec_from_int(0), Fixed::spec_from_int(1), Fixed::spec_from_int(0));
    seq![
        Sphere { center: middle, radius: Fixed::spec_from_int(1), material: glass },
        Sphere { center: middle, radius: Fixed::spec_from_ratio(-3, 10), material: glass },
        Sphere {
            center: Vec3(
                Fixed::spec_from_int(-3),
                Fixed::spec_from_int(1),
                Fixed::spec_from_int(0),
            ),
            radius: Fixed::spec_from_int(1),
            material: Material::Lambertian(
                Lambertian(
                    Vec3(
                        Fixed::spec_from_ratio(8, 10),
                        Fixed::spec_from_ratio(4, 10),
                        Fixed::spec_from_int(1),
                    ),
                ),
            ),
        },
        Sphere {
            center: Vec3(Fixed::spec_from_int(3), Fixed::spec_from_int(1), Fixed::spec_from_int(0)),
            radius: Fixed::spec_from_int(1),
            material: Material::Metal(
                Metal(
                    Vec3(
                        Fixed::spec_from_ratio(7, 10),
                        Fixed::spec_from_ratio(7, 10),
                        Fixed::spec_from_ratio(7, 10),
                    ),
                    Fixed::spec_from_int(0),
                ),
            ),
        },
    ]
}

/// The centre of the small sphere of cell `(a, b)` for the two draws `dx`
/// and `dz`: `(a + 0.9 dx, 0.2, b + 0.9 dz)`.
pub open spec fn spec_cell_center(a: int, b: int, dx: Fixed, dz: Fixed) -> Vec3 {
    let spread = Fixed::spec_from_ratio(9, 10);
    Vec3(
        Fixed::spec_from_int(a).spec_add(spread.spec_mul(dx)),
        Fixed::spec_from_ratio(2, 10),
        Fixed::spec_from_int(b).spec_add(spread.spec_mul(dz)),
    )
}

/// Whether a small sphere at `center` keeps clear of the place of the large
/// spheres: farther than 0.9 from `(4, 0.2, 0)`.
pub open spec fn spec_keeps_clear(center: Vec3) -> bool {
    center.spec_sub(
        Vec3(Fixed::spec_from_int(4), Fixed::spec_from_ratio(2, 10), Fixed::spec_from_int(0)),
    ).spec_length()@ > Fixed::spec_from_ratio(9, 10)@
}

/// The material for the draw `choice`, with its parameters read at `at`:
/// diffuse below 0.8, with an albedo from `[0, 1)^3`; metal below 0.95, with
/// an albedo from `[0.5, 1)^3` and a fuzz from `[0, 1)`; glass of index 1.5
/// otherwise.
pub open spec fn material_at(choice: Fixed, words: Seq<u64>, at: int) -> (Material, int) {
    if choice@ < Fixed::spec_from_ratio(8, 10)@ {
        (
            Material::Lambertian(
                Lambertian(
                    Vec3::random_at(words, at, Fixed::spec_from_int(0), Fixed::spec_from_int(1)),
                ),
            ),
            at + 3,
        )
    } else if choice@ < Fixed::spec_from_ratio(95, 100)@ {
        (
            Material::Metal(
                Metal(
                    Vec3::random_at(
                        words,
                        at,
                        Fixed::spec_from_ratio(1, 2),
                        Fixed::spec_from_int(1),
                    ),
                    unit_at(words, at + 3),
                ),
            ),
            at + 4,
        )
    } else {
        (Material::Dielectric(Dielectric(Fixed::spec_from_ratio(3, 2))), at)
    }
}

/// The small sphere of cell `(a, b)`, if there is one, read at `at`: three
/// words give the choice of material and the place; where the place keeps
/// clear, the material is read behind them.
pub open spec fn cell_at(a: int, b: int, words: Seq<u64>, at: int) -> (Option<Sphere>, int) {
    let center = spec_cell_center(a, b, unit_at(words, at + 1), unit_at(words, at + 2));
    if spec_keeps_clear(center) {
        let (material, end) = material_at(unit_at(words, at), words, at + 3);
        (Some(Sphere { center, radius: Fixed::spec_from_ratio(2, 10), material }), end)
    } else {
        (None, at + 3)
    }
}

/// The small spheres of the first `n` cells, row by row, read from `at` on.
pub open spec fn field_at(words: Seq<u64>, at: int, n: nat) -> (Seq<Sphere>, int)
    decreases n,
{
    if n == 0 {
        (Seq::empty(), at)
    } else {
        let k = (n - 1) as int;
        let (before, middle) = field_at(words, at, (n - 1) as nat);
        let (sphere, end) = cell_at(k / 32 - 16, k % 32 - 16, words, middle);
        (
            match sphere {
                Some(s) => before.push(s),
                None => before,
            },
            end,
        )
    }
}

/// The whole scene read from `at` on: the ground, the field, the four large
/// spheres.
pub open spec fn scene_at(words: Seq<u64>, at: int) -> (Seq<Sphere>, int) {
    let (field, end) = field_at(words, at, CELLS as nat);
    (seq![spec_ground()] + field + spec_features(), end)
}

/// The first `n` cells hold at most `n` spheres.
pub proof fn lemma_field_len(words: Seq<u64>, at: int, n: nat)
    ensures
        field_at(words, at, n).0.len() <= n,
    decreases n,
{
    if n > 0 {
        lemma_field_len(words, at, (n - 1) as nat);
    }
}

/// Reading the field never moves backward.
pub proof fn lemma_field_end(words: Seq<u64>, at: int, n: nat)
    ensures
        field_at(words, at, n).1 >= at,
    decreases n,
{
    if n > 0 {
        lemma_field_end(words, at, (n - 1) as nat);
    }
}

/// The field depends only on the words that were read for it.
pub proof fn lemma_field_agrees(first: Seq<u64>, second: Seq<u64>, at: int, n: nat)
    requires
        0 <= at,
        agree(first, second, field_at(first, at, n).1),
    ensures
        field_at(second, at, n) == field_at(first, at, n),
    decreases n,
{
    if n > 0 {
        lemma_field_end(first, at, (n - 1) as nat);
        lemma_field_agrees(first, second, at, (n - 1) as nat);
    }
}

pub fn ground() -> (s: Sphere)
    ensures
        s == spec_ground(),
{
    Sphere::new(
        Vec3(Fixed::from_int(0), Fixed::from_int(-1000), Fixed::from_int(-1)),
        Fixed::from_int(1000),
        Material::Lambertian(
            Lambertian(
                Vec3(
                    Fixed::from_ratio(49, 100),
                    Fixed::from_ratio(69, 100),
                    Fixed::from_ratio(35, 100),
                ),
            ),
        ),
    )
}

pub fn cell_center(a: i64, b: i64, dx: Fixed, dz: Fixed) -> (c: Vec3)
    ensures
        c == spec_cell_center(a as int, b as int, dx, dz),
{
    let spread: Fixed = Fixed::from_ratio(9, 10);
    Vec3(
        Fixed::from_int(a) + spread * dx,
        Fixed::from_ratio(2, 10),
        Fixed::from_int(b) + spread * dz,
    )
}

pub fn keeps_clear(center: &Vec3) -> (r: bool)
    ensures
        r == spec_keeps_clear(*center),
{
    let place: Vec3 = Vec3(Fixed::from_int(4), Fixed::from_ratio(2, 10), Fixed::from_int(0));
    (*center - place).length() > Fixed::from_ratio(9, 10)
}

/// Draws the material that the draw `choice` selects.
pub fn pick_material(choice: Fixed, rng: &mut Sampler) -> (m: Material)
    ensures
        extends(final(rng).history(), old(rng).history()),
        (m, final(rng).history().len() as int) == material_at(
            choice,
            final(rng).history(),
            old(rng).history().len() as int,
        ),
{
    if choice < Fixed::from_ratio(8, 10) {
        let albedo: Vec3 = Vec3::random(rng, Fixed::from_int(0), Fixed::from_int(1));
        Material::Lambertian(Lambertian(albedo))
    } else if choice < Fixed::from_ratio(95, 100) {
        let albedo: Vec3 = Vec3::random(rng, Fixed::from_ratio(1, 2), Fixed::from_int(1));
        let fuzz: Fixed = rng.next_unit();
        Material::Metal(Metal(albedo, fuzz))
    } else {
        Material::Dielectric(Dielectric(Fixed::from_ratio(3, 2)))
    }
}

/// Draws the small sphere of cell `(a, b)`, if there is to be one.
pub fn small_sphere(a: i64, b: i64, rng: &mut Sampler) -> (s: Option<Sphere>)
    ensures
        extends(final(rng).history(), old(rng).history()),
        (s, final(rng).history().len() as int) == cell_at(
            a as int,
            b as int,
            final(rng).history(),
            old(rng).history().len() as int,
        ),
{
    let choice: Fixed = rng.next_unit();
    let dx: Fixed = rng.next_unit();
    let dz: Fixed = rng.next_unit();
    let center: Vec3 = cell_center(a, b, dx, dz);
    if keeps_clear(&center) {
        let material: Material = pick_material(choice, rng);
        Some(Sphere::new(center, Fixed::from_ratio(2, 10), material))
    } else {
        None
    }
}

/// Builds the scene.
pub fn random_scene(rng: &mut Sampler) -> (world: HittableList<Sphere>)
    ensures
        extends(final(rng).history(), old(rng).history()),
        (world@, final(rng).history().len() as int) == scene_at(
            final(rng).history(),
            old(rng).history().len() as int,
        ),
        5 <= world@.len() <= 5 + CELLS,
        world@[0] == spec_ground(),
{
    let ghost at = rng.history().len() as int;
    let mut world: HittableList<Sphere> = HittableList::new();
    world.add(ground());

    let mut n: u32 = 0;
    while n < CELLS
        invariant
            n <= CELLS,
            at == old(rng).history().len(),
            extends(rng.history(), old(rng).history()),
            world@ == seq![spec_ground()] + field_at(rng.history(), at, n as nat).0,
            rng.history().len() == field_at(rng.history(), at, n as nat).1,
        decreases CELLS - n,
    {
        let ghost earlier = rng.history();
        let a: i64 = (n / 32) as i64 - 16;
        let b: i64 = (n % 32) as i64 - 16;
        let sphere: Option<Sphere> = small_sphere(a, b, rng);
        proof {
            lemma_field_agrees(earlier, rng.history(), at, n as nat);
        }
        if let Some(s) = sphere {
            world.add(s);
            assert(world@ =~= seq![spec_ground()] + field_at(rng.history(), at, (n + 1) as nat).0);
        }
        n = n + 1;
    }

    let glass: Material = Material::Dielectric(Dielectric(Fixed::from_ratio(3, 2)));
    let middle: Vec3 = Vec3(Fixed::from_int(0), Fixed::from_int(1), Fixed::from_int(0));
    world.add(Sphere::new(middle, Fixed::from_int(1), glass));
    world.add(Sphere::new(middle, Fixed::from_ratio(-3, 10), glass));
    world.add(
        Sphere::new(
            Vec3(Fixed::from_int(-3), Fixed::from_int(1), Fixed::from_int(0)),
            Fixed::from_int(1),
            Material::Lambertian(
                Lambertian(
                    Vec3(Fixed::from_ratio(8, 10), Fixed::from_ratio(4, 10), Fixed::from_int(1)),
                ),
            ),
        ),
    );
    world.add(
        Sphere::new(
            Vec3(Fixed::from_int(3), Fixed::from_int(1), Fixed::from_int(0)),
            Fixed::from_int(1),
            Material::Metal(
                Metal(
                    Vec3(
                        Fixed::from_ratio(7, 10),
                        Fixed::from_ratio(7, 10),
                        Fixed::from_ratio(7, 10),
                    ),
                    Fixed::from_int(0),
                ),
            ),
        ),
    );
    proof {
        lemma_field_len(rng.history(), at, CELLS as nat);
    }
    assert(world@ =~= scene_at(rng.history(), at).0);
    world
}

} // verus!
