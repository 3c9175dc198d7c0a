//! Surface materials and the three scattering laws.

use core::ops::Neg;
use vstd::prelude::*;
use crate::hittable::HitRecord;
use crate::ray::Ray;
use crate::sampler::{agree, extends, unit_at, Sampler};
use crate::sampling::MAX_TRIES;
use crate::scalar::{Fixed, SCALE};
use crate::vec3::{Color, Vec3};

verus! {

broadcast use Fixed::lemma_of;

/// An ideal diffuse surface with the given albedo.
#[derive(Clone, Copy, Debug, PartialEq, Eq, Structural)]
pub struct Lambertian(pub Color);

/// A mirror with the given albedo, roughened by a fuzz factor.
#[derive(Clone, Copy, Debug, PartialEq, Eq, Structural)]
pub struct Metal(pub Color, pub Fixed);

/// A clear refracting medium with the given refractive index.
#[derive(Clone, Copy, Debug, PartialEq, Eq, Structural)]
pub struct Dielectric(pub Fixed);

/// The closed set of materials a surface can have.
#[derive(Clone, Copy, Debug, PartialEq, Eq, Structural)]
pub enum Material {
    Lambertian(Lambertian),
    Metal(Metal),
    Dielectric(Dielectric),
}

/// The mirror image of `v` about the normal `n`: `v - 2 (v . n) n`.
pub open spec fn spec_reflect(v: Vec3, n: Vec3) -> Vec3 {
    v.spec_sub(n.spec_scale(Fixed::spec_from_int(2).spec_mul(v.spec_dot(n))))
}

/// The cosine of the angle of incidence, capped at one.
pub open spec fn spec_cos_theta(uv: Vec3, n: Vec3) -> Fixed {
    uv.spec_dot(n).spec_neg().spec_min(Fixed::of(SCALE as int))
}

/// The part of the refracted ray that is perpendicular to the normal.
pub open spec fn spec_refract_perp(uv: Vec3, n: Vec3, etai_over_etat: Fixed) -> Vec3 {
    uv.spec_add(n.spec_scale(spec_cos_theta(uv, n))).spec_scale(etai_over_etat)
}

/// The refracted direction by Snell's law, as the sum of its parts
/// perpendicular and parallel to the normal.
pub open spec fn spec_refract(uv: Vec3, n: Vec3, etai_over_etat: Fixed) -> Vec3 {
    let perp = spec_refract_perp(uv, n, etai_over_etat);
    let along = Fixed::of(SCALE as int).spec_sub(
        perp.spec_length_squared(),
    ).spec_abs().spec_sqrt().spec_neg();
    perp.spec_add(n.spec_scale(along))
}

pub fn reflect(v: &Vec3, n: &Vec3) -> (r: Vec3)
    ensures
        r == spec_reflect(*v, *n),
{
    *v - *n * (Fixed::from_int(2) * v.dot(n))
}

pub fn refract(uv: &Vec3, n: &Vec3, etai_over_etat: Fixed) -> (r: Vec3)
    ensures
        r == spec_refract(*uv, *n, etai_over_etat),
{
    let cos_theta: Fixed = uv.dot(n).neg().min(Fixed::one());
    let r_out_perp: Vec3 = (*uv + *n * cos_theta) * etai_over_etat;
    let along: Fixed = (Fixed::one() - r_out_perp.length_squared()).abs().sqrt().neg();
    r_out_perp + *n * along
}

impl Lambertian {
    /// The scattered ray for the unit vector `unit`: along `normal + unit`,
    /// or along the normal itself where that sum all but vanishes. The
    /// attenuation is the albedo.
    pub open spec fn spec_scatter_with(self, rec: HitRecord, unit: Vec3) -> (Ray, Color) {
        let direction = rec.normal.spec_add(unit);
        (
            Ray {
                origin: rec.point,
                direction: if direction.spec_near_zero() {
                    rec.normal
                } else {
                    direction
                },
            },
            self.0,
        )
    }

    /// What [`Lambertian::scatter`] returns when it starts to read `words`
    /// at `at`, and where it stops.
    pub open spec fn scatter_at(self, rec: HitRecord, words: Seq<u64>, at: int) -> (
        Option<(Ray, Color)>,
        int,
    ) {
        let (unit, end) = Vec3::unit_vector_at(words, at);
        (Some(self.spec_scatter_with(rec, unit)), end)
    }

    pub fn scatter_with(&self, rec: &HitRecord, unit: Vec3) -> (out: (Ray, Color))
        ensures
            out == self.spec_scatter_with(*rec, unit),
    {
        let mut scatter_direction: Vec3 = rec.normal + unit;
        if scatter_direction.near_zero() {
            scatter_direction = rec.normal;
        }
        (Ray::new(rec.point, scatter_direction), self.0)
    }

    /// Scatters diffusely; never absorbs.
    pub fn scatter(&self, r_in: &Ray, rec: &HitRecord, rng: &mut Sampler) -> (out: Option<
        (Ray, Color),
    >)
        ensures
            extends(final(rng).history(), old(rng).history()),
            (out, final(rng).history().len() as int) == self.scatter_at(
                *rec,
                final(rng).history(),
                old(rng).history().len() as int,
            ),
            out is Some,
    {
        let unit: Vec3 = Vec3::random_unit_vector(rng);
        Some(self.scatter_with(rec, unit))
    }
}

impl Metal {
    /// The scattered ray for the sample `sample` of the unit ball: along the
    /// mirror image of the incoming direction, moved by `fuzz * sample`.
    /// A ray that would go into the surface is absorbed.
    pub open spec fn spec_scatter_with(self, r_in: Ray, rec: HitRecord, sample: Vec3) -> Option<
        (Ray, Color),
    > {
        let reflected = spec_reflect(r_in.direction.spec_unit(), rec.normal);
        let direction = reflected.spec_add(sample.spec_scale(self.1));
        if direction.spec_dot(rec.normal)@ > 0 {
            Some((Ray { origin: rec.point, direction }, self.0))
        } else {
            None
        }
    }

    /// What [`Metal::scatter`] returns when it starts to read `words` at
    /// `at`, and where it stops.
    pub open spec fn scatter_at(self, r_in: Ray, rec: HitRecord, words: Seq<u64>, at: int) -> (
        Option<(Ray, Color)>,
        int,
    ) {
        let (sample, end) = Vec3::ball_at(words, at, MAX_TRIES as nat);
        (self.spec_scatter_with(r_in, rec, sample), end)
    }

    pub fn scatter_with(&self, r_in: &Ray, rec: &HitRecord, sample: Vec3) -> (out: Option<
        (Ray, Color),
    >)
        ensures
            out == self.spec_scatter_with(*r_in, *rec, sample),
            out matches Some(s) ==> s.0.direction.spec_dot(rec.normal)@ > 0,
    {
        let reflected: Vec3 = reflect(&r_in.direction.unit_vec3(), &rec.normal);
        let scattered: Ray = Ray::new(rec.point, reflected + sample * self.1);
        if scattered.direction.dot(&rec.normal) > Fixed::zero() {
            Some((scattered, self.0))
        } else {
            None
        }
    }

    /// Reflects with some roughness, or absorbs.
    pub fn scatter(&self, r_in: &Ray, rec: &HitRecord, rng: &mut Sampler) -> (out: Option<
        (Ray, Color),
    >)
        ensures
            extends(final(rng).history(), old(rng).history()),
            (out, final(rng).history().len() as int) == self.scatter_at(
                *r_in,
                *rec,
                final(rng).history(),
                old(rng).history().len() as int,
            ),
            out matches Some(s) ==> s.0.direction.spec_dot(rec.normal)@ > 0,
    {
        let sample: Vec3 = Vec3::random_in_unit_sphere(rng);
        self.scatter_with(r_in, rec, sample)
    }
}

impl Dielectric {
    /// Schlick's approximation of the reflectance:
    /// `r0 + (1 - r0) (1 - cosine)^5` with `r0 = ((1 - n) / (1 + n))^2`.
    pub open spec fn spec_reflectance(cosine: Fixed, ref_idx: Fixed) -> Fixed {
        let one = Fixed::of(SCALE as int);
        let q = one.spec_sub(ref_idx).spec_div(one.spec_add(ref_idx));
        let r0 = q.spec_mul(q);
        let x = one.spec_sub(cosine);
        let x2 = x.spec_mul(x);
        let x5 = x2.spec_mul(x2).spec_mul(x);
        r0.spec_add(one.spec_sub(r0).spec_mul(x5))
    }

    /// The ratio of the refractive indices across the surface: `1 / index`
    /// for a ray that enters, the index itself for one that leaves.
    pub open spec fn spec_refraction_ratio(self, rec: HitRecord) -> Fixed {
        if rec.front_face {
            Fixed::of(SCALE as int).spec_div(self.0)
        } else {
            self.0
        }
    }

    /// Total internal reflection: `ratio * sin(theta) > 1`, so that Snell's
    /// law has no solution.
    pub open spec fn spec_cannot_refract(self, r_in: Ray, rec: HitRecord) -> bool {
        let cos_theta = spec_cos_theta(r_in.direction.spec_unit(), rec.normal);
        let sin_theta = Fixed::of(SCALE as int).spec_sub(cos_theta.spec_mul(cos_theta)).spec_sqrt();
        self.spec_refraction_ratio(rec).spec_mul(sin_theta)@ > SCALE
    }

    /// Whether the ray is reflected for the draw `draw` from `[0, 1)`: under
    /// total internal reflection always, and otherwise when the reflectance
    /// exceeds the draw.
    pub open spec fn spec_reflects(self, r_in: Ray, rec: HitRecord, draw: Fixed) -> bool {
        let cos_theta = spec_cos_theta(r_in.direction.spec_unit(), rec.normal);
        self.spec_cannot_refract(r_in, rec) || Dielectric::spec_reflectance(
            cos_theta,
            self.spec_refraction_ratio(rec),
        )@ > draw@
    }

    /// The scattered ray for the draw `draw`: reflected or refracted, and
    /// never dimmed.
    pub open spec fn spec_scatter_with(self, r_in: Ray, rec: HitRecord, draw: Fixed) -> (
        Ray,
        Color,
    ) {
        let unit_direction = r_in.direction.spec_unit();
        let direction = if self.spec_reflects(r_in, rec, draw) {
            spec_reflect(unit_direction, rec.normal)
        } else {
            spec_refract(unit_direction, rec.normal, self.spec_refraction_ratio(rec))
        };
        (Ray { origin: rec.point, direction }, Vec3::spec_ones())
    }

    /// What [`Dielectric::scatter`] returns when it starts to read `words`
    /// at `at`, and where it stops. No word is read under total internal
    /// reflection.
    pub open spec fn scatter_at(self, r_in: Ray, rec: HitRecord, words: Seq<u64>, at: int) -> (
        Option<(Ray, Color)>,
        int,
    ) {
        if self.spec_cannot_refract(r_in, rec) {
            (Some(self.spec_scatter_with(r_in, rec, Fixed::of(0))), at)
        } else {
            (Some(self.spec_scatter_with(r_in, rec, unit_at(words, at))), at + 1)
        }
    }

    pub fn reflectance(cosine: Fixed, ref_idx: Fixed) -> (r: Fixed)
        ensures
            r == Dielectric::spec_reflectance(cosine, ref_idx),
    {
        let one: Fixed = Fixed::one();
        let q: Fixed = (one - ref_idx) / (one + ref_idx);
        let r0: Fixed = q * q;
        let x: Fixed = one - cosine;
        let x2: Fixed = x * x;
        let x5: Fixed = x2 * x2 * x;
        r0 + (one - r0) * x5
    }

    pub fn refraction_ratio(&self, rec: &HitRecord) -> (r: Fixed)
        ensures
            r == self.spec_refraction_ratio(*rec),
    {
        if rec.front_face {
            Fixed::one() / self.0
        } else {
            self.0
        }
    }

    pub fn cannot_refract(&self, r_in: &Ray, rec: &HitRecord) -> (r: bool)
        ensures
            r == self.spec_cannot_refract(*r_in, *rec),
    {
        let unit_direction: Vec3 = r_in.direction.unit_vec3();
        let cos_theta: Fixed = unit_direction.dot(&rec.normal).neg().min(Fixed::one());
        let sin_theta: Fixed = (Fixed::one() - cos_theta * cos_theta).sqrt();
        self.refraction_ratio(rec) * sin_theta > Fixed::one()
    }

    pub fn scatter_with(&self, r_in: &Ray, rec: &HitRecord, draw: Fixed) -> (out: (Ray, Color))
        ensures
            out == self.spec_scatter_with(*r_in, *rec, draw),
            out.1 == Vec3::spec_ones(),
            self.spec_cannot_refract(*r_in, *rec) ==> out.0.direction == spec_reflect(
                r_in.direction.spec_unit(),
                rec.normal,
            ),
    {
        let refraction_ratio: Fixed = self.refraction_ratio(rec);
        let unit_direction: Vec3 = r_in.direction.unit_vec3();
        let cos_theta: Fixed = unit_direction.dot(&rec.normal).neg().min(Fixed::one());
        let reflects: bool = self.cannot_refract(r_in, rec) || Dielectric::reflectance(
            cos_theta,
            refraction_ratio,
        ) > draw;
        let direction: Vec3 = if reflects {
            reflect(&unit_direction, &rec.normal)
        } else {
            refract(&unit_direction, &rec.normal, refraction_ratio)
        };
        (Ray::new(rec.point, direction), Vec3::ones())
    }

    /// Reflects or refracts; never absorbs.
    pub fn scatter(&self, r_in: &Ray, rec: &HitRecord, rng: &mut Sampler) -> (out: Option<
        (Ray, Color),
    >)
        ensures
            extends(final(rng).history(), old(rng).history()),
            (out, final(rng).history().len() as int) == self.scatter_at(
                *r_in,
                *rec,
                final(rng).history(),
                old(rng).history().len() as int,
            ),
            out is Some,
    {
        if self.cannot_refract(r_in, rec) {
            Some(self.scatter_with(r_in, rec, Fixed::zero()))
        } else {
            let draw: Fixed = rng.next_unit();
            Some(self.scatter_with(r_in, rec, draw))
        }
    }
}

impl Material {
    /// What [`Material::scatter`] returns when it starts to read `words` at
    /// `at`, and where it stops.
    pub open spec fn scatter_at(self, r_in: Ray, rec: HitRecord, words: Seq<u64>, at: int) -> (
        Option<(Ray, Color)>,
        int,
    ) {
        match self {
            Material::Lambertian(m) => m.scatter_at(rec, words, at),
            Material::Metal(m) => m.scatter_at(r_in, rec, words, at),
            Material::Dielectric(m) => m.scatter_at(r_in, rec, words, at),
        }
    }

    /// Scattering never reads backward.
    pub proof fn lemma_scatter_end(self, r_in: Ray, rec: HitRecord, words: Seq<u64>, at: int)
        ensures
            self.scatter_at(r_in, rec, words, at).1 >= at,
    {
        Vec3::lemma_ball_end(words, at, MAX_TRIES as nat);
    }

    /// Scattering depends only on the words that were read for it.
    pub proof fn lemma_scatter_agrees(
        self,
        r_in: Ray,
        rec: HitRecord,
        first: Seq<u64>,
        second: Seq<u64>,
        at: int,
    )
        requires
            0 <= at,
            agree(first, second, self.scatter_at(r_in, rec, first, at).1),
        ensures
            self.scatter_at(r_in, rec, second, at) == self.scatter_at(r_in, rec, first, at),
    {
        match self {
            Material::Lambertian(m) => {
                Vec3::lemma_ball_agrees(first, second, at, MAX_TRIES as nat);
            },
            Material::Metal(m) => {
                Vec3::lemma_ball_agrees(first, second, at, MAX_TRIES as nat);
            },
            Material::Dielectric(m) => {},
        }
    }

    /// The scattered ray and its attenuation, or none where the surface
    /// absorbs the ray.
    pub fn scatter(&self, r_in: &Ray, rec: &HitRecord, rng: &mut Sampler) -> (out: Option<
        (Ray, Color),
    >)
        ensures
            extends(final(rng).history(), old(rng).history()),
            (out, final(rng).history().len() as int) == self.scatter_at(
                *r_in,
                *rec,
                final(rng).history(),
                old(rng).history().len() as int,
            ),
    {
        match self {
            Material::Lambertian(m) => m.scatter(r_in, rec, rng),
            Material::Metal(m) => m.scatter(r_in, rec, rng),
            Material::Dielectric(m) => m.scatter(r_in, rec, rng),
        }
    }
}

} // verus!
