//! Spheres, and where a ray meets one.

use core::ops::Neg;
use vstd::prelude::*;
use crate::hittable::{HitRecord, Hittable};
use crate::material::Material;
use crate::ray::Ray;
use crate::scalar::Fixed;
use crate::vec3::{Point3, Vec3};

verus! {

broadcast use Fixed::lemma_of;

/// A sphere. A negative radius keeps the surface where it is and turns the
/// outward normal inward, which models the inside of a hollow shell.
#[derive(Clone, Copy, Debug, PartialEq, Eq, Structural)]
pub struct Sphere {
    pub center: Point3,
    pub radius: Fixed,
    pub material: Material,
}

/// Whether the ray parameter `x` lies in the interval `(t.0, t.1]`.
pub open spec fn in_range(x: Fixed, t: (Fixed, Fixed)) -> bool {
    t.0@ < x@ <= t.1@
}

impl Sphere {
    /// `a = D . D` of the quadratic `|O + t D - C|^2 = r^2`.
    pub open spec fn spec_a(self, r: Ray) -> Fixed {
        r.direction.spec_length_squared()
    }

    /// `half_b = (O - C) . D`.
    pub open spec fn spec_half_b(self, r: Ray) -> Fixed {
        r.origin.spec_sub(self.center).spec_dot(r.direction)
    }

    /// `c = |O - C|^2 - r^2`.
    pub open spec fn spec_c(self, r: Ray) -> Fixed {
        r.origin.spec_sub(self.center).spec_length_squared().spec_sub(
            self.radius.spec_mul(self.radius),
        )
    }

    /// `half_b^2 - a c`.
    pub open spec fn spec_discriminant(self, r: Ray) -> Fixed {
        let half_b = self.spec_half_b(r);
        half_b.spec_mul(half_b).spec_sub(self.spec_a(r).spec_mul(self.spec_c(r)))
    }

    /// The smaller root, `(-half_b - sqrt(discriminant)) / a`.
    pub open spec fn spec_near_root(self, r: Ray) -> Fixed {
        self.spec_half_b(r).spec_neg().spec_sub(self.spec_discriminant(r).spec_sqrt()).spec_div(
            self.spec_a(r),
        )
    }

    /// The larger root, `(-half_b + sqrt(discriminant)) / a`.
    pub open spec fn spec_far_root(self, r: Ray) -> Fixed {
        self.spec_half_b(r).spec_neg().spec_add(self.spec_discriminant(r).spec_sqrt()).spec_div(
            self.spec_a(r),
        )
    }

    /// The ray parameter of the hit: the smaller root if it lies in the
    /// interval, else the larger one if that does; none without a real root.
    pub open spec fn spec_root(self, r: Ray, t: (Fixed, Fixed)) -> Option<Fixed> {
        if self.spec_discriminant(r)@ < 0 {
            None
        } else if in_range(self.spec_near_root(r), t) {
            Some(self.spec_near_root(r))
        } else if in_range(self.spec_far_root(r), t) {
            Some(self.spec_far_root(r))
        } else {
            None
        }
    }

    /// The outward normal at `point`: `(point - center) / radius`.
    pub open spec fn spec_outward_normal(self, point: Point3) -> Vec3 {
        point.spec_sub(self.center).spec_div(self.radius)
    }

    /// The record of the hit at ray parameter `root`.
    pub open spec fn spec_record(self, r: Ray, root: Fixed) -> HitRecord {
        let point = r.spec_at(root);
        HitRecord::spec_new(r, point, self.spec_outward_normal(point), root, self.material)
    }

    /// The smaller root is never above the larger one.
    pub proof fn lemma_roots_ordered(self, r: Ray)
        ensures
            self.spec_near_root(r)@ <= self.spec_far_root(r)@,
    {
        let minus_b = self.spec_half_b(r).spec_neg();
        let sqrtd = self.spec_discriminant(r).spec_sqrt();
        self.spec_discriminant(r).lemma_sqrt_nonnegative();
        r.direction.lemma_length_squared_nonnegative();
        minus_b.spec_sub(sqrtd).lemma_div_monotone(minus_b.spec_add(sqrtd), self.spec_a(r));
    }

    /// A hit does not depend on the upper bound of the interval, as long as
    /// it fits below it: with a tighter upper bound the sphere reports the
    /// same hit if that hit is still in the interval, and none otherwise.
    pub proof fn lemma_hit_under_tighter_bound(self, r: Ray, t: (Fixed, Fixed), bound: Fixed)
        requires
            bound@ <= t.1@,
        ensures
            self.spec_hit(r, (t.0, bound)) == (match self.spec_hit(r, t) {
                Some(h) => if h.t@ <= bound@ {
                    Some(h)
                } else {
                    None
                },
                None => None,
            }),
            self.spec_hit(r, t) matches Some(h) ==> in_range(h.t, t),
    {
        self.lemma_roots_ordered(r);
    }

    /// The point of a hit is the point of the ray at the parameter of the
    /// hit, and the record carries the sphere's material.
    pub proof fn lemma_hit_point_on_ray(self, r: Ray, t: (Fixed, Fixed))
        ensures
            self.spec_hit(r, t) matches Some(h) ==> h.point == r.spec_at(h.t) && h.material
                == self.material,
    {
    }

    pub fn new(center: Point3, radius: Fixed, mat: Material) -> (s: Sphere)
        ensures
            s == (Sphere { center, radius, material: mat }),
    {
        Sphere { center, radius, material: mat }
    }

    /// The discriminant of the quadratic for the ray `r`; the ray meets the
    /// sphere's surface if it is not negative.
    pub fn discriminant(&self, r: &Ray) -> (d: Fixed)
        ensures
            d == self.spec_discriminant(*r),
    {
        let oc: Vec3 = r.origin - self.center;
        let a: Fixed = r.direction.length_squared();
        let half_b: Fixed = oc.dot(&r.direction);
        let c: Fixed = oc.length_squared() - self.radius * self.radius;
        half_b * half_b - a * c
    }
}

impl Hittable for Sphere {
    open spec fn spec_hit(&self, r: Ray, t: (Fixed, Fixed)) -> Option<HitRecord> {
        match self.spec_root(r, t) {
            Some(root) => Some(self.spec_record(r, root)),
            None => None,
        }
    }

    fn hit(&self, r: &Ray, t: (Fixed, Fixed)) -> (rec: Option<HitRecord>)
        ensures
            rec matches Some(h) ==> h.point == r.spec_at(h.t) && h.material == self.material
                && h.normal.spec_dot(r.direction)@ <= 0,
    {
        let oc: Vec3 = r.origin - self.center;
        let a: Fixed = r.direction.length_squared();
        let half_b: Fixed = oc.dot(&r.direction);

        let discriminant: Fixed = self.discriminant(r);
        if discriminant < Fixed::zero() {
            return None;
        }
        let sqrtd: Fixed = discriminant.sqrt();

        let mut root: Fixed = (half_b.neg() - sqrtd) / a;
        if root <= t.0 || t.1 < root {
            root = (half_b.neg() + sqrtd) / a;
            if root <= t.0 || t.1 < root {
                return None;
            }
        }
        let hit_point: Point3 = r.at(root);
        let normal: Vec3 = (hit_point - self.center) / self.radius;
        Some(HitRecord::new(r, hit_point, normal, root, self.material))
    }
}

} // verus!
