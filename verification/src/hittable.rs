//! The record of an intersection, and what it takes to be hit by a ray.

use core::ops::Neg;
use vstd::prelude::*;
use crate::material::Material;
use crate::ray::Ray;
use crate::scalar::Fixed;
use crate::vec3::{Point3, Vec3};

verus! {

broadcast use Fixed::lemma_of;

/// The nearest intersection of a ray with a surface.
#[derive(Clone, Copy, Debug, PartialEq, Eq, Structural)]
pub struct HitRecord {
    pub point: Point3,
    /// The surface normal, turned to face against the incoming ray.
    pub normal: Vec3,
    pub t: Fixed,
    pub material: Material,
    /// Whether the outward normal already faced against the ray.
    pub front_face: bool,
}

impl HitRecord {
    pub open spec fn spec_new(
        r: Ray,
        point: Point3,
        outward_normal: Vec3,
        t: Fixed,
        mat: Material,
    ) -> HitRecord {
        let front_face = r.direction.spec_dot(outward_normal)@ < 0;
        HitRecord {
            point,
            normal: if front_face {
                outward_normal
            } else {
                outward_normal.spec_neg()
            },
            t,
            material: mat,
            front_face,
        }
    }

    /// The normal of a record never points along the ray: its dot product
    /// with the ray's direction is negative on a front face and at most zero
    /// otherwise. The record faces front exactly when the outward normal
    /// itself points against the ray.
    pub proof fn lemma_normal_faces_ray(
        r: Ray,
        point: Point3,
        outward_normal: Vec3,
        t: Fixed,
        mat: Material,
    )
        requires
            r.direction.wf(),
            outward_normal.wf(),
        ensures
            ({
                let rec = HitRecord::spec_new(r, point, outward_normal, t, mat);
                &&& rec.front_face <==> outward_normal.spec_dot(r.direction)@ < 0
                &&& rec.front_face ==> rec.normal.spec_dot(r.direction)@ < 0
                &&& !rec.front_face ==> rec.normal.spec_dot(r.direction)@ <= 0
                &&& !rec.front_face ==> rec.normal.spec_dot(r.direction)@
                    == -outward_normal.spec_dot(r.direction)@
            }),
    {
        r.direction.lemma_dot_commutes(outward_normal);
        outward_normal.lemma_dot_neg(r.direction);
    }

    pub fn new(r: &Ray, point: Point3, outward_normal: Vec3, t: Fixed, mat: Material) -> (rec:
        HitRecord)
        ensures
            rec == HitRecord::spec_new(*r, point, outward_normal, t, mat),
            rec.normal.spec_dot(r.direction)@ <= 0,
    {
        proof {
            use_type_invariant(&r.direction.0);
            use_type_invariant(&r.direction.1);
            use_type_invariant(&r.direction.2);
            use_type_invariant(&outward_normal.0);
            use_type_invariant(&outward_normal.1);
            use_type_invariant(&outward_normal.2);
            HitRecord::lemma_normal_faces_ray(*r, point, outward_normal, t, mat);
        }
        let front_face: bool = r.direction.dot(&outward_normal) < Fixed::zero();
        HitRecord {
            t,
            point,
            normal: if front_face {
                outward_normal
            } else {
                outward_normal.neg()
            },
            front_face,
            material: mat,
        }
    }
}

/// Something a ray can hit.
pub trait Hittable {
    /// The intersection that [`Hittable::hit`] reports for the ray `r` and
    /// the interval `(t.0, t.1]`.
    spec fn spec_hit(&self, r: Ray, t: (Fixed, Fixed)) -> Option<HitRecord>;

    /// The nearest intersection whose ray parameter lies in `(t.0, t.1]`.
    fn hit(&self, r: &Ray, t: (Fixed, Fixed)) -> (rec: Option<HitRecord>)
        ensures
            rec == self.spec_hit(*r, t),
            rec matches Some(h) ==> t.0@ < h.t@ <= t.1@,
    ;
}

} // verus!
