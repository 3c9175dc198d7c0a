//! The camera: a thin lens that turns a position on the image into a ray.

use vstd::prelude::*;
use crate::ray::Ray;
use crate::sampler::{extends, Sampler};
use crate::sampling::MAX_TRIES;
use crate::scalar::Fixed;
use crate::vec3::{Point3, Vec3};

verus! {

broadcast use Fixed::lemma_of;

#[derive(Clone, Copy, Debug, PartialEq, Eq, Structural)]
pub struct Camera {
    pub origin: Point3,
    pub lower_left_corner: Point3,
    pub horizontal: Vec3,
    pub vertical: Vec3,
    pub u: Vec3,
    pub v: Vec3,
    pub lens_radius: Fixed,
}

impl Camera {
    /// The camera at `lookfrom` that looks at `lookat` with `vup` upward:
    /// `w` points backward, `u` to the right and `v` upward; the viewport is
    /// `2 tan(vfov / 2)` high and `aspect_ratio` times as wide, and its lower
    /// left corner lies `focus_dist` in front of the camera.
    pub open spec fn spec_new(
        lookfrom: Point3,
        lookat: Point3,
        vup: Vec3,
        vfov: Fixed,
        aspect_ratio: Fixed,
        aperture: Fixed,
        focus_dist: Fixed,
    ) -> Camera {
        let two = Fixed::spec_from_int(2);
        let h = vfov.spec_to_radians().spec_div(two).spec_tan();
        let viewport_height = two.spec_mul(h);
        let viewport_width = viewport_height.spec_mul(aspect_ratio);
        let w = lookfrom.spec_sub(lookat).spec_unit();
        let u = vup.spec_cross(w).spec_unit();
        let v = w.spec_cross(u);
        let horizontal = u.spec_scale(viewport_width);
        let vertical = v.spec_scale(viewport_height);
        Camera {
            origin: lookfrom,
            lower_left_corner: lookfrom.spec_sub(horizontal.spec_div(two)).spec_sub(
                vertical.spec_div(two),
            ).spec_sub(w.spec_scale(focus_dist)),
            horizontal,
            vertical,
            u,
            v,
            lens_radius: aperture.spec_div(two),
        }
    }

    /// The ray through the point `(s, t)` of the viewport that leaves the
    /// lens at `lens_sample` (a point of the unit disk): its origin is moved
    /// by `lens_radius * lens_sample` within the lens, and it still aims at
    /// the same point of the viewport.
    pub open spec fn spec_ray_through(self, s: Fixed, t: Fixed, lens_sample: Vec3) -> Ray {
        let rd = lens_sample.spec_scale(self.lens_radius);
        let offset = self.u.spec_scale(rd.0).spec_add(self.v.spec_scale(rd.1));
        let origin = self.origin.spec_add(offset);
        Ray {
            origin,
            direction: self.lower_left_corner.spec_add(self.horizontal.spec_scale(s)).spec_add(
                self.vertical.spec_scale(t),
            ).spec_sub(origin),
        }
    }

    /// What [`Camera::get_ray`] returns when it starts to read `words` at
    /// `at`, and where it stops.
    pub open spec fn ray_at(self, s: Fixed, t: Fixed, words: Seq<u64>, at: int) -> (Ray, int) {
        let (sample, end) = Vec3::disk_at(words, at, MAX_TRIES as nat);
        (self.spec_ray_through(s, t, sample), end)
    }

    pub fn new(
        lookfrom: Point3,
        lookat: Point3,
        vup: Vec3,
        vfov: Fixed,
        aspect_ratio: Fixed,
        aperture: Fixed,
        focus_dist: Fixed,
    ) -> (camera: Camera)
        ensures
            camera == Camera::spec_new(
                lookfrom,
                lookat,
                vup,
                vfov,
                aspect_ratio,
                aperture,
                focus_dist,
            ),
    {
        let two: Fixed = Fixed::from_int(2);
        let h: Fixed = (vfov.to_radians() / two).tan();
        let viewport_height: Fixed = two * h;
        let viewport_width: Fixed = viewport_height * aspect_ratio;

        let w: Vec3 = (lookfrom - lookat).unit_vec3();
        let u: Vec3 = vup.cross(&w).unit_vec3();
        let v: Vec3 = w.cross(&u);

        let origin: Point3 = lookfrom;
        let horizontal: Vec3 = u * viewport_width;
        let vertical: Vec3 = v * viewport_height;

        Camera {
            origin,
            horizontal,
            vertical,
            lower_left_corner: origin - horizontal / two - vertical / two - w * focus_dist,
            u,
            v,
            lens_radius: aperture / two,
        }
    }

    pub fn ray_through(&self, s: Fixed, t: Fixed, lens_sample: Vec3) -> (r: Ray)
        ensures
            r == self.spec_ray_through(s, t, lens_sample),
    {
        let rd: Vec3 = lens_sample * self.lens_radius;
        let offset: Vec3 = self.u * rd.0 + self.v * rd.1;
        let origin: Point3 = self.origin + offset;
        Ray::new(
            origin,
            self.lower_left_corner + self.horizontal * s + self.vertical * t - origin,
        )
    }

    /// The ray through the point `(s, t)` of the viewport, from a random
    /// point of the lens.
    pub fn get_ray(&self, s: Fixed, t: Fixed, rng: &mut Sampler) -> (r: Ray)
        ensures
            extends(final(rng).history(), old(rng).history()),
            (r, final(rng).history().len() as int) == self.ray_at(
                s,
                t,
                final(rng).history(),
                old(rng).history().len() as int,
            ),
    {
        let sample: Vec3 = Vec3::random_in_unit_disk(rng);
        self.ray_through(s, t, sample)
    }
}

} // verus!
