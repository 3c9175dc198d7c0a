use raytracer::hittable::{HitRecord, Hittable};
use raytracer::hittable_list::HittableList;
use raytracer::material::{Dielectric, Lambertian, Material, Metal};
use raytracer::ray::Ray;
use raytracer::scalar::Fixed;
use raytracer::sphere::Sphere;
use raytracer::vec3::Vec3;

fn fx(x: f64) -> Fixed {
    Fixed::from_raw((x * 4294967296.0).round() as i64)
}

fn as_f64(x: Fixed) -> f64 {
    x.raw() as f64 / 4294967296.0
}

fn v(x: f64, y: f64, z: f64) -> Vec3 {
    Vec3(fx(x), fx(y), fx(z))
}

fn matte() -> Material {
    Material::Lambertian(Lambertian(v(0.5, 0.5, 0.5)))
}

fn whole_line() -> (Fixed, Fixed) {
    (Fixed::from_ratio(1, 1000), Fixed::max_value())
}

fn distance(a: Vec3, b: Vec3) -> f64 {
    let d = a - b;
    (as_f64(d.0).powi(2) + as_f64(d.1).powi(2) + as_f64(d.2).powi(2)).sqrt()
}

fn sample_rays() -> Vec<Ray> {
    let mut rays = Vec::new();
    for (ox, oy, oz) in [(0.0, 0.0, 0.0), (0.5, -0.25, 2.0), (-3.0, 1.0, 4.0), (0.0, 0.2, -3.0)] {
        for (dx, dy, dz) in [
            (0.0, 0.0, -1.0),
            (0.1, 0.05, -1.0),
            (-0.2, 0.1, -1.0),
            (0.3, -0.1, -0.9),
            (1.0, 0.0, 0.0),
            (0.6, -0.2, -0.8),
        ] {
            rays.push(Ray::new(v(ox, oy, oz), v(dx, dy, dz).unit_vec3()));
        }
    }
    rays
}

fn sample_spheres() -> Vec<Sphere> {
    vec![
        Sphere::new(v(0.0, 0.0, -1.0), fx(0.5), matte()),
        Sphere::new(v(0.0, 0.0, -3.0), fx(1.0), matte()),
        Sphere::new(v(0.5, 0.0, -2.0), fx(0.75), matte()),
        Sphere::new(v(0.0, -100.5, -1.0), fx(100.0), matte()),
        Sphere::new(v(2.0, 0.0, 0.0), fx(0.5), matte()),
        Sphere::new(v(-1.0, 0.5, -4.0), fx(2.0), matte()),
    ]
}

#[test]
fn ray_at_walks_along_the_direction() {
    let r = Ray::new(v(1.0, 2.0, 3.0), v(0.5, -1.0, 2.0));
    assert_eq!(r.at(Fixed::zero()), v(1.0, 2.0, 3.0));
    assert_eq!(r.at(fx(2.0)), v(2.0, 0.0, 7.0));
    assert_eq!(r.at(fx(-1.0)), v(0.5, 3.0, 1.0));
    assert_eq!(r.origin, v(1.0, 2.0, 3.0));
    assert_eq!(r.direction, v(0.5, -1.0, 2.0));
}

#[test]
fn hit_record_keeps_a_normal_that_faces_the_ray() {
    let r = Ray::new(v(0.0, 0.0, 0.0), v(0.0, 0.0, -1.0));
    let rec = HitRecord::new(&r, v(0.0, 0.0, -1.0), v(0.0, 0.0, 1.0), fx(1.0), matte());
    assert!(rec.front_face);
    assert_eq!(rec.normal, v(0.0, 0.0, 1.0));
    assert_eq!(rec.point, v(0.0, 0.0, -1.0));
    assert_eq!(rec.t, fx(1.0));
    assert_eq!(rec.material, matte());
}

#[test]
fn hit_record_flips_a_normal_that_points_along_the_ray() {
    let r = Ray::new(v(0.0, 0.0, 0.0), v(0.0, 0.0, -1.0));
    let rec = HitRecord::new(&r, v(0.0, 0.0, -1.0), v(0.0, 0.0, -1.0), fx(1.0), matte());
    assert!(!rec.front_face);
    assert_eq!(rec.normal, v(0.0, 0.0, 1.0));
}

#[test]
fn hit_record_of_a_grazing_ray_is_not_a_front_face() {
    let r = Ray::new(v(0.0, 0.0, 0.0), v(1.0, 0.0, 0.0));
    let rec = HitRecord::new(&r, v(1.0, 0.0, 0.0), v(0.0, 1.0, 0.0), fx(1.0), matte());
    assert!(!rec.front_face);
    assert_eq!(rec.normal, v(0.0, -1.0, 0.0));
    assert_eq!(rec.normal.dot(&r.direction), Fixed::zero());
}

#[test]
fn sphere_straight_ahead_is_hit_at_its_near_side() {
    let sphere = Sphere::new(v(0.0, 0.0, -1.0), fx(0.5), matte());
    let r = Ray::new(v(0.0, 0.0, 0.0), v(0.0, 0.0, -1.0));
    let rec = sphere.hit(&r, whole_line()).unwrap();
    assert_eq!(rec.t, fx(0.5));
    assert_eq!(rec.point, r.at(fx(0.5)));
    assert_eq!(rec.point, v(0.0, 0.0, -0.5));
    assert_eq!(rec.normal, v(0.0, 0.0, 1.0));
    assert!(rec.front_face);
    assert_eq!(rec.material, matte());
}

#[test]
fn sphere_is_hit_at_its_far_side_when_the_near_side_is_out_of_range() {
    let sphere = Sphere::new(v(0.0, 0.0, -1.0), fx(0.5), matte());
    let r = Ray::new(v(0.0, 0.0, 0.0), v(0.0, 0.0, -1.0));
    let rec = sphere.hit(&r, (fx(1.0), Fixed::max_value())).unwrap();
    assert_eq!(rec.t, fx(1.5));
    assert_eq!(rec.point, v(0.0, 0.0, -1.5));
    assert_eq!(rec.normal, v(0.0, 0.0, 1.0));
    assert!(!rec.front_face);
}

#[test]
fn sphere_hit_from_inside_is_not_a_front_face() {
    let sphere = Sphere::new(v(0.0, 0.0, 0.0), fx(2.0), matte());
    let r = Ray::new(v(0.0, 0.0, 0.0), v(1.0, 0.0, 0.0));
    let rec = sphere.hit(&r, whole_line()).unwrap();
    assert_eq!(rec.t, fx(2.0));
    assert_eq!(rec.normal, v(-1.0, 0.0, 0.0));
    assert!(!rec.front_face);
}

#[test]
fn sphere_is_missed_beside_it_and_behind_the_ray() {
    let sphere = Sphere::new(v(0.0, 0.0, -1.0), fx(0.5), matte());
    let beside = Ray::new(v(0.0, 1.0, 0.0), v(0.0, 0.0, -1.0));
    assert!(sphere.hit(&beside, whole_line()).is_none());
    let away = Ray::new(v(0.0, 0.0, 0.0), v(0.0, 0.0, 1.0));
    assert!(sphere.hit(&away, whole_line()).is_none());
}

#[test]
fn sphere_hit_interval_is_open_below_and_closed_above() {
    let sphere = Sphere::new(v(0.0, 0.0, -1.0), fx(0.5), matte());
    let r = Ray::new(v(0.0, 0.0, 0.0), v(0.0, 0.0, -1.0));
    // The roots are 0.5 and 1.5.
    assert_eq!(sphere.hit(&r, (fx(0.25), fx(0.5))).unwrap().t, fx(0.5));
    assert_eq!(sphere.hit(&r, (fx(0.5), fx(2.0))).unwrap().t, fx(1.5));
    assert_eq!(sphere.hit(&r, (fx(0.5), fx(1.5))).unwrap().t, fx(1.5));
    assert!(sphere.hit(&r, (fx(0.5), fx(1.25))).is_none());
    assert!(sphere.hit(&r, (fx(1.5), fx(3.0))).is_none());
    assert!(sphere.hit(&r, (fx(0.0), fx(0.25))).is_none());
}

#[test]
fn sphere_with_a_direction_that_is_not_normalized() {
    let sphere = Sphere::new(v(0.0, 0.0, -1.0), fx(0.5), matte());
    let r = Ray::new(v(0.0, 0.0, 0.0), v(0.0, 0.0, -2.0));
    let rec = sphere.hit(&r, whole_line()).unwrap();
    assert_eq!(rec.t, fx(0.25));
    assert_eq!(rec.point, v(0.0, 0.0, -0.5));
    assert_eq!(rec.normal, v(0.0, 0.0, 1.0));
}

#[test]
fn negative_radius_turns_the_normal_inward() {
    let shell = Sphere::new(v(0.0, 0.0, -1.0), fx(-0.5), matte());
    let r = Ray::new(v(0.0, 0.0, 0.0), v(0.0, 0.0, -1.0));
    let rec = shell.hit(&r, whole_line()).unwrap();
    assert_eq!(rec.t, fx(0.5));
    assert_eq!(rec.point, v(0.0, 0.0, -0.5));
    // The outward normal is now (0, 0, -1), along the ray, so it is flipped.
    assert!(!rec.front_face);
    assert_eq!(rec.normal, v(0.0, 0.0, 1.0));
}

#[test]
fn hit_points_lie_on_the_sphere() {
    let mut hits = 0;
    for sphere in sample_spheres() {
        for r in sample_rays() {
            if let Some(rec) = sphere.hit(&r, whole_line()) {
                hits += 1;
                assert_eq!(rec.point, r.at(rec.t));
                let radius = as_f64(sphere.radius);
                assert!((distance(rec.point, sphere.center) - radius).abs() < 1e-6 * (1.0 + radius));
                assert!((distance(r.at(rec.t), sphere.center) - radius).abs() < 1e-6 * (1.0 + radius));
            }
        }
    }
    assert!(hits > 10);
}

#[test]
fn hit_normals_have_unit_length_and_face_the_ray() {
    let mut front = 0;
    let mut back = 0;
    for sphere in sample_spheres() {
        for r in sample_rays() {
            if let Some(rec) = sphere.hit(&r, whole_line()) {
                assert!((as_f64(rec.normal.length()) - 1.0).abs() < 1e-6);
                let along = rec.normal.dot(&r.direction);
                assert!(along <= Fixed::zero());
                if rec.front_face {
                    front += 1;
                    assert!(along < Fixed::zero());
                } else {
                    back += 1;
                }
            }
        }
    }
    assert!(front > 0 && back > 0);
}

#[test]
fn empty_list_is_never_hit() {
    let world: HittableList<Sphere> = HittableList::new();
    assert_eq!(world.0.len(), 0);
    for r in sample_rays() {
        assert!(world.hit(&r, whole_line()).is_none());
    }
}

#[test]
fn list_add_appends() {
    let mut world: HittableList<Sphere> = HittableList::new();
    let spheres = sample_spheres();
    world.add(spheres[0]);
    world.add(spheres[1]);
    assert_eq!(world.0.len(), 2);
    assert_eq!(world.0[0], spheres[0]);
    assert_eq!(world.0[1], spheres[1]);
}

#[test]
fn list_reports_the_nearest_hit() {
    let near = Sphere::new(v(0.0, 0.0, -1.0), fx(0.5), Material::Dielectric(Dielectric(fx(1.5))));
    let far = Sphere::new(v(0.0, 0.0, -3.0), fx(1.0), Material::Metal(Metal(v(0.8, 0.8, 0.8), fx(0.0))));
    let r = Ray::new(v(0.0, 0.0, 0.0), v(0.0, 0.0, -1.0));
    for order in [[near, far], [far, near]] {
        let mut world: HittableList<Sphere> = HittableList::new();
        world.add(order[0]);
        world.add(order[1]);
        let rec = world.hit(&r, whole_line()).unwrap();
        assert_eq!(rec.t, fx(0.5));
        assert_eq!(rec.material, near.material);
    }
}

#[test]
fn list_hit_is_the_least_of_the_members_hits() {
    let spheres = sample_spheres();
    let mut world: HittableList<Sphere> = HittableList::new();
    for s in spheres.iter() {
        world.add(*s);
    }
    let mut hits = 0;
    for r in sample_rays() {
        for interval in [whole_line(), (fx(0.6), fx(3.0)), (fx(2.0), fx(2.5))] {
            let least = spheres.iter().filter_map(|s| s.hit(&r, interval)).map(|rec| rec.t).fold(
                None,
                |best: Option<Fixed>, t| match best {
                    Some(b) if b <= t => Some(b),
                    _ => Some(t),
                },
            );
            let found = world.hit(&r, interval);
            assert_eq!(found.map(|rec| rec.t), least);
            if let Some(rec) = found {
                hits += 1;
                assert!(interval.0 < rec.t && rec.t <= interval.1);
                assert!(spheres.iter().any(|s| s.hit(&r, interval) == Some(rec)));
            }
        }
    }
    assert!(hits > 10);
}

#[test]
fn list_of_lists_is_hit_like_the_joined_list() {
    let spheres = sample_spheres();
    let mut first: HittableList<Sphere> = HittableList::new();
    let mut second: HittableList<Sphere> = HittableList::new();
    let mut all: HittableList<Sphere> = HittableList::new();
    for (i, s) in spheres.iter().enumerate() {
        if i % 2 == 0 {
            first.add(*s);
        } else {
            second.add(*s);
        }
        all.add(*s);
    }
    let mut nested: HittableList<HittableList<Sphere>> = HittableList::new();
    nested.add(first);
    nested.add(second);
    for r in sample_rays() {
        assert_eq!(
            nested.hit(&r, whole_line()).map(|rec| rec.t),
            all.hit(&r, whole_line()).map(|rec| rec.t)
        );
    }
}

fn wide(x: Fixed) -> i128 {
    x.raw() as i128
}

fn squared_distance(p: Vec3, c: Vec3) -> i128 {
    let d = (wide(p.0) - wide(c.0), wide(p.1) - wide(c.1), wide(p.2) - wide(c.2));
    d.0 * d.0 + d.1 * d.1 + d.2 * d.2
}

fn taxicab_distance(p: Vec3, c: Vec3) -> i128 {
    (wide(p.0) - wide(c.0)).abs() + (wide(p.1) - wide(c.1)).abs() + (wide(p.2) - wide(c.2)).abs()
}

fn surface_tolerance(sphere: &Sphere, r: &Ray, rec: &HitRecord) -> i128 {
    let scale = 1i128 << 32;
    3 * wide(rec.t) * wide(rec.t)
        + scale
            * (6 * wide(sphere.discriminant(r).sqrt())
                + 6 * wide(rec.t).abs()
                + 2 * taxicab_distance(rec.point, sphere.center)
                + 7 * scale
                + 3)
        + wide(r.direction.length_squared())
}

#[test]
fn hit_points_are_within_the_proved_tolerance() {
    let scale = 1i128 << 32;
    let mut hits = 0;
    for sphere in sample_spheres() {
        for r in sample_rays() {
            assert!(2 * wide(r.direction.length_squared()) >= scale);
            for interval in [whole_line(), (fx(1.0), Fixed::max_value())] {
                if let Some(rec) = sphere.hit(&r, interval) {
                    hits += 1;
                    let radius = wide(sphere.radius);
                    let defect = squared_distance(rec.point, sphere.center) - radius * radius;
                    assert!(scale * defect.abs() <= surface_tolerance(&sphere, &r, &rec));
                }
            }
        }
    }
    assert!(hits > 20);
}

#[test]
fn hit_normals_are_within_the_proved_tolerance() {
    let scale = 1i128 << 32;
    let mut hits = 0;
    for sphere in sample_spheres() {
        for r in sample_rays() {
            if let Some(rec) = sphere.hit(&r, whole_line()) {
                hits += 1;
                let radius = wide(sphere.radius);
                assert!(radius.abs() >= 65536);
                let n = (wide(rec.normal.0), wide(rec.normal.1), wide(rec.normal.2));
                let excess = n.0 * n.0 + n.1 * n.1 + n.2 * n.2 - scale * scale;
                let tolerance = scale * surface_tolerance(&sphere, &r, &rec)
                    + 2 * scale * (radius.abs() * taxicab_distance(rec.point, sphere.center))
                    + 3 * (radius * radius);
                assert!(radius * radius * excess.abs() <= tolerance);
            }
        }
    }
    assert!(hits > 10);
}

#[test]
fn discriminant_tells_whether_the_line_meets_the_sphere() {
    let sphere = Sphere::new(v(0.0, 0.0, -1.0), fx(0.5), matte());
    let through = Ray::new(v(0.0, 0.0, 0.0), v(0.0, 0.0, -1.0));
    assert_eq!(sphere.discriminant(&through), fx(0.25));
    let beside = Ray::new(v(0.0, 1.0, 0.0), v(0.0, 0.0, -1.0));
    assert_eq!(sphere.discriminant(&beside), fx(-0.75));
    let touching = Ray::new(v(0.0, 0.5, 0.0), v(0.0, 0.0, -1.0));
    assert_eq!(sphere.discriminant(&touching), Fixed::zero());
    assert_eq!(sphere.hit(&touching, whole_line()).unwrap().t, fx(1.0));
}
