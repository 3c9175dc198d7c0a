use raytracer::hittable::HitRecord;
use raytracer::material::{reflect, refract, Dielectric, Lambertian, Material, Metal};
use raytracer::ray::Ray;
use raytracer::sampler::Sampler;
use raytracer::scalar::Fixed;
use raytracer::vec3::Vec3;

fn fx(x: f64) -> Fixed {
    Fixed::from_raw((x * 4294967296.0).round() as i64)
}

fn as_f64(x: Fixed) -> f64 {
    x.raw() as f64 / 4294967296.0
}

fn v(x: f64, y: f64, z: f64) -> Vec3 {
    Vec3(fx(x), fx(y), fx(z))
}

fn close(a: Vec3, b: (f64, f64, f64), tolerance: f64) -> bool {
    (as_f64(a.0) - b.0).abs() < tolerance
        && (as_f64(a.1) - b.1).abs() < tolerance
        && (as_f64(a.2) - b.2).abs() < tolerance
}

/// A hit at the origin of the plane `y = 0`, by the ray `r`.
fn floor_hit(r: &Ray, material: Material) -> HitRecord {
    HitRecord::new(r, v(0.0, 0.0, 0.0), v(0.0, 1.0, 0.0), fx(1.0), material)
}

#[test]
fn reflect_mirrors_about_the_normal() {
    assert_eq!(reflect(&v(1.0, -1.0, 0.0), &v(0.0, 1.0, 0.0)), v(1.0, 1.0, 0.0));
    assert_eq!(reflect(&v(0.0, -1.0, 0.0), &v(0.0, 1.0, 0.0)), v(0.0, 1.0, 0.0));
    assert_eq!(reflect(&v(1.0, 0.0, 0.0), &v(0.0, 1.0, 0.0)), v(1.0, 0.0, 0.0));
    assert_eq!(reflect(&v(0.5, -2.0, 3.0), &v(0.0, 0.0, 1.0)), v(0.5, -2.0, -3.0));
}

#[test]
fn refract_goes_straight_through_without_a_change_of_index() {
    assert_eq!(refract(&v(0.0, -1.0, 0.0), &v(0.0, 1.0, 0.0), fx(1.0)), v(0.0, -1.0, 0.0));
    let slanted = v(0.6, -0.8, 0.0);
    assert!(close(refract(&slanted, &v(0.0, 1.0, 0.0), fx(1.0)), (0.6, -0.8, 0.0), 1e-8));
}

#[test]
fn refract_obeys_snells_law() {
    // sin(theta) = 0.6 in air gives sin(theta') = 0.4 in glass of index 1.5.
    let out = refract(&v(0.6, -0.8, 0.0), &v(0.0, 1.0, 0.0), Fixed::one() / fx(1.5));
    assert!(close(out, (0.4, -(1.0f64 - 0.16).sqrt(), 0.0), 1e-8));
}

#[test]
fn reflectance_follows_schlick() {
    // r0 = ((1 - 1.5) / (1 + 1.5))^2 = 0.04
    assert!((as_f64(Dielectric::reflectance(fx(1.0), fx(1.5))) - 0.04).abs() < 1e-8);
    assert!((as_f64(Dielectric::reflectance(fx(0.0), fx(1.5))) - 1.0).abs() < 1e-8);
    let expected = 0.04 + 0.96 * 0.5f64.powi(5);
    assert!((as_f64(Dielectric::reflectance(fx(0.5), fx(1.5))) - expected).abs() < 1e-8);
    let inverse = (1.0f64 - 1.0 / 1.5) / (1.0 + 1.0 / 1.5);
    assert!((as_f64(Dielectric::reflectance(fx(1.0), Fixed::one() / fx(1.5))) - inverse * inverse).abs() < 1e-8);
}

#[test]
fn lambertian_scatters_along_normal_plus_unit_vector() {
    let albedo = v(0.1, 0.2, 0.3);
    let material = Lambertian(albedo);
    let r = Ray::new(v(0.0, 1.0, 0.0), v(0.0, -1.0, 0.0));
    let rec = floor_hit(&r, Material::Lambertian(material));
    let (scattered, attenuation) = material.scatter_with(&rec, v(1.0, 0.0, 0.0));
    assert_eq!(scattered.origin, rec.point);
    assert_eq!(scattered.direction, v(1.0, 1.0, 0.0));
    assert_eq!(attenuation, albedo);
}

#[test]
fn lambertian_falls_back_to_the_normal() {
    let material = Lambertian(v(0.1, 0.2, 0.3));
    let r = Ray::new(v(0.0, 1.0, 0.0), v(0.0, -1.0, 0.0));
    let rec = floor_hit(&r, Material::Lambertian(material));
    let (scattered, _) = material.scatter_with(&rec, v(0.0, -1.0, 0.0));
    assert_eq!(scattered.direction, v(0.0, 1.0, 0.0));
    let almost = Vec3(Fixed::from_raw(10), Fixed::from_raw(-4294967296 + 5), Fixed::from_raw(-10));
    let (scattered, _) = material.scatter_with(&rec, almost);
    assert_eq!(scattered.direction, v(0.0, 1.0, 0.0));
}

#[test]
fn lambertian_always_scatters() {
    let albedo = v(0.1, 0.2, 0.3);
    let material = Lambertian(albedo);
    let r = Ray::new(v(0.0, 1.0, 0.0), v(0.3, -1.0, 0.2));
    let rec = floor_hit(&r, Material::Lambertian(material));
    for seed in 0..50 {
        let mut rng = Sampler::seeded(seed);
        let (scattered, attenuation) = material.scatter(&r, &rec, &mut rng).unwrap();
        assert_eq!(attenuation, albedo);
        assert_eq!(scattered.origin, rec.point);
        assert!(!scattered.direction.near_zero());
        // normal + unit vector lies within distance one of the normal
        let off = scattered.direction - rec.normal;
        assert!(as_f64(off.length()) < 1.0 + 1e-6);
    }
}

#[test]
fn metal_without_fuzz_is_a_perfect_mirror() {
    let albedo = v(0.8, 0.6, 0.2);
    let material = Metal(albedo, fx(0.0));
    let r = Ray::new(v(-1.0, 1.0, 0.0), v(1.0, -1.0, 0.0).unit_vec3());
    let rec = floor_hit(&r, Material::Metal(material));
    let half = 0.5f64.sqrt();
    for sample in [v(0.0, 0.0, 0.0), v(0.3, -0.5, 0.1), v(-0.9, 0.0, 0.0)] {
        let (scattered, attenuation) = material.scatter_with(&r, &rec, sample).unwrap();
        assert!(close(scattered.direction, (half, half, 0.0), 1e-8));
        assert!(scattered.direction.dot(&rec.normal) > Fixed::zero());
        assert_eq!(scattered.origin, rec.point);
        assert_eq!(attenuation, albedo);
    }
    for seed in 0..20 {
        let mut rng = Sampler::seeded(seed);
        let (scattered, attenuation) = material.scatter(&r, &rec, &mut rng).unwrap();
        assert!(close(scattered.direction, (half, half, 0.0), 1e-8));
        assert_eq!(attenuation, albedo);
    }
}

#[test]
fn metal_normalizes_the_incoming_direction() {
    let material = Metal(v(0.8, 0.6, 0.2), fx(0.0));
    let r = Ray::new(v(-1.0, 1.0, 0.0), v(3.0, -3.0, 0.0));
    let rec = floor_hit(&r, Material::Metal(material));
    let (scattered, _) = material.scatter_with(&r, &rec, v(0.0, 0.0, 0.0)).unwrap();
    let half = 0.5f64.sqrt();
    assert!(close(scattered.direction, (half, half, 0.0), 1e-8));
}

#[test]
fn metal_fuzz_moves_the_reflection() {
    let material = Metal(v(0.8, 0.6, 0.2), fx(0.5));
    let r = Ray::new(v(0.0, 1.0, 0.0), v(0.0, -1.0, 0.0));
    let rec = floor_hit(&r, Material::Metal(material));
    let (scattered, _) = material.scatter_with(&r, &rec, v(0.5, 0.0, -0.25)).unwrap();
    assert_eq!(scattered.direction, v(0.25, 1.0, -0.125));
}

#[test]
fn metal_absorbs_a_ray_scattered_into_the_surface() {
    let material = Metal(v(0.8, 0.6, 0.2), fx(1.0));
    // A grazing ray: the reflection is almost in the surface.
    let r = Ray::new(v(-1.0, 0.001, 0.0), v(1.0, -0.001, 0.0).unit_vec3());
    let rec = floor_hit(&r, Material::Metal(material));
    assert!(material.scatter_with(&r, &rec, v(0.0, -0.5, 0.0)).is_none());
    assert!(material.scatter_with(&r, &rec, v(0.0, 0.5, 0.0)).is_some());
    // A reflection that lies exactly in the surface is absorbed too.
    let flat = Ray::new(v(-1.0, 0.0, 0.0), v(1.0, 0.0, 0.0));
    let rec = floor_hit(&flat, Material::Metal(material));
    assert!(material.scatter_with(&flat, &rec, v(0.0, 0.0, 0.0)).is_none());
}

#[test]
fn dielectric_beyond_the_critical_angle_always_reflects() {
    let glass = Dielectric(fx(1.5));
    // The ray leaves the glass: the outward normal points along it, so the
    // record is not a front face and the ratio of the indices is 1.5. The
    // sine of the angle of incidence is about 0.98, above 1 / 1.5.
    let r = Ray::new(v(-1.0, -0.2, 0.0), v(1.0, 0.2, 0.0));
    let rec = floor_hit(&r, Material::Dielectric(glass));
    assert!(!rec.front_face);
    assert!(glass.cannot_refract(&r, &rec));
    let mirrored = reflect(&r.direction.unit_vec3(), &rec.normal);
    for draw in [0.0, 0.25, 0.5, 0.75, 0.999999] {
        let (scattered, attenuation) = glass.scatter_with(&r, &rec, fx(draw));
        assert_eq!(scattered.direction, mirrored);
        assert_eq!(scattered.origin, rec.point);
        assert_eq!(attenuation, Vec3::ones());
    }
    for seed in 0..100 {
        let mut rng = Sampler::seeded(seed);
        let (scattered, attenuation) = glass.scatter(&r, &rec, &mut rng).unwrap();
        assert_eq!(scattered.direction, mirrored);
        assert_eq!(attenuation, Vec3::ones());
    }
    assert!(as_f64(mirrored.1) < 0.0);
}

#[test]
fn dielectric_refracts_or_reflects_by_the_draw() {
    let glass = Dielectric(fx(1.5));
    let r = Ray::new(v(0.0, 1.0, 0.0), v(0.0, -1.0, 0.0));
    let rec = floor_hit(&r, Material::Dielectric(glass));
    assert!(rec.front_face);
    assert!(!glass.cannot_refract(&r, &rec));
    assert!((as_f64(glass.refraction_ratio(&rec)) - 1.0 / 1.5).abs() < 1e-9);
    // At normal incidence the reflectance is 0.04.
    let (reflected, _) = glass.scatter_with(&r, &rec, fx(0.03));
    assert_eq!(reflected.direction, v(0.0, 1.0, 0.0));
    let (refracted, attenuation) = glass.scatter_with(&r, &rec, fx(0.05));
    assert!(close(refracted.direction, (0.0, -1.0, 0.0), 1e-8));
    assert_eq!(attenuation, Vec3::ones());
}

#[test]
fn dielectric_ratio_is_the_index_when_leaving() {
    let glass = Dielectric(fx(1.5));
    let r = Ray::new(v(0.0, -1.0, 0.0), v(0.0, 1.0, 0.0));
    let rec = floor_hit(&r, Material::Dielectric(glass));
    assert!(!rec.front_face);
    assert_eq!(glass.refraction_ratio(&rec), fx(1.5));
}

#[test]
fn dielectric_always_scatters_without_dimming() {
    let glass = Dielectric(fx(1.5));
    let r = Ray::new(v(-1.0, 1.0, 0.0), v(1.0, -1.0, 0.0));
    let rec = floor_hit(&r, Material::Dielectric(glass));
    let mut reflected = 0;
    let mut refracted = 0;
    for seed in 0..200 {
        let mut rng = Sampler::seeded(seed);
        let (scattered, attenuation) = glass.scatter(&r, &rec, &mut rng).unwrap();
        assert_eq!(attenuation, Vec3::ones());
        if scattered.direction.1 > Fixed::zero() {
            reflected += 1;
        } else {
            refracted += 1;
        }
    }
    assert!(refracted > reflected && reflected > 0);
}

#[test]
fn material_dispatches_to_its_variant() {
    let r = Ray::new(v(-1.0, 1.0, 0.0), v(1.0, -1.0, 0.0));
    let lambertian = Lambertian(v(0.1, 0.2, 0.3));
    let metal = Metal(v(0.8, 0.6, 0.2), fx(0.3));
    let glass = Dielectric(fx(1.5));
    for seed in 0..20 {
        let rec = floor_hit(&r, Material::Lambertian(lambertian));
        assert_eq!(
            Material::Lambertian(lambertian).scatter(&r, &rec, &mut Sampler::seeded(seed)),
            lambertian.scatter(&r, &rec, &mut Sampler::seeded(seed))
        );
        assert_eq!(
            Material::Metal(metal).scatter(&r, &rec, &mut Sampler::seeded(seed)),
            metal.scatter(&r, &rec, &mut Sampler::seeded(seed))
        );
        assert_eq!(
            Material::Dielectric(glass).scatter(&r, &rec, &mut Sampler::seeded(seed)),
            glass.scatter(&r, &rec, &mut Sampler::seeded(seed))
        );
    }
}
