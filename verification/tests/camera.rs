use raytracer::camera::Camera;
use raytracer::ray::Ray;
use raytracer::sampler::Sampler;
use raytracer::scalar::Fixed;
use raytracer::vec3::Vec3;

fn fx(x: f64) -> Fixed {
    Fixed::from_raw((x * 4294967296.0).round() as i64)
}

fn as_f64(x: Fixed) -> f64 {
    x.raw() as f64 / 4294967296.0
}

fn v(x: f64, y: f64, z: f64) -> Vec3 {
    Vec3(fx(x), fx(y), fx(z))
}

fn close(a: Vec3, b: (f64, f64, f64), tolerance: f64) -> bool {
    (as_f64(a.0) - b.0).abs() < tolerance
        && (as_f64(a.1) - b.1).abs() < tolerance
        && (as_f64(a.2) - b.2).abs() < tolerance
}

fn pinhole() -> Camera {
    Camera::new(
        v(0.0, 0.0, 0.0),
        v(0.0, 0.0, -1.0),
        v(0.0, 1.0, 0.0),
        fx(90.0),
        fx(2.0),
        fx(0.0),
        fx(1.0),
    )
}

#[test]
fn camera_derives_its_frame_and_viewport() {
    let cam = pinhole();
    assert_eq!(cam.origin, v(0.0, 0.0, 0.0));
    assert_eq!(cam.u, v(1.0, 0.0, 0.0));
    assert_eq!(cam.v, v(0.0, 1.0, 0.0));
    assert_eq!(cam.lens_radius, Fixed::zero());
    // tan(45 degrees) = 1: the viewport is 2 high and 4 wide.
    assert!(close(cam.horizontal, (4.0, 0.0, 0.0), 1e-6));
    assert!(close(cam.vertical, (0.0, 2.0, 0.0), 1e-6));
    assert!(close(cam.lower_left_corner, (-2.0, -1.0, -1.0), 1e-6));
}

#[test]
fn camera_away_from_the_origin() {
    let cam = Camera::new(
        v(13.0, 2.0, 3.0),
        v(13.0, 2.0, -7.0),
        v(0.0, 1.0, 0.0),
        fx(130.0),
        fx(1.5),
        fx(0.5),
        fx(10.0),
    );
    let h = 65.0f64.to_radians().tan();
    assert_eq!(cam.origin, v(13.0, 2.0, 3.0));
    assert_eq!(cam.lens_radius, fx(0.25));
    assert!(close(cam.horizontal, (3.0 * h, 0.0, 0.0), 1e-5));
    assert!(close(cam.vertical, (0.0, 2.0 * h, 0.0), 1e-5));
    assert!(close(cam.lower_left_corner, (13.0 - 1.5 * h, 2.0 - h, -7.0), 1e-5));
}

#[test]
fn pinhole_rays_start_at_the_eye_and_aim_at_the_viewport() {
    let cam = pinhole();
    let mut rng = Sampler::seeded(1);
    let r = cam.get_ray(fx(0.5), fx(0.5), &mut rng);
    assert_eq!(r.origin, v(0.0, 0.0, 0.0));
    assert!(close(r.direction, (0.0, 0.0, -1.0), 1e-6));
    let r = cam.get_ray(fx(0.0), fx(0.0), &mut rng);
    assert!(close(r.direction, (-2.0, -1.0, -1.0), 1e-6));
    let r = cam.get_ray(fx(1.0), fx(1.0), &mut rng);
    assert!(close(r.direction, (2.0, 1.0, -1.0), 1e-6));
    let r = cam.get_ray(fx(0.75), fx(0.25), &mut rng);
    assert!(close(r.direction, (1.0, -0.5, -1.0), 1e-6));
}

#[test]
fn lens_moves_the_origin_and_keeps_the_target() {
    let cam = Camera::new(
        v(0.0, 0.0, 0.0),
        v(0.0, 0.0, -1.0),
        v(0.0, 1.0, 0.0),
        fx(90.0),
        fx(2.0),
        fx(2.0),
        fx(1.0),
    );
    assert_eq!(cam.lens_radius, fx(1.0));
    let r = cam.ray_through(fx(0.5), fx(0.5), v(0.5, -0.25, 0.0));
    assert_eq!(r.origin, v(0.5, -0.25, 0.0));
    let target = r.origin + r.direction;
    assert!(close(target, (0.0, 0.0, -1.0), 1e-6));
    assert_eq!(
        r,
        Ray::new(
            v(0.5, -0.25, 0.0),
            cam.lower_left_corner + cam.horizontal * fx(0.5) + cam.vertical * fx(0.5)
                - v(0.5, -0.25, 0.0)
        )
    );
}

#[test]
fn get_ray_leaves_the_lens_at_a_sample_of_the_disk() {
    let cam = Camera::new(
        v(1.0, 2.0, 3.0),
        v(0.0, 0.0, 0.0),
        v(0.0, 1.0, 0.0),
        fx(40.0),
        fx(1.5),
        fx(0.5),
        fx(3.0),
    );
    for seed in 0..50 {
        let mut rng = Sampler::seeded(seed);
        let mut samples = Sampler::seeded(seed);
        let r = cam.get_ray(fx(0.3), fx(0.6), &mut rng);
        let sample = Vec3::random_in_unit_disk(&mut samples);
        assert_eq!(r, cam.ray_through(fx(0.3), fx(0.6), sample));
        assert!(as_f64((r.origin - cam.origin).length()) <= 0.25 + 1e-6);
        assert_eq!(rng.next_u64(), samples.next_u64());
    }
}
