use raytracer::scalar::{Fixed, RAW_MAX};
use raytracer::vec3::Vec3;

fn fx(x: f64) -> Fixed {
    Fixed::from_raw((x * 4294967296.0).round() as i64)
}

fn as_f64(x: Fixed) -> f64 {
    x.raw() as f64 / 4294967296.0
}

fn v(x: f64, y: f64, z: f64) -> Vec3 {
    Vec3(fx(x), fx(y), fx(z))
}

#[test]
fn default_is_the_zero_vector() {
    let zero: Vec3 = Default::default();
    assert_eq!(zero, Vec3::zero());
    assert_eq!(zero, v(0.0, 0.0, 0.0));
    assert_eq!(Vec3::ones(), v(1.0, 1.0, 1.0));
}

#[test]
fn componentwise_arithmetic() {
    let a = v(1.0, 2.0, 3.0);
    let b = v(0.5, -4.0, 8.0);
    assert_eq!(a + b, v(1.5, -2.0, 11.0));
    assert_eq!(a - b, v(0.5, 6.0, -5.0));
    assert_eq!(-a, v(-1.0, -2.0, -3.0));
    assert_eq!(a * b, v(0.5, -8.0, 24.0));
    assert_eq!(a * fx(2.0), v(2.0, 4.0, 6.0));
    assert_eq!(fx(2.0) * a, v(2.0, 4.0, 6.0));
    assert_eq!(a / fx(2.0), v(0.5, 1.0, 1.5));
}

#[test]
fn compound_assignment() {
    let mut a = v(1.0, 2.0, 3.0);
    a.add_assign(v(1.0, 1.0, 1.0));
    assert_eq!(a, v(2.0, 3.0, 4.0));
    a.mul_assign(fx(0.5));
    assert_eq!(a, v(1.0, 1.5, 2.0));
    a.div_assign(fx(0.25));
    assert_eq!(a, v(4.0, 6.0, 8.0));
}

#[test]
fn element_wise_product_is_not_the_dot_product() {
    let a = v(1.0, 2.0, 3.0);
    let b = v(4.0, 5.0, 6.0);
    assert_eq!(a * b, v(4.0, 10.0, 18.0));
    assert_eq!(a.dot(&b), fx(32.0));
}

#[test]
fn dot_and_cross_products() {
    let x = v(1.0, 0.0, 0.0);
    let y = v(0.0, 1.0, 0.0);
    let z = v(0.0, 0.0, 1.0);
    assert_eq!(x.dot(&y), Fixed::zero());
    assert_eq!(x.cross(&y), z);
    assert_eq!(y.cross(&z), x);
    assert_eq!(z.cross(&x), y);
    assert_eq!(y.cross(&x), -z);
    let a = v(1.0, 2.0, 3.0);
    let b = v(-2.0, 0.5, 4.0);
    assert_eq!(a.cross(&b), v(6.5, -10.0, 4.5));
    assert_eq!(a.dot(&b), b.dot(&a));
    assert_eq!(a.dot(&-b), -a.dot(&b));
}

#[test]
fn lengths() {
    let a = v(3.0, 4.0, 12.0);
    assert_eq!(a.length_squared(), fx(169.0));
    assert_eq!(a.length(), fx(13.0));
    assert_eq!(Vec3::zero().length(), Fixed::zero());
    assert!(v(0.3, -0.2, 0.1).length_squared() >= Fixed::zero());
}

#[test]
fn unit_vector_has_unit_length() {
    assert_eq!(v(0.0, 0.0, -2.0).unit_vec3(), v(0.0, 0.0, -1.0));
    assert_eq!(v(3.0, 4.0, 0.0).unit_vec3(), Vec3(Fixed::from_ratio(3, 5), Fixed::from_ratio(4, 5), Fixed::zero()));
    for a in [v(1.0, 1.0, 0.0), v(-0.3, 0.7, 2.5), v(100.0, -250.0, 3.0)] {
        assert!((as_f64(a.unit_vec3().length()) - 1.0).abs() < 1e-8);
    }
}

#[test]
fn normalizing_the_zero_vector_gives_the_zero_vector() {
    assert_eq!(Vec3::zero().unit_vec3(), Vec3::zero());
}

#[test]
fn length_squared_saturates() {
    let far = v(100000.0, 0.0, 0.0);
    assert_eq!(far.length_squared().raw(), RAW_MAX);
}

#[test]
fn near_zero_needs_every_component_small() {
    assert!(Vec3::zero().near_zero());
    assert!(Vec3(Fixed::from_raw(42), Fixed::from_raw(-42), Fixed::from_raw(1)).near_zero());
    assert!(!Vec3(Fixed::from_raw(43), Fixed::zero(), Fixed::zero()).near_zero());
    assert!(!Vec3(Fixed::zero(), Fixed::from_raw(-43), Fixed::zero()).near_zero());
    assert!(!Vec3(Fixed::zero(), Fixed::zero(), Fixed::from_raw(43)).near_zero());
    assert!(!v(0.0, 1.0, 0.0).near_zero());
}

#[test]
fn color_bytes_apply_gamma_and_clamp() {
    assert_eq!(v(1.0, 0.0, 0.25).color_bytes(1), (255, 0, 127));
    assert_eq!(v(4.0, 1.0, 0.0).color_bytes(4), (255, 127, 0));
    assert_eq!(v(-3.0, 100.0, 0.5).color_bytes(2), (0, 255, 127));
    assert_eq!(v(0.01, 0.04, 0.09).color_bytes(1), (25, 51, 76));
}

#[test]
fn color_str_writes_three_decimal_numbers() {
    assert_eq!(v(1.0, 0.0, 0.25).color_str(1), "255 0 127");
    assert_eq!(v(0.01, 0.04, 0.09).color_str(1), "25 51 76");
    assert_eq!(v(0.0, 0.0, 0.0).color_str(10), "0 0 0");
    assert_eq!(v(0.002, 0.2, 2.0).color_str(2), "8 80 255");
}

#[test]
fn color_str_without_samples_saturates() {
    assert_eq!(v(1.0, 0.0, -1.0).color_str(0), "255 0 0");
}

#[test]
fn unit_vector_is_within_the_proved_tolerance() {
    let scale = 1i128 << 32;
    for a in [
        v(1.0, 1.0, 0.0),
        v(-0.3, 0.7, 2.5),
        v(10.0, -2.5, 3.0),
        v(0.001, 0.002, -0.003),
        v(0.0, 0.0, 7.0),
        Vec3(Fixed::from_raw(70000), Fixed::from_raw(-140000), Fixed::from_raw(140000)),
    ] {
        let len = a.length().raw() as i128;
        assert!(len >= 1);
        let u = a.unit_vec3();
        let (x, y, z) = (u.0.raw() as i128, u.1.raw() as i128, u.2.raw() as i128);
        let excess = (x * x + y * y + z * z - scale * scale).abs();
        let taxicab = (a.0.raw() as i128).abs() + (a.1.raw() as i128).abs() + (a.2.raw() as i128).abs();
        let tolerance =
            scale * scale * (3 * scale + 2 * len) + 2 * scale * (len * taxicab) + 3 * (len * len);
        assert!(len * len * excess <= tolerance);
    }
}
