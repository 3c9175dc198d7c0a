//! How far rounding can move the point of a hit off the sphere.

use vstd::prelude::*;
use crate::hittable::{HitRecord, Hittable};
use crate::ray::Ray;
use crate::scalar::{floor_sqrt, lemma_floor_sqrt_exists, quotient, Fixed, RAW_MAX, SCALE};
use crate::sphere::Sphere;
use crate::vec3::Vec3;

verus! {

/// The magnitude of an integer.
pub open spec fn magnitude(x: int) -> int {
    if x < 0 {
        -x
    } else {
        x
    }
}

/// One component of the squared distance, before and after rounding: with
/// `k = 2^32`, `w = o + e` and `rho = d t - k e`,
/// `k^2 w^2 + 2 k w rho + rho^2 = k^2 o^2 + 2 k (o d) t + d^2 t^2`,
/// both sides being the square of `k o + d t`.
proof fn lemma_component(o: int, d: int, e: int, t: int)
    ensures
        18446744073709551616 * ((o + e) * (o + e)) + 8589934592 * ((o + e) * (d * t - 4294967296
            * e)) + (d * t - 4294967296 * e) * (d * t - 4294967296 * e) == 18446744073709551616
            * (o * o) + 8589934592 * ((o * d) * t) + (d * d) * (t * t),
{
    let w = o + e;
    let y = d * t;
    let rho = y - 4294967296 * e;
    let kw = 4294967296 * w;
    let x = 4294967296 * o;
    let v = x + y;
    assert(v == kw + rho);
    assert(v * v == kw * kw + 2 * (kw * rho) + rho * rho) by (nonlinear_arith)
        requires
            v == kw + rho,
    ;
    assert(kw * kw == 18446744073709551616 * (w * w)) by (nonlinear_arith)
        requires
            kw == 4294967296 * w,
    ;
    assert(kw * rho == 4294967296 * (w * rho)) by (nonlinear_arith)
        requires
            kw == 4294967296 * w,
    ;
    assert(v * v == x * x + 2 * (x * y) + y * y) by (nonlinear_arith)
        requires
            v == x + y,
    ;
    assert(x * x == 18446744073709551616 * (o * o)) by (nonlinear_arith)
        requires
            x == 4294967296 * o,
    ;
    assert(x * y == 4294967296 * ((o * d) * t)) by (nonlinear_arith)
        requires
            x == 4294967296 * o,
            y == d * t,
    ;
    assert(y * y == (d * d) * (t * t)) by (nonlinear_arith)
        requires
            y == d * t,
    ;
}

/// `(p0 + p1 + p2) t = p0 t + p1 t + p2 t`.
proof fn lemma_distribute(p0: int, p1: int, p2: int, t: int)
    ensures
        (p0 + p1 + p2) * t == p0 * t + p1 * t + p2 * t,
{
    assert((p0 + p1 + p2) * t == p0 * t + p1 * t + p2 * t) by (nonlinear_arith);
}

/// A product is bounded by the product of the bounds.
proof fn lemma_product_bound(x: int, y: int, bx: int, by: int)
    requires
        magnitude(x) <= bx,
        magnitude(y) <= by,
    ensures
        magnitude(x * y) <= bx * by,
{
    assert(-(bx * by) <= x * y <= bx * by) by (nonlinear_arith)
        requires
            -bx <= x <= bx,
            -by <= y <= by,
    ;
}

/// The computed quadratic `a t^2 + 2 k hb t + k^2 c` (with `k = 2^32`) at the
/// computed root `t`: it vanishes up to rounding.
///
/// `beta`, `sigma` and `tau` are the rounding errors of the discriminant, of
/// its square root and of the quotient that gives the root; `root_sign` is the
/// square root with the sign of the chosen root.
proof fn lemma_quadratic_at_root(
    a: int,
    hb: int,
    c: int,
    disc: int,
    s: int,
    root_sign: int,
    t: int,
)
    requires
        2 * a >= 4294967296,
        magnitude(hb * hb - a * c - 4294967296 * disc) < 8589934592,
        0 <= s,
        0 <= 4294967296 * disc - s * s <= 2 * s,
        root_sign == s || root_sign == -s,
        magnitude((root_sign - hb) * 4294967296 - a * t) < a,
    ensures
        magnitude(a * (t * t) + 8589934592 * (hb * t) + 18446744073709551616 * c) <= 25769803776
            * s + a + 73786976294838206464,
{
    let tt = t * t;
    let hbt = hb * t;
    let g = a * tt + 8589934592 * hbt + 18446744073709551616 * c;
    let z = a * t;
    let ac = a * c;
    let hh = hb * hb;
    let beta = hh - ac - 4294967296 * disc;
    let sigma = 4294967296 * disc - s * s;
    let tau = (root_sign - hb) * 4294967296 - z;
    let u = z + 4294967296 * hb;

    assert(a * hbt == z * hb) by (nonlinear_arith)
        requires
            z == a * t,
            hbt == hb * t,
    ;
    assert(a * g == a * (a * tt) + 8589934592 * (a * hbt) + 18446744073709551616 * ac)
        by (nonlinear_arith)
        requires
            g == a * tt + 8589934592 * hbt + 18446744073709551616 * c,
            ac == a * c,
    ;
    assert(a * (a * tt) == z * z) by (nonlinear_arith)
        requires
            z == a * t,
            tt == t * t,
    ;
    assert(u * u == z * z + 8589934592 * (z * hb) + 18446744073709551616 * hh)
        by (nonlinear_arith)
        requires
            u == z + 4294967296 * hb,
            hh == hb * hb,
    ;
    // u = k * root_sign - tau
    assert(u == 4294967296 * root_sign - tau);
    let kt = root_sign * tau;
    assert(u * u == 18446744073709551616 * (root_sign * root_sign) - 8589934592 * kt + tau * tau)
        by (nonlinear_arith)
        requires
            u == 4294967296 * root_sign - tau,
            kt == root_sign * tau,
    ;
    assert(root_sign * root_sign == s * s) by (nonlinear_arith)
        requires
            root_sign == s || root_sign == -s,
    ;
    let ag = a * g;
    assert(ag == tau * tau - 8589934592 * kt - 18446744073709551616 * (sigma + beta));
    lemma_product_bound(root_sign, tau, s, a);
    lemma_product_bound(tau, tau, a, a);
    let bound = 25769803776 * s + a + 73786976294838206464;
    // k^2 (2 s + 2 k) <= 2 a k (2 s + 2 k)
    let spare = 4294967296 * (2 * s + 8589934592);
    assert(4294967296 * spare <= 2 * a * spare) by (nonlinear_arith)
        requires
            2 * a >= 4294967296,
            spare >= 0,
    ;
    assert(a * bound == 25769803776 * (s * a) + a * a + a * 73786976294838206464)
        by (nonlinear_arith)
        requires
            bound == 25769803776 * s + a + 73786976294838206464,
    ;
    assert(2 * a * spare == 17179869184 * (s * a) + a * 73786976294838206464) by (nonlinear_arith)
        requires
            spare == 4294967296 * (2 * s + 8589934592),
    ;
    assert(magnitude(ag) <= a * bound);
    assert(magnitude(g) <= bound) by (nonlinear_arith)
        requires
            ag == a * g,
            magnitude(ag) <= a * bound,
            a > 0,
    ;
}

/// The squared distance of the rounded point `o + e` from the centre, against
/// the squared radius `r2`: they differ by the value of the computed quadratic
/// and by the rounding errors of its coefficients and of the point. All
/// values are raw, `o` is the origin less the centre, `d` the direction, `t`
/// the root, `e` the rounded step `d t / 2^32`, and `quadratic` bounds the
/// computed quadratic at `t`.
proof fn lemma_defect(
    o: (int, int, int),
    d: (int, int, int),
    e: (int, int, int),
    r2: int,
    a: int,
    hb: int,
    c: int,
    t: int,
    quadratic: int,
)
    requires
        0 <= d.0 * d.0 + d.1 * d.1 + d.2 * d.2 - 4294967296 * a < 12884901888,
        magnitude(o.0 * d.0 + o.1 * d.1 + o.2 * d.2 - 4294967296 * hb) < 12884901888,
        -4294967296 < o.0 * o.0 + o.1 * o.1 + o.2 * o.2 - r2 - 4294967296 * c < 12884901888,
        magnitude(d.0 * t - 4294967296 * e.0) < 4294967296,
        magnitude(d.1 * t - 4294967296 * e.1) < 4294967296,
        magnitude(d.2 * t - 4294967296 * e.2) < 4294967296,
        magnitude(a * (t * t) + 8589934592 * (hb * t) + 18446744073709551616 * c) <= quadratic,
    ensures
        4294967296 * magnitude(
            (o.0 + e.0) * (o.0 + e.0) + (o.1 + e.1) * (o.1 + e.1) + (o.2 + e.2) * (o.2 + e.2) - r2,
        ) <= quadratic + 3 * (t * t) + 4294967296 * (6 * magnitude(t) + 2 * (magnitude(o.0 + e.0)
            + magnitude(o.1 + e.1) + magnitude(o.2 + e.2)) + 12884901888 + 3),
{
    let tt = t * t;
    let hbt = hb * t;
    let g = a * tt + 8589934592 * hbt + 18446744073709551616 * c;
    let (w0, w1, w2) = (o.0 + e.0, o.1 + e.1, o.2 + e.2);
    let (p0, p1, p2) = (
        d.0 * t - 4294967296 * e.0,
        d.1 * t - 4294967296 * e.1,
        d.2 * t - 4294967296 * e.2,
    );
    let dd = d.0 * d.0 + d.1 * d.1 + d.2 * d.2;
    let od = o.0 * d.0 + o.1 * d.1 + o.2 * d.2;
    let oo = o.0 * o.0 + o.1 * o.1 + o.2 * o.2;
    let ww = w0 * w0 + w1 * w1 + w2 * w2;
    let wp = w0 * p0 + w1 * p1 + w2 * p2;
    let pp = p0 * p0 + p1 * p1 + p2 * p2;
    let alpha = dd - 4294967296 * a;
    let eta = od - 4294967296 * hb;
    let gamma = oo - r2 - 4294967296 * c;

    lemma_component(o.0, d.0, e.0, t);
    lemma_component(o.1, d.1, e.1, t);
    lemma_component(o.2, d.2, e.2, t);
    lemma_distribute(o.0 * d.0, o.1 * d.1, o.2 * d.2, t);
    lemma_distribute(d.0 * d.0, d.1 * d.1, d.2 * d.2, tt);
    assert(18446744073709551616 * ww + 8589934592 * wp + pp == 18446744073709551616 * oo
        + 8589934592 * (od * t) + dd * tt);
    let eta_t = eta * t;
    let alpha_tt = alpha * tt;
    assert(od * t == 4294967296 * hbt + eta_t) by (nonlinear_arith)
        requires
            od == 4294967296 * hb + eta,
            hbt == hb * t,
            eta_t == eta * t,
    ;
    assert(dd * tt == 4294967296 * (a * tt) + alpha_tt) by (nonlinear_arith)
        requires
            dd == 4294967296 * a + alpha,
            alpha_tt == alpha * tt,
    ;
    // k^2 (ww - r2) = k g + k^2 gamma + 2 k eta t + alpha t^2 - 2 k wp - pp
    assert(18446744073709551616 * (ww - r2) == 4294967296 * g + 18446744073709551616 * gamma
        + 8589934592 * eta_t + alpha_tt - 8589934592 * wp - pp);
    lemma_product_bound(eta, t, 12884901888, magnitude(t));
    assert(0 <= tt) by (nonlinear_arith)
        requires
            tt == t * t,
    ;
    assert(0 <= alpha_tt <= 12884901888 * tt) by (nonlinear_arith)
        requires
            alpha_tt == alpha * tt,
            0 <= alpha < 12884901888,
            0 <= tt,
    ;
    lemma_product_bound(w0, p0, magnitude(w0), 4294967296);
    lemma_product_bound(w1, p1, magnitude(w1), 4294967296);
    lemma_product_bound(w2, p2, magnitude(w2), 4294967296);
    lemma_product_bound(p0, p0, 4294967296, 4294967296);
    lemma_product_bound(p1, p1, 4294967296, 4294967296);
    lemma_product_bound(p2, p2, 4294967296, 4294967296);
    assert(magnitude(wp) <= 4294967296 * (magnitude(w0) + magnitude(w1) + magnitude(w2))) by {
        assert(magnitude(w0) * 4294967296 == 4294967296 * magnitude(w0));
        assert(magnitude(w1) * 4294967296 == 4294967296 * magnitude(w1));
        assert(magnitude(w2) * 4294967296 == 4294967296 * magnitude(w2));
    }
    assert(0 <= pp <= 3 * 18446744073709551616) by {
        assert(p0 * p0 >= 0) by (nonlinear_arith);
        assert(p1 * p1 >= 0) by (nonlinear_arith);
        assert(p2 * p2 >= 0) by (nonlinear_arith);
        assert(4294967296int * 4294967296 == 18446744073709551616);
    }
}

/// Rounding toward zero loses less than one unit of the divisor, never gains
/// magnitude, and rounds a dividend that is not negative downward.
pub proof fn lemma_quotient_error(n: int, d: int)
    requires
        d > 0,
    ensures
        magnitude(n - d * quotient(n, d)) < d,
        n >= 0 ==> 0 <= n - d * quotient(n, d),
        n >= 0 ==> quotient(n, d) >= 0,
        magnitude(d * quotient(n, d)) <= magnitude(n),
{
    if n >= 0 {
        vstd::arithmetic::div_mod::lemma_fundamental_div_mod(n, d);
        vstd::arithmetic::div_mod::lemma_mod_bound(n, d);
        vstd::arithmetic::div_mod::lemma_div_pos_is_pos(n, d);
        assert(d * (n / d) >= 0) by (nonlinear_arith)
            requires
                d > 0,
                n / d >= 0,
        ;
    } else {
        vstd::arithmetic::div_mod::lemma_fundamental_div_mod(-n, d);
        vstd::arithmetic::div_mod::lemma_mod_bound(-n, d);
        vstd::arithmetic::div_mod::lemma_div_pos_is_pos(-n, d);
        let q = (-n) / d;
        assert(d * (-q) == -(d * q)) by (nonlinear_arith);
        assert(d * q >= 0) by (nonlinear_arith)
            requires
                d > 0,
                q >= 0,
        ;
    }
}

/// The magnitude of a rounded quotient by the scale, from a bound on the
/// dividend.
pub proof fn lemma_scaled_quotient_bound(n: int, bound: int)
    requires
        magnitude(n) <= 4294967296 * bound,
    ensures
        magnitude(quotient(n, 4294967296)) <= bound,
{
    lemma_quotient_error(n, 4294967296);
}

/// A product of two numbers loses less than one raw unit to rounding, where
/// it does not saturate.
pub proof fn lemma_mul_rounding(x: Fixed, y: Fixed, bx: int, by: int, bound: int)
    requires
        magnitude(x@) <= bx,
        magnitude(y@) <= by,
        bx * by <= 4294967296 * bound,
        bound <= RAW_MAX,
    ensures
        magnitude(x@ * y@ - 4294967296 * x.spec_mul(y)@) < 4294967296,
        x@ * y@ >= 0 ==> 0 <= x@ * y@ - 4294967296 * x.spec_mul(y)@,
        x@ * y@ >= 0 ==> x.spec_mul(y)@ >= 0,
        magnitude(x.spec_mul(y)@) <= bound,
{
    lemma_product_bound(x@, y@, bx, by);
    lemma_quotient_error(x@ * y@, 4294967296);
    lemma_scaled_quotient_bound(x@ * y@, bound);
    Fixed::lemma_of(quotient(x@ * y@, SCALE as int));
}

/// A dot product loses less than three raw units to rounding, where it does
/// not saturate.
pub proof fn lemma_dot_rounding(x: Vec3, y: Vec3, bx: int, by: int, bound: int)
    requires
        magnitude(x.0@) <= bx,
        magnitude(x.1@) <= bx,
        magnitude(x.2@) <= bx,
        magnitude(y.0@) <= by,
        magnitude(y.1@) <= by,
        magnitude(y.2@) <= by,
        bx * by <= 4294967296 * bound,
        0 <= bound,
        3 * bound <= RAW_MAX,
    ensures
        magnitude(x.0@ * y.0@ + x.1@ * y.1@ + x.2@ * y.2@ - 4294967296 * x.spec_dot(y)@)
            < 12884901888,
        x == y ==> 0 <= x.0@ * y.0@ + x.1@ * y.1@ + x.2@ * y.2@ - 4294967296 * x.spec_dot(y)@,
        x == y ==> x.spec_dot(y)@ >= 0,
        magnitude(x.spec_dot(y)@) <= 3 * bound,
{
    lemma_mul_rounding(x.0, y.0, bx, by, bound);
    lemma_mul_rounding(x.1, y.1, bx, by, bound);
    lemma_mul_rounding(x.2, y.2, bx, by, bound);
    let m0 = x.0.spec_mul(y.0);
    let m1 = x.1.spec_mul(y.1);
    let m2 = x.2.spec_mul(y.2);
    Fixed::lemma_of(m0@ + m1@);
    Fixed::lemma_of(m0.spec_add(m1)@ + m2@);
    if x == y {
        assert(x.0@ * y.0@ >= 0) by (nonlinear_arith)
            requires
                x.0@ == y.0@,
        ;
        assert(x.1@ * y.1@ >= 0) by (nonlinear_arith)
            requires
                x.1@ == y.1@,
        ;
        assert(x.2@ * y.2@ >= 0) by (nonlinear_arith)
            requires
                x.2@ == y.2@,
        ;
    }
}

/// The raw value of one thousand, the size up to which accuracy is proved.
pub const LIMIT: i64 = 4294967296000;

/// Every component of `v` is at most `bound` in magnitude.
pub open spec fn within(v: Vec3, bound: int) -> bool {
    magnitude(v.0@) <= bound && magnitude(v.1@) <= bound && magnitude(v.2@) <= bound
}

/// The squared distance of `p` from `center`, in squared raw units.
pub open spec fn squared_distance(p: Vec3, center: Vec3) -> int {
    (p.0@ - center.0@) * (p.0@ - center.0@) + (p.1@ - center.1@) * (p.1@ - center.1@) + (p.2@
        - center.2@) * (p.2@ - center.2@)
}

/// The sum of the magnitudes of the components of `p - center`.
pub open spec fn taxicab_distance(p: Vec3, center: Vec3) -> int {
    magnitude(p.0@ - center.0@) + magnitude(p.1@ - center.1@) + magnitude(p.2@ - center.2@)
}

impl Sphere {
    /// The sphere and the ray are of moderate size: the coordinates of the
    /// origin and of the centre and the radius are at most 1000 in magnitude,
    /// the components of the direction at most one, and the squared length of
    /// the direction, as computed, at least one half.
    pub open spec fn moderate(self, r: Ray) -> bool {
        &&& within(r.origin, LIMIT as int)
        &&& within(self.center, LIMIT as int)
        &&& within(r.direction, SCALE as int)
        &&& magnitude(self.radius@) <= LIMIT
        &&& 2 * self.spec_a(r)@ >= SCALE
    }

    /// How far, at most, the squared distance of the point of the hit `h`
    /// from the centre is off the squared radius, in squared raw units times
    /// the scale: with `t` the ray parameter, `s` the square root of the
    /// discriminant and `w` the point less the centre, all as real numbers
    /// and with `u = 2^-32`, the squared distance is off by at most about
    /// `u (3 t^2 + 6 |t| + 6 s + 2 (|w.x| + |w.y| + |w.z|) + 7)`.
    pub open spec fn spec_surface_tolerance(self, r: Ray, h: HitRecord) -> int {
        3 * (h.t@ * h.t@) + SCALE * (6 * self.spec_discriminant(r).spec_sqrt()@ + 6 * magnitude(
            h.t@,
        ) + 2 * taxicab_distance(h.point, self.center) + 7 * SCALE + 3) + self.spec_a(r)@
    }

    /// The point of a hit lies on the sphere up to rounding: for a sphere and
    /// a ray of moderate size, the squared distance of the point from the
    /// centre differs from the squared radius by no more than the tolerance.
    pub proof fn lemma_hit_point_near_surface(self, r: Ray, t: (Fixed, Fixed))
        requires
            self.moderate(r),
        ensures
            self.spec_hit(r, t) matches Some(h) ==> SCALE * magnitude(
                squared_distance(h.point, self.center) - self.radius@ * self.radius@,
            ) <= self.spec_surface_tolerance(r, h),
            self.spec_hit(r, t) matches Some(h) ==> magnitude(h.t@) <= 128849018880000,
    {
        broadcast use Fixed::lemma_of;

        if let Some(root) = self.spec_root(r, t) {
            let h = self.spec_record(r, root);
            let origin = r.origin;
            let center = self.center;
            let dir = r.direction;
            let oc = origin.spec_sub(center);
            assert(oc.0@ == origin.0@ - center.0@);
            assert(oc.1@ == origin.1@ - center.1@);
            assert(oc.2@ == origin.2@ - center.2@);
            let a = self.spec_a(r);
            let hb = self.spec_half_b(r);
            let c = self.spec_c(r);
            let disc = self.spec_discriminant(r);
            let s = disc.spec_sqrt();
            // the coefficients
            lemma_dot_rounding(dir, dir, 4294967296, 4294967296, 4294967296);
            lemma_dot_rounding(oc, dir, 8589934592000, 4294967296, 8589934592000);
            lemma_dot_rounding(oc, oc, 8589934592000, 8589934592000, 17179869184000000);
            lemma_mul_rounding(self.radius, self.radius, 4294967296000, 4294967296000, 4294967296000000);
            assert(self.radius@ * self.radius@ >= 0) by (nonlinear_arith);
            let oo = oc.spec_length_squared();
            let rr = self.radius.spec_mul(self.radius);
            assert(c@ == oo@ - rr@);
            // the discriminant
            lemma_mul_rounding(hb, hb, 25769803776000, 25769803776000, 154618822656000000);
            assert(hb@ * hb@ >= 0) by (nonlinear_arith);
            lemma_mul_rounding(a, c, 12884901888, 55834574848000000, 167503724544000000);
            let p = hb.spec_mul(hb);
            let q = a.spec_mul(c);
            assert(disc@ == p@ - q@);
            assert(disc@ >= 0);
            // its square root
            assert(0 <= s@ && 0 <= 4294967296 * disc@ - s@ * s@ <= 2 * s@ && s@ <= 38654705664000) by {
                if disc@ > 0 {
                    let n = disc@ * SCALE;
                    assert(n == 4294967296 * disc@);
                    lemma_floor_sqrt_exists(n);
                    let f = floor_sqrt(n);
                    assert((f + 1) * (f + 1) == f * f + 2 * f + 1) by (nonlinear_arith);
                    if f > 38654705664000 {
                        assert(f * f >= 1494186269970473680896000000) by (nonlinear_arith)
                            requires
                                f > 38654705664000,
                        ;
                    }
                } else {
                    assert(s@ * s@ == 0) by (nonlinear_arith)
                        requires
                            s@ == 0,
                    ;
                }
            }
            // the root
            let minus_b = hb.spec_neg();
            assert(minus_b@ == -hb@);
            let sign: int = if root == self.spec_near_root(r) {
                -s@
            } else {
                s@
            };
            let numerator: Fixed = if root == self.spec_near_root(r) {
                minus_b.spec_sub(s)
            } else {
                minus_b.spec_add(s)
            };
            assert(numerator@ == sign - hb@);
            assert(root == numerator.spec_div(a));
            lemma_quotient_error(numerator@ * SCALE, a@);
            let exact = quotient(numerator@ * SCALE, a@);
            assert(magnitude(exact) <= 2 * magnitude(numerator@)) by (nonlinear_arith)
                requires
                    magnitude(a@ * exact) <= magnitude(numerator@ * SCALE),
                    2 * a@ >= SCALE,
                    SCALE == 4294967296,
            ;
            assert(root@ == exact);
            assert(magnitude(root@) <= 128849018880000);
            assert(numerator@ * SCALE == (sign - hb@) * 4294967296);
            // the point
            lemma_mul_rounding(dir.0, root, 4294967296, 128849018880000, 128849018880000);
            lemma_mul_rounding(dir.1, root, 4294967296, 128849018880000, 128849018880000);
            lemma_mul_rounding(dir.2, root, 4294967296, 128849018880000, 128849018880000);
            let step = dir.spec_scale(root);
            assert(h.point == origin.spec_add(step));
            assert(h.point.0@ - center.0@ == oc.0@ + step.0@);
            assert(h.point.1@ - center.1@ == oc.1@ + step.1@);
            assert(h.point.2@ - center.2@ == oc.2@ + step.2@);
            let bound = 25769803776 * s@ + a@ + 73786976294838206464;
            lemma_quadratic_at_root(a@, hb@, c@, disc@, s@, sign, root@);
            lemma_defect(
                (oc.0@, oc.1@, oc.2@),
                (dir.0@, dir.1@, dir.2@),
                (step.0@, step.1@, step.2@),
                self.radius@ * self.radius@,
                a@,
                hb@,
                c@,
                root@,
                bound,
            );
        }
    }

    /// How far, at most, the squared length of the normal of the hit `h` is
    /// off one, in raw units to the fourth power times the squared radius.
    pub open spec fn spec_normal_tolerance(self, r: Ray, h: HitRecord) -> int {
        SCALE * self.spec_surface_tolerance(r, h) + 2 * SCALE * (magnitude(self.radius@)
            * taxicab_distance(h.point, self.center)) + 3 * (self.radius@ * self.radius@)
    }

    /// The normal of a hit has unit length up to rounding: for a sphere and a
    /// ray of moderate size, and a radius of at least `2^-16` in magnitude,
    /// the squared length of the normal, times the squared radius, differs
    /// from the squared radius by no more than the tolerance.
    pub proof fn lemma_hit_normal_near_unit(self, r: Ray, t: (Fixed, Fixed))
        requires
            self.moderate(r),
            magnitude(self.radius@) >= 65536,
        ensures
            self.spec_hit(r, t) matches Some(h) ==> (self.radius@ * self.radius@) * magnitude(
                h.normal.0@ * h.normal.0@ + h.normal.1@ * h.normal.1@ + h.normal.2@ * h.normal.2@
                    - SCALE * SCALE,
            ) <= self.spec_normal_tolerance(r, h),
    {
        broadcast use Fixed::lemma_of;

        if let Some(root) = self.spec_root(r, t) {
            let h = self.spec_record(r, root);
            self.lemma_hit_point_near_surface(r, t);
            self.lemma_hit_point_bounded(r, t);
            let rad = self.radius@;
            let center = self.center;
            let w = h.point.spec_sub(center);
            assert(w.0@ == h.point.0@ - center.0@);
            assert(w.1@ == h.point.1@ - center.1@);
            assert(w.2@ == h.point.2@ - center.2@);
            let outward = self.spec_outward_normal(h.point);
            assert(outward == w.spec_div(self.radius));
            lemma_div_rounding(w.0, self.radius, 137438953472000);
            lemma_div_rounding(w.1, self.radius, 137438953472000);
            lemma_div_rounding(w.2, self.radius, 137438953472000);
            let n = h.normal;
            assert(n == outward || n == outward.spec_neg());
            assert(n.0@ * n.0@ == outward.0@ * outward.0@) by (nonlinear_arith)
                requires
                    n.0@ == outward.0@ || n.0@ == -outward.0@,
            ;
            assert(n.1@ * n.1@ == outward.1@ * outward.1@) by (nonlinear_arith)
                requires
                    n.1@ == outward.1@ || n.1@ == -outward.1@,
            ;
            assert(n.2@ * n.2@ == outward.2@ * outward.2@) by (nonlinear_arith)
                requires
                    n.2@ == outward.2@ || n.2@ == -outward.2@,
            ;
            lemma_normal_defect(
                (w.0@, w.1@, w.2@),
                (outward.0@, outward.1@, outward.2@),
                rad,
                self.spec_surface_tolerance(r, h),
            );
            assert(SCALE * SCALE == 18446744073709551616);
        }
    }

    /// For a sphere and a ray of moderate size, the ray parameter of a hit is
    /// at most 30000 in magnitude.
    pub proof fn lemma_root_bounded(self, r: Ray, t: (Fixed, Fixed))
        requires
            self.moderate(r),
        ensures
            self.spec_root(r, t) matches Some(root) ==> magnitude(root@) <= 128849018880000,
    {
        self.lemma_hit_point_near_surface(r, t);
    }

    /// For a sphere and a ray of moderate size, the point of a hit is at most
    /// 32000 from the centre along each axis.
    pub proof fn lemma_hit_point_bounded(self, r: Ray, t: (Fixed, Fixed))
        requires
            self.moderate(r),
        ensures
            self.spec_hit(r, t) matches Some(h) ==> {
                &&& magnitude(h.point.0@ - self.center.0@) <= 137438953472000
                &&& magnitude(h.point.1@ - self.center.1@) <= 137438953472000
                &&& magnitude(h.point.2@ - self.center.2@) <= 137438953472000
            },
    {
        broadcast use Fixed::lemma_of;

        if let Some(root) = self.spec_root(r, t) {
            self.lemma_root_bounded(r, t);
            let dir = r.direction;
            lemma_mul_rounding(dir.0, root, 4294967296, 128849018880000, 128849018880000);
            lemma_mul_rounding(dir.1, root, 4294967296, 128849018880000, 128849018880000);
            lemma_mul_rounding(dir.2, root, 4294967296, 128849018880000, 128849018880000);
        }
    }
}

/// A quotient of two numbers loses less than one unit of the divisor to
/// rounding, where it does not saturate.
pub proof fn lemma_div_rounding(x: Fixed, d: Fixed, bound: int)
    requires
        magnitude(x@) <= bound,
        magnitude(d@) >= 1,
        4294967296 * bound <= magnitude(d@) * RAW_MAX,
    ensures
        magnitude(x@ * 4294967296 - d@ * x.spec_div(d)@) < magnitude(d@),
{
    let n = x@ * SCALE;
    assert(n == x@ * 4294967296);
    let m = magnitude(d@);
    lemma_quotient_error(n, m);
    lemma_quotient_error(-n, m);
    let q = quotient(n, d@);
    assert(magnitude(q) <= RAW_MAX) by (nonlinear_arith)
        requires
            magnitude(m * q) <= magnitude(n),
            magnitude(n) <= 4294967296 * bound,
            4294967296 * bound <= m * RAW_MAX,
            m >= 1,
    ;
    Fixed::lemma_of(q);
    if d@ < 0 {
        assert(d@ * q == -(m * q)) by (nonlinear_arith)
            requires
                m == -d@,
        ;
        assert(m * (-quotient(n, m)) == -(m * quotient(n, m))) by (nonlinear_arith);
        assert(m * (-quotient(-n, m)) == -(m * quotient(-n, m))) by (nonlinear_arith);
    }
}

/// The squared length of the rounded normal `n = w 2^32 / rad`, times the
/// squared radius.
proof fn lemma_normal_defect(w: (int, int, int), n: (int, int, int), rad: int, tolerance: int)
    requires
        magnitude(w.0 * 4294967296 - rad * n.0) < magnitude(rad),
        magnitude(w.1 * 4294967296 - rad * n.1) < magnitude(rad),
        magnitude(w.2 * 4294967296 - rad * n.2) < magnitude(rad),
        4294967296 * magnitude(w.0 * w.0 + w.1 * w.1 + w.2 * w.2 - rad * rad) <= tolerance,
    ensures
        (rad * rad) * magnitude(n.0 * n.0 + n.1 * n.1 + n.2 * n.2 - 18446744073709551616)
            <= 4294967296 * tolerance + 8589934592 * (magnitude(rad) * (magnitude(w.0) + magnitude(
            w.1,
        ) + magnitude(w.2))) + 3 * (rad * rad),
{
    let m = magnitude(rad);
    let rr = rad * rad;
    assert(rr == m * m && rr >= 0) by (nonlinear_arith)
        requires
            rr == rad * rad,
            m == rad || m == -rad,
    ;
    let (k0, k1, k2) = (
        w.0 * 4294967296 - rad * n.0,
        w.1 * 4294967296 - rad * n.1,
        w.2 * 4294967296 - rad * n.2,
    );
    lemma_normal_component(w.0, n.0, rad);
    lemma_normal_component(w.1, n.1, rad);
    lemma_normal_component(w.2, n.2, rad);
    let ww = w.0 * w.0 + w.1 * w.1 + w.2 * w.2;
    let nn = n.0 * n.0 + n.1 * n.1 + n.2 * n.2;
    let wk = w.0 * k0 + w.1 * k1 + w.2 * k2;
    let kk = k0 * k0 + k1 * k1 + k2 * k2;
    lemma_distribute(n.0 * n.0, n.1 * n.1, n.2 * n.2, rr);
    assert(nn * rr == rr * nn) by (nonlinear_arith);
    assert(rr * nn == 18446744073709551616 * ww - 8589934592 * wk + kk);
    let excess = nn - 18446744073709551616;
    assert(rr * excess == rr * nn - 18446744073709551616 * rr) by (nonlinear_arith)
        requires
            excess == nn - 18446744073709551616,
    ;
    assert(rr * excess == 18446744073709551616 * (ww - rr) - 8589934592 * wk + kk);
    lemma_product_bound(w.0, k0, magnitude(w.0), m);
    lemma_product_bound(w.1, k1, magnitude(w.1), m);
    lemma_product_bound(w.2, k2, magnitude(w.2), m);
    lemma_product_bound(k0, k0, m, m);
    lemma_product_bound(k1, k1, m, m);
    lemma_product_bound(k2, k2, m, m);
    assert(k0 * k0 >= 0 && k1 * k1 >= 0 && k2 * k2 >= 0) by (nonlinear_arith);
    lemma_distribute(magnitude(w.0), magnitude(w.1), magnitude(w.2), m);
    assert((magnitude(w.0) + magnitude(w.1) + magnitude(w.2)) * m == m * (magnitude(w.0)
        + magnitude(w.1) + magnitude(w.2))) by (nonlinear_arith);
    assert(magnitude(rr * excess) == rr * magnitude(excess)) by (nonlinear_arith)
        requires
            rr >= 0,
    ;
}

/// One component of the squared length of the normal: with
/// `kappa = 2^32 w - rad n`, `rad^2 n^2 = 2^64 w^2 - 2^33 w kappa + kappa^2`.
proof fn lemma_normal_component(w: int, n: int, rad: int)
    ensures
        (n * n) * (rad * rad) == 18446744073709551616 * (w * w) - 8589934592 * (w * (w
            * 4294967296 - rad * n)) + (w * 4294967296 - rad * n) * (w * 4294967296 - rad * n),
{
    let kappa = w * 4294967296 - rad * n;
    let kw = 4294967296 * w;
    let rn = rad * n;
    assert(rn == kw - kappa);
    assert(rn * rn == kw * kw - 2 * (kw * kappa) + kappa * kappa) by (nonlinear_arith)
        requires
            rn == kw - kappa,
    ;
    assert(kw * kw == 18446744073709551616 * (w * w)) by (nonlinear_arith)
        requires
            kw == 4294967296 * w,
    ;
    assert(kw * kappa == 4294967296 * (w * kappa)) by (nonlinear_arith)
        requires
            kw == 4294967296 * w,
    ;
    assert(rn * rn == (n * n) * (rad * rad)) by (nonlinear_arith)
        requires
            rn == rad * n,
    ;
}

/// A component of a vector is not much longer than the rounded length of the
/// vector: at most `2^30` times as long.
proof fn lemma_component_against_length(x: int, sum: int, len2: int, len: int)
    requires
        x * x <= sum,
        0 <= sum - 4294967296 * len2 < 12884901888,
        len >= 1,
        4294967296 * len2 < (len + 1) * (len + 1),
    ensures
        magnitude(x) <= 1073741824 * len,
{
    let m = magnitude(x);
    if m > 1073741824 * len {
        assert(m * m == x * x) by (nonlinear_arith)
            requires
                m == x || m == -x,
        ;
        let big = 1073741824 * len;
        assert(m * m >= big * big) by (nonlinear_arith)
            requires
                m > big,
                big >= 0,
        ;
        assert(big * big == 1152921504606846976 * (len * len)) by (nonlinear_arith)
            requires
                big == 1073741824 * len,
        ;
        assert((len + 1) * (len + 1) <= 4 * (len * len)) by (nonlinear_arith)
            requires
                len >= 1,
        ;
        assert(len * len >= 1) by (nonlinear_arith)
            requires
                len >= 1,
        ;
    }
}

impl Vec3 {
    /// How far, at most, the squared length of the unit vector of `self` is
    /// off one, in raw units to the fourth power times the squared length of
    /// `self`.
    pub open spec fn spec_unit_tolerance(self) -> int {
        let len = self.spec_length()@;
        18446744073709551616 * (3 * SCALE + 2 * len) + 2 * SCALE * (len * (magnitude(self.0@)
            + magnitude(self.1@) + magnitude(self.2@))) + 3 * (len * len)
    }

    /// The unit vector has unit length up to rounding: for a vector with
    /// components of at most 16384 in magnitude and a length that does not
    /// round to zero, the squared length of the unit vector, times the
    /// squared length of the vector, differs from that squared length by no
    /// more than the tolerance.
    pub proof fn lemma_unit_near_unit(self)
        requires
            within(self, 70368744177664),
            self.spec_length()@ >= 1,
        ensures
            ({
                let u = self.spec_unit();
                let len = self.spec_length()@;
                (len * len) * magnitude(u.0@ * u.0@ + u.1@ * u.1@ + u.2@ * u.2@ - SCALE * SCALE)
                    <= self.spec_unit_tolerance()
            }),
    {
        broadcast use Fixed::lemma_of;

        let len2 = self.spec_length_squared();
        let length = self.spec_length();
        let len = length@;
        let sum = self.0@ * self.0@ + self.1@ * self.1@ + self.2@ * self.2@;
        lemma_dot_rounding(self, self, 70368744177664, 70368744177664, 1152921504606846976);
        assert(len2@ > 0);
        let n = len2@ * SCALE;
        assert(n == 4294967296 * len2@);
        lemma_floor_sqrt_exists(n);
        let f = floor_sqrt(n);
        assert((f + 1) * (f + 1) == f * f + 2 * f + 1) by (nonlinear_arith);
        if f > 281474976710656 {
            assert(f * f >= 79228162514264337593543950336) by (nonlinear_arith)
                requires
                    f > 281474976710656,
            ;
        }
        assert(len == f);
        assert(self.0@ * self.0@ >= 0 && self.1@ * self.1@ >= 0 && self.2@ * self.2@ >= 0)
            by (nonlinear_arith);
        lemma_component_against_length(self.0@, sum, len2@, len);
        lemma_component_against_length(self.1@, sum, len2@, len);
        lemma_component_against_length(self.2@, sum, len2@, len);
        lemma_div_rounding(self.0, length, 1073741824 * len);
        lemma_div_rounding(self.1, length, 1073741824 * len);
        lemma_div_rounding(self.2, length, 1073741824 * len);
        let u = self.spec_unit();
        lemma_normal_defect(
            (self.0@, self.1@, self.2@),
            (u.0@, u.1@, u.2@),
            len,
            4294967296 * (3 * 4294967296 + 2 * len),
        );
        assert(SCALE * SCALE == 18446744073709551616);
        assert(magnitude(len) == len);
    }
}

} // verus!
