//! Signed fixed-point numbers with 32 fractional bits and saturating
//! arithmetic.
//!
//! A [`Fixed`] stands for the rational `raw / 2^32`. Its view is the raw
//! integer, and every operation is specified on views: the exact integer
//! result, rounded toward zero and clamped to the symmetric range
//! `[-RAW_MAX, RAW_MAX]`. Nothing here can overflow or panic; a quotient by
//! zero saturates in the direction of the dividend's sign.

use core::cmp::Ordering;
use vstd::prelude::*;
use vstd::std_specs::cmp::PartialOrdSpecImpl;

verus! {

/// The raw value that stands for one.
pub const SCALE: i64 = 4294967296;

/// The largest raw magnitude a [`Fixed`] holds.
pub const RAW_MAX: i64 = 9223372036854775807;

/// `x` clamped to the symmetric raw range.
pub open spec fn saturate(x: int) -> int {
    if x > RAW_MAX {
        RAW_MAX as int
    } else if x < -RAW_MAX {
        -(RAW_MAX as int)
    } else {
        x
    }
}

/// The quotient of `n` by `d` rounded toward zero; zero when `d` is zero.
pub open spec fn quotient(n: int, d: int) -> int {
    if d == 0 {
        0
    } else if n >= 0 && d > 0 {
        n / d
    } else if n >= 0 {
        -(n / (-d))
    } else if d > 0 {
        -((-n) / d)
    } else {
        (-n) / (-d)
    }
}

/// `r` is the integer square root of `n`, rounded down.
pub open spec fn is_floor_sqrt(n: int, r: int) -> bool {
    0 <= r && r * r <= n < (r + 1) * (r + 1)
}

/// The integer square root of `n`, rounded down (for `n >= 0`).
pub open spec fn floor_sqrt(n: int) -> int {
    choose|r: int| is_floor_sqrt(n, r)
}

/// At most one integer is the floor square root of `n`.
pub proof fn lemma_floor_sqrt_unique(n: int, r: int, s: int)
    requires
        is_floor_sqrt(n, r),
        is_floor_sqrt(n, s),
    ensures
        r == s,
{
    if r < s {
        assert((r + 1) * (r + 1) <= s * s) by (nonlinear_arith)
            requires
                0 <= r,
                r + 1 <= s,
        ;
    } else if s < r {
        assert((s + 1) * (s + 1) <= r * r) by (nonlinear_arith)
            requires
                0 <= s,
                s + 1 <= r,
        ;
    }
}

/// `x` times the scale.
fn scaled(x: i64) -> (r: i128)
    ensures
        r == x * SCALE,
{
    (x as i128) * 4294967296
}

/// Truncating division on machine integers.
fn div_toward_zero(n: i128, d: i128) -> (q: i128)
    requires
        d != 0,
        n > i128::MIN,
        d > i128::MIN,
    ensures
        q == quotient(n as int, d as int),
{
    if n >= 0 && d > 0 {
        n / d
    } else if n >= 0 {
        let m: i128 = -d;
        let q: i128 = n / m;
        -q
    } else if d > 0 {
        let m: i128 = -n;
        let q: i128 = m / d;
        -q
    } else {
        let m: i128 = -n;
        let e: i128 = -d;
        m / e
    }
}

/// Every natural number has a floor square root.
pub proof fn lemma_floor_sqrt_exists(n: int)
    requires
        0 <= n,
    ensures
        is_floor_sqrt(n, floor_sqrt(n)),
    decreases n,
{
    if n == 0 {
        assert(is_floor_sqrt(0, 0));
    } else {
        lemma_floor_sqrt_exists(n - 1);
        let r = floor_sqrt(n - 1);
        if (r + 1) * (r + 1) <= n {
            assert((r + 2) * (r + 2) > n) by (nonlinear_arith)
                requires
                    0 <= r,
                    n - 1 < (r + 1) * (r + 1),
            ;
            assert(is_floor_sqrt(n, r + 1));
        } else {
            assert(is_floor_sqrt(n, r));
        }
    }
}

/// Rounding toward zero commutes with negation.
pub proof fn lemma_quotient_odd(n: int, d: int)
    ensures
        quotient(-n, d) == -quotient(n, d),
{
}

/// Rounding toward zero keeps the order of the dividends.
pub proof fn lemma_quotient_monotone(m: int, n: int, d: int)
    requires
        m <= n,
        d > 0,
    ensures
        quotient(m, d) <= quotient(n, d),
{
    if m >= 0 {
        vstd::arithmetic::div_mod::lemma_div_is_ordered(m, n, d);
    } else if n >= 0 {
        vstd::arithmetic::div_mod::lemma_div_is_ordered(0, -m, d);
        vstd::arithmetic::div_mod::lemma_div_is_ordered(0, n, d);
    } else {
        vstd::arithmetic::div_mod::lemma_div_is_ordered(-n, -m, d);
    }
}

/// The product of two raw values fits comfortably in 128 bits.
proof fn lemma_product_bound(a: int, b: int)
    requires
        -RAW_MAX <= a <= RAW_MAX,
        -RAW_MAX <= b <= RAW_MAX,
    ensures
        -(RAW_MAX * RAW_MAX) <= a * b <= RAW_MAX * RAW_MAX,
{
    assert(-(RAW_MAX * RAW_MAX) <= a * b <= RAW_MAX * RAW_MAX) by (nonlinear_arith)
        requires
            -RAW_MAX <= a <= RAW_MAX,
            -RAW_MAX <= b <= RAW_MAX,
    ;
}

/// A fixed-point number: `raw / 2^32`.
#[derive(Clone, Copy, Debug, PartialEq, Eq, Structural)]
pub struct Fixed {
    raw: i64,
}

impl Fixed {
    /// The raw integer behind the number.
    pub closed spec fn view(self) -> int {
        self.raw as int
    }

    /// Every value stays inside the symmetric range, so negation is exact.
    #[verifier::type_invariant]
    pub closed spec fn wf(self) -> bool {
        -RAW_MAX <= self.raw
    }

    /// The number whose raw value is `v`, clamped to the range.
    pub closed spec fn of(v: int) -> Fixed {
        Fixed { raw: saturate(v) as i64 }
    }

    pub broadcast proof fn lemma_of(v: int)
        ensures
            (#[trigger] Fixed::of(v))@ == saturate(v),
            Fixed::of(v).wf(),
    {
    }

    pub broadcast proof fn lemma_view_injective(a: Fixed, b: Fixed)
        requires
            #[trigger] a@ == #[trigger] b@,
        ensures
            a == b,
    {
    }

    pub proof fn lemma_range(self)
        requires
            self.wf(),
        ensures
            -RAW_MAX <= self@ <= RAW_MAX,
    {
    }

    /// Negation is exact, and undone by a second negation.
    pub proof fn lemma_neg_neg(self)
        requires
            self.wf(),
        ensures
            self.spec_neg()@ == -self@,
            self.spec_neg().spec_neg() == self,
    {
        Fixed::lemma_of(-self@);
        Fixed::lemma_of(-(-self@));
    }

    /// A product changes sign with either factor.
    pub proof fn lemma_mul_neg(self, o: Fixed)
        requires
            self.wf(),
            o.wf(),
        ensures
            self.spec_neg().spec_mul(o) == self.spec_mul(o).spec_neg(),
            self.spec_mul(o.spec_neg()) == self.spec_mul(o).spec_neg(),
            self.spec_mul(o) == o.spec_mul(self),
    {
        let p = self@ * o@;
        Fixed::lemma_of(-self@);
        Fixed::lemma_of(-o@);
        assert((-self@) * o@ == -p) by (nonlinear_arith)
            requires
                p == self@ * o@,
        ;
        assert(self@ * (-o@) == -p) by (nonlinear_arith)
            requires
                p == self@ * o@,
        ;
        assert(o@ * self@ == p) by (nonlinear_arith)
            requires
                p == self@ * o@,
        ;
        lemma_quotient_odd(p, SCALE as int);
        Fixed::lemma_of(quotient(p, SCALE as int));
        Fixed::lemma_of(quotient(-p, SCALE as int));
        Fixed::lemma_of(-saturate(quotient(p, SCALE as int)));
        Fixed::lemma_view_injective(
            self.spec_neg().spec_mul(o),
            self.spec_mul(o).spec_neg(),
        );
        Fixed::lemma_view_injective(
            self.spec_mul(o.spec_neg()),
            self.spec_mul(o).spec_neg(),
        );
    }

    /// Every result of an operation is a valid number.
    pub proof fn lemma_results_valid(self, o: Fixed)
        ensures
            self.spec_add(o).wf(),
            self.spec_sub(o).wf(),
            self.spec_mul(o).wf(),
            self.spec_div(o).wf(),
            self.spec_neg().wf(),
            self.spec_sqrt().wf(),
    {
        Fixed::lemma_of(self@ + o@);
        Fixed::lemma_of(self@ - o@);
        Fixed::lemma_of(quotient(self@ * o@, SCALE as int));
        Fixed::lemma_of(quotient(self@ * SCALE, o@));
        Fixed::lemma_of(RAW_MAX as int);
        Fixed::lemma_of(-(RAW_MAX as int));
        Fixed::lemma_of(0);
        Fixed::lemma_of(-self@);
        Fixed::lemma_of(floor_sqrt(self@ * SCALE));
    }

    /// The product of two negated numbers is the product of the numbers.
    pub proof fn lemma_neg_neg_of_product(self, a: Fixed, b: Fixed)
        requires
            a.wf(),
            b.wf(),
            self == a.spec_mul(b),
        ensures
            a.spec_neg().spec_mul(b.spec_neg()) == self,
    {
        a.lemma_results_valid(b);
        a.lemma_mul_neg(b);
        a.spec_neg().lemma_mul_neg(b);
        self.lemma_neg_neg();
    }

    /// A sum changes sign with both terms.
    pub proof fn lemma_add_neg(self, o: Fixed)
        requires
            self.wf(),
            o.wf(),
        ensures
            self.spec_neg().spec_add(o.spec_neg()) == self.spec_add(o).spec_neg(),
    {
        Fixed::lemma_of(-self@);
        Fixed::lemma_of(-o@);
        Fixed::lemma_of(self@ + o@);
        Fixed::lemma_of(-self@ + -o@);
        Fixed::lemma_of(-saturate(self@ + o@));
        Fixed::lemma_view_injective(
            self.spec_neg().spec_add(o.spec_neg()),
            self.spec_add(o).spec_neg(),
        );
    }

    /// A square is never negative.
    pub proof fn lemma_square_nonnegative(self)
        ensures
            self.spec_mul(self)@ >= 0,
    {
        assert(self@ * self@ >= 0) by (nonlinear_arith);
        Fixed::lemma_of(quotient(self@ * self@, SCALE as int));
    }

    /// A square root is never negative.
    pub proof fn lemma_sqrt_nonnegative(self)
        ensures
            self.spec_sqrt()@ >= 0,
    {
        Fixed::lemma_of(0);
        if self@ > 0 {
            assert(self@ * SCALE >= 0) by (nonlinear_arith)
                requires
                    self@ > 0,
                    SCALE > 0,
            ;
            lemma_floor_sqrt_exists(self@ * SCALE);
            Fixed::lemma_of(floor_sqrt(self@ * SCALE));
        }
    }

    /// Dividing by a divisor that is not negative keeps the order of the
    /// dividends.
    pub proof fn lemma_div_monotone(self, o: Fixed, d: Fixed)
        requires
            self@ <= o@,
            d@ >= 0,
        ensures
            self.spec_div(d)@ <= o.spec_div(d)@,
    {
        Fixed::lemma_of(RAW_MAX as int);
        Fixed::lemma_of(-(RAW_MAX as int));
        Fixed::lemma_of(0);
        if d@ > 0 {
            assert(self@ * SCALE <= o@ * SCALE) by (nonlinear_arith)
                requires
                    self@ <= o@,
                    SCALE > 0,
            ;
            lemma_quotient_monotone(self@ * SCALE, o@ * SCALE, d@);
            Fixed::lemma_of(quotient(self@ * SCALE, d@));
            Fixed::lemma_of(quotient(o@ * SCALE, d@));
        }
    }

    /// The sum, saturated.
    pub open spec fn spec_add(self, o: Fixed) -> Fixed {
        Fixed::of(self@ + o@)
    }

    /// The difference, saturated.
    pub open spec fn spec_sub(self, o: Fixed) -> Fixed {
        Fixed::of(self@ - o@)
    }

    /// The negation, which is exact.
    pub open spec fn spec_neg(self) -> Fixed {
        Fixed::of(-self@)
    }

    /// The product, rounded toward zero and saturated.
    pub open spec fn spec_mul(self, o: Fixed) -> Fixed {
        Fixed::of(quotient(self@ * o@, SCALE as int))
    }

    /// The quotient, rounded toward zero and saturated. A quotient by zero is
    /// the extreme value with the dividend's sign, and zero for `0 / 0`.
    pub open spec fn spec_div(self, o: Fixed) -> Fixed {
        if o@ == 0 {
            if self@ > 0 {
                Fixed::of(RAW_MAX as int)
            } else if self@ < 0 {
                Fixed::of(-(RAW_MAX as int))
            } else {
                Fixed::of(0)
            }
        } else {
            Fixed::of(quotient(self@ * SCALE, o@))
        }
    }

    /// The absolute value.
    pub open spec fn spec_abs(self) -> Fixed {
        if self@ < 0 {
            Fixed::of(-self@)
        } else {
            self
        }
    }

    /// The smaller of two numbers.
    pub open spec fn spec_min(self, o: Fixed) -> Fixed {
        if o@ < self@ {
            o
        } else {
            self
        }
    }

    /// The square root, rounded down to the nearest representable number;
    /// zero for a number that is not positive.
    pub open spec fn spec_sqrt(self) -> Fixed {
        if self@ <= 0 {
            Fixed::of(0)
        } else {
            Fixed::of(floor_sqrt(self@ * SCALE))
        }
    }

    /// The number limited to the interval from `lo` to `hi`.
    pub open spec fn spec_clamp(self, lo: Fixed, hi: Fixed) -> Fixed {
        if self@ < lo@ {
            lo
        } else if self@ > hi@ {
            hi
        } else {
            self
        }
    }

    /// The quotient by a whole number, rounded toward zero; a quotient by
    /// zero behaves as in [`Fixed::spec_div`].
    pub open spec fn spec_div_int(self, n: u64) -> Fixed {
        if n == 0 {
            if self@ > 0 {
                Fixed::of(RAW_MAX as int)
            } else if self@ < 0 {
                Fixed::of(-(RAW_MAX as int))
            } else {
                Fixed::of(0)
            }
        } else {
            Fixed::of(quotient(self@, n as int))
        }
    }

    /// The integer part, rounded toward zero.
    pub open spec fn spec_trunc(self) -> int {
        quotient(self@, SCALE as int)
    }

    /// The whole number `i`.
    pub open spec fn spec_from_int(i: int) -> Fixed {
        Fixed::of(i * SCALE)
    }

    /// The ratio `num / den`, rounded toward zero and saturated; a zero
    /// denominator behaves as in [`Fixed::spec_div`].
    pub open spec fn spec_from_ratio(num: int, den: int) -> Fixed {
        if den == 0 {
            if num > 0 {
                Fixed::of(RAW_MAX as int)
            } else if num < 0 {
                Fixed::of(-(RAW_MAX as int))
            } else {
                Fixed::of(0)
            }
        } else {
            Fixed::of(quotient(num * SCALE, den))
        }
    }

    fn clamped(x: i128) -> (r: Fixed)
        ensures
            r == Fixed::of(x as int),
    {
        if x > RAW_MAX as i128 {
            Fixed { raw: RAW_MAX }
        } else if x < -(RAW_MAX as i128) {
            Fixed { raw: -RAW_MAX }
        } else {
            Fixed { raw: x as i64 }
        }
    }

    pub fn zero() -> (r: Fixed)
        ensures
            r == Fixed::of(0),
    {
        Fixed { raw: 0 }
    }

    pub fn one() -> (r: Fixed)
        ensures
            r == Fixed::of(SCALE as int),
    {
        Fixed { raw: SCALE }
    }

    /// The largest number, which also stands for "no upper bound".
    pub fn max_value() -> (r: Fixed)
        ensures
            r == Fixed::of(RAW_MAX as int),
    {
        Fixed { raw: RAW_MAX }
    }

    pub fn from_int(i: i64) -> (r: Fixed)
        ensures
            r == Fixed::spec_from_int(i as int),
    {
        Fixed::clamped(scaled(i))
    }

    pub fn from_ratio(num: i64, den: i64) -> (r: Fixed)
        ensures
            r == Fixed::spec_from_ratio(num as int, den as int),
    {
        if den == 0 {
            if num > 0 {
                Fixed { raw: RAW_MAX }
            } else if num < 0 {
                Fixed { raw: -RAW_MAX }
            } else {
                Fixed { raw: 0 }
            }
        } else {
            let n: i128 = scaled(num);
            let q: i128 = div_toward_zero(n, den as i128);
            Fixed::clamped(q)
        }
    }

    pub fn clamp(self, lo: Fixed, hi: Fixed) -> (r: Fixed)
        ensures
            r == self.spec_clamp(lo, hi),
    {
        if self.raw < lo.raw {
            lo
        } else if self.raw > hi.raw {
            hi
        } else {
            self
        }
    }

    pub fn div_int(self, n: u64) -> (r: Fixed)
        ensures
            r == self.spec_div_int(n),
    {
        if n == 0 {
            if self.raw > 0 {
                Fixed { raw: RAW_MAX }
            } else if self.raw < 0 {
                Fixed { raw: -RAW_MAX }
            } else {
                Fixed { raw: 0 }
            }
        } else {
            let q: i128 = div_toward_zero(self.raw as i128, n as i128);
            Fixed::clamped(q)
        }
    }

    pub fn trunc(self) -> (r: i64)
        ensures
            r == self.spec_trunc(),
    {
        let q: i128 = div_toward_zero(self.raw as i128, SCALE as i128);
        q as i64
    }

    pub fn abs(self) -> (r: Fixed)
        ensures
            r == self.spec_abs(),
    {
        proof {
            use_type_invariant(self);
        }
        if self.raw < 0 {
            Fixed { raw: -self.raw }
        } else {
            self
        }
    }

    /// Whether the magnitude is below `10^-8`.
    pub fn below_threshold(self) -> (r: bool)
        ensures
            r == (self.spec_abs()@ * 100000000 < SCALE),
    {
        let m: Fixed = self.abs();
        (m.raw as i128) * 100000000 < SCALE as i128
    }

    pub fn min(self, o: Fixed) -> (r: Fixed)
        ensures
            r == self.spec_min(o),
    {
        if o.raw < self.raw {
            o
        } else {
            self
        }
    }

    pub fn sqrt(self) -> (r: Fixed)
        ensures
            r == self.spec_sqrt(),
    {
        if self.raw <= 0 {
            return Fixed { raw: 0 };
        }
        let n: u128 = (self.raw as u128) * 4294967296;
        let mut lo: u128 = 0;
        let mut hi: u128 = 281474976710656;
        assert(281474976710656u128 * 281474976710656u128
            == 79228162514264337593543950336u128) by (nonlinear_arith);
        while hi - lo > 1
            invariant
                lo < hi <= 281474976710656,
                lo * lo <= n < hi * hi,
            decreases hi - lo,
        {
            let mid: u128 = lo + (hi - lo) / 2;
            assert(mid * mid < 79228162514264337593543950336u128) by (nonlinear_arith)
                requires
                    mid < 281474976710656,
            ;
            if mid * mid <= n {
                lo = mid;
            } else {
                hi = mid;
            }
        }
        proof {
            assert(is_floor_sqrt(n as int, lo as int));
            lemma_floor_sqrt_unique(n as int, lo as int, floor_sqrt(n as int));
        }
        Fixed { raw: lo as i64 }
    }

    pub fn from_raw(raw: i64) -> (r: Fixed)
        ensures
            r == Fixed::of(raw as int),
    {
        if raw == i64::MIN {
            Fixed { raw: -RAW_MAX }
        } else {
            Fixed { raw }
        }
    }

    pub fn raw(&self) -> (r: i64)
        ensures
            r == self@,
            -RAW_MAX <= r,
    {
        proof {
            use_type_invariant(self);
        }
        self.raw
    }
}

impl core::ops::Add for Fixed {
    type Output = Fixed;

    fn add(self, o: Fixed) -> (r: Fixed) {
        Fixed::clamped(self.raw as i128 + o.raw as i128)
    }
}

impl vstd::std_specs::ops::AddSpecImpl for Fixed {
    open spec fn obeys_add_spec() -> bool {
        true
    }

    open spec fn add_req(self, o: Fixed) -> bool {
        true
    }

    open spec fn add_spec(self, o: Fixed) -> Fixed {
        self.spec_add(o)
    }
}

impl core::ops::Sub for Fixed {
    type Output = Fixed;

    fn sub(self, o: Fixed) -> (r: Fixed) {
        Fixed::clamped(self.raw as i128 - o.raw as i128)
    }
}

impl vstd::std_specs::ops::SubSpecImpl for Fixed {
    open spec fn obeys_sub_spec() -> bool {
        true
    }

    open spec fn sub_req(self, o: Fixed) -> bool {
        true
    }

    open spec fn sub_spec(self, o: Fixed) -> Fixed {
        self.spec_sub(o)
    }
}

impl core::ops::Neg for Fixed {
    type Output = Fixed;

    fn neg(self) -> (r: Fixed) {
        proof {
            use_type_invariant(self);
        }
        Fixed { raw: -self.raw }
    }
}

impl vstd::std_specs::ops::NegSpecImpl for Fixed {
    open spec fn obeys_neg_spec() -> bool {
        true
    }

    open spec fn neg_req(self) -> bool {
        true
    }

    open spec fn neg_spec(self) -> Fixed {
        self.spec_neg()
    }
}

impl core::ops::Mul for Fixed {
    type Output = Fixed;

    fn mul(self, o: Fixed) -> (r: Fixed) {
        proof {
            use_type_invariant(self);
            use_type_invariant(o);
            lemma_product_bound(self.raw as int, o.raw as int);
        }
        let p: i128 = (self.raw as i128) * (o.raw as i128);
        let q: i128 = div_toward_zero(p, SCALE as i128);
        Fixed::clamped(q)
    }
}

impl vstd::std_specs::ops::MulSpecImpl for Fixed {
    open spec fn obeys_mul_spec() -> bool {
        true
    }

    open spec fn mul_req(self, o: Fixed) -> bool {
        true
    }

    open spec fn mul_spec(self, o: Fixed) -> Fixed {
        self.spec_mul(o)
    }
}

impl core::ops::Div for Fixed {
    type Output = Fixed;

    fn div(self, o: Fixed) -> (r: Fixed) {
        proof {
            use_type_invariant(o);
        }
        if o.raw == 0 {
            if self.raw > 0 {
                Fixed { raw: RAW_MAX }
            } else if self.raw < 0 {
                Fixed { raw: -RAW_MAX }
            } else {
                Fixed { raw: 0 }
            }
        } else {
            let n: i128 = scaled(self.raw);
            let q: i128 = div_toward_zero(n, o.raw as i128);
            Fixed::clamped(q)
        }
    }
}

impl vstd::std_specs::ops::DivSpecImpl for Fixed {
    open spec fn obeys_div_spec() -> bool {
        true
    }

    open spec fn div_req(self, o: Fixed) -> bool {
        true
    }

    open spec fn div_spec(self, o: Fixed) -> Fixed {
        self.spec_div(o)
    }
}

impl PartialOrd for Fixed {
    fn partial_cmp(&self, other: &Fixed) -> (r: Option<Ordering>) {
        if self.raw < other.raw {
            Some(Ordering::Less)
        } else if self.raw > other.raw {
            Some(Ordering::Greater)
        } else {
            Some(Ordering::Equal)
        }
    }
}

impl PartialOrdSpecImpl for Fixed {
    open spec fn obeys_partial_cmp_spec() -> bool {
        true
    }

    open spec fn partial_cmp_spec(&self, other: &Fixed) -> Option<Ordering> {
        if self@ < other@ {
            Some(Ordering::Less)
        } else if self@ > other@ {
            Some(Ordering::Greater)
        } else {
            Some(Ordering::Equal)
        }
    }
}

} // verus!
