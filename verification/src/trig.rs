//! Angles: degrees to radians, and the tangent by its power series.

use core::ops::Neg;
use vstd::prelude::*;
use crate::scalar::{Fixed, SCALE};

verus! {

broadcast use Fixed::lemma_of;

/// The raw value of pi, rounded to the nearest.
pub const PI_RAW: i64 = 13493037705;

/// How many terms of the sine and cosine series are summed.
pub const TERMS: u32 = 12;

/// The series of the sine divided by its argument (`shift` 0) or of the
/// cosine (`shift` 1), from term `k` on, in the nested form
/// `1 - x^2 / (d_k (d_k + 1)) * (1 - x^2 / (d_(k+1) (d_(k+1) + 1)) * ...)`
/// with `d_k = 2 k - shift`; `x2` is the square of the argument.
pub open spec fn series_from(x2: Fixed, shift: int, k: nat) -> Fixed
    decreases TERMS + 1 - k,
{
    if k > TERMS {
        Fixed::of(SCALE as int)
    } else {
        let d = 2 * k - shift;
        Fixed::of(SCALE as int).spec_sub(
            x2.spec_mul(series_from(x2, shift, k + 1)).spec_div(Fixed::spec_from_int(d * (d + 1))),
        )
    }
}

/// Sums the series from its last term inward.
fn series(x2: Fixed, shift: u32) -> (r: Fixed)
    requires
        shift <= 1,
    ensures
        r == series_from(x2, shift as int, 1),
{
    let mut acc: Fixed = Fixed::one();
    let mut k: u32 = TERMS;
    while k >= 1
        invariant
            k <= TERMS,
            shift <= 1,
            acc == series_from(x2, shift as int, (k + 1) as nat),
        decreases k,
    {
        let d: u32 = 2 * k - shift;
        assert(d * (d + 1) <= 600) by (nonlinear_arith)
            requires
                d <= 24,
        ;
        acc = Fixed::one() - (x2 * acc) / Fixed::from_int((d * (d + 1)) as i64);
        k = k - 1;
    }
    acc
}

impl Fixed {
    /// Pi.
    pub open spec fn spec_pi() -> Fixed {
        Fixed::of(PI_RAW as int)
    }

    /// The angle in radians of an angle in degrees: `self * pi / 180`.
    pub open spec fn spec_to_radians(self) -> Fixed {
        self.spec_mul(Fixed::spec_pi()).spec_div(Fixed::spec_from_int(180))
    }

    /// The sine of an angle in `[0, pi / 2]`, by its series.
    pub open spec fn spec_sin_first_quadrant(self) -> Fixed {
        self.spec_mul(series_from(self.spec_mul(self), 0, 1))
    }

    /// The cosine of an angle in `[0, pi / 2]`, by its series.
    pub open spec fn spec_cos_first_quadrant(self) -> Fixed {
        series_from(self.spec_mul(self), 1, 1)
    }

    /// The angle in `[0, pi / 2]` whose tangent has the magnitude of the
    /// tangent of `self`: the magnitude of `self` is reduced modulo pi and
    /// mirrored at `pi / 2`.
    pub open spec fn spec_reduced_angle(self) -> Fixed {
        let m = (if self@ < 0 {
            -self@
        } else {
            self@
        }) % (PI_RAW as int);
        if 2 * m > PI_RAW {
            Fixed::of(PI_RAW - m)
        } else {
            Fixed::of(m)
        }
    }

    /// Whether the tangent of `self` is the negative of the tangent of the
    /// reduced angle.
    pub open spec fn spec_tan_is_negated(self) -> bool {
        let m = (if self@ < 0 {
            -self@
        } else {
            self@
        }) % (PI_RAW as int);
        (2 * m > PI_RAW) != (self@ < 0)
    }

    /// The tangent: the quotient of the sine and cosine series of the reduced
    /// angle, with the sign that the quadrant asks for.
    pub open spec fn spec_tan(self) -> Fixed {
        let y = self.spec_reduced_angle();
        let t = y.spec_sin_first_quadrant().spec_div(y.spec_cos_first_quadrant());
        if self.spec_tan_is_negated() {
            t.spec_neg()
        } else {
            t
        }
    }

    /// The tangent is an odd function.
    pub proof fn lemma_tan_odd(self)
        requires
            self.wf(),
        ensures
            self.spec_neg().spec_tan() == self.spec_tan().spec_neg(),
    {
        self.lemma_neg_neg();
        let y = self.spec_reduced_angle();
        assert(self.spec_neg().spec_reduced_angle() == y);
        let sine = y.spec_sin_first_quadrant();
        let cosine = y.spec_cos_first_quadrant();
        let t = sine.spec_div(cosine);
        sine.lemma_results_valid(cosine);
        t.lemma_neg_neg();
        if self@ == 0 {
            assert(y@ == 0);
            assert(y@ * series_from(y.spec_mul(y), 0, 1)@ == 0) by (nonlinear_arith)
                requires
                    y@ == 0,
            ;
            assert(sine@ == 0);
            assert(0 * SCALE == 0);
            assert(t@ == 0);
            Fixed::lemma_view_injective(t.spec_neg(), t);
        }
    }

    pub fn pi() -> (r: Fixed)
        ensures
            r == Fixed::spec_pi(),
    {
        Fixed::from_raw(PI_RAW)
    }

    pub fn to_radians(self) -> (r: Fixed)
        ensures
            r == self.spec_to_radians(),
    {
        self * Fixed::pi() / Fixed::from_int(180)
    }

    pub fn tan(self) -> (r: Fixed)
        ensures
            r == self.spec_tan(),
    {
        let raw: i64 = self.raw();
        let magnitude: i64 = if raw < 0 {
            -raw
        } else {
            raw
        };
        let m: i64 = magnitude % PI_RAW;
        let mirrored: bool = 2 * m > PI_RAW;
        let y: Fixed = if mirrored {
            Fixed::from_raw(PI_RAW - m)
        } else {
            Fixed::from_raw(m)
        };
        let x2: Fixed = y * y;
        let t: Fixed = (y * series(x2, 0)) / series(x2, 1);
        if mirrored != (raw < 0) {
            t.neg()
        } else {
            t
        }
    }
}

} // verus!
