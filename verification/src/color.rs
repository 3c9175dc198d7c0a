//! From accumulated light to the three bytes of a pixel.

use vstd::prelude::*;
use crate::scalar::Fixed;
use crate::vec3::Vec3;

verus! {

broadcast use Fixed::lemma_of;

/// `String::push` appends the character to the end of the string.
pub assume_specification[ String::push ](s: &mut String, ch: char)
    ensures
        final(s)@ == old(s)@.push(ch),
;

/// The character of the decimal digit `d`.
pub open spec fn spec_digit(d: int) -> char {
    if d == 0 {
        '0'
    } else if d == 1 {
        '1'
    } else if d == 2 {
        '2'
    } else if d == 3 {
        '3'
    } else if d == 4 {
        '4'
    } else if d == 5 {
        '5'
    } else if d == 6 {
        '6'
    } else if d == 7 {
        '7'
    } else if d == 8 {
        '8'
    } else {
        '9'
    }
}

/// The decimal numeral of a byte, without leading zeros.
pub open spec fn spec_decimal(n: u8) -> Seq<char> {
    if n < 10 {
        seq![spec_digit(n as int)]
    } else if n < 100 {
        seq![spec_digit(n as int / 10), spec_digit(n as int % 10)]
    } else {
        seq![spec_digit(n as int / 100), spec_digit(n as int / 10 % 10), spec_digit(n as int % 10)]
    }
}

/// The byte of one colour channel: the accumulated light `x` is averaged over
/// `samples`, its square root is taken for gamma 2, the result is clamped to
/// `[0, 0.999]` and scaled by `255.999`, and the integer part is kept.
pub open spec fn spec_channel_byte(x: Fixed, samples: u64) -> int {
    Fixed::spec_from_ratio(255999, 1000).spec_mul(
        x.spec_div_int(samples).spec_sqrt().spec_clamp(
            Fixed::of(0),
            Fixed::spec_from_ratio(999, 1000),
        ),
    ).spec_trunc()
}

/// The three numerals of a pixel, separated by single spaces.
pub open spec fn spec_pixel_text(r: u8, g: u8, b: u8) -> Seq<char> {
    spec_decimal(r) + seq![' '] + spec_decimal(g) + seq![' '] + spec_decimal(b)
}

fn digit(d: u8) -> (c: char)
    requires
        d < 10,
    ensures
        c == spec_digit(d as int),
{
    if d == 0 {
        '0'
    } else if d == 1 {
        '1'
    } else if d == 2 {
        '2'
    } else if d == 3 {
        '3'
    } else if d == 4 {
        '4'
    } else if d == 5 {
        '5'
    } else if d == 6 {
        '6'
    } else if d == 7 {
        '7'
    } else if d == 8 {
        '8'
    } else {
        '9'
    }
}

fn push_decimal(s: &mut String, n: u8)
    ensures
        final(s)@ == old(s)@ + spec_decimal(n),
{
    if n >= 100 {
        s.push(digit(n / 100));
    }
    if n >= 10 {
        s.push(digit(n / 10 % 10));
    }
    s.push(digit(n % 10));
    assert(s@ =~= old(s)@ + spec_decimal(n));
}

/// The byte of one colour channel.
pub fn channel_byte(x: Fixed, samples: u64) -> (b: u8)
    ensures
        b == spec_channel_byte(x, samples),
{
    let gamma: Fixed = x.div_int(samples).sqrt();
    let clamped: Fixed = gamma.clamp(Fixed::zero(), Fixed::from_ratio(999, 1000));
    let scaled: i64 = (Fixed::from_ratio(255999, 1000) * clamped).trunc();
    assert(0 <= scaled < 256) by {
        channel_in_byte_range(clamped);
    }
    scaled as u8
}

/// A channel in `[0, 0.999]` scales to a number below 256.
proof fn channel_in_byte_range(c: Fixed)
    requires
        0 <= c@ <= Fixed::spec_from_ratio(999, 1000)@,
    ensures
        0 <= Fixed::spec_from_ratio(255999, 1000).spec_mul(c).spec_trunc() < 256,
{
    let k = Fixed::spec_from_ratio(255999, 1000)@;
    let top = Fixed::spec_from_ratio(999, 1000)@;
    assert(255999 * 4294967296 / 1000 == 1099507332808);
    assert(999 * 4294967296 / 1000 == 4290672328);
    assert(k == 1099507332808);
    assert(top == 4290672328);
    assert(0 <= k * c@ <= 4717625687312372137024) by (nonlinear_arith)
        requires
            k == 1099507332808,
            0 <= c@ <= 4290672328,
    ;
}

impl Vec3 {
    /// The text of the pixel whose accumulated colour is `self`.
    pub open spec fn spec_color_str(self, samples_per_pixel: u64) -> Seq<char> {
        spec_pixel_text(
            spec_channel_byte(self.0, samples_per_pixel) as u8,
            spec_channel_byte(self.1, samples_per_pixel) as u8,
            spec_channel_byte(self.2, samples_per_pixel) as u8,
        )
    }

    /// The three bytes of the pixel: red, green and blue.
    pub fn color_bytes(&self, samples_per_pixel: u64) -> (rgb: (u8, u8, u8))
        ensures
            rgb.0 == spec_channel_byte(self.0, samples_per_pixel),
            rgb.1 == spec_channel_byte(self.1, samples_per_pixel),
            rgb.2 == spec_channel_byte(self.2, samples_per_pixel),
    {
        (
            channel_byte(self.0, samples_per_pixel),
            channel_byte(self.1, samples_per_pixel),
            channel_byte(self.2, samples_per_pixel),
        )
    }

    /// The pixel as text: the three bytes in decimal, separated by spaces.
    pub fn color_str(&self, samples_per_pixel: u64) -> (s: String)
        ensures
            s@ == self.spec_color_str(samples_per_pixel),
    {
        let rgb: (u8, u8, u8) = self.color_bytes(samples_per_pixel);
        let mut s: String = String::new();
        push_decimal(&mut s, rgb.0);
        s.push(' ');
        push_decimal(&mut s, rgb.1);
        s.push(' ');
        push_decimal(&mut s, rgb.2);
        assert(s@ =~= spec_pixel_text(rgb.0, rgb.1, rgb.2));
        s
    }
}

} // verus!
