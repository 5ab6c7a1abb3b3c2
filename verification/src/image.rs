//! From summed colours to the text of a plain-text image.
use crate::fixed::lemma_product_sign;
use crate::fixed::quotient;
use crate::fixed::Fixed;
use crate::fixed::ONE_RAW;
use crate::utils::clamp;
use crate::vec3::Color;
use vstd::prelude::*;

verus! {

/// Raw value of the brightest channel before it is scaled to a byte:
/// `0.999`, rounded down.
pub const CHANNEL_MAX_RAW: i64 = 4290672328;

/// The mean of a channel over `samples_per_pixel` samples that sum to
/// `sum`, after gamma correction by a square root.
pub open spec fn corrected(sum: Fixed, samples_per_pixel: Fixed) -> Fixed {
    sum.over(samples_per_pixel).sqrt_spec()
}

/// The value from 0 to 255 that stands for a channel summed to `sum` over
/// `samples_per_pixel` samples: `256` times the gamma-corrected mean held
/// to `[0, 0.999]`, rounded down.
pub open spec fn channel_spec(sum: Fixed, samples_per_pixel: Fixed) -> int {
    quotient(
        Fixed::whole(256).times(
            corrected(sum, samples_per_pixel).clamp_spec(
                Fixed::whole(0),
                Fixed::of(CHANNEL_MAX_RAW as int),
            ),
        )@,
        ONE_RAW as int,
    )
}

/// The decimal digits of `n` in ASCII, without leading zeros.
pub open spec fn decimal(n: nat) -> Seq<u8>
    decreases n,
{
    if n < 10 {
        seq![(48 + n) as u8]
    } else {
        decimal(n / 10).push((48 + n % 10) as u8)
    }
}

/// The line of a plain-text image that holds the pixel with the channel
/// values `r`, `g` and `b`.
pub open spec fn color_line(r: nat, g: nat, b: nat) -> Seq<u8> {
    decimal(r).push(32u8) + decimal(g).push(32u8) + decimal(b).push(10u8)
}

/// The header of a plain-text image of the given size with channel values
/// up to 255: `P3`, then width and height, then `255`, each on a line.
pub open spec fn header(image_width: nat, image_height: nat) -> Seq<u8> {
    seq![80u8, 51u8, 10u8] + decimal(image_width).push(32u8) + decimal(image_height).push(10u8)
        + seq![50u8, 53u8, 53u8, 10u8]
}

/// The value from 0 to 255 that stands for a channel summed to `sum` over
/// `samples_per_pixel` samples.
pub fn channel(sum: Fixed, samples_per_pixel: Fixed) -> (v: i32)
    ensures
        v == channel_spec(sum, samples_per_pixel),
        0 <= v <= 255,
{
    let mean = sum.div(samples_per_pixel).sqrt();
    let held = clamp(mean, Fixed::zero(), Fixed { raw: CHANNEL_MAX_RAW });
    proof {
        lemma_product_sign(256 * ONE_RAW, held@);
        assert((256 * ONE_RAW) * held@ == (256 * held@) * ONE_RAW) by (nonlinear_arith);
        vstd::arithmetic::div_mod::lemma_div_multiples_vanish(256 * held@, ONE_RAW as int);
    }
    Fixed::from_int(256).mul(held).to_int()
}

/// Appends the decimal digits of `n` to `out`.
pub fn push_decimal(out: &mut Vec<u8>, n: u32)
    ensures
        final(out)@ == old(out)@ + decimal(n as nat),
    decreases n,
{
    if n >= 10 {
        push_decimal(out, n / 10);
    }
    out.push(48u8 + (n % 10) as u8);
}

/// Appends to `out` the header of a plain-text image of the given size.
pub fn write_header(out: &mut Vec<u8>, image_width: u32, image_height: u32)
    ensures
        final(out)@ == old(out)@ + header(image_width as nat, image_height as nat),
{
    out.push(80u8);
    out.push(51u8);
    out.push(10u8);
    push_decimal(out, image_width);
    out.push(32u8);
    push_decimal(out, image_height);
    out.push(10u8);
    out.push(50u8);
    out.push(53u8);
    out.push(53u8);
    out.push(10u8);
}

/// Appends to `out` the line of a plain-text image for the pixel whose
/// channels, summed over `samples_per_pixel` samples, are `pixel`: each
/// channel is averaged, gamma-corrected and scaled to 0 to 255.
pub fn write_color(out: &mut Vec<u8>, pixel: &Color, samples_per_pixel: Fixed)
    ensures
        final(out)@ == old(out)@ + color_line(
            channel_spec(pixel.x, samples_per_pixel) as nat,
            channel_spec(pixel.y, samples_per_pixel) as nat,
            channel_spec(pixel.z, samples_per_pixel) as nat,
        ),
{
    let r: i32 = channel(pixel.x, samples_per_pixel);
    let g: i32 = channel(pixel.y, samples_per_pixel);
    let b: i32 = channel(pixel.z, samples_per_pixel);

    push_decimal(out, r as u32);
    out.push(32u8);
    push_decimal(out, g as u32);
    out.push(32u8);
    push_decimal(out, b as u32);
    out.push(10u8);
}

} // verus!
