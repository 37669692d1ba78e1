//! The plain-text pixel-map format: a header, then one line per pixel.

use vstd::prelude::*;

use crate::vec3::Color;

verus! {

/// The decimal digits of `n`.
pub open spec fn spec_decimal(n: nat) -> Seq<u8>
    decreases n,
{
    if n < 10 {
        seq![(48 + n) as u8]
    } else {
        spec_decimal(n / 10).push((48 + n % 10) as u8)
    }
}

/// `P3`, the width and height, and the largest channel value, one per line.
pub open spec fn spec_ppm_header(width: nat, height: nat) -> Seq<u8> {
    seq![80u8, 51u8, 10u8] + spec_decimal(width) + seq![32u8] + spec_decimal(height) + seq![
        10u8,
        50u8,
        53u8,
        53u8,
        10u8,
    ]
}

/// A channel in `[0, 1]` as a byte: `floor(c * 256)`, saturated into `[0, 255]`.
pub open spec fn spec_channel_byte(c: int) -> nat {
    if c <= 0 {
        0
    } else if c / 256 > 255 {
        255
    } else {
        (c / 256) as nat
    }
}

/// The three channel bytes of a colour, separated by spaces, ending a line.
pub open spec fn spec_pixel_line(color: Color) -> Seq<u8> {
    spec_decimal(spec_channel_byte(color.x as int)) + seq![32u8] + spec_decimal(
        spec_channel_byte(color.y as int),
    ) + seq![32u8] + spec_decimal(spec_channel_byte(color.z as int)) + seq![10u8]
}

/// Appends the decimal digits of `n`.
pub fn write_decimal(output: &mut Vec<u8>, n: u64)
    ensures
        final(output)@ == old(output)@ + spec_decimal(n as nat),
    decreases n,
{
    if n >= 10 {
        write_decimal(output, n / 10);
    }
    let digit: u8 = (n % 10) as u8;
    output.push(48u8 + digit);
    assert(final(output)@ =~= old(output)@ + spec_decimal(n as nat));
}

/// Converts a channel to its byte value.
pub fn channel_byte(c: i64) -> (r: u8)
    ensures
        r == spec_channel_byte(c as int),
{
    if c <= 0 {
        0
    } else if c / 256 > 255 {
        255
    } else {
        (c / 256) as u8
    }
}

/// Appends the header of a `width` by `height` image.
pub fn write_ppm_header(output: &mut Vec<u8>, width: usize, height: usize)
    ensures
        final(output)@ == old(output)@ + spec_ppm_header(width as nat, height as nat),
{
    output.push(80u8);
    output.push(51u8);
    output.push(10u8);
    write_decimal(output, width as u64);
    output.push(32u8);
    write_decimal(output, height as u64);
    output.push(10u8);
    output.push(50u8);
    output.push(53u8);
    output.push(53u8);
    output.push(10u8);
    assert(final(output)@ =~= old(output)@ + spec_ppm_header(width as nat, height as nat));
}

/// Appends the line of one pixel, whose channels are already gamma corrected.
pub fn write_ppm_pixel(output: &mut Vec<u8>, color: Color)
    ensures
        final(output)@ == old(output)@ + spec_pixel_line(color),
{
    let r = channel_byte(color.x);
    let g = channel_byte(color.y);
    let b = channel_byte(color.z);
    write_decimal(output, r as u64);
    output.push(32u8);
    write_decimal(output, g as u64);
    output.push(32u8);
    write_decimal(output, b as u64);
    output.push(10u8);
    assert(final(output)@ =~= old(output)@ + spec_pixel_line(color));
}

} // verus!
