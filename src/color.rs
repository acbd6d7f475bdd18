//! Colour channels and the byte order of the pixel buffer.
use vstd::prelude::*;

verus! {

/// `value` clamped to `[0, 255]`.
#[inline]
pub fn clamp_i32_to_u8(value: i32) -> (r: u8)
    ensures
        r == (if value < 0 {
            0
        } else if value > 255 {
            255
        } else {
            value
        }),
{
    let mut x = value;
    if x < 0 {
        x = 0;
    }
    if x > 255 {
        x = 255;
    }
    x as u8
}

/// `value` clamped to `[0, 255]`.
#[inline]
pub fn clamp_u32_to_u8(value: u32) -> (r: u8)
    ensures
        r == (if value > 255 {
            255
        } else {
            value
        }),
{
    let mut x = value;
    if x > 255 {
        x = 255;
    }
    x as u8
}

/// A colour packed as `0xAARRGGBB`.
#[inline]
pub fn u8_to_color(alpha: u8, red: u8, green: u8, blue: u8) -> (r: u32)
    ensures
        r == alpha as int * 0x100_0000 + red as int * 0x1_0000 + green as int * 0x100 + blue as int,
{
    let r = ((alpha as u32) << 24u32) | ((red as u32) << 16u32) | ((green as u32) << 8u32) | (
    blue as u32);
    assert(r == alpha as u32 * 0x100_0000 + red as u32 * 0x1_0000 + green as u32 * 0x100
        + blue as u32) by (bit_vector)
        requires
            r == ((alpha as u32) << 24u32) | ((red as u32) << 16u32) | ((green as u32) << 8u32) | (
            blue as u32),
    ;
    r
}

/// The order of the four bytes of a pixel in the buffer.
#[derive(Clone, Copy, Debug, PartialEq, Eq)]
pub enum ChannelOrder {
    /// Blue, green, red, alpha: a little-endian `0xAARRGGBB` word.
    Argb,
    /// Red, green, blue, alpha: a little-endian `0xAABBGGRR` word.
    Abgr,
}

/// The bytes of a pixel in the buffer.
pub open spec fn pixel_bytes(order: ChannelOrder, a: u8, r: u8, g: u8, b: u8) -> Seq<u8> {
    match order {
        ChannelOrder::Argb => seq![b, g, r, a],
        ChannelOrder::Abgr => seq![r, g, b, a],
    }
}

/// Channel `v` scaled by `light / dist`, rounded down and kept at most 255.
pub open spec fn shaded(v: u8, light: int, dist: int) -> int {
    let s = (v as int * light) / dist;
    if s > 255 {
        255
    } else {
        s
    }
}

/// Channel `v` dimmed in proportion to `dist`: `v * light / dist`, at most 255.
pub fn shade(v: u8, light: i64, dist: i64) -> (r: u8)
    requires
        0 <= light <= 0x1_0000_0000,
        dist >= 1,
    ensures
        r == shaded(v, light as int, dist as int),
{
    assert(0 <= (v as int) * light <= 0x100_0000_0000) by (nonlinear_arith)
        requires
            0 <= light <= 0x1_0000_0000,
            0 <= v <= 255,
    ;
    let p: i64 = (v as i64) * light;
    assert(p / dist >= 0) by (nonlinear_arith)
        requires
            p >= 0,
            dist >= 1,
    ;
    let s = p / dist;
    if s > 255 {
        255
    } else {
        s as u8
    }
}

} // verus!
