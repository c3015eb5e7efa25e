//! Packed 32-bit colours.
//!
//! A texel holds red in its lowest byte, then green, blue and alpha.  A pixel
//! of the colour buffer holds blue in its lowest byte, then green and red; its
//! highest byte is zero.
use vstd::prelude::*;

verus! {

/// The texel with the given channels.
pub open spec fn texel(alpha: int, red: int, green: int, blue: int) -> int {
    red + 256 * green + 65536 * blue + 16777216 * alpha
}

/// The pixel of the colour buffer with the given channels.
pub open spec fn pixel(red: int, green: int, blue: int) -> int {
    blue + 256 * green + 65536 * red
}

pub open spec fn red_of(texel: int) -> int {
    texel % 256
}

pub open spec fn green_of(texel: int) -> int {
    (texel / 256) % 256
}

pub open spec fn blue_of(texel: int) -> int {
    (texel / 65536) % 256
}

pub open spec fn alpha_of(texel: int) -> int {
    texel / 16777216
}

/// Packs four channels into a texel.
pub fn colour_rgba(alpha: u8, red: u8, green: u8, blue: u8) -> (c: u32)
    ensures
        c == texel(alpha as int, red as int, green as int, blue as int),
{
    let a: u32 = alpha as u32;
    let r: u32 = red as u32;
    let g: u32 = green as u32;
    let b: u32 = blue as u32;
    assert(r | (g << 8) | (b << 16) | (a << 24) == r + 256 * g + 65536 * b + 16777216 * a)
        by (bit_vector)
        requires
            a < 256,
            r < 256,
            g < 256,
            b < 256,
    ;
    r | (g << 8) | (b << 16) | (a << 24)
}

/// Packs three channels into a pixel of the colour buffer.
pub fn colour_rgb(red: u8, green: u8, blue: u8) -> (c: u32)
    ensures
        c == pixel(red as int, green as int, blue as int),
{
    let r: u32 = red as u32;
    let g: u32 = green as u32;
    let b: u32 = blue as u32;
    assert(b | (g << 8) | (r << 16) == b + 256 * g + 65536 * r) by (bit_vector)
        requires
            r < 256,
            g < 256,
            b < 256,
    ;
    b | (g << 8) | (r << 16)
}

/// The red channel of a texel.
pub fn red(texel: u32) -> (r: u8)
    ensures
        r == red_of(texel as int),
{
    assert(texel & 0xFF == texel % 256) by (bit_vector);
    (texel & 0xFF) as u8
}

/// The green channel of a texel.
pub fn green(texel: u32) -> (r: u8)
    ensures
        r == green_of(texel as int),
{
    assert((texel >> 8) & 0xFF == (texel / 256) % 256) by (bit_vector);
    ((texel >> 8) & 0xFF) as u8
}

/// The blue channel of a texel.
pub fn blue(texel: u32) -> (r: u8)
    ensures
        r == blue_of(texel as int),
{
    assert((texel >> 16) & 0xFF == (texel / 65536) % 256) by (bit_vector);
    ((texel >> 16) & 0xFF) as u8
}

/// The alpha channel of a texel.
pub fn alpha(texel: u32) -> (r: u8)
    ensures
        r == alpha_of(texel as int),
{
    assert((texel >> 24) & 0xFF == texel / 16777216) by (bit_vector);
    ((texel >> 24) & 0xFF) as u8
}

/// Unpacking a packed texel gives back its four channels.
pub proof fn lemma_texel_channels(alpha: int, red: int, green: int, blue: int)
    requires
        0 <= alpha < 256,
        0 <= red < 256,
        0 <= green < 256,
        0 <= blue < 256,
    ensures
        red_of(texel(alpha, red, green, blue)) == red,
        green_of(texel(alpha, red, green, blue)) == green,
        blue_of(texel(alpha, red, green, blue)) == blue,
        alpha_of(texel(alpha, red, green, blue)) == alpha,
        0 <= texel(alpha, red, green, blue) <= u32::MAX,
{
}

} // verus!
