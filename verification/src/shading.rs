//! The colour of a fragment and the choice of a mipmap level.
use crate::colour::{alpha, alpha_of, blue, blue_of, colour_rgb, green, green_of, pixel, red, red_of};
use crate::fixed::{clamp_int, floor_div, lemma_mul_bound};
use crate::logarithm::{log2, log2_fixed};
use crate::math::Vec3;
use vstd::prelude::*;

verus! {

/// The direction towards the light, of length one.
pub open spec fn light() -> Vec3 {
    Vec3 { x: 58617, y: 29309, z: 0 }
}

/// The scalar product of two vectors, rounded down.
pub open spec fn dot3(a: Vec3, b: Vec3) -> int {
    (a.x * b.x + a.y * b.y + a.z * b.z) / 65536
}

/// The share of light that a surface with the given normal receives: half the
/// cosine of the angle to the light, plus one half.
pub open spec fn lambert(normal: Vec3) -> int {
    dot3(normal, light()) / 2 + 32768
}

/// A colour channel under the light.
pub open spec fn lit(channel: int, normal: Vec3) -> int {
    (channel * lambert(normal)) / 65536
}

/// A colour channel as a byte, scaled by a channel of a texel: the product
/// of the two, where one becomes the byte of the texel, and what lies outside
/// the unit interval is held to its ends.
pub open spec fn to_byte(channel: int, sample: int) -> int {
    clamp_int((channel * sample) / 65536, 0, 255)
}

/// The pixel that a fragment writes, if it writes one.  The colour is put
/// under the light.  Where a texel was sampled, the colour is multiplied by
/// it, and the fragment is dropped if the texel is less than half opaque.
/// Without a texel the colour is written as under a white one.
pub open spec fn shade(colour: Vec3, normal: Vec3, sample: Option<u32>) -> Option<u32> {
    let r = lit(colour.x as int, normal);
    let g = lit(colour.y as int, normal);
    let b = lit(colour.z as int, normal);
    match sample {
        None => Some(pixel(to_byte(r, 255), to_byte(g, 255), to_byte(b, 255)) as u32),
        Some(t) => if alpha_of(t as int) < 128 {
            None
        } else {
            Some(
                pixel(
                    to_byte(r, red_of(t as int)),
                    to_byte(g, green_of(t as int)),
                    to_byte(b, blue_of(t as int)),
                ) as u32,
            )
        },
    }
}

fn lambert_exec(normal: Vec3) -> (l: i128)
    ensures
        l == lambert(normal),
        -0x1_0000_0000 <= l <= 0x1_0000_0000,
{
    let sum: i128 = (normal.x as i128) * 58617 + (normal.y as i128) * 29309 + (normal.z as i128)
        * 0;
    floor_div(floor_div(sum, 65536), 2) + 32768
}

fn lit_exec(channel: i32, light: i128) -> (c: i128)
    requires
        -0x1_0000_0000 <= light <= 0x1_0000_0000,
    ensures
        c == (channel * light) / 65536,
        -0x1_0000_0000_0000 <= c <= 0x1_0000_0000_0000,
{
    proof {
        lemma_mul_bound(channel as int, light as int, 0x8000_0000, 0x1_0000_0000);
    }
    floor_div((channel as i128) * light, 65536)
}

fn to_byte_exec(channel: i128, sample: u8) -> (b: u8)
    requires
        -0x1_0000_0000_0000 <= channel <= 0x1_0000_0000_0000,
    ensures
        b == to_byte(channel as int, sample as int),
{
    proof {
        lemma_mul_bound(channel as int, sample as int, 0x1_0000_0000_0000, 255);
    }
    let scaled: i128 = floor_div(channel * (sample as i128), 65536);
    if scaled < 0 {
        0
    } else if scaled > 255 {
        255
    } else {
        scaled as u8
    }
}

/// Computes the pixel that a fragment writes.
pub fn shade_fragment(colour: Vec3, normal: Vec3, sample: Option<u32>) -> (p: Option<u32>)
    ensures
        p == shade(colour, normal, sample),
{
    let light: i128 = lambert_exec(normal);
    let r: i128 = lit_exec(colour.x, light);
    let g: i128 = lit_exec(colour.y, light);
    let b: i128 = lit_exec(colour.z, light);
    match sample {
        None => Some(colour_rgb(to_byte_exec(r, 255), to_byte_exec(g, 255), to_byte_exec(b, 255))),
        Some(t) => {
            if alpha(t) < 128 {
                None
            } else {
                Some(
                    colour_rgb(
                        to_byte_exec(r, red(t)),
                        to_byte_exec(g, green(t)),
                        to_byte_exec(b, blue(t)),
                    ),
                )
            }
        },
    }
}

pub open spec fn magnitude(a: int) -> int {
    if a < 0 {
        -a
    } else {
        a
    }
}

/// The mipmap level for a triangle that covers `texture_area` on the texture
/// and `screen_area` on the image, at a pixel of the given depth: the binary
/// logarithm of the ratio of the two areas, scaled by one minus the depth,
/// held to the levels from the first to the last but one, and rounded down.
pub open spec fn mip_level(texture_area: int, screen_area: int, depth: int, levels: int) -> int {
    if texture_area == 0 || screen_area == 0 || levels < 2 {
        0
    } else {
        let ratio = log2_fixed(magnitude(texture_area)) - log2_fixed(magnitude(screen_area));
        let biased = (ratio * (1073741824 - depth)) / 1073741824;
        clamp_int(biased / 65536, 0, levels - 2)
    }
}

fn magnitude_exec(a: i128) -> (m: u128)
    ensures
        m == magnitude(a as int),
{
    if a < 0 {
        (-(a + 1)) as u128 + 1
    } else {
        a as u128
    }
}

/// Chooses the mipmap level for one pixel of a triangle.
pub fn select_mip_level(texture_area: i128, screen_area: i128, depth: u32, levels: usize) -> (level:
    usize)
    ensures
        level == mip_level(texture_area as int, screen_area as int, depth as int, levels as int),
{
    if texture_area == 0 || screen_area == 0 || levels < 2 {
        return 0;
    }
    let ratio: i128 = log2(magnitude_exec(texture_area)) as i128 - log2(
        magnitude_exec(screen_area),
    ) as i128;
    proof {
        lemma_mul_bound(ratio as int, 1073741824 - depth, 0x80_0000, 0x1_0000_0000);
    }
    let biased: i128 = floor_div(ratio * (1073741824 - depth as i128), 1073741824);
    let level: i128 = floor_div(biased, 65536);
    if level < 0 {
        0
    } else if level > (levels - 2) as i128 {
        levels - 2
    } else {
        level as usize
    }
}

/// A texture of two levels is always read at its first: the second, the
/// last, is never chosen.
pub proof fn lemma_two_levels_use_the_first(texture_area: int, screen_area: int, depth: int)
    ensures
        mip_level(texture_area, screen_area, depth, 2) == 0,
{
}

/// The level that is chosen is one of the levels but the last.
pub proof fn lemma_level_in_range(texture_area: int, screen_area: int, depth: int, levels: int)
    requires
        levels >= 2,
    ensures
        0 <= mip_level(texture_area, screen_area, depth, levels) <= levels - 2,
{
}

/// A surface that faces the light keeps its colour: white stays white.
pub proof fn lemma_white_under_the_light()
    ensures
        lambert(light()) == 65536,
        shade(Vec3 { x: 65536, y: 65536, z: 65536 }, light(), None) == Some(0x00FF_FFFFu32),
{
    assert(58617 * 58617 + 29309 * 29309 + 0 * 0 == 4294970170int);
    assert(lambert(light()) == 65536);
    assert(lit(65536, light()) == 65536);
    assert(to_byte(65536, 255) == 255);
    assert(pixel(255, 255, 255) == 0x00FF_FFFF);
}

} // verus!
