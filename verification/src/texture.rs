//! Textures, their mipmap chains, and point sampling.
use crate::colour::{colour_rgba, texel};
use crate::fixed::{clamp_int, floor_div, lemma_mul_bound};
use vstd::arithmetic::power2::{lemma2_to64, lemma_pow2_strictly_increases, lemma_pow2_unfold, pow2};
use vstd::prelude::*;

verus! {

/// The colour that sampling yields where there is no texel to read.
pub const OUT_OF_BOUNDS_COLOUR: u32 = 0xFFFF00FF;

/// A texture with its chain of mipmaps.  The texels of all levels lie one
/// after another in `data`; `mipmap_offsets` holds, for each level, where its
/// texels start.
#[derive(Clone, Debug, PartialEq, Eq)]
pub struct Texture {
    pub width: usize,
    pub height: usize,
    pub depth: usize,
    pub data: Vec<u32>,
    pub mipmap_offsets: Vec<usize>,
}

/// How a texture is filtered between its texels or its levels.
#[derive(Clone, Copy, Debug, PartialEq, Eq, Structural)]
pub enum FilterMode {
    Point,
    Linear,
}

/// What a texture shows outside the unit square.
#[derive(Clone, Copy, Debug, PartialEq, Eq, Structural)]
pub enum WrapMode {
    Repeat,
    Mirror,
    Clamp,
}

/// How a texture is addressed and filtered.  Sampling reads the nearest texel
/// of one level, so of these fields only the two wrap modes take effect.
#[derive(Clone, Copy, Debug, PartialEq, Eq, Structural)]
pub struct Sampler {
    pub filter_mode_mag: FilterMode,
    pub filter_mode_min: FilterMode,
    pub filter_mode_mipmap: FilterMode,
    pub wrap_mode_s: WrapMode,
    pub wrap_mode_t: WrapMode,
    pub mipmap_enabled: bool,
}

/// A texture with the sampler that reads it.
#[derive(Clone, Debug, PartialEq, Eq)]
pub struct Material {
    pub texture: Texture,
    pub sampler: Sampler,
}

/// `n` halved `times` times, rounding down each time.
pub open spec fn halved(n: nat, times: nat) -> nat
    decreases times,
{
    if times == 0 {
        n
    } else {
        halved(n, (times - 1) as nat) / 2
    }
}

/// Halving `times` times divides by the matching power of two.
pub proof fn lemma_halved_is_div(n: nat, times: nat)
    ensures
        halved(n, times) == n / pow2(times),
    decreases times,
{
    if times == 0 {
        lemma2_to64();
    } else {
        lemma_halved_is_div(n, (times - 1) as nat);
        lemma_pow2_unfold(times);
        vstd::arithmetic::power2::lemma_pow2_pos((times - 1) as nat);
        vstd::arithmetic::div_mod::lemma_div_denominator(
            n as int,
            pow2((times - 1) as nat) as int,
            2,
        );
        assert(pow2((times - 1) as nat) * 2 == 2 * pow2((times - 1) as nat)) by (nonlinear_arith);
    }
}

/// A texture coordinate brought into the unit interval.  `Repeat` keeps the
/// fractional part.  `Mirror` folds the coordinate back at every integer, so
/// it runs up over one unit and down over the next.  `Clamp` holds it to the
/// interval from zero to the largest number below one.
pub open spec fn wrap(mode: WrapMode, u: int) -> int {
    match mode {
        WrapMode::Repeat => u % 65536,
        WrapMode::Mirror => {
            let folded = u - ((u + 65536) / 131072) * 131072;
            if folded < 0 {
                -folded
            } else {
                folded
            }
        },
        WrapMode::Clamp => clamp_int(u, 0, 65535),
    }
}

/// Resolves a texture coordinate through a wrap mode.
pub fn wrap_coordinate(mode: WrapMode, u: i32) -> (r: i32)
    ensures
        r == wrap(mode, u as int),
        0 <= r <= 65536,
{
    match mode {
        WrapMode::Repeat => {
            let q: i128 = floor_div(u as i128, 65536);
            (u as i128 - q * 65536) as i32
        },
        WrapMode::Mirror => {
            let k: i128 = floor_div(u as i128 + 65536, 131072);
            let folded: i128 = u as i128 - k * 131072;
            if folded < 0 {
                (-folded) as i32
            } else {
                folded as i32
            }
        },
        WrapMode::Clamp => {
            if u < 0 {
                0
            } else if u > 65535 {
                65535
            } else {
                u
            }
        },
    }
}

/// The extent of one mipmap level along an axis.
pub fn level_extent(extent: usize, level: usize) -> (r: usize)
    ensures
        r == halved(extent as nat, level as nat),
{
    proof {
        lemma_halved_is_div(extent as nat, level as nat);
    }
    if level >= usize::BITS as usize {
        proof {
            lemma2_to64();
            vstd::arithmetic::power2::lemma2_to64_rest();
            if level > usize::BITS {
                lemma_pow2_strictly_increases(usize::BITS as nat, level as nat);
            }
            assert(extent < pow2(level as nat));
            vstd::arithmetic::div_mod::lemma_basic_div(extent as int, pow2(level as nat) as int);
        }
        0
    } else {
        proof {
            vstd::bits::lemma_usize_shr_is_div(extent, level);
        }
        extent >> level
    }
}

impl Texture {
    /// The number of mipmap levels, the full-size level included.
    pub open spec fn levels(self) -> nat {
        self.mipmap_offsets@.len()
    }

    /// The texel that a pair of texture coordinates selects in one level.
    /// Each coordinate is wrapped, scaled by the extent of the level and
    /// rounded down; the two give an index by rows into the level.  Where the
    /// level does not exist, or the index lies outside it, the result is
    /// `OUT_OF_BOUNDS_COLOUR`.
    pub open spec fn sample(self, u: int, v: int, level: nat, sampler: Sampler) -> u32 {
        let level_width = halved(self.width as nat, level);
        let level_height = halved(self.height as nat, level);
        let x = (wrap(sampler.wrap_mode_s, u) * level_width) / 65536;
        let y = (wrap(sampler.wrap_mode_t, v) * level_height) / 65536;
        let index = x + y * level_width;
        if level < self.levels() && index < level_width * level_height
            && self.mipmap_offsets@[level as int] + index < self.data@.len() {
            self.data@[self.mipmap_offsets@[level as int] + index]
        } else {
            OUT_OF_BOUNDS_COLOUR
        }
    }

    /// Reads the texel at texture coordinates `(u, v)` from one mipmap level.
    pub fn argb_at_uv(&self, u: i32, v: i32, mip_level: usize, sampler: &Sampler) -> (c: u32)
        ensures
            c == self.sample(u as int, v as int, mip_level as nat, *sampler),
    {
        if mip_level >= self.mipmap_offsets.len() {
            return OUT_OF_BOUNDS_COLOUR;
        }
        let level_width: usize = level_extent(self.width, mip_level);
        let level_height: usize = level_extent(self.height, mip_level);
        let s: i32 = wrap_coordinate(sampler.wrap_mode_s, u);
        let t: i32 = wrap_coordinate(sampler.wrap_mode_t, v);
        proof {
            lemma_mul_bound(s as int, level_width as int, 65536, 0xFFFF_FFFF_FFFF_FFFF);
            lemma_mul_bound(t as int, level_height as int, 65536, 0xFFFF_FFFF_FFFF_FFFF);
            assert(s * level_width >= 0 && t * level_height >= 0) by (nonlinear_arith)
                requires
                    s >= 0,
                    t >= 0,
            ;
        }
        let x: u128 = (s as u128 * level_width as u128) / 65536;
        let y: u128 = (t as u128 * level_height as u128) / 65536;
        proof {
            lemma_mul_bound(
                y as int,
                level_width as int,
                0xFFFF_FFFF_FFFF_FFFF,
                0xFFFF_FFFF_FFFF_FFFF,
            );
            lemma_mul_bound(
                level_width as int,
                level_height as int,
                0xFFFF_FFFF_FFFF_FFFF,
                0xFFFF_FFFF_FFFF_FFFF,
            );
            assert(y * level_width >= 0 && level_width * level_height >= 0) by (nonlinear_arith)
                requires
                    y >= 0,
                    level_width >= 0,
                    level_height >= 0,
            ;
        }
        let index: u128 = x + y * level_width as u128;
        let size: u128 = level_width as u128 * level_height as u128;
        let offset: usize = self.mipmap_offsets[mip_level];
        if index < size && offset as u128 + index < self.data.len() as u128 {
            self.data[offset + index as usize]
        } else {
            OUT_OF_BOUNDS_COLOUR
        }
    }
}

/// Why a texture could not be made.
#[derive(Clone, Copy, Debug, PartialEq, Eq, Structural)]
pub enum TextureError {
    /// The pixels have neither three nor four channels.
    UnsupportedFormat,
}

impl TextureError {
    /// The error in words.
    pub fn message(&self) -> (text: String)
        ensures
            text@ == "Unsupported texture type"@,
    {
        "Unsupported texture type".to_owned()
    }
}

/// The texels that interleaved channels of 8 bits give.  With four channels
/// a pixel is red, green, blue, alpha.  With three it is red, green, blue,
/// and the texel is opaque.
pub open spec fn packed(pixels: Seq<u8>, channels: int) -> Seq<u32> {
    Seq::new(
        (pixels.len() as int / channels) as nat,
        |i: int|
            if channels == 4 {
                texel(
                    pixels[4 * i + 3] as int,
                    pixels[4 * i] as int,
                    pixels[4 * i + 1] as int,
                    pixels[4 * i + 2] as int,
                ) as u32
            } else {
                texel(255, pixels[3 * i] as int, pixels[3 * i + 1] as int, pixels[3 * i + 2] as int) as u32
            },
    )
}

impl Texture {
    /// Makes a texture of one level from interleaved channels of 8 bits.
    /// Three and four channels are accepted, any other number is refused.
    pub fn load(pixels: &Vec<u8>, width: usize, height: usize, channels: usize) -> (r: Result<
        Texture,
        TextureError,
    >)
        ensures
            r is Ok <==> channels == 3 || channels == 4,
            r matches Err(e) ==> e == TextureError::UnsupportedFormat,
            r matches Ok(t) ==> {
                &&& t.width == width
                &&& t.height == height
                &&& t.depth == channels
                &&& t.data@ == packed(pixels@, channels as int)
                &&& t.mipmap_offsets@ == seq![0usize]
            },
    {
        if channels != 3 && channels != 4 {
            return Err(TextureError::UnsupportedFormat);
        }
        let length: usize = pixels.len();
        let count: usize = length / channels;
        let ghost target = packed(pixels@, channels as int);
        let mut data: Vec<u32> = Vec::new();
        let mut id: usize = 0;
        while id < count
            invariant
                channels == 3 || channels == 4,
                length == pixels@.len(),
                count == length / channels,
                target == packed(pixels@, channels as int),
                0 <= id <= count,
                data@ == target.take(id as int),
            decreases count - id,
        {
            let t: u32 = if channels == 4 {
                colour_rgba(
                    pixels[id * 4 + 3],
                    pixels[id * 4],
                    pixels[id * 4 + 1],
                    pixels[id * 4 + 2],
                )
            } else {
                colour_rgba(255, pixels[id * 3], pixels[id * 3 + 1], pixels[id * 3 + 2])
            };
            data.push(t);
            proof {
                assert(target[id as int] == t);
                assert(target.take(id + 1) =~= target.take(id as int).push(target[id as int]));
            }
            id = id + 1;
        }
        proof {
            assert(target.take(target.len() as int) =~= target);
        }
        let mut mipmap_offsets: Vec<usize> = Vec::new();
        mipmap_offsets.push(0);
        assert(mipmap_offsets@ =~= seq![0usize]);
        Ok(Texture { width, height, depth: channels, data, mipmap_offsets })
    }
}

/// A coordinate that repeats comes back after every whole unit.
pub proof fn lemma_repeat_has_period_one(u: int, k: int)
    ensures
        wrap(WrapMode::Repeat, u + k * 65536) == wrap(WrapMode::Repeat, u),
        0 <= wrap(WrapMode::Repeat, u) < 65536,
        0 <= u < 65536 ==> wrap(WrapMode::Repeat, u) == u,
{
    vstd::arithmetic::div_mod::lemma_mod_multiples_vanish(k, u, 65536);
    assert(65536 * k + u == u + k * 65536);
}

/// A coordinate that is mirrored comes back after every two units, and runs
/// backwards over the second of them: one unit further on it shows what the
/// first unit shows at the same distance from its other end.
pub proof fn lemma_mirror_reflects(u: int, k: int)
    ensures
        wrap(WrapMode::Mirror, u + k * 131072) == wrap(WrapMode::Mirror, u),
        wrap(WrapMode::Mirror, -u) == wrap(WrapMode::Mirror, u),
        0 <= u <= 65536 ==> wrap(WrapMode::Mirror, u) == u,
        0 <= u <= 65536 ==> wrap(WrapMode::Mirror, 65536 + u) == 65536 - u,
        0 <= wrap(WrapMode::Mirror, u) <= 65536,
{
    vstd::arithmetic::div_mod::lemma_fundamental_div_mod(u + 65536, 131072);
    vstd::arithmetic::div_mod::lemma_fundamental_div_mod(-u + 65536, 131072);
    vstd::arithmetic::div_mod::lemma_fundamental_div_mod(u + k * 131072 + 65536, 131072);
    let q: int = (u + 65536) / 131072;
    let r: int = (u + 65536) % 131072;
    vstd::arithmetic::div_mod::lemma_fundamental_div_mod_converse(
        u + k * 131072 + 65536,
        131072,
        q + k,
        r,
    );
    if r == 0 {
        vstd::arithmetic::div_mod::lemma_fundamental_div_mod_converse(
            -u + 65536,
            131072,
            1 - q,
            0,
        );
    } else {
        vstd::arithmetic::div_mod::lemma_fundamental_div_mod_converse(
            -u + 65536,
            131072,
            -q,
            131072 - r,
        );
    }
}

/// A coordinate that is clamped stays at the end of the unit interval that
/// it has passed.
pub proof fn lemma_clamp_holds(u: int)
    ensures
        u >= 65535 ==> wrap(WrapMode::Clamp, u) == 65535,
        u <= 0 ==> wrap(WrapMode::Clamp, u) == 0,
        0 <= u <= 65535 ==> wrap(WrapMode::Clamp, u) == u,
{
}

/// Sampling sees a coordinate only through its wrap mode: two coordinates
/// that wrap to the same place select the same texel.
pub proof fn lemma_sample_by_wrapped(
    texture: Texture,
    u0: int,
    u1: int,
    v0: int,
    v1: int,
    level: nat,
    sampler: Sampler,
)
    requires
        wrap(sampler.wrap_mode_s, u0) == wrap(sampler.wrap_mode_s, u1),
        wrap(sampler.wrap_mode_t, v0) == wrap(sampler.wrap_mode_t, v1),
    ensures
        texture.sample(u0, v0, level, sampler) == texture.sample(u1, v1, level, sampler),
{
}

/// The first level of a texture of two by two texels shows each texel over
/// one quarter of the unit square, whatever the wrap modes: at coordinates
/// within the square the texel is the one in the column of the doubled `u`
/// and the row of the doubled `v`, both rounded down.
pub proof fn lemma_sample_of_two_by_two(texture: Texture, u: int, v: int, sampler: Sampler)
    requires
        texture.width == 2,
        texture.height == 2,
        texture.mipmap_offsets@.len() >= 1,
        texture.mipmap_offsets@[0] == 0,
        texture.data@.len() >= 4,
        0 <= u < 65536,
        0 <= v < 65536,
    ensures
        texture.sample(u, v, 0, sampler) == texture.data@[(2 * u) / 65536 + 2 * ((2 * v) / 65536)],
        0 <= (2 * u) / 65536 <= 1,
        0 <= (2 * v) / 65536 <= 1,
{
    lemma_mirror_reflects(u, 0);
    lemma_mirror_reflects(v, 0);
    lemma_repeat_has_period_one(u, 0);
    lemma_repeat_has_period_one(v, 0);
    assert(halved(2, 0) == 2);
    let s = wrap(sampler.wrap_mode_s, u);
    let t = wrap(sampler.wrap_mode_t, v);
    assert(s == u && t == v);
    assert(s * 2 == 2 * u && t * 2 == 2 * v);
}

} // verus!
