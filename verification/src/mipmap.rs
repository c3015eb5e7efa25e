//! Chains of mipmaps: each level is the box filter of the level before it.
use crate::colour::{
    alpha, alpha_of, blue, blue_of, colour_rgba, green, green_of, lemma_texel_channels, red, red_of,
    texel,
};
use crate::texture::{halved, Texture};
use vstd::arithmetic::power2::{lemma2_to64, lemma_pow2_unfold, pow2};
use vstd::prelude::*;

verus! {

/// The mean of four channel values, rounded down.
pub open spec fn average(a: int, b: int, c: int, d: int) -> int {
    (a + b + c + d) / 4
}

/// The texel that four texels give when each channel is averaged by itself.
pub open spec fn box_filter(p: int, q: int, r: int, s: int) -> int {
    texel(
        average(alpha_of(p), alpha_of(q), alpha_of(r), alpha_of(s)),
        average(red_of(p), red_of(q), red_of(r), red_of(s)),
        average(green_of(p), green_of(q), green_of(r), green_of(s)),
        average(blue_of(p), blue_of(q), blue_of(r), blue_of(s)),
    )
}

/// The texel in column `x` and row `y` of the level that follows a level of
/// width `width` with the texels `level`: the box filter of the square of
/// four texels that it covers.
pub open spec fn downsampled_texel(level: Seq<u32>, width: int, x: int, y: int) -> int {
    box_filter(
        level[2 * x + (2 * y) * width] as int,
        level[2 * x + 1 + (2 * y) * width] as int,
        level[2 * x + (2 * y + 1) * width] as int,
        level[2 * x + 1 + (2 * y + 1) * width] as int,
    )
}

/// The level that follows a level of the given size: half as wide and half
/// as high, both rounded down.
pub open spec fn downsample(level: Seq<u32>, width: int, height: int) -> Seq<u32> {
    Seq::new(
        ((width / 2) * (height / 2)) as nat,
        |i: int| downsampled_texel(level, width, i % (width / 2), i / (width / 2)) as u32,
    )
}

/// The number of levels that follow a level of the given size: levels are
/// added until one is a single texel wide or high.
pub open spec fn extra_levels(width: nat, height: nat) -> nat
    decreases width,
{
    if width <= 1 || height <= 1 {
        0
    } else {
        1 + extra_levels(width / 2, height / 2)
    }
}

/// Level `i` of the chain that starts with the level `base`.
pub open spec fn chain_level(base: Seq<u32>, width: nat, height: nat, i: nat) -> Seq<u32>
    decreases i,
{
    if i == 0 {
        base
    } else {
        downsample(
            chain_level(base, width, height, (i - 1) as nat),
            halved(width, (i - 1) as nat) as int,
            halved(height, (i - 1) as nat) as int,
        )
    }
}

/// The texels of the levels `1` to `n` of a chain, one level after another.
pub open spec fn chain_data(base: Seq<u32>, width: nat, height: nat, n: nat) -> Seq<u32>
    decreases n,
{
    if n == 0 {
        Seq::empty()
    } else {
        chain_data(base, width, height, (n - 1) as nat) + chain_level(base, width, height, n)
    }
}

/// Where the levels `1` to `n` of a chain start, when the first of them
/// starts at `start`.
pub open spec fn chain_offsets(start: nat, base: Seq<u32>, width: nat, height: nat, n: nat) -> Seq<
    usize,
>
    decreases n,
{
    if n == 0 {
        Seq::empty()
    } else {
        chain_offsets(start, base, width, height, (n - 1) as nat).push(
            (start + chain_data(base, width, height, (n - 1) as nat).len()) as usize,
        )
    }
}

fn average_exec(a: u8, b: u8, c: u8, d: u8) -> (r: u8)
    ensures
        r == average(a as int, b as int, c as int, d as int),
{
    ((a as u32 + b as u32 + c as u32 + d as u32) / 4) as u8
}

fn box_filter_exec(p: u32, q: u32, r: u32, s: u32) -> (t: u32)
    ensures
        t == box_filter(p as int, q as int, r as int, s as int),
{
    colour_rgba(
        average_exec(alpha(p), alpha(q), alpha(r), alpha(s)),
        average_exec(red(p), red(q), red(r), red(s)),
        average_exec(green(p), green(q), green(r), green(s)),
        average_exec(blue(p), blue(q), blue(r), blue(s)),
    )
}

/// The four texels that a texel of the next level covers lie within the
/// level, and the texel itself lies at its index by rows.
proof fn lemma_covered_texels(x: int, y: int, width: int, height: int)
    requires
        0 <= x < width / 2,
        0 <= y < height / 2,
    ensures
        0 <= (2 * y) * width,
        (2 * y + 1) * width == (2 * y) * width + width,
        2 * x + 1 + (2 * y + 1) * width < width * height,
        0 <= x + y * (width / 2) < (width / 2) * (height / 2),
        (x + y * (width / 2)) % (width / 2) == x,
        (x + y * (width / 2)) / (width / 2) == y,
        (width / 2) * (height / 2) <= width * height,
{
    let dw = width / 2;
    let dh = height / 2;
    assert(0 <= (2 * y) * width && (2 * y + 1) * width == (2 * y) * width + width && 2 * x + 1 + (2
        * y + 1) * width < width * height) by (nonlinear_arith)
        requires
            0 <= 2 * x + 1 < width,
            0 <= 2 * y + 1 < height,
    ;
    assert(0 <= y * dw && x + y * dw < dw * dh && dw * dh <= width * height) by (nonlinear_arith)
        requires
            0 <= x < dw,
            0 <= y < dh,
            dw <= width,
            dh <= height,
    ;
    vstd::arithmetic::div_mod::lemma_fundamental_div_mod_converse(x + y * dw, dw, y, x);
    assert(dw * y == y * dw) by (nonlinear_arith);
}

/// Builds the level that follows the level of the given size whose texels
/// start at `offset` in `data`.
fn downsample_level(data: &Vec<u32>, offset: usize, width: usize, height: usize) -> (next: Vec<u32>)
    requires
        offset + width * height <= data@.len(),
    ensures
        next@ == downsample(
            data@.subrange(offset as int, offset + width * height),
            width as int,
            height as int,
        ),
{
    let ghost level = data@.subrange(offset as int, offset + width * height);
    let ghost target = downsample(level, width as int, height as int);
    let next_width: usize = width / 2;
    let next_height: usize = height / 2;
    let mut next: Vec<u32> = Vec::new();
    let total: usize = data.len();
    let mut y: usize = 0;
    while y < next_height
        invariant
            total == data@.len(),
            offset + width * height <= data@.len(),
            level == data@.subrange(offset as int, offset + width * height),
            target == downsample(level, width as int, height as int),
            next_width == width / 2,
            next_height == height / 2,
            0 <= y <= next_height,
            next@ == target.take(y * next_width),
            y * next_width <= target.len(),
        decreases next_height - y,
    {
        let mut x: usize = 0;
        while x < next_width
            invariant
                total == data@.len(),
                offset + width * height <= data@.len(),
                level == data@.subrange(offset as int, offset + width * height),
                target == downsample(level, width as int, height as int),
                next_width == width / 2,
                next_height == height / 2,
                0 <= y < next_height,
                0 <= x <= next_width,
                next@ == target.take(y * next_width + x),
                y * next_width + x <= target.len(),
            decreases next_width - x,
        {
            proof {
                lemma_covered_texels(x as int, y as int, width as int, height as int);
            }
            let upper: usize = offset + (2 * y) * width;
            let lower: usize = offset + (2 * y + 1) * width;
            let p: u32 = data[upper + 2 * x];
            let q: u32 = data[upper + 2 * x + 1];
            let r: u32 = data[lower + 2 * x];
            let s: u32 = data[lower + 2 * x + 1];
            let t: u32 = box_filter_exec(p, q, r, s);
            next.push(t);
            proof {
                let i = y * next_width + x;
                assert(i == x + y * next_width);
                assert(target[i] == t);
                assert(target.take(i + 1) =~= target.take(i).push(target[i]));
            }
            x = x + 1;
        }
        proof {
            assert(y * next_width + next_width == (y + 1) * next_width) by (nonlinear_arith);
        }
        y = y + 1;
    }
    proof {
        assert(target.take(target.len() as int) =~= target);
        assert(next_height * next_width == next_width * next_height) by (nonlinear_arith);
    }
    next
}

impl Texture {
    /// The texels of the full-size level.
    pub open spec fn base(self) -> Seq<u32> {
        self.data@.take(self.width * self.height)
    }

    /// Extends the texture by the chain of mipmaps of its full-size level.
    /// Each level is the box filter of the one before it, and levels are
    /// added until one is a single texel wide or high.  The texels of the new
    /// levels are appended to `data`, and the place where each starts is
    /// appended to `mipmap_offsets`.
    pub fn generate_mipmaps(&mut self)
        requires
            old(self).width > 1 && old(self).height > 1 ==> old(self).width * old(self).height
                <= old(self).data@.len(),
        ensures
            final(self).width == old(self).width,
            final(self).height == old(self).height,
            final(self).depth == old(self).depth,
            final(self).data@ == old(self).data@ + chain_data(
                old(self).base(),
                old(self).width as nat,
                old(self).height as nat,
                extra_levels(old(self).width as nat, old(self).height as nat),
            ),
            final(self).mipmap_offsets@ == old(self).mipmap_offsets@ + chain_offsets(
                old(self).data@.len(),
                old(self).base(),
                old(self).width as nat,
                old(self).height as nat,
                extra_levels(old(self).width as nat, old(self).height as nat),
            ),
    {
        let ghost base = self.base();
        let ghost start = self.data@;
        let ghost offsets = self.mipmap_offsets@;
        let ghost w = self.width as nat;
        let ghost h = self.height as nat;
        let mut src_offset: usize = 0;
        let mut src_width: usize = self.width;
        let mut src_height: usize = self.height;
        let ghost mut i: nat = 0;
        proof {
            assert(chain_data(base, w, h, 0) =~= Seq::<u32>::empty());
            assert(start + Seq::<u32>::empty() =~= start);
            assert(offsets + Seq::<usize>::empty() =~= offsets);
            if w > 1 && h > 1 {
                assert(start.subrange(0, (w * h) as int) =~= base);
            }
        }
        while src_width > 1 && src_height > 1
            invariant
                self.width == w,
                self.height == h,
                self.depth == old(self).depth,
                src_width == halved(w, i),
                src_height == halved(h, i),
                extra_levels(w, h) == i + extra_levels(src_width as nat, src_height as nat),
                self.data@ == start + chain_data(base, w, h, i),
                self.mipmap_offsets@ == offsets + chain_offsets(start.len(), base, w, h, i),
                src_width > 1 && src_height > 1 ==> {
                    &&& src_offset + src_width * src_height <= self.data@.len()
                    &&& self.data@.subrange(src_offset as int, src_offset + src_width * src_height)
                        == chain_level(base, w, h, i)
                },
                i == 0 ==> src_offset == 0,
            decreases src_width,
        {
            let mut new_mipmap: Vec<u32> = downsample_level(
                &self.data,
                src_offset,
                src_width,
                src_height,
            );
            let new_mipmap_offset: usize = self.data.len();
            let ghost earlier = self.data@;
            let ghost level = new_mipmap@;
            self.mipmap_offsets.push(new_mipmap_offset);
            self.data.append(&mut new_mipmap);
            proof {
                let next = i + 1;
                assert(level == chain_level(base, w, h, next));
                assert(chain_data(base, w, h, next) == chain_data(base, w, h, i) + level);
                assert(self.data@ =~= start + chain_data(base, w, h, next));
                assert(chain_offsets(start.len(), base, w, h, next) == chain_offsets(
                    start.len(),
                    base,
                    w,
                    h,
                    i,
                ).push((start.len() + chain_data(base, w, h, i).len()) as usize));
                assert(self.mipmap_offsets@ =~= offsets + chain_offsets(
                    start.len(),
                    base,
                    w,
                    h,
                    next,
                ));
                assert(level.len() == (src_width / 2) * (src_height / 2));
                assert(self.data@.subrange(
                    new_mipmap_offset as int,
                    new_mipmap_offset + (src_width / 2) * (src_height / 2),
                ) =~= level);
            }
            src_offset = new_mipmap_offset;
            src_width = src_width / 2;
            src_height = src_height / 2;
            proof {
                i = i + 1;
            }
        }
    }
}

/// A square texture whose side is the `n`-th power of two has `n` levels
/// beyond the first.
pub proof fn lemma_square_has_n_levels(n: nat)
    ensures
        extra_levels(pow2(n), pow2(n)) == n,
    decreases n,
{
    lemma2_to64();
    if n > 0 {
        lemma_pow2_unfold(n);
        lemma_square_has_n_levels((n - 1) as nat);
        vstd::arithmetic::power2::lemma_pow2_pos((n - 1) as nat);
    }
}

/// Level `i` of a texture whose side is the `n`-th power of two has a side of
/// the power of two that is `i` less.
pub proof fn lemma_level_of_power_of_two(n: nat, i: nat)
    requires
        i <= n,
    ensures
        halved(pow2(n), i) == pow2((n - i) as nat),
    decreases i,
{
    if i > 0 {
        lemma_level_of_power_of_two(n, (i - 1) as nat);
        lemma_pow2_unfold((n - i + 1) as nat);
    }
}

/// Every level of a chain is as wide and as high as halving says, and holds
/// that many texels.
pub proof fn lemma_level_size(base: Seq<u32>, width: nat, height: nat, i: nat)
    requires
        base.len() == width * height,
    ensures
        chain_level(base, width, height, i).len() == halved(width, i) * halved(height, i),
    decreases i,
{
    if i > 0 {
        lemma_level_size(base, width, height, (i - 1) as nat);
        assert(halved(width, i) * halved(height, i) >= 0) by (nonlinear_arith);
    }
}

/// A chain of `n` further levels has `n` further offsets.
pub proof fn lemma_offsets_count(start: nat, base: Seq<u32>, width: nat, height: nat, n: nat)
    ensures
        chain_offsets(start, base, width, height, n).len() == n,
    decreases n,
{
    if n > 0 {
        lemma_offsets_count(start, base, width, height, (n - 1) as nat);
    }
}

/// Every channel of a texel of a level is the mean, rounded down, of that
/// channel in the four texels that it covers in the level before.
pub proof fn lemma_texel_is_mean_of_four(
    base: Seq<u32>,
    width: nat,
    height: nat,
    i: nat,
    x: int,
    y: int,
)
    requires
        i >= 1,
        0 <= x < halved(width, i),
        0 <= y < halved(height, i),
    ensures
        ({
            let wide = halved(width, (i - 1) as nat) as int;
            let before = chain_level(base, width, height, (i - 1) as nat);
            let p = before[2 * x + (2 * y) * wide] as int;
            let q = before[2 * x + 1 + (2 * y) * wide] as int;
            let r = before[2 * x + (2 * y + 1) * wide] as int;
            let s = before[2 * x + 1 + (2 * y + 1) * wide] as int;
            let t = chain_level(base, width, height, i)[x + y * halved(width, i)] as int;
            &&& red_of(t) == average(red_of(p), red_of(q), red_of(r), red_of(s))
            &&& green_of(t) == average(green_of(p), green_of(q), green_of(r), green_of(s))
            &&& blue_of(t) == average(blue_of(p), blue_of(q), blue_of(r), blue_of(s))
            &&& alpha_of(t) == average(alpha_of(p), alpha_of(q), alpha_of(r), alpha_of(s))
        }),
{
    let wide = halved(width, (i - 1) as nat) as int;
    let high = halved(height, (i - 1) as nat) as int;
    let before = chain_level(base, width, height, (i - 1) as nat);
    lemma_covered_texels(x, y, wide, high);
    let p = before[2 * x + (2 * y) * wide] as int;
    let q = before[2 * x + 1 + (2 * y) * wide] as int;
    let r = before[2 * x + (2 * y + 1) * wide] as int;
    let s = before[2 * x + 1 + (2 * y + 1) * wide] as int;
    lemma_texel_channels(
        average(alpha_of(p), alpha_of(q), alpha_of(r), alpha_of(s)),
        average(red_of(p), red_of(q), red_of(r), red_of(s)),
        average(green_of(p), green_of(q), green_of(r), green_of(s)),
        average(blue_of(p), blue_of(q), blue_of(r), blue_of(s)),
    );
    let j = x + y * (wide / 2);
    assert(chain_level(base, width, height, i)[j] == downsampled_texel(before, wide, x, y) as u32);
}

/// The texels and the offsets of a chain hold every level where its offset
/// says: the offset of level `k` is the start of the chain plus the sizes of
/// the levels before it, and the texels of the level follow from there.
pub proof fn lemma_level_in_chain(
    start: nat,
    base: Seq<u32>,
    width: nat,
    height: nat,
    n: nat,
    k: nat,
    i: int,
)
    requires
        1 <= k <= n,
        0 <= i < chain_level(base, width, height, k).len(),
    ensures
        chain_offsets(start, base, width, height, n)[k - 1] == (start + chain_data(
            base,
            width,
            height,
            (k - 1) as nat,
        ).len()) as usize,
        chain_data(base, width, height, (k - 1) as nat).len() + i < chain_data(
            base,
            width,
            height,
            n,
        ).len(),
        chain_data(base, width, height, n)[chain_data(base, width, height, (k - 1) as nat).len() + i]
            == chain_level(base, width, height, k)[i],
    decreases n,
{
    lemma_offsets_count(start, base, width, height, (n - 1) as nat);
    if k < n {
        lemma_level_in_chain(start, base, width, height, (n - 1) as nat, k, i);
    }
}

} // verus!
