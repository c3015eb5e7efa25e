//! The geometry of filling a triangle: edge functions, the mapping to the
//! image, barycentric weights, depth and perspective-correct interpolation.
use crate::fixed::{
    clamp_int, floor_div, lemma_mul_bound, lemma_product_of_differences, saturate, saturate_i128,
    wide_mul,
};
use crate::math::Vec4;
use vstd::prelude::*;

verus! {

/// The raw value of the depth one, and of the barycentric weight one: both
/// are held with 30 fractional bits.
pub const DEPTH_ONE: u32 = 1073741824;

/// A point of the image, or of a texture, in pixels with 8 fractional bits.
#[derive(Clone, Copy, Debug, PartialEq, Eq, Structural)]
pub struct ScreenPoint {
    pub x: i32,
    pub y: i32,
}

/// Twice the signed area of the triangle `a`, `b`, `c`.  It is positive where
/// `c` lies on the inner side of the edge from `a` to `b` of a triangle that
/// is drawn.
pub open spec fn edge(a: ScreenPoint, b: ScreenPoint, c: ScreenPoint) -> int {
    (c.x - a.x) * (b.y - a.y) - (c.y - a.y) * (b.x - a.x)
}

/// Computes twice the signed area of a triangle.
pub fn edge_function(a: ScreenPoint, b: ScreenPoint, c: ScreenPoint) -> (e: i128)
    ensures
        e == edge(a, b, c),
        -0x2_0000_0000_0000_0000 <= e <= 0x2_0000_0000_0000_0000,
{
    let p: i128 = wide_mul(c.x as i64 - a.x as i64, b.y as i64 - a.y as i64);
    let q: i128 = wide_mul(c.y as i64 - a.y as i64, b.x as i64 - a.x as i64);
    proof {
        lemma_mul_bound(c.x - a.x, b.y - a.y, 0x1_0000_0000, 0x1_0000_0000);
        lemma_mul_bound(c.y - a.y, b.x - a.x, 0x1_0000_0000, 0x1_0000_0000);
    }
    p - q
}

/// The horizontal screen position of a normalised device coordinate: the
/// interval from minus one to one is laid over the width of the image.
pub open spec fn screen_x(x: int, width: int) -> int {
    saturate(((x + 65536) * width) / 512)
}

/// The vertical screen position of a normalised device coordinate.  The axis
/// is turned over: one maps to the top row, minus one to the bottom.
pub open spec fn screen_y(y: int, height: int) -> int {
    saturate(((65536 - y) * height) / 512)
}

pub open spec fn to_screen(position: Vec4, width: int, height: int) -> ScreenPoint {
    ScreenPoint {
        x: screen_x(position.x as int, width) as i32,
        y: screen_y(position.y as int, height) as i32,
    }
}

/// Maps a position in normalised device coordinates to the image.
pub fn ndc_to_screen(position: Vec4, width: usize, height: usize) -> (p: ScreenPoint)
    ensures
        p == to_screen(position, width as int, height as int),
{
    proof {
        lemma_mul_bound(position.x + 65536, width as int, 0x1_0000_0000, 0xFFFF_FFFF_FFFF_FFFF);
        lemma_mul_bound(65536 - position.y, height as int, 0x1_0000_0000, 0xFFFF_FFFF_FFFF_FFFF);
    }
    let x: i128 = (position.x as i128 + 65536) * (width as i128);
    let y: i128 = (65536 - position.y as i128) * (height as i128);
    ScreenPoint { x: saturate_i128(floor_div(x, 512)), y: saturate_i128(floor_div(y, 512)) }
}

/// The centre of the pixel in column `x` and row `y`.
pub open spec fn pixel_centre(x: int, y: int) -> ScreenPoint {
    ScreenPoint { x: (256 * x + 128) as i32, y: (256 * y + 128) as i32 }
}

pub open spec fn min3(a: int, b: int, c: int) -> int {
    if a <= b && a <= c {
        a
    } else if b <= c {
        b
    } else {
        c
    }
}

pub open spec fn max3(a: int, b: int, c: int) -> int {
    if a >= b && a >= c {
        a
    } else if b >= c {
        b
    } else {
        c
    }
}

/// The pixels over which a triangle is filled: a rectangle, both ends included.
#[derive(Clone, Copy, Debug, PartialEq, Eq, Structural)]
pub struct Bounds {
    pub x_min: usize,
    pub x_max: usize,
    pub y_min: usize,
    pub y_max: usize,
}

/// The pixel that holds a screen coordinate, held to `[0, extent - 1]`.
pub open spec fn pixel_of(coordinate: int, extent: int) -> int {
    clamp_int(coordinate / 256, 0, extent - 1)
}

impl Bounds {
    /// The bounding box of three screen points, held to the image.
    pub open spec fn of(
        s0: ScreenPoint,
        s1: ScreenPoint,
        s2: ScreenPoint,
        width: int,
        height: int,
    ) -> Bounds {
        Bounds {
            x_min: pixel_of(min3(s0.x as int, s1.x as int, s2.x as int), width) as usize,
            x_max: pixel_of(max3(s0.x as int, s1.x as int, s2.x as int), width) as usize,
            y_min: pixel_of(min3(s0.y as int, s1.y as int, s2.y as int), height) as usize,
            y_max: pixel_of(max3(s0.y as int, s1.y as int, s2.y as int), height) as usize,
        }
    }

    /// A box without width or without height holds nothing to fill.
    pub open spec fn is_empty(self) -> bool {
        self.x_max <= self.x_min || self.y_max <= self.y_min
    }

    pub open spec fn contains(self, x: int, y: int) -> bool {
        self.x_min <= x <= self.x_max && self.y_min <= y <= self.y_max
    }
}

fn pixel_of_exec(coordinate: i32, extent: usize) -> (p: usize)
    requires
        extent >= 1,
    ensures
        p == pixel_of(coordinate as int, extent as int),
        p <= 8388607,
        p < extent,
{
    if coordinate < 0 {
        0
    } else {
        let q: usize = (coordinate / 256) as usize;
        if q > extent - 1 {
            extent - 1
        } else {
            q
        }
    }
}

fn min3_exec(a: i32, b: i32, c: i32) -> (m: i32)
    ensures
        m == min3(a as int, b as int, c as int),
{
    if a <= b && a <= c {
        a
    } else if b <= c {
        b
    } else {
        c
    }
}

fn max3_exec(a: i32, b: i32, c: i32) -> (m: i32)
    ensures
        m == max3(a as int, b as int, c as int),
{
    if a >= b && a >= c {
        a
    } else if b >= c {
        b
    } else {
        c
    }
}

/// Computes the box of pixels over which a triangle is filled.
pub fn bounding_box(
    s0: ScreenPoint,
    s1: ScreenPoint,
    s2: ScreenPoint,
    width: usize,
    height: usize,
) -> (b: Bounds)
    requires
        width >= 1,
        height >= 1,
    ensures
        b == Bounds::of(s0, s1, s2, width as int, height as int),
        b.x_max <= 8388607,
        b.y_max <= 8388607,
        b.x_max < width,
        b.y_max < height,
{
    Bounds {
        x_min: pixel_of_exec(min3_exec(s0.x, s1.x, s2.x), width),
        x_max: pixel_of_exec(max3_exec(s0.x, s1.x, s2.x), width),
        y_min: pixel_of_exec(min3_exec(s0.y, s1.y, s2.y), height),
        y_max: pixel_of_exec(max3_exec(s0.y, s1.y, s2.y), height),
    }
}

/// The barycentric weights of a point of a triangle, each with 30 fractional
/// bits.
#[derive(Clone, Copy, Debug, PartialEq, Eq, Structural)]
pub struct Weights {
    pub b0: i64,
    pub b1: i64,
    pub b2: i64,
}

/// Weights that are ready for interpolation across perspective: each
/// barycentric weight divided by the `w` of its vertex, and all three
/// multiplied by the product of the three `w`.
#[derive(Clone, Copy, Debug, PartialEq, Eq, Structural)]
pub struct Corrected {
    pub c0: i128,
    pub c1: i128,
    pub c2: i128,
}

/// The share `e / area`, rounded down to 30 fractional bits.
pub open spec fn weight(e: int, area: int) -> int {
    (e * 1073741824) / area
}

/// The mean of three values under three weights, rounded down.
pub open spec fn weighted_mean(c0: int, c1: int, c2: int, a0: int, a1: int, a2: int) -> int {
    (c0 * a0 + c1 * a1 + c2 * a2) / (c0 + c1 + c2)
}

impl Weights {
    /// No weight is negative or above one, and they do not all vanish.
    pub open spec fn wf(self) -> bool {
        &&& 0 <= self.b0 <= 1073741824
        &&& 0 <= self.b1 <= 1073741824
        &&& 0 <= self.b2 <= 1073741824
        &&& self.b0 + self.b1 + self.b2 >= 1
    }

    /// The weights of the point `p` in the triangle `s0`, `s1`, `s2`: the
    /// three edge functions at `p`, each divided by twice the area of the
    /// triangle.  There are none where the triangle has no positive area or
    /// `p` lies outside it.
    pub open spec fn at(s0: ScreenPoint, s1: ScreenPoint, s2: ScreenPoint, p: ScreenPoint) -> Option<
        Weights,
    > {
        let area = edge(s0, s1, s2);
        let e0 = edge(s1, s2, p);
        let e1 = edge(s2, s0, p);
        let e2 = edge(s0, s1, p);
        if area > 0 && e0 >= 0 && e1 >= 0 && e2 >= 0 {
            Some(
                Weights {
                    b0: weight(e0, area) as i64,
                    b1: weight(e1, area) as i64,
                    b2: weight(e2, area) as i64,
                },
            )
        } else {
            None
        }
    }

    /// The depth at a point with these weights: the interpolated `z` over
    /// the interpolated `w`, rounded down to 30 fractional bits.
    pub open spec fn depth(self, at0: Vec4, at1: Vec4, at2: Vec4) -> int {
        ((self.b0 * at0.z + self.b1 * at1.z + self.b2 * at2.z) * 1073741824) / (self.b0 * at0.w
            + self.b1 * at1.w + self.b2 * at2.w)
    }

    /// The weights for interpolation across perspective: each barycentric
    /// weight divided by the `w` of its vertex, written over the common
    /// denominator of the three `w`, so that nothing is rounded.
    pub open spec fn corrected(self, w0: int, w1: int, w2: int) -> Corrected {
        Corrected {
            c0: (self.b0 * (w1 * w2)) as i128,
            c1: (self.b1 * (w0 * w2)) as i128,
            c2: (self.b2 * (w0 * w1)) as i128,
        }
    }
}

impl Corrected {
    pub open spec fn wf(self) -> bool {
        &&& 0 <= self.c0 <= 0x1000_0000_0000_0000_0000_0000
        &&& 0 <= self.c1 <= 0x1000_0000_0000_0000_0000_0000
        &&& 0 <= self.c2 <= 0x1000_0000_0000_0000_0000_0000
        &&& self.c0 + self.c1 + self.c2 >= 1
    }

    /// An attribute at a point with these weights.
    pub open spec fn mean(self, a0: int, a1: int, a2: int) -> int {
        weighted_mean(self.c0 as int, self.c1 as int, self.c2 as int, a0, a1, a2)
    }
}

/// A sum of two products times a third number, term by term.
proof fn lemma_product_of_sum(a: int, b: int, c: int, d: int, k: int)
    by (nonlinear_arith)
    ensures
        (a * b - c * d) * k == a * (b * k) - c * (d * k),
        a * (b * k) == b * (a * k),
        a * (b * k) == k * (a * b),
        c * (d * k) == d * (c * k),
        c * (d * k) == k * (c * d),
{
}

/// The edge functions of a point `q`, of a triangle with one corner at the
/// origin and the others at `u` and `v`.
proof fn lemma_edges_from_a_corner(ux: int, uy: int, vx: int, vy: int, qx: int, qy: int)
    ensures
        ((qx - ux) * (vy - uy) - (qy - uy) * (vx - ux)) + ((qx - vx) * (0 - vy) - (qy - vy) * (0
            - vx)) + (qx * uy - qy * ux) == vx * uy - vy * ux,
        ((qx - vx) * (0 - vy) - (qy - vy) * (0 - vx)) * ux + (qx * uy - qy * ux) * vx == (vx * uy
            - vy * ux) * qx,
        ((qx - vx) * (0 - vy) - (qy - vy) * (0 - vx)) * uy + (qx * uy - qy * ux) * vy == (vx * uy
            - vy * ux) * qy,
{
    lemma_product_of_differences(qx, ux, vy, uy);
    lemma_product_of_differences(qy, uy, vx, ux);
    lemma_product_of_differences(qx, vx, 0, vy);
    lemma_product_of_differences(qy, vy, 0, vx);
    lemma_product_of_differences(qx, qy, uy, ux);
    lemma_product_of_differences(vx, vy, uy, ux);
    let e1 = (qx - vx) * (0 - vy) - (qy - vy) * (0 - vx);
    assert(e1 == qy * vx - qx * vy);
    lemma_product_of_sum(qy, vx, qx, vy, ux);
    lemma_product_of_sum(qx, uy, qy, ux, vx);
    lemma_product_of_sum(vx, uy, vy, ux, qx);
    lemma_product_of_sum(qy, vx, qx, vy, uy);
    lemma_product_of_sum(qx, uy, qy, ux, vy);
    lemma_product_of_sum(vx, uy, vy, ux, qy);
    lemma_product_of_sum(uy, vx, ux, vy, qx);
    lemma_product_of_sum(ux, vy, uy, vx, qy);
}

/// The edge functions stay as they are when the triangle and the point are
/// moved alike.
proof fn lemma_edges_moved(s0: ScreenPoint, s1: ScreenPoint, s2: ScreenPoint, p: ScreenPoint)
    ensures
        edge(s1, s2, p) == ((p.x - s0.x) - (s1.x - s0.x)) * ((s2.y - s0.y) - (s1.y - s0.y)) - ((p.y
            - s0.y) - (s1.y - s0.y)) * ((s2.x - s0.x) - (s1.x - s0.x)),
        edge(s2, s0, p) == ((p.x - s0.x) - (s2.x - s0.x)) * (0 - (s2.y - s0.y)) - ((p.y - s0.y) - (
        s2.y - s0.y)) * (0 - (s2.x - s0.x)),
        edge(s0, s1, p) == (p.x - s0.x) * (s1.y - s0.y) - (p.y - s0.y) * (s1.x - s0.x),
        edge(s0, s1, s2) == (s2.x - s0.x) * (s1.y - s0.y) - (s2.y - s0.y) * (s1.x - s0.x),
{
    assert((p.x - s0.x) - (s1.x - s0.x) == p.x - s1.x);
    assert((s2.y - s0.y) - (s1.y - s0.y) == s2.y - s1.y);
    assert((p.y - s0.y) - (s1.y - s0.y) == p.y - s1.y);
    assert((s2.x - s0.x) - (s1.x - s0.x) == s2.x - s1.x);
    assert((p.x - s0.x) - (s2.x - s0.x) == p.x - s2.x);
    assert((p.y - s0.y) - (s2.y - s0.y) == p.y - s2.y);
    assert(0 - (s2.y - s0.y) == s0.y - s2.y);
    assert(0 - (s2.x - s0.x) == s0.x - s2.x);
}

/// The three edge functions of a point add up to twice the area of the
/// triangle, wherever the point lies.
pub proof fn lemma_edges_sum(s0: ScreenPoint, s1: ScreenPoint, s2: ScreenPoint, p: ScreenPoint)
    ensures
        edge(s1, s2, p) + edge(s2, s0, p) + edge(s0, s1, p) == edge(s0, s1, s2),
{
    lemma_edges_moved(s0, s1, s2, p);
    lemma_edges_from_a_corner(
        s1.x - s0.x,
        s1.y - s0.y,
        s2.x - s0.x,
        s2.y - s0.y,
        p.x - s0.x,
        p.y - s0.y,
    );
}

/// A share of the area lies between zero and one.
pub proof fn lemma_weight_bounds(e: int, area: int)
    requires
        0 <= e <= area,
        area > 0,
    ensures
        0 <= weight(e, area) <= 1073741824,
{
    assert(0 <= e * 1073741824 <= area * 1073741824);
    vstd::arithmetic::div_mod::lemma_div_is_ordered(e * 1073741824, area * 1073741824, area);
    vstd::arithmetic::div_mod::lemma_div_is_ordered(0, e * 1073741824, area);
    vstd::arithmetic::div_mod::lemma_div_multiples_vanish(1073741824, area);
    assert(area * 1073741824 == 1073741824 * area);
}

/// The three shares of the area add up to one, less what rounding each of
/// them down has lost.
pub proof fn lemma_weights_sum(e0: int, e1: int, e2: int, area: int)
    requires
        e0 >= 0,
        e1 >= 0,
        e2 >= 0,
        e0 + e1 + e2 == area,
        area > 0,
    ensures
        1073741824 - 2 <= weight(e0, area) + weight(e1, area) + weight(e2, area) <= 1073741824,
{
    let k: int = 1073741824;
    let b0 = weight(e0, area);
    let b1 = weight(e1, area);
    let b2 = weight(e2, area);
    vstd::arithmetic::div_mod::lemma_fundamental_div_mod(e0 * k, area);
    vstd::arithmetic::div_mod::lemma_fundamental_div_mod(e1 * k, area);
    vstd::arithmetic::div_mod::lemma_fundamental_div_mod(e2 * k, area);
    let r0 = (e0 * k) % area;
    let r1 = (e1 * k) % area;
    let r2 = (e2 * k) % area;
    assert(0 <= r0 < area && 0 <= r1 < area && 0 <= r2 < area);
    assert(area * (k - (b0 + b1 + b2)) == r0 + r1 + r2) by (nonlinear_arith)
        requires
            e0 * k == area * b0 + r0,
            e1 * k == area * b1 + r1,
            e2 * k == area * b2 + r2,
            e0 + e1 + e2 == area,
    ;
    assert(0 <= k - (b0 + b1 + b2) < 3) by (nonlinear_arith)
        requires
            area * (k - (b0 + b1 + b2)) == r0 + r1 + r2,
            0 <= r0 + r1 + r2 < 3 * area,
            area > 0,
    ;
}

/// At a point of a triangle no barycentric weight is negative, and the three
/// add up to one but for what rounding each of them down has lost: less than
/// three units of the last place.
pub proof fn lemma_weights_of_inner_point(
    s0: ScreenPoint,
    s1: ScreenPoint,
    s2: ScreenPoint,
    p: ScreenPoint,
)
    requires
        Weights::at(s0, s1, s2, p) is Some,
    ensures
        Weights::at(s0, s1, s2, p)->0.b0 >= 0,
        Weights::at(s0, s1, s2, p)->0.b1 >= 0,
        Weights::at(s0, s1, s2, p)->0.b2 >= 0,
        DEPTH_ONE - 2 <= Weights::at(s0, s1, s2, p)->0.b0 + Weights::at(s0, s1, s2, p)->0.b1
            + Weights::at(s0, s1, s2, p)->0.b2 <= DEPTH_ONE,
{
    let area = edge(s0, s1, s2);
    let e0 = edge(s1, s2, p);
    let e1 = edge(s2, s0, p);
    let e2 = edge(s0, s1, p);
    lemma_edges_sum(s0, s1, s2, p);
    lemma_weight_bounds(e0, area);
    lemma_weight_bounds(e1, area);
    lemma_weight_bounds(e2, area);
    lemma_weights_sum(e0, e1, e2, area);
}

/// A mean under weights that are not negative lies between the least and
/// the greatest of the values.
pub proof fn lemma_mean_between(c0: int, c1: int, c2: int, a0: int, a1: int, a2: int, lo: int, hi: int)
    requires
        c0 >= 0,
        c1 >= 0,
        c2 >= 0,
        c0 + c1 + c2 > 0,
        lo <= a0 <= hi,
        lo <= a1 <= hi,
        lo <= a2 <= hi,
    ensures
        lo <= weighted_mean(c0, c1, c2, a0, a1, a2) <= hi,
{
    let total = c0 + c1 + c2;
    let sum = c0 * a0 + c1 * a1 + c2 * a2;
    assert(lo * total <= sum <= hi * total) by (nonlinear_arith)
        requires
            c0 >= 0,
            c1 >= 0,
            c2 >= 0,
            total == c0 + c1 + c2,
            sum == c0 * a0 + c1 * a1 + c2 * a2,
            lo <= a0 <= hi,
            lo <= a1 <= hi,
            lo <= a2 <= hi,
    ;
    vstd::arithmetic::div_mod::lemma_div_is_ordered(lo * total, sum, total);
    vstd::arithmetic::div_mod::lemma_div_is_ordered(sum, hi * total, total);
    vstd::arithmetic::div_mod::lemma_div_multiples_vanish(lo, total);
    vstd::arithmetic::div_mod::lemma_div_multiples_vanish(hi, total);
    assert(lo * total == total * lo && hi * total == total * hi) by (nonlinear_arith);
}

/// Computes the barycentric weights of the point `p`.
pub fn barycentric(s0: ScreenPoint, s1: ScreenPoint, s2: ScreenPoint, p: ScreenPoint) -> (r: Option<
    Weights,
>)
    ensures
        r == Weights::at(s0, s1, s2, p),
        r matches Some(b) ==> b.wf(),
{
    let area: i128 = edge_function(s0, s1, s2);
    let e0: i128 = edge_function(s1, s2, p);
    let e1: i128 = edge_function(s2, s0, p);
    let e2: i128 = edge_function(s0, s1, p);
    if area > 0 && e0 >= 0 && e1 >= 0 && e2 >= 0 {
        proof {
            lemma_edges_sum(s0, s1, s2, p);
            lemma_weight_bounds(e0 as int, area as int);
            lemma_weight_bounds(e1 as int, area as int);
            lemma_weight_bounds(e2 as int, area as int);
            lemma_weights_sum(e0 as int, e1 as int, e2 as int, area as int);
        }
        Some(
            Weights {
                b0: floor_div(e0 * 1073741824, area) as i64,
                b1: floor_div(e1 * 1073741824, area) as i64,
                b2: floor_div(e2 * 1073741824, area) as i64,
            },
        )
    } else {
        None
    }
}

/// Computes the depth at a point with the given weights.
pub fn interpolate_depth(b: Weights, at0: Vec4, at1: Vec4, at2: Vec4) -> (d: i128)
    requires
        b.wf(),
        at0.w > 0,
        at1.w > 0,
        at2.w > 0,
    ensures
        d == b.depth(at0, at1, at2),
{
    let z0: i128 = wide_mul(b.b0, at0.z as i64);
    let z1: i128 = wide_mul(b.b1, at1.z as i64);
    let z2: i128 = wide_mul(b.b2, at2.z as i64);
    let w0: i128 = wide_mul(b.b0, at0.w as i64);
    let w1: i128 = wide_mul(b.b1, at1.w as i64);
    let w2: i128 = wide_mul(b.b2, at2.w as i64);
    proof {
        lemma_mul_bound(b.b0 as int, at0.z as int, 1073741824, 0x8000_0000);
        lemma_mul_bound(b.b1 as int, at1.z as int, 1073741824, 0x8000_0000);
        lemma_mul_bound(b.b2 as int, at2.z as int, 1073741824, 0x8000_0000);
        lemma_mul_bound(b.b0 as int, at0.w as int, 1073741824, 0x8000_0000);
        lemma_mul_bound(b.b1 as int, at1.w as int, 1073741824, 0x8000_0000);
        lemma_mul_bound(b.b2 as int, at2.w as int, 1073741824, 0x8000_0000);
        assert(w0 + w1 + w2 >= 1) by (nonlinear_arith)
            requires
                w0 == b.b0 * at0.w,
                w1 == b.b1 * at1.w,
                w2 == b.b2 * at2.w,
                b.b0 >= 0,
                b.b1 >= 0,
                b.b2 >= 0,
                b.b0 + b.b1 + b.b2 >= 1,
                at0.w >= 1,
                at1.w >= 1,
                at2.w >= 1,
        ;
    }
    floor_div((z0 + z1 + z2) * 1073741824, w0 + w1 + w2)
}

/// Divides each weight by the `w` of its vertex.
pub fn perspective_weights(b: Weights, w0: i32, w1: i32, w2: i32) -> (c: Corrected)
    requires
        b.wf(),
        w0 > 0,
        w1 > 0,
        w2 > 0,
    ensures
        c == b.corrected(w0 as int, w1 as int, w2 as int),
        c.wf(),
{
    let w12: i128 = wide_mul(w1 as i64, w2 as i64);
    let w02: i128 = wide_mul(w0 as i64, w2 as i64);
    let w01: i128 = wide_mul(w0 as i64, w1 as i64);
    proof {
        lemma_product_of_positive(w1 as int, w2 as int);
        lemma_product_of_positive(w0 as int, w2 as int);
        lemma_product_of_positive(w0 as int, w1 as int);
        lemma_mul_bound(b.b0 as int, w12 as int, 1073741824, 0x4000_0000_0000_0000);
        lemma_mul_bound(b.b1 as int, w02 as int, 1073741824, 0x4000_0000_0000_0000);
        lemma_mul_bound(b.b2 as int, w01 as int, 1073741824, 0x4000_0000_0000_0000);
        assert(b.b0 * w12 >= b.b0 && b.b1 * w02 >= b.b1 && b.b2 * w01 >= b.b2) by (nonlinear_arith)
            requires
                b.b0 >= 0,
                b.b1 >= 0,
                b.b2 >= 0,
                w12 >= 1,
                w02 >= 1,
                w01 >= 1,
        ;
    }
    Corrected { c0: (b.b0 as i128) * w12, c1: (b.b1 as i128) * w02, c2: (b.b2 as i128) * w01 }
}

/// The product of two positive fixed-point numbers is positive, and less
/// than two to the 62.
proof fn lemma_product_of_positive(u: int, v: int)
    by (nonlinear_arith)
    requires
        0 < u <= i32::MAX,
        0 < v <= i32::MAX,
    ensures
        1 <= u * v <= 0x4000_0000_0000_0000,
{
}

/// Interpolates one attribute across perspective.
pub fn interpolate(c: Corrected, a0: i32, a1: i32, a2: i32) -> (a: i32)
    requires
        c.wf(),
    ensures
        a == c.mean(a0 as int, a1 as int, a2 as int),
{
    proof {
        lemma_mul_bound(c.c0 as int, a0 as int, 0x1000_0000_0000_0000_0000_0000, 0x8000_0000);
        lemma_mul_bound(c.c1 as int, a1 as int, 0x1000_0000_0000_0000_0000_0000, 0x8000_0000);
        lemma_mul_bound(c.c2 as int, a2 as int, 0x1000_0000_0000_0000_0000_0000, 0x8000_0000);
        lemma_mean_between(
            c.c0 as int,
            c.c1 as int,
            c.c2 as int,
            a0 as int,
            a1 as int,
            a2 as int,
            i32::MIN as int,
            i32::MAX as int,
        );
    }
    let sum: i128 = c.c0 * (a0 as i128) + c.c1 * (a1 as i128) + c.c2 * (a2 as i128);
    floor_div(sum, c.c0 + c.c1 + c.c2) as i32
}

/// Interpolation across perspective is the analytic one.  An attribute at
/// a point is the sum of the attributes of the vertices, each weighted by its
/// barycentric weight over its `w`, divided by the sum of those weights, and
/// rounded down.  Both sums are written here over the common denominator of
/// the three `w`: the attribute is the greatest whole number whose product
/// with the lower sum does not go beyond the upper one.
pub proof fn lemma_interpolation_is_analytic(
    b: Weights,
    w0: int,
    w1: int,
    w2: int,
    a0: int,
    a1: int,
    a2: int,
)
    requires
        b.wf(),
        0 < w0 <= i32::MAX,
        0 < w1 <= i32::MAX,
        0 < w2 <= i32::MAX,
    ensures
        b.b0 * (w1 * w2) + b.b1 * (w0 * w2) + b.b2 * (w0 * w1) >= 1,
        b.corrected(w0, w1, w2).mean(a0, a1, a2) * (b.b0 * (w1 * w2) + b.b1 * (w0 * w2) + b.b2 * (w0
            * w1)) <= (b.b0 * (w1 * w2)) * a0 + (b.b1 * (w0 * w2)) * a1 + (b.b2 * (w0 * w1)) * a2,
        (b.b0 * (w1 * w2)) * a0 + (b.b1 * (w0 * w2)) * a1 + (b.b2 * (w0 * w1)) * a2 < (b.corrected(
            w0,
            w1,
            w2,
        ).mean(a0, a1, a2) + 1) * (b.b0 * (w1 * w2) + b.b1 * (w0 * w2) + b.b2 * (w0 * w1)),
{
    lemma_product_of_positive(w1, w2);
    lemma_product_of_positive(w0, w2);
    lemma_product_of_positive(w0, w1);
    lemma_mul_bound(b.b0 as int, w1 * w2, 1073741824, 0x4000_0000_0000_0000);
    lemma_mul_bound(b.b1 as int, w0 * w2, 1073741824, 0x4000_0000_0000_0000);
    lemma_mul_bound(b.b2 as int, w0 * w1, 1073741824, 0x4000_0000_0000_0000);
    let (c0, c1, c2) = (b.b0 * (w1 * w2), b.b1 * (w0 * w2), b.b2 * (w0 * w1));
    assert(c0 >= b.b0 && c1 >= b.b1 && c2 >= b.b2) by (nonlinear_arith)
        requires
            c0 == b.b0 * (w1 * w2),
            c1 == b.b1 * (w0 * w2),
            c2 == b.b2 * (w0 * w1),
            b.b0 >= 0,
            b.b1 >= 0,
            b.b2 >= 0,
            w1 * w2 >= 1,
            w0 * w2 >= 1,
            w0 * w1 >= 1,
    ;
    let above = c0 * a0 + c1 * a1 + c2 * a2;
    let below = c0 + c1 + c2;
    vstd::arithmetic::div_mod::lemma_fundamental_div_mod(above, below);
    let whole = above / below;
    assert(whole * below <= above && above < (whole + 1) * below) by (nonlinear_arith)
        requires
            above == below * whole + above % below,
            0 <= above % below < below,
    ;
}

/// An attribute that is the same at the three vertices is the same at every
/// point of the triangle.
pub proof fn lemma_equal_attribute_stays(c: Corrected, a: int)
    requires
        c.wf(),
    ensures
        c.mean(a, a, a) == a,
{
    lemma_mean_between(c.c0 as int, c.c1 as int, c.c2 as int, a, a, a, a, a);
}

/// The centre of mass of the corners under the three edge functions of a
/// point is the point itself: the edge functions are its barycentric
/// weights, before they are divided by twice the area.
pub proof fn lemma_point_is_weighted_sum(
    s0: ScreenPoint,
    s1: ScreenPoint,
    s2: ScreenPoint,
    p: ScreenPoint,
)
    ensures
        edge(s1, s2, p) * s0.x + edge(s2, s0, p) * s1.x + edge(s0, s1, p) * s2.x == edge(s0, s1, s2)
            * p.x,
        edge(s1, s2, p) * s0.y + edge(s2, s0, p) * s1.y + edge(s0, s1, p) * s2.y == edge(s0, s1, s2)
            * p.y,
{
    lemma_edges_moved(s0, s1, s2, p);
    lemma_edges_sum(s0, s1, s2, p);
    let (ux, uy) = (s1.x - s0.x, s1.y - s0.y);
    let (vx, vy) = (s2.x - s0.x, s2.y - s0.y);
    let (qx, qy) = (p.x - s0.x, p.y - s0.y);
    lemma_edges_from_a_corner(ux, uy, vx, vy, qx, qy);
    let e0 = edge(s1, s2, p);
    let e1 = edge(s2, s0, p);
    let e2 = edge(s0, s1, p);
    let area = edge(s0, s1, s2);
    lemma_weighted_corner(e0, e1, e2, area, s0.x as int, ux, vx, qx);
    lemma_weighted_corner(e0, e1, e2, area, s0.y as int, uy, vy, qy);
    assert(s1.x == s0.x + ux && s2.x == s0.x + vx && p.x == s0.x + qx);
    assert(s1.y == s0.y + uy && s2.y == s0.y + vy && p.y == s0.y + qy);
}

/// One coordinate of the centre of mass, from the coordinates as they are
/// seen from the first corner.
proof fn lemma_weighted_corner(e0: int, e1: int, e2: int, area: int, a: int, u: int, v: int, q: int)
    requires
        e0 + e1 + e2 == area,
        e1 * u + e2 * v == area * q,
    ensures
        e0 * a + e1 * (a + u) + e2 * (a + v) == area * (a + q),
{
    assert(e1 * (a + u) == e1 * a + e1 * u) by (nonlinear_arith);
    assert(e2 * (a + v) == e2 * a + e2 * v) by (nonlinear_arith);
    assert(area * (a + q) == area * a + area * q) by (nonlinear_arith);
    assert((e0 + e1 + e2) * a == e0 * a + e1 * a + e2 * a) by (nonlinear_arith);
}

/// Where the three vertices have the same `w`, interpolation across
/// perspective is the plain one: the mean of the attributes under the
/// barycentric weights.
pub proof fn lemma_equal_w_is_affine(b: Weights, w: int, a0: int, a1: int, a2: int)
    requires
        b.wf(),
        0 < w <= i32::MAX,
    ensures
        b.corrected(w, w, w).mean(a0, a1, a2) == weighted_mean(
            b.b0 as int,
            b.b1 as int,
            b.b2 as int,
            a0,
            a1,
            a2,
        ),
{
    let scale = w * w;
    lemma_product_of_positive(w, w);
    lemma_mul_bound(b.b0 as int, scale, 1073741824, 0x4000_0000_0000_0000);
    lemma_mul_bound(b.b1 as int, scale, 1073741824, 0x4000_0000_0000_0000);
    lemma_mul_bound(b.b2 as int, scale, 1073741824, 0x4000_0000_0000_0000);
    let above = b.b0 * a0 + b.b1 * a1 + b.b2 * a2;
    let below = b.b0 + b.b1 + b.b2;
    assert((b.b0 * scale) * a0 == (b.b0 * a0) * scale) by (nonlinear_arith);
    assert((b.b1 * scale) * a1 == (b.b1 * a1) * scale) by (nonlinear_arith);
    assert((b.b2 * scale) * a2 == (b.b2 * a2) * scale) by (nonlinear_arith);
    assert(above * scale == (b.b0 * a0) * scale + (b.b1 * a1) * scale + (b.b2 * a2) * scale)
        by (nonlinear_arith)
        requires
            above == b.b0 * a0 + b.b1 * a1 + b.b2 * a2,
    ;
    assert(below * scale == b.b0 * scale + b.b1 * scale + b.b2 * scale) by (nonlinear_arith)
        requires
            below == b.b0 + b.b1 + b.b2,
    ;
    lemma_scaled_quotient(scale, above, below);
}

/// A quotient stays as it is when both sides are scaled alike.
proof fn lemma_scaled_quotient(scale: int, a: int, d: int)
    requires
        scale > 0,
        d > 0,
    ensures
        (a * scale) / (d * scale) == a / d,
{
    vstd::arithmetic::div_mod::lemma_fundamental_div_mod(a, d);
    let q: int = a / d;
    let r: int = a % d;
    assert(a * scale == (d * scale) * q + r * scale && 0 <= r * scale < d * scale) by (nonlinear_arith)
        requires
            a == d * q + r,
            0 <= r < d,
            scale > 0,
    ;
    vstd::arithmetic::div_mod::lemma_fundamental_div_mod_converse(
        a * scale,
        d * scale,
        q,
        r * scale,
    );
}

} // verus!
