//! Signed 16.16 fixed-point arithmetic.
//!
//! Every scalar of the geometry pipeline is an `i32` that stands for the
//! rational number `raw / 65536`.  Intermediate results are formed in `i128`,
//! where none of the products below can overflow, and are brought back into
//! `i32` by saturation.  Division always rounds towards negative infinity, so
//! the executable operations agree with `/` on `int`.
use vstd::arithmetic::power2::{lemma2_to64, lemma_pow2_pos, lemma_pow2_strictly_increases, lemma_pow2_unfold, pow2};
use vstd::prelude::*;

verus! {

/// `x` held to the closed interval `[lo, hi]`.
pub open spec fn clamp_int(x: int, lo: int, hi: int) -> int {
    if x < lo {
        lo
    } else if x > hi {
        hi
    } else {
        x
    }
}

/// `x` held to the range of `i32`.
pub open spec fn saturate(x: int) -> int {
    clamp_int(x, i32::MIN as int, i32::MAX as int)
}

/// The quotient of two fixed-point numbers, rounded down.
pub open spec fn div_fixed(a: int, b: int) -> int {
    (a * 65536) / b
}

/// The point that lies `num / den` of the way from `a` to `b`, rounded down.
pub open spec fn lerp(a: int, b: int, num: int, den: int) -> int {
    a + ((b - a) * num) / den
}

/// Quotient rounded towards negative infinity.
pub fn floor_div(a: i128, b: i128) -> (q: i128)
    requires
        b > 0,
    ensures
        q == a as int / b as int,
{
    let t: i128 = a / b;
    let r: i128 = a % b;
    proof {
        lemma_truncated_division(a as int, b as int, t as int, r as int);
    }
    if r < 0 {
        t - 1
    } else {
        t
    }
}

/// Relates a quotient `t` and remainder `r` that were rounded towards zero
/// to the quotient rounded down.
proof fn lemma_truncated_division(a: int, d: int, t: int, r: int)
    requires
        d > 0,
        a >= 0 ==> t == a / d && r == a % d,
        a < 0 ==> t == -((-a) / d) && r == -((-a) % d),
    ensures
        r < 0 ==> a / d == t - 1 && t > a,
        r >= 0 ==> a / d == t,
        -d < r < d,
{
    if a < 0 {
        let n: int = -a;
        vstd::arithmetic::div_mod::lemma_fundamental_div_mod(n, d);
        assert(0 <= n % d < d);
        assert(n / d >= 0) by (nonlinear_arith)
            requires
                n > 0,
                d > 0,
        ;
        if r < 0 {
            assert(a == d * (-(n / d) - 1) + (d - n % d)) by (nonlinear_arith)
                requires
                    n == d * (n / d) + n % d,
                    a == -n,
            ;
            vstd::arithmetic::div_mod::lemma_fundamental_div_mod_converse(
                a,
                d,
                -(n / d) - 1,
                d - n % d,
            );
            assert(t > a) by (nonlinear_arith)
                requires
                    n == d * (n / d) + n % d,
                    a == -n,
                    t == -(n / d),
                    n % d > 0,
                    n / d >= 0,
                    d > 0,
            ;
        } else {
            assert(a == d * (-(n / d)) + 0) by (nonlinear_arith)
                requires
                    n == d * (n / d) + n % d,
                    n % d == 0,
                    a == -n,
            ;
            vstd::arithmetic::div_mod::lemma_fundamental_div_mod_converse(a, d, -(n / d), 0);
        }
    }
}

/// Brings a wide intermediate result back into `i32`.
pub fn saturate_i128(x: i128) -> (r: i32)
    ensures
        r == saturate(x as int),
{
    if x < -2147483648 {
        -2147483648
    } else if x > 2147483647 {
        2147483647
    } else {
        x as i32
    }
}

/// Fixed-point quotient by a positive divisor, rounded down and saturated.
pub fn div_saturating(a: i32, b: i32) -> (r: i32)
    requires
        b > 0,
    ensures
        r == saturate(div_fixed(a as int, b as int)),
{
    let n: i128 = (a as i128) * 65536;
    saturate_i128(floor_div(n, b as i128))
}

/// The exact product of two 64-bit integers.
pub fn wide_mul(a: i64, b: i64) -> (p: i128)
    ensures
        p == a as int * b as int,
{
    proof {
        lemma_mul_bound(a as int, b as int, 0x8000_0000_0000_0000, 0x8000_0000_0000_0000);
    }
    (a as i128) * (b as i128)
}

/// A product is bounded by the product of the bounds of its factors.
pub proof fn lemma_mul_bound(a: int, b: int, ma: int, mb: int)
    by (nonlinear_arith)
    requires
        -ma <= a <= ma,
        -mb <= b <= mb,
    ensures
        -(ma * mb) <= a * b <= ma * mb,
{
}

/// Linear interpolation between two fixed-point numbers.  The parameter
/// `num / den` lies in `[0, 1]`, so the result lies between `a` and `b`.
pub fn lerp_fixed(a: i32, b: i32, num: i64, den: i64) -> (r: i32)
    requires
        0 <= num <= den,
        den > 0,
    ensures
        r == lerp(a as int, b as int, num as int, den as int),
{
    let d: i64 = b as i64 - a as i64;
    let t: i128 = wide_mul(d, num);
    let q: i128 = floor_div(t, den as i128);
    proof {
        lemma_lerp_between(a as int, b as int, num as int, den as int);
    }
    (a as i128 + q) as i32
}

/// An interpolated value lies between the two values it was formed from.
pub proof fn lemma_lerp_between(a: int, b: int, num: int, den: int)
    requires
        0 <= num <= den,
        den > 0,
    ensures
        a <= b ==> a <= lerp(a, b, num, den) <= b,
        b <= a ==> b <= lerp(a, b, num, den) <= a,
{
    let d: int = b - a;
    let t: int = d * num;
    if d >= 0 {
        assert(0 <= t <= d * den) by (nonlinear_arith)
            requires
                t == d * num,
                0 <= num <= den,
                d >= 0,
        ;
        assert(0 <= t / den <= d) by (nonlinear_arith)
            requires
                0 <= t <= d * den,
                den > 0,
        ;
    } else {
        assert(d * den <= t <= 0) by (nonlinear_arith)
            requires
                t == d * num,
                0 <= num <= den,
                d < 0,
        ;
        assert(d <= t / den <= 0) by (nonlinear_arith)
            requires
                d * den <= t <= 0,
                den > 0,
        ;
    }
}

/// The exponent field of a binary floating-point number of 32 bits.
pub open spec fn float_exponent(bits: int) -> int {
    (bits / 8388608) % 256
}

/// The fraction field of a binary floating-point number of 32 bits.
pub open spec fn float_fraction(bits: int) -> int {
    bits % 8388608
}

/// The significand of a floating-point number: the fraction, with the
/// leading one that a normal number leaves unwritten.
pub open spec fn float_significand(bits: int) -> int {
    if float_exponent(bits) == 0 {
        float_fraction(bits)
    } else {
        float_fraction(bits) + 8388608
    }
}

/// The power of two by which the significand is multiplied to give the
/// magnitude of the number as a fixed-point value.
pub open spec fn float_power(bits: int) -> int {
    if float_exponent(bits) == 0 {
        -133
    } else {
        float_exponent(bits) - 134
    }
}

/// The magnitude of a floating-point number as a fixed-point value, rounded
/// to the nearest, a half rounded up.
pub open spec fn float_magnitude(bits: int) -> int {
    let power = float_power(bits);
    if power >= 0 {
        float_significand(bits) * pow2(power as nat)
    } else {
        (2 * float_significand(bits) + pow2((-power) as nat)) / (2 * pow2((-power) as nat) as int)
    }
}

/// The fixed-point number nearest to the floating-point number with the
/// given bits, held to the range of `i32`.  What is not a number gives zero.
pub open spec fn fixed_of_float(bits: int) -> int {
    if float_exponent(bits) == 255 && float_fraction(bits) != 0 {
        0
    } else if bits >= 2147483648 {
        saturate(-float_magnitude(bits))
    } else {
        saturate(float_magnitude(bits))
    }
}

fn power_of_two(n: u32) -> (p: u64)
    requires
        n <= 62,
    ensures
        p == pow2(n as nat),
        1 <= p <= 0x4000_0000_0000_0000,
{
    let mut p: u64 = 1;
    let mut i: u32 = 0;
    proof {
        lemma2_to64();
    }
    while i < n
        invariant
            i <= n <= 62,
            p == pow2(i as nat),
            1 <= p,
        decreases n - i,
    {
        proof {
            lemma_pow2_unfold((i + 1) as nat);
            vstd::arithmetic::power2::lemma2_to64_rest();
            if i + 1 < 62 {
                lemma_pow2_strictly_increases((i + 1) as nat, 62);
            }
        }
        p = p * 2;
        i = i + 1;
    }
    proof {
        vstd::arithmetic::power2::lemma2_to64_rest();
        if n < 62 {
            lemma_pow2_strictly_increases(n as nat, 62);
        }
    }
    p
}

/// Converts a binary floating-point number of 32 bits, given by its bits, to
/// fixed point.
pub fn from_f32_bits(bits: u32) -> (r: i32)
    ensures
        r == fixed_of_float(bits as int),
{
    let exponent: u32 = (bits >> 23) & 0xFF;
    let fraction: u32 = bits & 0x7F_FFFF;
    assert(exponent == (bits / 8388608) % 256 && fraction == bits % 8388608) by (bit_vector)
        requires
            exponent == (bits >> 23) & 0xFF,
            fraction == bits & 0x7F_FFFF,
    ;
    if exponent == 255 && fraction != 0 {
        return 0;
    }
    let negative: bool = bits >= 0x8000_0000;
    let significand: i64 = if exponent == 0 {
        fraction as i64
    } else {
        fraction as i64 + 0x80_0000
    };
    let power: i32 = if exponent == 0 {
        -133
    } else {
        exponent as i32 - 134
    };
    let magnitude: i64 = if power >= 8 {
        proof {
            lemma2_to64();
            if power > 8 {
                lemma_pow2_strictly_increases(8, power as nat);
            }
            assert(significand * pow2(power as nat) >= 0x8000_0000) by (nonlinear_arith)
                requires
                    significand >= 0x80_0000,
                    pow2(power as nat) >= 256,
            ;
        }
        0x8000_0000
    } else if power >= 0 {
        let scale: u64 = power_of_two(power as u32);
        proof {
            lemma2_to64();
            if power < 7 {
                lemma_pow2_strictly_increases(power as nat, 7);
            }
            lemma_mul_bound(significand as int, scale as int, 0x100_0000, 128);
        }
        significand * (scale as i64)
    } else if power <= -25 {
        proof {
            let half = pow2((-power) as nat) as int;
            lemma2_to64();
            if power < -25 {
                lemma_pow2_strictly_increases(25, (-power) as nat);
            }
            vstd::arithmetic::div_mod::lemma_basic_div(2 * significand + half, 2 * half);
        }
        0
    } else {
        let half: u64 = power_of_two((-power) as u32);
        proof {
            lemma2_to64();
            if power > -24 {
                lemma_pow2_strictly_increases((-power) as nat, 24);
            }
        }
        (2 * significand + half as i64) / (2 * half as i64)
    };
    if negative {
        if magnitude >= 0x8000_0000 {
            -0x8000_0000
        } else {
            (-magnitude) as i32
        }
    } else {
        if magnitude > 0x7FFF_FFFF {
            0x7FFF_FFFF
        } else {
            magnitude as i32
        }
    }
}

/// The product of two differences, term by term.
pub proof fn lemma_product_of_differences(a: int, b: int, c: int, d: int)
    by (nonlinear_arith)
    ensures
        (a - b) * (c - d) == a * c - a * d - b * c + b * d,
        a * c == c * a,
        a * d == d * a,
        b * c == c * b,
        b * d == d * b,
{
}

} // verus!
