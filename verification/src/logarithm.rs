//! The binary logarithm of a positive integer, rounded down to 16 fractional
//! bits.
//!
//! The logarithm of `a` with 16 fractional bits is the whole part of the
//! logarithm of `a` raised to the power 65536.  That power is reached by
//! squaring sixteen times.  The squares are first followed in 64 bits, with a
//! bound on what was cut off; where the bound leaves the result open, the
//! power is formed in full.
use crate::natural::{bit_length, limbs_value, multiply, trim};
use vstd::arithmetic::power2::{
    lemma2_to64, lemma2_to64_rest, lemma_pow2_adds, lemma_pow2_pos, lemma_pow2_strictly_increases,
    lemma_pow2_unfold, pow2,
};
use vstd::prelude::*;

verus! {

/// The whole part of the binary logarithm of `a`.
pub open spec fn floor_log2(a: int) -> int
    decreases a,
{
    if a <= 1 {
        0
    } else {
        1 + floor_log2(a / 2)
    }
}

/// The number `a` squared `times` times: `a` to the power two to the `times`.
pub open spec fn raised(a: nat, times: nat) -> nat
    decreases times,
{
    if times == 0 {
        a
    } else {
        raised(a, (times - 1) as nat) * raised(a, (times - 1) as nat)
    }
}

/// The binary logarithm of the integer `a` as a fixed-point number, rounded
/// down: the greatest `r` for which two to the power `r / 65536` is at most
/// `a`.
pub open spec fn log2_fixed(a: int) -> int {
    floor_log2(raised(a as nat, 16) as int)
}

/// The whole part of the logarithm of a number is `r` where the number lies
/// between two to the `r` and two to the `r + 1`.
pub proof fn lemma_floor_log2_between(v: int, r: int)
    requires
        r >= 0,
        pow2(r as nat) <= v < pow2((r + 1) as nat),
    ensures
        floor_log2(v) == r,
    decreases r,
{
    lemma2_to64();
    if r == 0 {
        assert(v == 1);
    } else {
        lemma_pow2_unfold(r as nat);
        lemma_pow2_unfold((r + 1) as nat);
        lemma_pow2_pos((r - 1) as nat);
        assert(v >= 2);
        lemma_floor_log2_between(v / 2, r - 1);
    }
}

/// A power of a positive number is positive.
pub proof fn lemma_raised_positive(a: nat, times: nat)
    requires
        a >= 1,
    ensures
        raised(a, times) >= 1,
    decreases times,
{
    if times > 0 {
        lemma_raised_positive(a, (times - 1) as nat);
        let x = raised(a, (times - 1) as nat);
        assert(x * x >= 1) by (nonlinear_arith)
            requires
                x >= 1,
        ;
    }
}

/// The power of a product is the product of the powers.
pub proof fn lemma_raised_of_product(a: nat, c: nat, times: nat)
    ensures
        raised(a * c, times) == raised(a, times) * raised(c, times),
    decreases times,
{
    if times > 0 {
        lemma_raised_of_product(a, c, (times - 1) as nat);
        let x = raised(a, (times - 1) as nat);
        let y = raised(c, (times - 1) as nat);
        assert((x * y) * (x * y) == (x * x) * (y * y)) by (nonlinear_arith);
    }
}

/// Squaring a power of two doubles its exponent.
pub proof fn lemma_raised_of_pow2(k: nat, times: nat)
    ensures
        raised(pow2(k), times) == pow2(k * pow2(times)),
    decreases times,
{
    lemma2_to64();
    if times == 0 {
        assert(k * pow2(0) == k) by (nonlinear_arith)
            requires
                pow2(0) == 1,
        ;
    } else {
        lemma_raised_of_pow2(k, (times - 1) as nat);
        let e = k * pow2((times - 1) as nat);
        lemma_pow2_adds(e, e);
        lemma_pow2_unfold(times);
        assert(k * pow2(times) == e + e) by (nonlinear_arith)
            requires
                pow2(times) == 2 * pow2((times - 1) as nat),
                e == k * pow2((times - 1) as nat),
        ;
    }
}

/// The value of two limbs.
proof fn lemma_value_of_two_limbs(low: u64, high: u64)
    ensures
        limbs_value(seq![low, high]) == low + 0x1_0000_0000_0000_0000 * high,
{
    let both = seq![low, high];
    crate::natural::lemma_value_of_longer_prefix(both, 0);
    crate::natural::lemma_value_of_longer_prefix(both, 1);
    assert(both.take(2) =~= both);
    assert(both.take(0) =~= Seq::<u64>::empty());
    assert(limbs_value(both.take(0)) == 0);
    assert(crate::natural::base_power(0) == 1);
    assert(crate::natural::base_power(1) == 0x1_0000_0000_0000_0000 * crate::natural::base_power(0));
    assert(low as nat * crate::natural::base_power(0) == low) by (nonlinear_arith)
        requires
            crate::natural::base_power(0) == 1,
    ;
    assert(high as nat * crate::natural::base_power(1) == 0x1_0000_0000_0000_0000 * high)
        by (nonlinear_arith)
        requires
            crate::natural::base_power(1) == 0x1_0000_0000_0000_0000,
    ;
}

/// Computes the logarithm from the power in full.
pub fn log2_exact(a: u128) -> (r: i32)
    requires
        a >= 1,
    ensures
        r == log2_fixed(a as int),
        0 <= r < 128 * 65536,
{
    let low: u64 = (a % 0x1_0000_0000_0000_0000) as u64;
    let high: u64 = (a / 0x1_0000_0000_0000_0000) as u64;
    let mut x: Vec<u64> = Vec::new();
    x.push(low);
    x.push(high);
    proof {
        assert(x@ =~= seq![low, high]);
        lemma_value_of_two_limbs(low, high);
        lemma2_to64();
        lemma2_to64_rest();
    }
    let mut i: u32 = 0;
    while i < 16
        invariant
            a >= 1,
            0 <= i <= 16,
            x@.len() * pow2((16 - i) as nat) <= 131072,
            x@.len() <= 131072,
            limbs_value(x@) == raised(a as nat, i as nat),
        decreases 16 - i,
    {
        proof {
            lemma_pow2_unfold((16 - i) as nat);
            lemma_pow2_pos((15 - i) as nat);
            let rest = pow2((15 - i) as nat);
            assert(2 * x@.len() <= 131072 && (2 * x@.len()) * rest <= 131072) by (nonlinear_arith)
                requires
                    x@.len() * (2 * rest) <= 131072,
                    rest >= 1,
            ;
        }
        let ghost doubled = 2 * x@.len();
        x = multiply(&x, &x);
        trim(&mut x);
        proof {
            let rest = pow2((15 - i) as nat);
            assert(x@.len() * rest <= 131072) by (nonlinear_arith)
                requires
                    x@.len() <= doubled,
                    doubled * rest <= 131072,
                    rest >= 1,
            ;
        }
        i = i + 1;
    }
    let bits: usize = bit_length(&x);
    proof {
        lemma_raised_positive(a as nat, 16);
        lemma_floor_log2_between(raised(a as nat, 16) as int, bits - 1);
        lemma_power_below(a as nat);
        if bits > 128 * 65536 {
            lemma_pow2_strictly_increases(8388608, (bits - 1) as nat);
        }
    }
    (bits - 1) as i32
}

/// The power 65536 of a number below two to the 128 lies below two to the
/// power `128 * 65536`.
proof fn lemma_power_below(a: nat)
    requires
        a < 0x1_0000_0000_0000_0000_0000_0000_0000_0000,
    ensures
        raised(a, 16) < pow2(8388608),
{
    lemma2_to64();
    lemma2_to64_rest();
    lemma_pow2_adds(64, 64);
    lemma_raised_of_pow2(128, 16);
    lemma_raised_grows(a, pow2(128), 16);
    assert(128 * pow2(16) == 8388608) by (nonlinear_arith)
        requires
            pow2(16) == 65536,
    ;
}

/// A greater number has a greater power.
proof fn lemma_raised_grows(a: nat, c: nat, times: nat)
    requires
        a < c,
    ensures
        raised(a, times) < raised(c, times),
    decreases times,
{
    if times > 0 {
        lemma_raised_grows(a, c, (times - 1) as nat);
        let x = raised(a, (times - 1) as nat);
        let y = raised(c, (times - 1) as nat);
        assert(x * x < y * y) by (nonlinear_arith)
            requires
                x < y,
        ;
    }
}

/// One squaring of a number that is known by its leading 64 bits `m`, its
/// exponent `e` and a bound `d` on what was cut off: the square is known in
/// the same way by the leading bits of `m * m`.
proof fn lemma_square_step(y: nat, m: int, d: int, e: nat, t: int, next: int)
    requires
        m * pow2(e) <= y < (m + d) * pow2(e),
        0x8000_0000_0000_0000 <= m < 0x1_0000_0000_0000_0000,
        1 <= d <= 0x8000_0000,
        t == 0x8000_0000_0000_0000 || t == 0x1_0000_0000_0000_0000,
        next == (m * m) / t,
    ensures
        next * (t * pow2(2 * e)) <= y * y < (next + 4 * d + 2) * (t * pow2(2 * e)),
{
    let unit = pow2(e) as int;
    let square = pow2(2 * e) as int;
    lemma_pow2_adds(e, e);
    lemma_pow2_pos(e);
    lemma_pow2_pos(2 * e);
    let low = m * unit;
    let high = (m + d) * unit;
    assert(low * low <= y * y && y * y < high * high) by (nonlinear_arith)
        requires
            0 <= low <= y < high,
    {
    }
    assert(low * low == (m * m) * square && high * high == ((m + d) * (m + d)) * square)
        by (nonlinear_arith)
        requires
            low == m * unit,
            high == (m + d) * unit,
            square == unit * unit,
    ;
    let product = m * m;
    vstd::arithmetic::div_mod::lemma_fundamental_div_mod(product, t);
    let rest = product % t;
    assert((m + d) * (m + d) <= (next + 4 * d + 2) * t - 1) by (nonlinear_arith)
        requires
            product == m * m,
            product == t * next + rest,
            0 <= rest < t,
            0 <= m <= 2 * t,
            1 <= d <= 0x8000_0000,
            t >= 0x8000_0000_0000_0000,
    {
        assert(d * d <= 0x8000_0000 * 0x8000_0000);
        assert(2 * m * d <= 4 * d * t);
    }
    assert(next * t <= product);
    assert(next * (t * square) <= product * square) by (nonlinear_arith)
        requires
            next * t <= product,
            square >= 0,
    ;
    assert(((m + d) * (m + d)) * square <= ((next + 4 * d + 2) * t - 1) * square
        && ((next + 4 * d + 2) * t - 1) * square < (next + 4 * d + 2) * (t * square))
        by (nonlinear_arith)
        requires
            (m + d) * (m + d) <= (next + 4 * d + 2) * t - 1,
            square >= 1,
    ;
}

/// Follows the sixteen squarings in 64 bits.  The result is the logarithm
/// where the bound on what was cut off leaves no doubt of it, and nothing
/// else.
fn log2_quick(a: u128) -> (r: Option<i32>)
    requires
        a >= 1,
    ensures
        r matches Some(v) ==> v == log2_fixed(a as int) && 0 <= v < 128 * 65536,
{
    let mut k: u64 = 0;
    let mut p: u128 = 1;
    proof {
        lemma2_to64();
        lemma2_to64_rest();
        lemma_pow2_adds(64, 63);
    }
    while p <= a / 2
        invariant
            a >= 1,
            1 <= p <= a,
            0 <= k <= 127,
            p == pow2(k as nat),
        decreases a - p,
    {
        proof {
            lemma_pow2_unfold((k + 1) as nat);
            lemma2_to64();
            lemma2_to64_rest();
            lemma_pow2_adds(64, 63);
            if k >= 127 {
                assert(pow2(127) == 0x8000_0000_0000_0000_0000_0000_0000_0000);
                assert(false);
            }
        }
        p = p * 2;
        k = k + 1;
    }
    let ghost top = a as nat * 0x1_0000_0000_0000_0000;
    let m0: u64;
    if k <= 63 {
        proof {
            lemma_pow2_adds(k as nat, (63 - k) as nat);
            lemma_pow2_pos((63 - k) as nat);
            vstd::arithmetic::div_mod::lemma_div_multiples_vanish(
                pow2((63 - k) as nat) as int,
                p as int,
            );
        }
        let f: u128 = 0x8000_0000_0000_0000 / p;
        proof {
            assert(f == pow2((63 - k) as nat));
            assert(p * f == 0x8000_0000_0000_0000);
            assert(0x8000_0000_0000_0000 <= a * f < 0x1_0000_0000_0000_0000) by (nonlinear_arith)
                requires
                    p <= a,
                    a + 1 <= 2 * p,
                    p * f == 0x8000_0000_0000_0000,
                    f >= 1,
            ;
        }
        m0 = (a * f) as u64;
        proof {
            lemma_pow2_unfold((k + 1) as nat);
            assert(m0 * pow2((k + 1) as nat) == top) by (nonlinear_arith)
                requires
                    m0 == a * f,
                    pow2((k + 1) as nat) == 2 * p,
                    p * f == 0x8000_0000_0000_0000,
                    top == a * 0x1_0000_0000_0000_0000,
            ;
            assert((m0 + 1) * pow2((k + 1) as nat) > top) by (nonlinear_arith)
                requires
                    m0 * pow2((k + 1) as nat) == top,
                    pow2((k + 1) as nat) >= 1,
            ;
        }
    } else {
        proof {
            lemma_pow2_adds(63, (k - 63) as nat);
            lemma_pow2_pos((k - 63) as nat);
            vstd::arithmetic::div_mod::lemma_div_multiples_vanish(
                pow2((k - 63) as nat) as int,
                0x8000_0000_0000_0000,
            );
            assert(pow2(63) * pow2((k - 63) as nat) == 0x8000_0000_0000_0000 * pow2(
                (k - 63) as nat,
            ));
        }
        let q: u128 = p / 0x8000_0000_0000_0000;
        proof {
            assert(q == pow2((k - 63) as nat));
            assert(q * 0x8000_0000_0000_0000 == p) by (nonlinear_arith)
                requires
                    p == 0x8000_0000_0000_0000 * q,
            ;
            vstd::arithmetic::div_mod::lemma_fundamental_div_mod(a as int, q as int);
            let whole = a as int / q as int;
            let rest = a as int % q as int;
            assert(0x8000_0000_0000_0000 <= whole < 0x1_0000_0000_0000_0000) by (nonlinear_arith)
                requires
                    a == q * whole + rest,
                    0 <= rest < q,
                    q * 0x8000_0000_0000_0000 <= a,
                    a + 1 <= 2 * (q * 0x8000_0000_0000_0000),
                    q >= 1,
            ;
        }
        m0 = (a / q) as u64;
        proof {
            lemma_pow2_unfold((k + 1) as nat);
            let rest = a as int % q as int;
            assert(m0 * pow2((k + 1) as nat) <= top && top < (m0 + 1) * pow2((k + 1) as nat))
                by (nonlinear_arith)
                requires
                    a == q * m0 + rest,
                    0 <= rest < q,
                    pow2((k + 1) as nat) == 2 * (q * 0x8000_0000_0000_0000),
                    top == a * 0x1_0000_0000_0000_0000,
            ;
        }
    }
    let mut m: u64 = m0;
    let mut e: u64 = k + 1;
    let mut d: u64 = 1;
    let mut i: u32 = 0;
    while i < 16
        invariant
            0 <= i <= 16,
            m >= 0x8000_0000_0000_0000,
            1 <= d < pow2((2 * i + 1) as nat),
            e + 64 <= pow2((i + 8) as nat),
            m * pow2(e as nat) <= raised(top, i as nat) < (m + d) * pow2(e as nat),
        decreases 16 - i,
    {
        proof {
            lemma2_to64();
            if 2 * i + 1 < 31 {
                lemma_pow2_strictly_increases((2 * i + 1) as nat, 31);
            }
            if i + 8 < 23 {
                lemma_pow2_strictly_increases((i + 8) as nat, 23);
            }
            lemma_pow2_unfold((2 * i + 2) as nat);
            lemma_pow2_unfold((2 * i + 3) as nat);
            lemma_pow2_unfold((i + 9) as nat);
            assert(m * m >= 0x8000_0000_0000_0000 * 0x8000_0000_0000_0000 && m * m
                < 0x1_0000_0000_0000_0000 * 0x1_0000_0000_0000_0000) by (nonlinear_arith)
                requires
                    0x8000_0000_0000_0000 <= m < 0x1_0000_0000_0000_0000,
            ;
        }
        let product: u128 = (m as u128) * (m as u128);
        let wide: bool = product >= 0x8000_0000_0000_0000_0000_0000_0000_0000;
        let next: u128 = if wide {
            product / 0x1_0000_0000_0000_0000
        } else {
            product / 0x8000_0000_0000_0000
        };
        let shift: u64 = if wide {
            64
        } else {
            63
        };
        proof {
            let t: int = if wide {
                0x1_0000_0000_0000_0000
            } else {
                0x8000_0000_0000_0000
            };
            lemma_square_step(raised(top, i as nat), m as int, d as int, e as nat, t, next as int);
            lemma2_to64_rest();
            lemma_pow2_adds(shift as nat, (2 * e) as nat);
            assert(t == pow2(shift as nat));
        }
        m = next as u64;
        e = 2 * e + shift;
        d = 4 * d + 2;
        i = i + 1;
    }
    if m as u128 + d as u128 <= 0x1_0000_0000_0000_0000 && e + 63 >= 4194304 {
        proof {
            let x = raised(a as nat, 16);
            let y = raised(top, 16);
            let r: int = e + 63 - 4194304;
            lemma2_to64();
            lemma2_to64_rest();
            lemma_raised_of_product(a as nat, 0x1_0000_0000_0000_0000, 16);
            lemma_raised_of_pow2(64, 16);
            assert(64 * pow2(16) == 4194304) by (nonlinear_arith)
                requires
                    pow2(16) == 65536,
            ;
            let scale = pow2(4194304);
            assert(y == x * scale);
            lemma_pow2_pos(4194304);
            lemma_pow2_adds(63, e as nat);
            lemma_pow2_adds(64, e as nat);
            lemma_pow2_adds(r as nat, 4194304);
            lemma_pow2_adds((r + 1) as nat, 4194304);
            let unit = pow2(e as nat);
            assert(pow2((e + 63) as nat) <= y && y < pow2((e + 64) as nat)) by (nonlinear_arith)
                requires
                    m * unit <= y < (m + d) * unit,
                    m >= 0x8000_0000_0000_0000,
                    m + d <= 0x1_0000_0000_0000_0000,
                    pow2((e + 63) as nat) == 0x8000_0000_0000_0000 * unit,
                    pow2((e + 64) as nat) == 0x1_0000_0000_0000_0000 * unit,
                    unit >= 0,
            ;
            assert(pow2(r as nat) <= x && x < pow2((r + 1) as nat)) by (nonlinear_arith)
                requires
                    pow2(r as nat) * scale <= x * scale,
                    x * scale < pow2((r + 1) as nat) * scale,
                    scale >= 1,
            ;
            lemma_floor_log2_between(x as int, r);
            lemma_power_below(a as nat);
            if r >= 8388608 {
                if r > 8388608 {
                    lemma_pow2_strictly_increases(8388608, r as nat);
                }
                assert(false);
            }
        }
        Some((e + 63 - 4194304) as i32)
    } else {
        None
    }
}

/// Computes the binary logarithm of a positive integer, rounded down to 16
/// fractional bits.
pub fn log2(a: u128) -> (r: i32)
    requires
        a >= 1,
    ensures
        r == log2_fixed(a as int),
        0 <= r < 128 * 65536,
{
    match log2_quick(a) {
        Some(r) => r,
        None => log2_exact(a),
    }
}

} // verus!
