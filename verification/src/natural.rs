//! Natural numbers of any size, as limbs of 64 bits with the lowest first.
//! They carry the exact powers from which logarithms are read.
use crate::fixed::lemma_mul_bound;
use vstd::arithmetic::power2::{lemma2_to64, lemma_pow2_adds, lemma_pow2_pos, lemma_pow2_unfold, pow2};
use vstd::prelude::*;

verus! {

/// The weight of the limb with the index `n`: two to the power `64 * n`.
pub open spec fn base_power(n: nat) -> nat
    decreases n,
{
    if n == 0 {
        1
    } else {
        0x1_0000_0000_0000_0000 * base_power((n - 1) as nat)
    }
}

/// The number that a sequence of limbs stands for.
pub open spec fn limbs_value(limbs: Seq<u64>) -> nat
    decreases limbs.len(),
{
    if limbs.len() == 0 {
        0
    } else {
        limbs_value(limbs.drop_last()) + limbs.last() as nat * base_power((limbs.len() - 1) as nat)
    }
}

/// The weights of the limbs multiply as powers do.
pub proof fn lemma_base_power_adds(i: nat, j: nat)
    ensures
        base_power(i + j) == base_power(i) * base_power(j),
        base_power(i) >= 1,
    decreases i,
{
    if i == 0 {
        assert(base_power(0 + j) == 1 * base_power(j));
    } else {
        lemma_base_power_adds((i - 1) as nat, j);
        let a = base_power((i - 1) as nat);
        let b = base_power(j);
        assert(base_power(i + j) == 0x1_0000_0000_0000_0000 * base_power((i + j - 1) as nat));
        assert(0x1_0000_0000_0000_0000 * (a * b) == (0x1_0000_0000_0000_0000 * a) * b)
            by (nonlinear_arith);
        assert(0x1_0000_0000_0000_0000 * a >= 1) by (nonlinear_arith)
            requires
                a >= 1,
        ;
    }
}

/// The weight of a limb as a power of two.
pub proof fn lemma_base_power_is_pow2(n: nat)
    ensures
        base_power(n) == pow2(64 * n),
    decreases n,
{
    lemma2_to64();
    vstd::arithmetic::power2::lemma2_to64_rest();
    if n > 0 {
        lemma_base_power_is_pow2((n - 1) as nat);
        lemma_pow2_adds(64, (64 * (n - 1)) as nat);
    }
}

/// The value of a prefix that is one limb longer.
pub proof fn lemma_value_of_longer_prefix(limbs: Seq<u64>, j: int)
    requires
        0 <= j < limbs.len(),
    ensures
        limbs_value(limbs.take(j + 1)) == limbs_value(limbs.take(j)) + limbs[j] as nat * base_power(
            j as nat,
        ),
{
    assert(limbs.take(j + 1).drop_last() =~= limbs.take(j));
}

/// How the value changes when one limb is replaced.
pub proof fn lemma_value_after_update(limbs: Seq<u64>, k: int, limb: u64)
    requires
        0 <= k < limbs.len(),
    ensures
        limbs_value(limbs.update(k, limb)) == limbs_value(limbs) + (limb - limbs[k]) * base_power(
            k as nat,
        ),
    decreases limbs.len(),
{
    let after = limbs.update(k, limb);
    let weight = base_power((limbs.len() - 1) as nat);
    if k == limbs.len() - 1 {
        assert(after.drop_last() =~= limbs.drop_last());
        assert(limb as nat * weight == limbs[k] as nat * weight + (limb - limbs[k]) * weight)
            by (nonlinear_arith);
    } else {
        assert(after.drop_last() =~= limbs.drop_last().update(k, limb));
        lemma_value_after_update(limbs.drop_last(), k, limb);
    }
}

/// Limbs that are all zero stand for zero.
pub proof fn lemma_value_of_zeros(limbs: Seq<u64>)
    requires
        forall|k: int| 0 <= k < limbs.len() ==> limbs[k] == 0,
    ensures
        limbs_value(limbs) == 0,
    decreases limbs.len(),
{
    if limbs.len() > 0 {
        lemma_value_of_zeros(limbs.drop_last());
        assert(0 * base_power((limbs.len() - 1) as nat) == 0);
    }
}

/// A number is less than the weight of the limb after its last.
pub proof fn lemma_value_below_weight(limbs: Seq<u64>)
    ensures
        limbs_value(limbs) < base_power(limbs.len()),
    decreases limbs.len(),
{
    if limbs.len() > 0 {
        lemma_value_below_weight(limbs.drop_last());
        let weight = base_power((limbs.len() - 1) as nat);
        assert(limbs.last() as nat * weight <= 0xFFFF_FFFF_FFFF_FFFF * weight) by (nonlinear_arith)
            requires
                limbs.last() <= 0xFFFF_FFFF_FFFF_FFFF,
        ;
    }
}

/// Limbs that are zero from `k` on add nothing to the value.
pub proof fn lemma_value_of_prefix(limbs: Seq<u64>, k: int)
    requires
        0 <= k <= limbs.len(),
        forall|i: int| k <= i < limbs.len() ==> limbs[i] == 0,
    ensures
        limbs_value(limbs) == limbs_value(limbs.take(k)),
    decreases limbs.len() - k,
{
    if k == limbs.len() {
        assert(limbs.take(k) =~= limbs);
    } else {
        assert(limbs.drop_last().take(k) =~= limbs.take(k));
        lemma_value_of_prefix(limbs.drop_last(), k);
        assert(0 * base_power((limbs.len() - 1) as nat) == 0);
    }
}

/// One step of a row of the multiplication: the limb and the carry that the
/// sum `t` leaves keep the value of the row.
proof fn lemma_row_step(
    before: int,
    after: int,
    old_limb: int,
    low: int,
    carry: int,
    next_carry: int,
    t: int,
    xi: int,
    yj: int,
    start: int,
    prefix: int,
    weight_i: int,
    weight_j: int,
    weight: int,
)
    requires
        after == before + (low - old_limb) * weight,
        t == old_limb + xi * yj + carry,
        t == 0x1_0000_0000_0000_0000 * next_carry + low,
        before + carry * weight == start + xi * prefix * weight_i,
        weight == weight_i * weight_j,
    ensures
        after + next_carry * (0x1_0000_0000_0000_0000 * weight) == start + xi * (prefix + yj
            * weight_j) * weight_i,
{
    assert((low - old_limb) * weight + next_carry * (0x1_0000_0000_0000_0000 * weight) == (xi * yj
        + carry) * weight) by (nonlinear_arith)
        requires
            old_limb + xi * yj + carry == 0x1_0000_0000_0000_0000 * next_carry + low,
    ;
    assert((xi * yj + carry) * weight == xi * yj * weight + carry * weight) by (nonlinear_arith);
    assert(xi * yj * weight == xi * (yj * weight_j) * weight_i) by (nonlinear_arith)
        requires
            weight == weight_i * weight_j,
    ;
    assert(xi * (prefix + yj * weight_j) * weight_i == xi * prefix * weight_i + xi * (yj * weight_j)
        * weight_i) by (nonlinear_arith);
}

/// The product of two numbers.
pub fn multiply(x: &Vec<u64>, y: &Vec<u64>) -> (product: Vec<u64>)
    requires
        x@.len() + y@.len() <= usize::MAX,
    ensures
        product@.len() == x@.len() + y@.len(),
        limbs_value(product@) == limbs_value(x@) * limbs_value(y@),
{
    let n: usize = x.len();
    let m: usize = y.len();
    let mut product: Vec<u64> = Vec::new();
    let mut k: usize = 0;
    while k < n + m
        invariant
            n + m <= usize::MAX,
            0 <= k <= n + m,
            product@.len() == k,
            forall|i: int| 0 <= i < k ==> product@[i] == 0,
        decreases n + m - k,
    {
        product.push(0);
        k = k + 1;
    }
    proof {
        lemma_value_of_zeros(product@);
        assert(x@.take(0) =~= Seq::<u64>::empty());
        assert(limbs_value(x@.take(0)) * limbs_value(y@) == 0) by (nonlinear_arith)
            requires
                limbs_value(x@.take(0)) == 0,
        ;
    }
    let mut i: usize = 0;
    while i < n
        invariant
            n == x@.len(),
            m == y@.len(),
            n + m <= usize::MAX,
            0 <= i <= n,
            product@.len() == n + m,
            limbs_value(product@) == limbs_value(x@.take(i as int)) * limbs_value(y@),
            forall|k: int| i + m <= k < n + m ==> product@[k] == 0,
        decreases n - i,
    {
        let ghost start = limbs_value(product@);
        let mut carry: u64 = 0;
        let mut j: usize = 0;
        proof {
            assert(y@.take(0) =~= Seq::<u64>::empty());
            assert(x@[i as int] * limbs_value(y@.take(0)) * base_power(i as nat) == 0)
                by (nonlinear_arith)
                requires
                    limbs_value(y@.take(0)) == 0,
            ;
            assert(0 * base_power((i + 0) as nat) == 0);
        }
        while j < m
            invariant
                n == x@.len(),
                m == y@.len(),
                n + m <= usize::MAX,
                0 <= i < n,
                0 <= j <= m,
                product@.len() == n + m,
                limbs_value(product@) + carry * base_power((i + j) as nat) == start + x@[i as int]
                    * limbs_value(y@.take(j as int)) * base_power(i as nat),
                forall|k: int| i + m <= k < n + m ==> product@[k] == 0,
            decreases m - j,
        {
            let old_limb: u64 = product[i + j];
            proof {
                lemma_mul_bound(
                    x@[i as int] as int,
                    y@[j as int] as int,
                    0xFFFF_FFFF_FFFF_FFFF,
                    0xFFFF_FFFF_FFFF_FFFF,
                );
            }
            let t: u128 = old_limb as u128 + (x[i] as u128) * (y[j] as u128) + carry as u128;
            let low: u64 = (t % 0x1_0000_0000_0000_0000) as u64;
            let next_carry: u64 = (t / 0x1_0000_0000_0000_0000) as u64;
            let ghost before = product@;
            product.set(i + j, low);
            proof {
                lemma_value_after_update(before, (i + j) as int, low);
                lemma_value_of_longer_prefix(y@, j as int);
                lemma_base_power_adds(i as nat, j as nat);
                lemma_row_step(
                    limbs_value(before) as int,
                    limbs_value(product@) as int,
                    old_limb as int,
                    low as int,
                    carry as int,
                    next_carry as int,
                    t as int,
                    x@[i as int] as int,
                    y@[j as int] as int,
                    start as int,
                    limbs_value(y@.take(j as int)) as int,
                    base_power(i as nat) as int,
                    base_power(j as nat) as int,
                    base_power((i + j) as nat) as int,
                );
                assert(base_power((i + j + 1) as nat) == 0x1_0000_0000_0000_0000 * base_power(
                    (i + j) as nat,
                ));
            }
            carry = next_carry;
            j = j + 1;
        }
        let ghost before = product@;
        product.set(i + m, carry);
        proof {
            lemma_value_after_update(before, (i + m) as int, carry);
            assert(y@.take(m as int) =~= y@);
            lemma_value_of_longer_prefix(x@, i as int);
            let xi = x@[i as int] as int;
            let whole = limbs_value(y@) as int;
            let weight = base_power(i as nat) as int;
            let prefix = limbs_value(x@.take(i as int)) as int;
            assert((carry - 0) * base_power((i + m) as nat) == carry * base_power((i + m) as nat));
            assert((prefix + xi * weight) * whole == prefix * whole + xi * whole * weight)
                by (nonlinear_arith);
        }
        i = i + 1;
    }
    proof {
        assert(x@.take(n as int) =~= x@);
    }
    product
}

/// Drops the limbs at the top that are zero.  The number stays the same.
pub fn trim(x: &mut Vec<u64>)
    ensures
        limbs_value(final(x)@) == limbs_value(old(x)@),
        final(x)@.len() <= old(x)@.len(),
{
    while x.len() > 0 && x[x.len() - 1] == 0
        invariant
            limbs_value(x@) == limbs_value(old(x)@),
            x@.len() <= old(x)@.len(),
        decreases x@.len(),
    {
        proof {
            assert(0 * base_power((x@.len() - 1) as nat) == 0);
        }
        x.pop();
    }
}

/// The number of bits of a number: nought for nought, else one more than
/// the whole part of its binary logarithm.
pub open spec fn bits_of(value: nat, bits: nat) -> bool {
    if value == 0 {
        bits == 0
    } else {
        bits >= 1 && pow2((bits - 1) as nat) <= value < pow2(bits)
    }
}

/// Counts the bits of a number.
pub fn bit_length(x: &Vec<u64>) -> (bits: usize)
    requires
        64 * x@.len() <= usize::MAX,
    ensures
        bits_of(limbs_value(x@), bits as nat),
{
    let mut k: usize = x.len();
    while k > 0 && x[k - 1] == 0
        invariant
            0 <= k <= x@.len(),
            forall|i: int| k <= i < x@.len() ==> x@[i] == 0,
        decreases k,
    {
        k = k - 1;
    }
    proof {
        lemma_value_of_prefix(x@, k as int);
    }
    if k == 0 {
        proof {
            assert(x@.take(0) =~= Seq::<u64>::empty());
        }
        return 0;
    }
    let top: u64 = x[k - 1];
    let mut b: usize = 1;
    let mut p: u128 = 2;
    proof {
        lemma2_to64();
    }
    while p <= top as u128
        invariant
            1 <= b <= 64,
            p == pow2(b as nat),
            pow2((b - 1) as nat) <= top,
            top >= 1,
        decreases 64 - b,
    {
        proof {
            lemma_pow2_unfold((b + 1) as nat);
            vstd::arithmetic::power2::lemma2_to64_rest();
            if b >= 64 {
                assert(false);
            }
            if b + 1 < 64 {
                vstd::arithmetic::power2::lemma_pow2_strictly_increases((b + 1) as nat, 64);
            }
        }
        p = p * 2;
        b = b + 1;
    }
    proof {
        let low = limbs_value(x@.take(k - 1)) as int;
        let weight = base_power((k - 1) as nat) as int;
        lemma_value_of_longer_prefix(x@, k - 1);
        lemma_value_below_weight(x@.take(k - 1));
        lemma_base_power_is_pow2((k - 1) as nat);
        lemma_pow2_adds((b - 1) as nat, (64 * (k - 1)) as nat);
        lemma_pow2_adds(b as nat, (64 * (k - 1)) as nat);
        lemma_pow2_pos((64 * (k - 1)) as nat);
        let small = pow2((b - 1) as nat) as int;
        let large = pow2(b as nat) as int;
        assert(small * weight <= top * weight && (top + 1) * weight <= large * weight && (top + 1)
            * weight == top * weight + weight) by (nonlinear_arith)
            requires
                small <= top,
                top + 1 <= large,
                weight >= 1,
        ;
        let value = limbs_value(x@) as int;
        assert(value == low + top * weight);
        assert(small * weight == pow2((64 * (k - 1) + b - 1) as nat));
        assert(large * weight == pow2((64 * (k - 1) + b) as nat));
        assert(value >= 1) by (nonlinear_arith)
            requires
                value >= top * weight,
                top >= 1,
                weight >= 1,
        ;
    }
    64 * (k - 1) + b
}

} // verus!
