//! The binary expansion of a natural number, most significant bit first.

use vstd::prelude::*;
use vstd::arithmetic::div_mod::lemma_div_denominator;
use vstd::arithmetic::power2::{
    pow2, lemma2_to64, lemma_pow2_adds, lemma_pow2_pos, lemma_pow2_unfold,
};
use vstd::bits::lemma_u64_shr_is_div;
use vstd::std_specs::bits::{axiom_u64_leading_zeros, u64_leading_zeros};
use crate::limbs::{is_canonical, limbs_value, prefix_value, weight, lemma_prefix_bound};

verus! {

/// The bits of `v` from its most significant set bit down to bit zero; the
/// single bit `false` for zero.
pub open spec fn bits_of(v: nat) -> Seq<bool>
    decreases v,
{
    if v < 2 {
        seq![v == 1]
    } else {
        bits_of(v / 2).push(v % 2 == 1)
    }
}

/// The lowest `n` bits of `v`, the most significant of them first.
pub open spec fn low_bits(v: nat, n: nat) -> Seq<bool>
    decreases n,
{
    if n == 0 {
        Seq::empty()
    } else {
        low_bits(v / 2, (n - 1) as nat).push(v % 2 == 1)
    }
}

/// The number that a bit sequence stands for, most significant bit first.
pub open spec fn bits_value(s: Seq<bool>) -> nat
    decreases s.len(),
{
    if s.len() == 0 {
        0
    } else {
        2 * bits_value(s.drop_last()) + if s.last() { 1nat } else { 0nat }
    }
}

/// Bit `k` of `v`.
pub open spec fn bit_at(v: nat, k: nat) -> bool {
    (v / pow2(k)) % 2 == 1
}

/// The number of bits of `v` up to its most significant set bit; zero for
/// zero.
pub open spec fn bit_length(v: nat) -> nat
    decreases v,
{
    if v == 0 {
        0
    } else {
        1 + bit_length(v / 2)
    }
}

/// A bit sequence made from a number stands for that number.
pub proof fn lemma_bits_value_of(v: nat)
    ensures
        bits_value(bits_of(v)) == v,
    decreases v,
{
    if v < 2 {
        let s = seq![v == 1];
        assert(s.drop_last() =~= Seq::<bool>::empty());
        assert(bits_value(s.drop_last()) == 0);
    } else {
        lemma_bits_value_of(v / 2);
        let s = bits_of(v / 2).push(v % 2 == 1);
        assert(s.drop_last() =~= bits_of(v / 2));
    }
}

pub proof fn lemma_bits_value_push(s: Seq<bool>, b: bool)
    ensures
        bits_value(s.push(b)) == 2 * bits_value(s) + if b { 1nat } else { 0nat },
{
    assert(s.push(b).drop_last() =~= s);
}

pub proof fn lemma_low_bits_len(v: nat, n: nat)
    ensures
        low_bits(v, n).len() == n,
    decreases n,
{
    if n > 0 {
        lemma_low_bits_len(v / 2, (n - 1) as nat);
    }
}

/// The first of `n + 1` low bits is bit `n`; the rest are the `n` low bits.
pub proof fn lemma_low_bits_top(v: nat, n: nat)
    ensures
        low_bits(v, n + 1) == seq![bit_at(v, n)] + low_bits(v, n),
    decreases n,
{
    lemma2_to64();
    if n == 0 {
        assert(low_bits(v, 1) =~= seq![v % 2 == 1]) by {
            assert(low_bits(v / 2, 0) =~= Seq::<bool>::empty());
        }
        assert(low_bits(v, 0) =~= Seq::<bool>::empty());
        assert(low_bits(v, 1) =~= seq![bit_at(v, 0)] + low_bits(v, 0));
    } else {
        let m = (n - 1) as nat;
        lemma_low_bits_top(v / 2, m);
        lemma_pow2_unfold(n);
        lemma_pow2_pos(m);
        lemma_div_denominator(v as int, 2, pow2(m) as int);
        assert(bit_at(v / 2, m) == bit_at(v, n));
        assert(low_bits(v, n + 1) =~= seq![bit_at(v, n)] + low_bits(v, n));
    }
}

/// The low bits of a number made of a high and a low part are the low bits
/// of the one followed by those of the other.
pub proof fn lemma_low_bits_concat(a: nat, b: nat, n: nat, m: nat)
    requires
        b < pow2(m),
    ensures
        low_bits(a * pow2(m) + b, n + m) == low_bits(a, n) + low_bits(b, m),
    decreases m,
{
    lemma2_to64();
    if m == 0 {
        assert(a * 1 == a);
        assert(low_bits(b, 0) =~= Seq::<bool>::empty());
        assert(low_bits(a, n) + low_bits(b, 0) =~= low_bits(a, n));
    } else {
        let k = (m - 1) as nat;
        lemma_pow2_unfold(m);
        let v = a * pow2(m) + b;
        assert(a * pow2(m) == 2 * (a * pow2(k))) by (nonlinear_arith)
            requires
                pow2(m) == 2 * pow2(k),
        ;
        assert(v / 2 == a * pow2(k) + b / 2);
        assert(v % 2 == b % 2);
        lemma_low_bits_concat(a, b / 2, n, k);
        assert(low_bits(v, n + m) =~= low_bits(a, n) + low_bits(b, m));
    }
}

/// For a number below `2^n` that reaches `2^(n-1)`, the bits are the `n` low
/// bits. Zero has the one bit `false`.
pub proof fn lemma_bits_of_low_bits(v: nat, n: nat)
    requires
        n >= 1,
        n == 1 || pow2((n - 1) as nat) <= v,
        v < pow2(n),
    ensures
        bits_of(v) == low_bits(v, n),
        v > 0 ==> bit_length(v) == n,
        v == 0 ==> bit_length(v) == 0,
    decreases n,
{
    lemma2_to64();
    if n == 1 {
        assert(low_bits(v / 2, 0) =~= Seq::<bool>::empty());
        assert(low_bits(v, 1) =~= seq![v == 1]);
        if v == 1 {
            assert(bit_length(1) == 1 + bit_length(0));
        }
    } else {
        lemma_pow2_unfold(n);
        lemma_pow2_unfold((n - 1) as nat);
        lemma_pow2_pos((n - 2) as nat);
        lemma_bits_of_low_bits(v / 2, (n - 1) as nat);
    }
}

/// A number has as many bits as its bit length says, and zero has one.
pub proof fn lemma_bits_of_len(v: nat)
    ensures
        bits_of(v).len() == if v == 0 { 1 } else { bit_length(v) },
    decreases v,
{
    if v >= 2 {
        lemma_bits_of_len(v / 2);
    } else if v == 1 {
        assert(bit_length(1) == 1 + bit_length(0));
    }
}

/// The weight of limb position `n` is `2^(64 n)`.
pub proof fn lemma_weight_pow2(n: nat)
    ensures
        weight(n) == pow2(64 * n),
    decreases n,
{
    lemma2_to64();
    if n > 0 {
        lemma_weight_pow2((n - 1) as nat);
        lemma_pow2_adds(64, 64 * (n - 1) as nat);
        assert(64 + 64 * (n - 1) == 64 * n);
    }
}

/// The most significant set bit of a limb that is not zero stands at
/// position 63 less the number of its leading zero bits.
pub proof fn lemma_top_bit(x: u64)
    requires
        x > 0,
    ensures
        0 <= 63 - u64_leading_zeros(x) < 64,
        pow2((63 - u64_leading_zeros(x)) as nat) <= x < pow2((64 - u64_leading_zeros(x)) as nat),
{
    axiom_u64_leading_zeros(x);
    let k: u64 = (63 - u64_leading_zeros(x)) as u64;
    let low = x >> k;
    assert(low & 1 != 0 ==> low >= 1) by (bit_vector);
    lemma_u64_shr_is_div(x, k);
    lemma_pow2_pos(k as nat);
    let d = pow2(k as nat);
    assert(x >= d) by (nonlinear_arith)
        requires
            x as nat / d >= 1,
            d > 0,
    ;
    lemma2_to64();
    if k < 63 {
        let up: u64 = (k + 1) as u64;
        lemma_u64_shr_is_div(x, up);
        lemma_pow2_pos(up as nat);
        let e = pow2(up as nat);
        assert(x < e) by (nonlinear_arith)
            requires
                x as nat / e == 0,
                e > 0,
        ;
    }
}

/// The bit length of a canonical limb sequence is 64 for each limb, less the
/// leading zero bits of the most significant limb.
pub proof fn lemma_bit_length_limbs(s: Seq<u64>)
    requires
        is_canonical(s),
    ensures
        bit_length(limbs_value(s)) == 64 * s.len() - u64_leading_zeros(s.last()),
{
    let i = (s.len() - 1) as nat;
    let top = s.last();
    let low = prefix_value(s, i);
    let w = weight(i);
    axiom_u64_leading_zeros(top);
    lemma_prefix_bound(s, i);
    lemma_weight_pow2(i);
    lemma2_to64();
    if top == 0 {
        assert(top * w == 0) by (nonlinear_arith)
            requires
                top == 0,
        ;
        assert(limbs_value(s) == low + top * w);
        assert(low == 0);
        assert(bit_length(0) == 0);
    } else {
        let k = (63 - u64_leading_zeros(top)) as nat;
        lemma_top_bit(top);
        lemma_pow2_adds(k, 64 * i);
        lemma_pow2_adds(k + 1, 64 * i);
        let (p, q) = (pow2(k), pow2(k + 1));
        assert(p * w <= top * w + low < q * w) by (nonlinear_arith)
            requires
                p <= top < q,
                low < w,
        ;
        lemma_pow2_pos(k + 64 * i);
        assert(limbs_value(s) == low + top * w);
        assert(limbs_value(s) > 0);
        lemma_bits_of_low_bits(limbs_value(s), k + 1 + 64 * i);
        assert(bit_length(limbs_value(s)) == k + 1 + 64 * i);
    }
}

} // verus!
