//! The mathematical model of a limb sequence: its value as a natural number,
//! positional weights, and the canonical (trimmed) form.

use vstd::prelude::*;

verus! {

/// The radix of the representation: one more than the largest limb.
#[verifier::inline]
pub open spec fn limb_base() -> nat {
    0x1_0000_0000_0000_0000
}

/// The weight of limb position `n`: `limb_base()` to the power `n`.
pub open spec fn weight(n: nat) -> nat
    decreases n,
{
    if n == 0 {
        1
    } else {
        limb_base() * weight((n - 1) as nat)
    }
}

/// The limb at position `i`, or zero beyond the end of the sequence.
pub open spec fn limb_or_zero(s: Seq<u64>, i: int) -> nat {
    if 0 <= i < s.len() {
        s[i] as nat
    } else {
        0
    }
}

/// The value of the lowest `n` limb positions of `s`, least significant first;
/// positions beyond the end of `s` count as zero.
pub open spec fn prefix_value(s: Seq<u64>, n: nat) -> nat
    decreases n,
{
    if n == 0 {
        0
    } else {
        prefix_value(s, (n - 1) as nat) + limb_or_zero(s, n - 1) * weight((n - 1) as nat)
    }
}

/// The natural number that a limb sequence stands for.
pub open spec fn limbs_value(s: Seq<u64>) -> nat {
    prefix_value(s, s.len())
}

/// A limb sequence is canonical when it is not empty and, if it has more than
/// one limb, its most significant limb is not zero.
pub open spec fn is_canonical(s: Seq<u64>) -> bool {
    s.len() >= 1 && (s.len() == 1 || s.last() != 0)
}

/// `s` without its most significant zero limbs.
pub open spec fn strip(s: Seq<u64>) -> Seq<u64>
    decreases s.len(),
{
    if s.len() > 0 && s.last() == 0 {
        strip(s.drop_last())
    } else {
        s
    }
}

/// The canonical limb sequence with the value of `s`.
pub open spec fn normal_limbs(s: Seq<u64>) -> Seq<u64> {
    if strip(s).len() == 0 {
        seq![0u64]
    } else {
        strip(s)
    }
}

pub proof fn lemma_weight_positive(n: nat)
    ensures
        weight(n) >= 1,
    decreases n,
{
    if n > 0 {
        lemma_weight_positive((n - 1) as nat);
    }
}

pub proof fn lemma_weight_monotone(m: nat, n: nat)
    requires
        m <= n,
    ensures
        weight(m) <= weight(n),
    decreases n,
{
    if m < n {
        lemma_weight_monotone(m, (n - 1) as nat);
        lemma_weight_positive((n - 1) as nat);
    }
}

/// Only the limbs below position `n` matter to `prefix_value(_, n)`.
pub proof fn lemma_prefix_agrees(s: Seq<u64>, t: Seq<u64>, n: nat)
    requires
        forall|i: int| 0 <= i < n ==> limb_or_zero(s, i) == limb_or_zero(t, i),
    ensures
        prefix_value(s, n) == prefix_value(t, n),
    decreases n,
{
    if n > 0 {
        lemma_prefix_agrees(s, t, (n - 1) as nat);
    }
}

/// Where two sequences agree from position `m` up to `n`, their values over
/// `n` positions differ by what their values over `m` positions differ.
pub proof fn lemma_prefix_upper(s: Seq<u64>, t: Seq<u64>, m: nat, n: nat)
    requires
        m <= n,
        forall|i: int| m <= i < n ==> limb_or_zero(s, i) == limb_or_zero(t, i),
    ensures
        prefix_value(s, n) - prefix_value(s, m) == prefix_value(t, n) - prefix_value(t, m),
    decreases n,
{
    if m < n {
        lemma_prefix_upper(s, t, m, (n - 1) as nat);
    }
}

/// Positions beyond the end add nothing.
pub proof fn lemma_prefix_beyond(s: Seq<u64>, n: nat)
    requires
        n >= s.len(),
    ensures
        prefix_value(s, n) == limbs_value(s),
    decreases n,
{
    if n > s.len() {
        lemma_prefix_beyond(s, (n - 1) as nat);
        assert(limb_or_zero(s, n - 1) * weight((n - 1) as nat) == 0) by (nonlinear_arith)
            requires
                limb_or_zero(s, n - 1) == 0,
        ;
    }
}

pub proof fn lemma_prefix_bound(s: Seq<u64>, n: nat)
    ensures
        prefix_value(s, n) < weight(n),
    decreases n,
{
    if n > 0 {
        lemma_prefix_bound(s, (n - 1) as nat);
        let x = limb_or_zero(s, n - 1);
        let w = weight((n - 1) as nat);
        assert(x * w <= (limb_base() - 1) * w) by (nonlinear_arith)
            requires
                x <= limb_base() - 1,
        ;
    }
}

/// A sequence whose top limb is not zero is worth at least the top weight.
pub proof fn lemma_value_lower_bound(s: Seq<u64>)
    requires
        s.len() > 0,
        s.last() != 0,
    ensures
        limbs_value(s) >= weight((s.len() - 1) as nat),
{
    let x = s.last() as nat;
    let w = weight((s.len() - 1) as nat);
    assert(x * w >= w) by (nonlinear_arith)
        requires
            x >= 1,
    ;
}

pub proof fn lemma_value_push(s: Seq<u64>, x: u64)
    ensures
        limbs_value(s.push(x)) == limbs_value(s) + x * weight(s.len()),
{
    lemma_prefix_agrees(s.push(x), s, s.len());
}

pub proof fn lemma_value_empty()
    ensures
        limbs_value(Seq::<u64>::empty()) == 0,
{
}

pub proof fn lemma_value_single(x: u64)
    ensures
        limbs_value(seq![x]) == x,
{
    let s = seq![x];
    assert(prefix_value(s, 1) == prefix_value(s, 0) + limb_or_zero(s, 0) * weight(0));
    assert(prefix_value(s, 0) == 0);
    assert(limb_or_zero(s, 0) * 1 == limb_or_zero(s, 0));
}

/// Prepending a limb multiplies the rest by the radix.
pub proof fn lemma_prefix_prepend(x: u64, s: Seq<u64>, n: nat)
    ensures
        prefix_value(seq![x] + s, n + 1) == x + limb_base() * prefix_value(s, n),
    decreases n,
{
    let t = seq![x] + s;
    if n == 0 {
        assert(prefix_value(t, 1) == prefix_value(t, 0) + limb_or_zero(t, 0) * weight(0));
        assert(prefix_value(t, 0) == 0);
        assert(limb_or_zero(t, 0) * 1 == limb_or_zero(t, 0));
        assert(prefix_value(s, 0) == 0);
    } else {
        lemma_prefix_prepend(x, s, (n - 1) as nat);
        assert(limb_or_zero(t, n as int) == limb_or_zero(s, n - 1));
        let y = limb_or_zero(s, n - 1);
        let w = weight((n - 1) as nat);
        assert(y * (limb_base() * w) == limb_base() * (y * w)) by (nonlinear_arith);
    }
}

pub proof fn lemma_value_prepend(x: u64, s: Seq<u64>)
    ensures
        limbs_value(seq![x] + s) == x + limb_base() * limbs_value(s),
{
    lemma_prefix_prepend(x, s, s.len());
}

/// `n` zero limbs.
pub open spec fn zeros(n: nat) -> Seq<u64> {
    Seq::new(n, |i: int| 0u64)
}

/// Prepending `n` zero limbs multiplies by the weight of position `n`.
pub proof fn lemma_value_zeros(n: nat, s: Seq<u64>)
    ensures
        limbs_value(zeros(n) + s) == weight(n) * limbs_value(s),
    decreases n,
{
    if n == 0 {
        assert(zeros(0) + s =~= s);
        assert(1 * limbs_value(s) == limbs_value(s));
    } else {
        let m = (n - 1) as nat;
        lemma_value_zeros(m, s);
        lemma_value_prepend(0u64, zeros(m) + s);
        assert(zeros(n) + s =~= seq![0u64] + (zeros(m) + s));
        let (w, v) = (weight(m), limbs_value(s));
        assert(limb_base() * (w * v) == (limb_base() * w) * v) by (nonlinear_arith);
    }
}

/// Two sequences with the same value over `n` positions agree on them.
pub proof fn lemma_prefix_injective(s: Seq<u64>, t: Seq<u64>, n: nat)
    requires
        prefix_value(s, n) == prefix_value(t, n),
    ensures
        forall|i: int| 0 <= i < n ==> limb_or_zero(s, i) == limb_or_zero(t, i),
    decreases n,
{
    if n > 0 {
        let m = (n - 1) as nat;
        lemma_prefix_bound(s, m);
        lemma_prefix_bound(t, m);
        let (p, q) = (prefix_value(s, m), prefix_value(t, m));
        let (x, y) = (limb_or_zero(s, n - 1), limb_or_zero(t, n - 1));
        let w = weight(m);
        assert(x == y && p == q) by (nonlinear_arith)
            requires
                p + x * w == q + y * w,
                p < w,
                q < w,
        ;
        lemma_prefix_injective(s, t, m);
    }
}

/// Canonical limb sequences are determined by their value.
pub proof fn lemma_canonical_unique(s: Seq<u64>, t: Seq<u64>)
    requires
        is_canonical(s),
        is_canonical(t),
        limbs_value(s) == limbs_value(t),
    ensures
        s == t,
{
    let n = if s.len() >= t.len() { s.len() } else { t.len() };
    lemma_prefix_beyond(s, n);
    lemma_prefix_beyond(t, n);
    lemma_prefix_injective(s, t, n);
    if s.len() < t.len() {
        assert(limb_or_zero(s, t.len() - 1) == limb_or_zero(t, t.len() - 1));
    }
    if t.len() < s.len() {
        assert(limb_or_zero(s, s.len() - 1) == limb_or_zero(t, s.len() - 1));
    }
    assert forall|i: int| 0 <= i < s.len() implies s[i] == t[i] by {
        assert(limb_or_zero(s, i) == limb_or_zero(t, i));
    }
    assert(s =~= t);
}

/// Stripping keeps the value, and leaves no zero limb on top.
pub proof fn lemma_strip(s: Seq<u64>)
    ensures
        limbs_value(strip(s)) == limbs_value(s),
        strip(s).len() <= s.len(),
        strip(s).len() > 0 ==> strip(s).last() != 0,
        strip(s) == s.subrange(0, strip(s).len() as int),
        forall|i: int| strip(s).len() <= i < s.len() ==> s[i] == 0,
    decreases s.len(),
{
    if s.len() > 0 && s.last() == 0 {
        let d = s.drop_last();
        lemma_strip(d);
        lemma_prefix_agrees(s, d, s.len());
        lemma_prefix_beyond(d, s.len());
        assert(strip(s) =~= s.subrange(0, strip(s).len() as int));
        assert forall|i: int| strip(s).len() <= i < s.len() implies s[i] == 0 by {
            if i < d.len() {
                assert(d[i] == s[i]);
            }
        }
    } else {
        assert(s =~= s.subrange(0, s.len() as int));
    }
}

/// The normal form is canonical and keeps the value.
pub proof fn lemma_normal_limbs(s: Seq<u64>)
    ensures
        is_canonical(normal_limbs(s)),
        limbs_value(normal_limbs(s)) == limbs_value(s),
{
    lemma_strip(s);
    if strip(s).len() == 0 {
        lemma_value_single(0u64);
    }
}

/// A canonical sequence is its own normal form, so normalising twice is
/// normalising once.
pub proof fn lemma_normal_limbs_idempotent(s: Seq<u64>)
    ensures
        normal_limbs(normal_limbs(s)) == normal_limbs(s),
{
    lemma_normal_limbs(s);
    lemma_normal_limbs(normal_limbs(s));
    lemma_canonical_unique(normal_limbs(normal_limbs(s)), normal_limbs(s));
}

} // verus!
