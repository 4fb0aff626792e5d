//! Left shift by any number of bits.

use vstd::prelude::*;
use vstd::arithmetic::power2::{
    pow2, lemma2_to64, lemma_pow2_adds, lemma_pow2_pos, lemma_pow2_strictly_increases,
};
use vstd::bits::lemma_u64_shl_is_mul;
use crate::bits::lemma_weight_pow2;
use crate::limbs::{
    limb_base, limbs_value, prefix_value, weight, lemma_value_empty, lemma_value_push,
    lemma_value_single,
};
use crate::naturals::{max_hunks_spec, Natural};
use crate::ops::into_limbs;

verus! {

/// One limb moved up by `k` bits: what stays in its position, and what
/// leaves it at the top.
fn shift_limb(x: u64, k: u64) -> (r: (u64, u64))
    requires
        0 < k < 64,
    ensures
        r.0 == x << k,
        r.1 == x >> ((64 - k) as u64),
        r.1 < pow2(k as nat),
        r.0 + r.1 * limb_base() == x * pow2(k as nat),
{
    let low = x << k;
    let high = x >> (64 - k);
    proof {
        let one = 1u64 << k;
        lemma2_to64();
        lemma_pow2_strictly_increases(k as nat, 64);
        assert(1 * pow2(k as nat) == pow2(k as nat));
        lemma_u64_shl_is_mul(1u64, k);
        assert(high < one) by (bit_vector)
            requires
                0 < k < 64,
                high == x >> ((64 - k) as u64),
                one == 1u64 << k,
        ;
        assert(low as u128 + (high as u128) * 0x1_0000_0000_0000_0000 == (x as u128) * (
        one as u128)) by (bit_vector)
            requires
                0 < k < 64,
                low == x << k,
                high == x >> ((64 - k) as u64),
                one == 1u64 << k,
        ;
    }
    (low, high)
}

/// A limb vector moved up by `k` bits, `k` below the width of a limb: each
/// limb is shifted inside its position and takes in below what left the
/// limb before it at the top.
fn shift_bits(v: &Vec<u64>, k: u64) -> (r: Vec<u64>)
    requires
        0 < k < 64,
    ensures
        limbs_value(r@) == limbs_value(v@) * pow2(k as nat),
{
    let mut out: Vec<u64> = Vec::new();
    let mut carry: u64 = 0;
    let mut i: usize = 0;
    proof {
        lemma_value_empty();
        lemma_pow2_pos(k as nat);
        assert(0 * pow2(k as nat) == 0);
    }
    while i < v.len()
        invariant
            i <= v.len(),
            0 < k < 64,
            out@.len() == i,
            carry < pow2(k as nat),
            limbs_value(out@) + carry * weight(i as nat) == prefix_value(v@, i as nat) * pow2(
                k as nat,
            ),
        decreases v.len() - i,
    {
        let x = v[i];
        let (low, high) = shift_limb(x, k);
        let limb = low | carry;
        proof {
            let one = 1u64 << k;
            lemma2_to64();
            lemma_pow2_strictly_increases(k as nat, 64);
            assert(1 * pow2(k as nat) == pow2(k as nat));
            lemma_u64_shl_is_mul(1u64, k);
            assert(limb == low + carry) by (bit_vector)
                requires
                    0 < k < 64,
                    low == x << k,
                    carry < one,
                    one == 1u64 << k,
                    limb == low | carry,
            ;
            lemma_value_push(out@, limb);
            let w = weight(i as nat);
            let p = pow2(k as nat);
            let before = prefix_value(v@, i as nat);
            assert((low + carry) * w + high * (limb_base() * w) + before * p == (before + x * w)
                * p + carry * w) by (nonlinear_arith)
                requires
                    low + high * limb_base() == x * p,
            ;
        }
        out.push(limb);
        carry = high;
        i += 1;
    }
    if carry > 0 {
        proof {
            lemma_value_push(out@, carry);
        }
        out.push(carry);
    } else {
        assert(carry * weight(i as nat) == 0) by (nonlinear_arith)
            requires
                carry == 0,
        ;
    }
    out
}

impl Natural {
    /// The value moved up by `rhs` bits, and `None` where the whole limbs of
    /// the shift and the limbs of the value together are not fewer than
    /// `max_hunks()`.
    pub fn checked_shl(self, rhs: Natural) -> (r: Option<Natural>)
        ensures
            r is Some <==> rhs@ / 64 + self.limbs().len() < max_hunks_spec(),
            r is Some ==> r->0.wf() && r->0@ == self@ * pow2(rhs@),
    {
        proof {
            lemma_value_single(64u64);
        }
        let whole = rhs.clone() / Natural::Small(64);
        let limit = Natural::max_hunks();
        let len = self.len();
        proof {
            whole.lemma_small_value();
        }
        let fits = match whole {
            Natural::Small(limbs) => len < limit && limbs < (limit - len) as u64,
            Natural::Big(_) => false,
        };
        if fits {
            Some(self << rhs)
        } else {
            None
        }
    }
}

impl core::ops::Shl<Natural> for Natural {
    type Output = Natural;

    /// The value moved up by `rhs` bits.
    ///
    /// The whole limbs of the shift are put below the value as zero limbs.
    /// The bits that are left over move each limb up inside its position,
    /// and what leaves a limb at its top is carried into the next one.
    /// The shift is within the limit: see `shl_req`.
    fn shl(self, rhs: Natural) -> (r: Natural)
        ensures
            r.wf(),
            r@ == self@ * pow2(rhs@),
    {
        let ghost v = self@;
        let ghost s = rhs@;
        proof {
            lemma_value_single(64u64);
        }
        let whole = rhs.clone() / Natural::Small(64);
        let offset = rhs % Natural::Small(64);
        proof {
            whole.lemma_small_value();
            offset.lemma_small_value();
        }
        let limbs = whole.first_hunk() as usize;
        let bits = offset.first_hunk();
        let moved = self.shift_up(limbs);
        proof {
            lemma_weight_pow2(limbs as nat);
            lemma_pow2_adds(64 * (limbs as nat), bits as nat);
            assert(s == 64 * (limbs as nat) + bits);
            assert(v * weight(limbs as nat) * pow2(bits as nat) == v * (weight(limbs as nat)
                * pow2(bits as nat))) by (nonlinear_arith);
        }
        if bits == 0 {
            proof {
                lemma2_to64();
                assert(moved@ * 1 == moved@);
            }
            moved
        } else {
            Natural::Big(shift_bits(&into_limbs(moved), bits)).trim()
        }
    }
}

/// The result is stated by the contract of the function itself: a value
/// that holds a vector cannot be written down in a spec function.
impl vstd::std_specs::ops::ShlSpecImpl<Natural> for Natural {
    open spec fn obeys_shl_spec() -> bool {
        false
    }

    /// The result must stay below the largest number of limbs: the whole
    /// limbs of the shift and the limbs of the value together are fewer than
    /// `max_hunks()`.
    open spec fn shl_req(self, rhs: Natural) -> bool {
        rhs@ / 64 + self.limbs().len() < max_hunks_spec()
    }

    open spec fn shl_spec(self, rhs: Natural) -> Natural {
        arbitrary()
    }
}

} // verus!
