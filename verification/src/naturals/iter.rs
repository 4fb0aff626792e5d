//! The bits of a natural number, one at a time, from the most significant
//! set bit down.

use vstd::prelude::*;
use vstd::arithmetic::power2::{pow2, lemma2_to64, lemma_pow2_adds};
use vstd::bits::lemma_u64_shr_is_div;
use vstd::std_specs::bits::u64_leading_zeros;
use vstd::std_specs::convert::FromSpecImpl;
use crate::bits::{
    bit_at, bit_length, bits_of, low_bits, lemma_bits_of_len, lemma_bits_of_low_bits,
    lemma_low_bits_concat, lemma_low_bits_len, lemma_low_bits_top, lemma_top_bit,
    lemma_weight_pow2,
};
use crate::limbs::{limbs_value, prefix_value, weight, lemma_prefix_bound};
use crate::naturals::Natural;
use crate::ops::into_limbs;

verus! {

/// The position of the most significant set bit of a limb that is not zero.
pub(crate) fn top_bit(x: u64) -> (k: u64)
    requires
        x > 0,
    ensures
        k < 64,
        k == 63 - u64_leading_zeros(x),
        pow2(k as nat) <= x < pow2((k + 1) as nat),
{
    let zeros = x.leading_zeros();
    proof {
        lemma_top_bit(x);
    }
    63 - zeros as u64
}

/// The state of a walk over the bits of a number.
pub struct BitIter {
    hunks: Vec<u64>,
    idx: Option<usize>,
    bit: u64,
}

impl View for BitIter {
    type V = Seq<bool>;

    /// The bits that are still to come, the next one first.
    closed spec fn view(&self) -> Seq<bool> {
        match self.idx {
            None => Seq::empty(),
            Some(i) => low_bits(self.hunks@[i as int] as nat, (self.bit + 1) as nat) + low_bits(
                prefix_value(self.hunks@, i as nat),
                64 * (i as nat),
            ),
        }
    }
}

impl BitIter {
    /// The walk is inside its limbs.
    pub closed spec fn wf(&self) -> bool {
        match self.idx {
            None => true,
            Some(i) => i < self.hunks@.len() && self.bit < 64,
        }
    }

    /// A walk over all the bits of `n`: as many as its bit length says, and
    /// the one bit `false` for zero.
    pub fn new(n: Natural) -> (r: BitIter)
        ensures
            r.wf(),
            r@ == bits_of(n@),
            r@.len() == if n@ == 0 { 1 } else { bit_length(n@) },
    {
        proof {
            lemma_bits_of_len(n@);
        }
        let hunks = into_limbs(n.trim());
        let i = hunks.len() - 1;
        let top = hunks[i];
        let bit = if top == 0 { 0 } else { top_bit(top) };
        proof {
            let low = prefix_value(hunks@, i as nat);
            let w = weight(i as nat);
            lemma_prefix_bound(hunks@, i as nat);
            lemma_weight_pow2(i as nat);
            lemma_low_bits_concat(top as nat, low, (bit + 1) as nat, 64 * (i as nat));
            lemma_pow2_adds(bit as nat, 64 * (i as nat));
            lemma_pow2_adds((bit + 1) as nat, 64 * (i as nat));
            lemma2_to64();
            let (p, q) = (pow2(bit as nat), pow2((bit + 1) as nat));
            if top > 0 {
                assert(p * w <= top * w + low < q * w) by (nonlinear_arith)
                    requires
                        p <= top < q,
                        low < w,
                ;
            } else {
                assert(top * w == 0) by (nonlinear_arith)
                    requires
                        top == 0,
                ;
            }
            lemma_bits_of_low_bits(limbs_value(hunks@), (bit + 1 + 64 * i) as nat);
        }
        BitIter { hunks, idx: Some(i), bit }
    }

    /// The next bit, or `None` when all bits were given.
    pub fn next(&mut self) -> (r: Option<bool>)
        requires
            old(self).wf(),
        ensures
            final(self).wf(),
            old(self)@.len() == 0 ==> r is None && final(self)@ == old(self)@,
            old(self)@.len() > 0 ==> r == Some(old(self)@[0]) && final(self)@ == old(self)@.skip(1),
    {
        match self.idx {
            None => None,
            Some(i) => {
                let hunk = self.hunks[i];
                let shifted = hunk >> self.bit;
                let result = shifted & 1 == 1;
                proof {
                    lemma_u64_shr_is_div(hunk, self.bit);
                    assert(shifted & 1 == shifted % 2) by (bit_vector);
                    assert(result == bit_at(hunk as nat, self.bit as nat));
                    lemma_low_bits_top(hunk as nat, self.bit as nat);
                    lemma_low_bits_len(hunk as nat, self.bit as nat);
                    let low = low_bits(prefix_value(self.hunks@, i as nat), 64 * (i as nat));
                    let rest = low_bits(hunk as nat, self.bit as nat) + low;
                    assert(self@ =~= seq![result] + rest);
                    assert(self@.skip(1) =~= rest);
                    if self.bit == 0 {
                        assert(rest =~= low);
                        if i > 0 {
                            let j = (i - 1) as nat;
                            lemma_prefix_bound(self.hunks@, j);
                            lemma_weight_pow2(j);
                            lemma_low_bits_concat(
                                self.hunks@[j as int] as nat,
                                prefix_value(self.hunks@, j),
                                64,
                                64 * j,
                            );
                            assert(self.hunks@[j as int] * weight(j) == weight(j)
                                * self.hunks@[j as int]) by (nonlinear_arith);
                        } else {
                            assert(low =~= Seq::<bool>::empty());
                        }
                    }
                }
                if self.bit == 0 {
                    self.idx = if i == 0 { None } else { Some(i - 1) };
                    self.bit = 63;
                } else {
                    self.bit = self.bit - 1;
                }
                Some(result)
            },
        }
    }
}

impl From<Natural> for BitIter {
    fn from(value: Natural) -> (r: BitIter)
        ensures
            r.wf(),
            r@ == bits_of(value@),
    {
        BitIter::new(value)
    }
}

/// The result is stated by the contract of the function itself: a value
/// that holds a vector cannot be written down in a spec function.
impl FromSpecImpl<Natural> for BitIter {
    open spec fn obeys_from_spec() -> bool {
        false
    }

    open spec fn from_spec(value: Natural) -> BitIter {
        arbitrary()
    }
}

} // verus!
