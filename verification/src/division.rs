//! Division with remainder, by binary long division.

use vstd::prelude::*;
use vstd::arithmetic::div_mod::{
    lemma_fundamental_div_mod_converse_div, lemma_fundamental_div_mod_converse_mod,
    lemma_mod_bound, lemma_small_mod,
};
use crate::bits::{bits_value, lemma_bits_value_of, lemma_bits_value_push};
use crate::limbs::{limbs_value, lemma_value_empty, lemma_value_single};
use crate::naturals::iter::BitIter;
use crate::naturals::Natural;
use crate::ops::{add_limbs, into_limbs, sub_limbs};

verus! {

/// Quotient and remainder at once.
///
/// The bits of the dividend are taken from the most significant down. Each
/// one is shifted into the remainder, and the divisor is taken off where it
/// fits, which puts a one into the quotient.
pub fn div_rem(lhs: Natural, rhs: Natural) -> (r: (Natural, Natural))
    requires
        rhs@ != 0,
    ensures
        r.0.wf(),
        r.1.wf(),
        r.0@ == lhs@ / rhs@,
        r.1@ == lhs@ % rhs@,
        lhs@ == r.0@ * rhs@ + r.1@,
        r.1@ < rhs@,
{
    let ghost a = lhs@;
    let ghost b = rhs@;
    let divisor = into_limbs(rhs);
    let one: Vec<u64> = vec![1];
    let mut bits = BitIter::new(lhs);
    let ghost all = bits@;
    let ghost mut done = Seq::<bool>::empty();
    let mut quotient: Vec<u64> = Vec::new();
    let mut remainder: Vec<u64> = Vec::new();
    proof {
        lemma_value_empty();
        assert(one@ =~= seq![1u64]);
        lemma_value_single(1u64);
        assert(0 * b == 0);
    }
    let mut cur = bits.next();
    while cur.is_some()
        invariant
            bits.wf(),
            b == limbs_value(divisor@),
            b > 0,
            limbs_value(one@) == 1,
            cur is Some ==> done.push(cur->0) + bits@ =~= all,
            cur is None ==> done =~= all,
            bits_value(done) == limbs_value(quotient@) * b + limbs_value(remainder@),
            limbs_value(remainder@) < b,
        decreases bits@.len() + if cur is Some { 1nat } else { 0nat },
    {
        let bit = cur.unwrap();
        let ghost q = limbs_value(quotient@);
        let ghost r = limbs_value(remainder@);
        proof {
            lemma_bits_value_push(done, bit);
            done = done.push(bit);
            assert((2 * q) * b + 2 * r == 2 * (q * b + r)) by (nonlinear_arith);
            assert((2 * q + 1) * b == (2 * q) * b + b) by (nonlinear_arith);
        }
        let mut shifted = add_limbs(&remainder, &remainder);
        if bit {
            shifted = add_limbs(&shifted, &one);
        }
        quotient = add_limbs(&quotient, &quotient);
        match sub_limbs(&shifted, &divisor) {
            Some(rest) => {
                remainder = rest;
                quotient = add_limbs(&quotient, &one);
            },
            None => {
                remainder = shifted;
            },
        }
        cur = bits.next();
    }
    proof {
        lemma_bits_value_of(a);
        let q = limbs_value(quotient@);
        let r = limbs_value(remainder@);
        lemma_fundamental_div_mod_converse_div(a as int, b as int, q as int, r as int);
        lemma_fundamental_div_mod_converse_mod(a as int, b as int, q as int, r as int);
    }
    (Natural::Big(quotient).trim(), Natural::Big(remainder).trim())
}

impl Natural {
    /// The quotient, and `None` where the divisor is zero.
    pub fn checked_div(self, rhs: Natural) -> (r: Option<Natural>)
        ensures
            r is Some <==> rhs@ != 0,
            r is Some ==> r->0.wf() && r->0@ == self@ / rhs@,
    {
        if rhs.is_zero() {
            None
        } else {
            Some(self / rhs)
        }
    }

    /// The remainder, and `None` where the divisor is zero.
    pub fn checked_rem(self, rhs: Natural) -> (r: Option<Natural>)
        ensures
            r is Some <==> rhs@ != 0,
            r is Some ==> r->0.wf() && r->0@ == self@ % rhs@,
    {
        if rhs.is_zero() {
            None
        } else {
            Some(self % rhs)
        }
    }
}

impl core::ops::Div<Natural> for Natural {
    type Output = Natural;

    /// The quotient, rounded down. The divisor is not zero.
    fn div(self, rhs: Natural) -> (r: Natural)
        ensures
            r.wf(),
            r@ == self@ / rhs@,
    {
        proof {
            if let Natural::Small(a) = self {
                lemma_value_single(a);
            }
            if let Natural::Small(b) = rhs {
                lemma_value_single(b);
            }
        }
        match (self, rhs) {
            (Natural::Small(lhs), Natural::Small(rhs)) => {
                let q = lhs / rhs;
                proof {
                    lemma_value_single(q);
                }
                Natural::Small(q)
            },
            (lhs, rhs) => div_rem(lhs, rhs).0,
        }
    }
}

/// The result is stated by the contract of the function itself: a value
/// that holds a vector cannot be written down in a spec function.
impl vstd::std_specs::ops::DivSpecImpl<Natural> for Natural {
    open spec fn obeys_div_spec() -> bool {
        false
    }

    open spec fn div_req(self, rhs: Natural) -> bool {
        rhs@ != 0
    }

    open spec fn div_spec(self, rhs: Natural) -> Natural {
        arbitrary()
    }
}

impl core::ops::Rem<Natural> for Natural {
    type Output = Natural;

    /// The remainder of the division. The divisor is not zero. A value in
    /// canonical form that is below the divisor is its own remainder.
    fn rem(self, rhs: Natural) -> (r: Natural)
        ensures
            r.wf(),
            r@ == self@ % rhs@,
            r@ < rhs@,
            self@ < rhs@ ==> r@ == self@,
    {
        proof {
            lemma_mod_bound(self@ as int, rhs@ as int);
            if self@ < rhs@ {
                lemma_small_mod(self@, rhs@);
            }
            if let Natural::Small(a) = self {
                lemma_value_single(a);
            }
            if let Natural::Small(b) = rhs {
                lemma_value_single(b);
            }
        }
        match (self, rhs) {
            (Natural::Small(lhs), Natural::Small(rhs)) => {
                let m = lhs % rhs;
                proof {
                    lemma_value_single(m);
                }
                Natural::Small(m)
            },
            (lhs, rhs) => div_rem(lhs, rhs).1,
        }
    }
}

/// The result is stated by the contract of the function itself: a value
/// that holds a vector cannot be written down in a spec function.
impl vstd::std_specs::ops::RemSpecImpl<Natural> for Natural {
    open spec fn obeys_rem_spec() -> bool {
        false
    }

    open spec fn rem_req(self, rhs: Natural) -> bool {
        rhs@ != 0
    }

    open spec fn rem_spec(self, rhs: Natural) -> Natural {
        arbitrary()
    }
}

} // verus!
