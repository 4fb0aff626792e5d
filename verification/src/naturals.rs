//! The natural number type and its normalisation.

use vstd::prelude::*;

pub mod iter;

use vstd::std_specs::bits::{axiom_u64_leading_zeros, u64_leading_zeros};
use vstd::std_specs::cmp::PartialEqSpecImpl;
use crate::bits::{bit_length, bits_of, lemma_bit_length_limbs};
use crate::limbs::{
    limb_base, limbs_value, normal_limbs, strip, weight, lemma_canonical_unique,
    lemma_normal_limbs, lemma_strip, lemma_value_lower_bound, lemma_value_single,
    lemma_weight_monotone,
};
use crate::naturals::iter::BitIter;

verus! {

/// The number of limbs of eight bytes each that fit in `isize::MAX` bytes.
pub open spec fn max_hunks_spec() -> nat {
    (isize::MAX / 8) as nat
}

/// A natural number of any size.
///
/// `Small` holds a value that fits one 64-bit limb. `Big` holds the limbs of
/// a larger value, least significant first.
#[derive(Debug)]
pub enum Natural {
    Small(u64),
    Big(Vec<u64>),
}

impl View for Natural {
    type V = nat;

    /// The number that this value stands for.
    open spec fn view(&self) -> nat {
        limbs_value(self.limbs())
    }
}

impl Clone for Natural {
    fn clone(&self) -> (r: Natural)
        ensures
            r.same(self),
            r.limbs() == self.limbs(),
            r@ == self@,
            r.wf() == self.wf(),
    {
        match self {
            Natural::Small(hunk) => Natural::Small(*hunk),
            Natural::Big(hunks) => {
                let copy = hunks.clone();
                assert(copy@ =~= hunks@);
                Natural::Big(copy)
            },
        }
    }
}

/// Whether two limb vectors hold the same limbs.
fn same_limbs(lhs: &Vec<u64>, rhs: &Vec<u64>) -> (r: bool)
    ensures
        r == (lhs@ == rhs@),
{
    if lhs.len() != rhs.len() {
        return false;
    }
    let mut i: usize = 0;
    while i < lhs.len()
        invariant
            i <= lhs.len(),
            lhs.len() == rhs.len(),
            forall|j: int| 0 <= j < i ==> lhs@[j] == rhs@[j],
        decreases lhs.len() - i,
    {
        if lhs[i] != rhs[i] {
            return false;
        }
        i += 1;
    }
    assert(lhs@ =~= rhs@);
    true
}

impl PartialEq for Natural {
    /// Two values are equal when they are of the same variant and hold the
    /// same limbs.
    fn eq(&self, other: &Natural) -> (r: bool) {
        match (self, other) {
            (Natural::Small(lhs), Natural::Small(rhs)) => *lhs == *rhs,
            (Natural::Big(lhs), Natural::Big(rhs)) => same_limbs(lhs, rhs),
            _ => false,
        }
    }
}

impl PartialEqSpecImpl for Natural {
    open spec fn obeys_eq_spec() -> bool {
        true
    }

    open spec fn eq_spec(&self, other: &Natural) -> bool {
        self.same(other)
    }
}

impl Eq for Natural {

}

impl Natural {
    /// The number zero.
    pub fn zero() -> (r: Natural)
        ensures
            r == Natural::Small(0),
    {
        Natural::Small(0)
    }

    /// The number one.
    pub fn one() -> (r: Natural)
        ensures
            r == Natural::Small(1),
    {
        Natural::Small(1)
    }

    /// The number two.
    pub fn two() -> (r: Natural)
        ensures
            r == Natural::Small(2),
    {
        Natural::Small(2)
    }

    /// The largest value that fits one limb.
    pub fn max_small() -> (r: Natural)
        ensures
            r == Natural::Small(u64::MAX),
    {
        Natural::Small(u64::MAX)
    }

    /// The limbs of this value, least significant first.
    pub open spec fn limbs(&self) -> Seq<u64> {
        match self {
            Natural::Small(hunk) => seq![*hunk],
            Natural::Big(hunks) => hunks@,
        }
    }

    /// The canonical form: a `Big` value has at least two limbs and its most
    /// significant limb is not zero, so that every number has one
    /// representation only.
    pub open spec fn wf(&self) -> bool {
        match self {
            Natural::Small(_) => true,
            Natural::Big(hunks) => hunks@.len() >= 2 && hunks@.last() != 0,
        }
    }

    /// Same variant and same limbs.
    pub open spec fn same(&self, other: &Natural) -> bool {
        match (self, other) {
            (Natural::Small(lhs), Natural::Small(rhs)) => lhs == rhs,
            (Natural::Big(lhs), Natural::Big(rhs)) => lhs@ == rhs@,
            _ => false,
        }
    }

    /// Well-formed values with the same value are the same.
    pub proof fn lemma_unique(&self, other: &Natural)
        requires
            self.wf(),
            other.wf(),
            self@ == other@,
        ensures
            self.same(other),
    {
        lemma_canonical_unique(self.limbs(), other.limbs());
        if let Natural::Small(a) = self {
            if let Natural::Small(b) = other {
                assert(self.limbs()[0] == other.limbs()[0]);
            }
        }
    }

    /// A natural number from any value that converts into one.
    pub fn new<T: Into<Natural>>(n: T) -> (r: Natural)
        ensures
            call_ensures(T::into, (n,), r),
    {
        n.into()
    }

    /// The natural number with the given limbs, least significant first, in
    /// canonical form.
    pub fn from_limbs(limbs: Vec<u64>) -> (r: Natural)
        ensures
            r.wf(),
            r@ == limbs_value(limbs@),
            r.limbs() == normal_limbs(limbs@),
    {
        Natural::Big(limbs).trim()
    }

    /// A well-formed value is `Small` exactly when it is below the radix,
    /// and a `Small` value is its limb.
    pub proof fn lemma_small_value(&self)
        ensures
            self.wf() ==> (self is Small <==> self@ < limb_base()),
            self is Small ==> self@ == self->Small_0,
    {
        match self {
            Natural::Small(hunk) => {
                lemma_value_single(*hunk);
            },
            Natural::Big(hunks) => {
                if self.wf() {
                    lemma_value_lower_bound(hunks@);
                    lemma_weight_monotone(1, (hunks@.len() - 1) as nat);
                    reveal_with_fuel(weight, 2);
                }
            },
        }
    }

    /// Whether the value is held as one limb.
    pub fn is_small(&self) -> (r: bool)
        ensures
            r == (self is Small),
    {
        matches!(self, Natural::Small(_))
    }

    /// Whether the value is held as a vector of limbs.
    pub fn is_big(&self) -> (r: bool)
        ensures
            r == (self is Big),
    {
        matches!(self, Natural::Big(_))
    }

    /// The most significant limb.
    pub fn last_hunk(&self) -> (r: u64)
        requires
            self.limbs().len() > 0,
        ensures
            r == self.limbs().last(),
    {
        match self {
            Natural::Small(inner) => *inner,
            Natural::Big(hunks) => hunks[hunks.len() - 1],
        }
    }

    /// The least significant limb.
    pub fn first_hunk(&self) -> (r: u64)
        requires
            self.limbs().len() > 0,
        ensures
            r == self.limbs().first(),
    {
        match self {
            Natural::Small(hunk) => *hunk,
            Natural::Big(hunks) => hunks[0],
        }
    }

    /// The number of limbs.
    #[allow(clippy::len_without_is_empty)]
    pub fn len(&self) -> (r: usize)
        ensures
            r == self.limbs().len(),
    {
        match self {
            Natural::Small(_) => 1,
            Natural::Big(hunks) => hunks.len(),
        }
    }

    /// The largest number of limbs that a value may have: the number of
    /// limbs that fit in `isize::MAX` bytes.
    pub fn max_hunks() -> (r: usize)
        ensures
            r == max_hunks_spec(),
    {
        (isize::MAX / 8) as usize
    }

    /// The number of bits up to the most significant set bit: 64 for each
    /// limb, less the leading zero bits of the most significant limb.
    #[allow(non_snake_case)]
    pub fn BITS(&self) -> (r: Natural)
        requires
            self.limbs().len() > 0,
        ensures
            r.wf(),
            r@ == 64 * self.limbs().len() - u64_leading_zeros(self.limbs().last()),
            self.wf() ==> r@ == bit_length(self@),
    {
        let top = self.last_hunk();
        let zeros = top.leading_zeros();
        let ghost n = self.limbs().len();
        proof {
            axiom_u64_leading_zeros(top);
            lemma_value_single(64u64);
            lemma_value_single(n as u64);
            lemma_value_single(zeros as u64);
            assert(64 * n >= 64) by (nonlinear_arith)
                requires
                    n >= 1,
            ;
            if self.wf() {
                lemma_bit_length_limbs(self.limbs());
            }
        }
        let all = Natural::Small(64) * Natural::Small(self.len() as u64);
        (all - Natural::Small(zeros as u64)).unwrap()
    }

    /// A walk over the bits of this value, from the most significant set
    /// bit down; the single bit `false` for zero.
    pub fn bits(&self) -> (r: BitIter)
        ensures
            r.wf(),
            r@ == bits_of(self@),
    {
        BitIter::new(self.clone())
    }

    /// All the bits of this value at once, from the most significant set bit
    /// down; the single bit `false` for zero.
    pub fn to_bits(&self) -> (r: Vec<bool>)
        ensures
            r@ == bits_of(self@),
    {
        let mut iter = self.bits();
        let ghost all = iter@;
        let mut out: Vec<bool> = Vec::new();
        let mut cur = iter.next();
        while cur.is_some()
            invariant
                iter.wf(),
                cur is Some ==> out@.push(cur->0) + iter@ =~= all,
                cur is None ==> out@ =~= all,
            decreases iter@.len() + if cur is Some { 1nat } else { 0nat },
        {
            out.push(cur.unwrap());
            cur = iter.next();
        }
        out
    }

    /// Brings a value into canonical form: strips the most significant zero
    /// limbs, and turns what is left into `Small` where one limb or none
    /// remains. A value in canonical form stays as it is.
    pub fn trim(self) -> (r: Natural)
        ensures
            r.wf(),
            r@ == self@,
            r.limbs() == normal_limbs(self.limbs()),
            self.wf() ==> r.same(&self),
    {
        proof {
            lemma_normal_limbs(self.limbs());
            if self.wf() {
                lemma_strip(self.limbs());
            }
        }
        match self {
            Natural::Small(hunk) => {
                proof {
                    lemma_canonical_unique(seq![hunk], normal_limbs(seq![hunk]));
                }
                Natural::Small(hunk)
            },
            Natural::Big(mut inner) => {
                let ghost start = inner@;
                while inner.len() > 0 && inner[inner.len() - 1] == 0
                    invariant
                        strip(inner@) == strip(start),
                    decreases inner.len(),
                {
                    proof {
                        assert(inner@.drop_last() =~= inner@.subrange(0, inner.len() - 1));
                    }
                    inner.pop();
                }
                if inner.len() > 1 {
                    Natural::Big(inner)
                } else if inner.len() == 1 {
                    let hunk = inner[0];
                    assert(inner@ =~= seq![hunk]);
                    Natural::Small(hunk)
                } else {
                    Natural::Small(0)
                }
            },
        }
    }
}

} // verus!
