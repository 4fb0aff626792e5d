//! Arithmetic on natural numbers: addition, subtraction, multiplication and
//! exponentiation.

use vstd::prelude::*;
use vstd::arithmetic::power::{pow, lemma_pow0, lemma_pow1, lemma_pow_adds};
use crate::bits::{bits_value, lemma_bits_value_of, lemma_bits_value_push};
use crate::limbs::{
    limb_base, limb_or_zero, limbs_value, normal_limbs, prefix_value, weight, zeros,
    lemma_prefix_beyond, lemma_prefix_bound, lemma_prefix_upper, lemma_value_empty,
    lemma_value_prepend, lemma_value_push, lemma_value_single, lemma_value_zeros,
};
use crate::naturals::iter::BitIter;
use crate::naturals::{max_hunks_spec, Natural};

verus! {

/// The limbs of a value, as a vector.
pub(crate) fn into_limbs(n: Natural) -> (r: Vec<u64>)
    ensures
        r@ == n.limbs(),
{
    match n {
        Natural::Small(hunk) => {
            let r = vec![hunk];
            assert(r@ =~= seq![hunk]);
            r
        },
        Natural::Big(hunks) => hunks,
    }
}

/// The limb at position `i`, zero beyond the end.
fn limb_at(v: &Vec<u64>, i: usize) -> (r: u64)
    ensures
        r == limb_or_zero(v@, i as int),
{
    if i < v.len() {
        v[i]
    } else {
        0
    }
}

/// Whether the value of `lhs` is below that of `rhs`: decided at the most
/// significant position where the two differ.
pub(crate) fn limbs_less(lhs: &Vec<u64>, rhs: &Vec<u64>) -> (r: bool)
    ensures
        r == (limbs_value(lhs@) < limbs_value(rhs@)),
{
    let n = if lhs.len() >= rhs.len() { lhs.len() } else { rhs.len() };
    let mut i: usize = n;
    proof {
        lemma_prefix_beyond(lhs@, n as nat);
        lemma_prefix_beyond(rhs@, n as nat);
    }
    while i > 0
        invariant
            i <= n,
            n >= lhs@.len(),
            n >= rhs@.len(),
            forall|j: int| i <= j < n ==> limb_or_zero(lhs@, j) == limb_or_zero(rhs@, j),
        decreases i,
    {
        i -= 1;
        let x = limb_at(lhs, i);
        let y = limb_at(rhs, i);
        if x != y {
            proof {
                lemma_prefix_beyond(lhs@, n as nat);
                lemma_prefix_beyond(rhs@, n as nat);
                lemma_prefix_upper(lhs@, rhs@, (i + 1) as nat, n as nat);
                lemma_prefix_bound(lhs@, i as nat);
                lemma_prefix_bound(rhs@, i as nat);
                let w = weight(i as nat);
                let (p, q) = (prefix_value(lhs@, i as nat), prefix_value(rhs@, i as nat));
                assert(x < y ==> p + x * w < q + y * w) by (nonlinear_arith)
                    requires
                        p < w,
                ;
                assert(x > y ==> p + x * w > q + y * w) by (nonlinear_arith)
                    requires
                        q < w,
                ;
            }
            return x < y;
        }
    }
    proof {
        lemma_prefix_upper(lhs@, rhs@, 0, n as nat);
    }
    false
}

/// Limb-wise addition with carry.
pub(crate) fn add_limbs(lhs: &Vec<u64>, rhs: &Vec<u64>) -> (r: Vec<u64>)
    ensures
        limbs_value(r@) == limbs_value(lhs@) + limbs_value(rhs@),
{
    let n = if lhs.len() >= rhs.len() { lhs.len() } else { rhs.len() };
    let mut sum: Vec<u64> = Vec::new();
    let mut carry: u64 = 0;
    let mut i: usize = 0;
    proof {
        lemma_value_empty();
    }
    while i < n
        invariant
            i <= n,
            sum@.len() == i,
            carry <= 1,
            limbs_value(sum@) + carry * weight(i as nat) == prefix_value(lhs@, i as nat)
                + prefix_value(rhs@, i as nat),
        decreases n - i,
    {
        let x = limb_at(lhs, i);
        let y = limb_at(rhs, i);
        let total: u128 = x as u128 + y as u128 + carry as u128;
        let low: u64 = (total % 0x1_0000_0000_0000_0000) as u64;
        let high: u64 = (total / 0x1_0000_0000_0000_0000) as u64;
        proof {
            lemma_value_push(sum@, low);
            let w = weight(i as nat);
            assert(low * w + high * (limb_base() * w) == x * w + y * w + carry * w)
                by (nonlinear_arith)
                requires
                    low + high * limb_base() == x + y + carry,
            ;
        }
        sum.push(low);
        carry = high;
        i += 1;
    }
    proof {
        lemma_prefix_beyond(lhs@, n as nat);
        lemma_prefix_beyond(rhs@, n as nat);
    }
    if carry > 0 {
        proof {
            lemma_value_push(sum@, carry);
        }
        sum.push(carry);
    } else {
        assert(carry * weight(n as nat) == 0) by (nonlinear_arith)
            requires
                carry == 0,
        ;
    }
    sum
}

/// Limb-wise subtraction with borrow; `None` where `rhs` is the larger.
pub(crate) fn sub_limbs(lhs: &Vec<u64>, rhs: &Vec<u64>) -> (r: Option<Vec<u64>>)
    ensures
        r is Some <==> limbs_value(lhs@) >= limbs_value(rhs@),
        r is Some ==> limbs_value(r->0@) == limbs_value(lhs@) - limbs_value(rhs@),
{
    let n = if lhs.len() >= rhs.len() { lhs.len() } else { rhs.len() };
    let mut diff: Vec<u64> = Vec::new();
    let mut borrow: u64 = 0;
    let mut i: usize = 0;
    proof {
        lemma_value_empty();
    }
    while i < n
        invariant
            i <= n,
            diff@.len() == i,
            borrow <= 1,
            limbs_value(diff@) + prefix_value(rhs@, i as nat) == prefix_value(lhs@, i as nat)
                + borrow * weight(i as nat),
        decreases n - i,
    {
        let x = limb_at(lhs, i);
        let y = limb_at(rhs, i);
        let taken: u128 = y as u128 + borrow as u128;
        let (low, out): (u64, u64) = if x as u128 >= taken {
            ((x as u128 - taken) as u64, 0)
        } else {
            ((x as u128 + 0x1_0000_0000_0000_0000 - taken) as u64, 1)
        };
        proof {
            lemma_value_push(diff@, low);
            let w = weight(i as nat);
            assert(low * w + y * w + borrow * w == x * w + out * (limb_base() * w))
                by (nonlinear_arith)
                requires
                    low + y + borrow == x + out * limb_base(),
            ;
        }
        diff.push(low);
        borrow = out;
        i += 1;
    }
    proof {
        lemma_prefix_beyond(lhs@, n as nat);
        lemma_prefix_beyond(rhs@, n as nat);
        lemma_prefix_bound(diff@, n as nat);
        assert(borrow * weight(n as nat) == if borrow == 0 { 0 } else { weight(n as nat) })
            by (nonlinear_arith)
            requires
                borrow <= 1,
        ;
    }
    if borrow == 0 {
        Some(diff)
    } else {
        None
    }
}

/// The product of a limb vector and one limb.
pub(crate) fn mul_limb(v: &Vec<u64>, x: u64) -> (r: Vec<u64>)
    ensures
        limbs_value(r@) == limbs_value(v@) * x,
{
    let mut out: Vec<u64> = Vec::new();
    let mut carry: u64 = 0;
    let mut i: usize = 0;
    proof {
        lemma_value_empty();
        assert(0 * x == 0);
    }
    while i < v.len()
        invariant
            i <= v.len(),
            out@.len() == i,
            limbs_value(out@) + carry * weight(i as nat) == prefix_value(v@, i as nat) * x,
        decreases v.len() - i,
    {
        let y = v[i];
        assert(y * x + carry <= u128::MAX) by (nonlinear_arith)
            requires
                y <= u64::MAX,
                x <= u64::MAX,
                carry <= u64::MAX,
        ;
        let total: u128 = y as u128 * x as u128 + carry as u128;
        assert(total / 0x1_0000_0000_0000_0000 <= u64::MAX) by (nonlinear_arith)
            requires
                total == y * x + carry,
                y <= u64::MAX,
                x <= u64::MAX,
                carry <= u64::MAX,
        ;
        let low: u64 = (total % 0x1_0000_0000_0000_0000) as u64;
        let high: u64 = (total / 0x1_0000_0000_0000_0000) as u64;
        proof {
            lemma_value_push(out@, low);
            let w = weight(i as nat);
            let p = prefix_value(v@, i as nat);
            assert(low * w + high * (limb_base() * w) + p * x == (p + y * w) * x + carry * w)
                by (nonlinear_arith)
                requires
                    low + high * limb_base() == y * x + carry,
            ;
        }
        out.push(low);
        carry = high;
        i += 1;
    }
    if carry > 0 {
        proof {
            lemma_value_push(out@, carry);
        }
        out.push(carry);
    } else {
        assert(carry * weight(i as nat) == 0) by (nonlinear_arith)
            requires
                carry == 0,
        ;
    }
    out
}

/// `n` zero limbs, followed by the limbs of `v`.
pub(crate) fn shift_limbs(v: &Vec<u64>, n: usize) -> (r: Vec<u64>)
    ensures
        r@ == zeros(n as nat) + v@,
        limbs_value(r@) == weight(n as nat) * limbs_value(v@),
{
    let mut out: Vec<u64> = Vec::new();
    let mut i: usize = 0;
    while i < n
        invariant
            i <= n,
            out@ =~= zeros(i as nat),
        decreases n - i,
    {
        out.push(0);
        i += 1;
    }
    let mut j: usize = 0;
    while j < v.len()
        invariant
            j <= v.len(),
            out@ =~= zeros(n as nat) + v@.subrange(0, j as int),
        decreases v.len() - j,
    {
        out.push(v[j]);
        j += 1;
    }
    proof {
        assert(v@.subrange(0, j as int) =~= v@);
        lemma_value_zeros(n as nat, v@);
    }
    out
}

/// Schoolbook multiplication: one row of limb products for each limb of
/// `lhs`, from the most significant down, each added to the shifted sum of
/// the rows before it.
pub(crate) fn mul_limbs(lhs: &Vec<u64>, rhs: &Vec<u64>) -> (r: Vec<u64>)
    ensures
        limbs_value(r@) == limbs_value(lhs@) * limbs_value(rhs@),
{
    let mut acc: Vec<u64> = Vec::new();
    let mut i: usize = lhs.len();
    proof {
        lemma_value_empty();
        assert(lhs@.skip(i as int) =~= Seq::<u64>::empty());
        assert(0 * limbs_value(rhs@) == 0);
    }
    while i > 0
        invariant
            i <= lhs.len(),
            limbs_value(acc@) == limbs_value(lhs@.skip(i as int)) * limbs_value(rhs@),
        decreases i,
    {
        i -= 1;
        let shifted = shift_limbs(&acc, 1);
        let row = mul_limb(rhs, lhs[i]);
        proof {
            let x = lhs[i as int];
            let rest = lhs@.skip(i + 1);
            assert(lhs@.skip(i as int) =~= seq![x] + rest);
            lemma_value_prepend(x, rest);
            reveal_with_fuel(weight, 2);
            assert(weight(1) == limb_base());
            let (a, b) = (limbs_value(rest), limbs_value(rhs@));
            assert(limb_base() * (a * b) + b * x == (x + limb_base() * a) * b)
                by (nonlinear_arith);
        }
        acc = add_limbs(&shifted, &row);
    }
    proof {
        assert(lhs@.skip(0) =~= lhs@);
    }
    acc
}

impl core::ops::Mul<Natural> for Natural {
    type Output = Natural;

    /// The product, in canonical form. Multiplying a value in canonical form
    /// by one gives that value, and multiplying by zero gives `Small(0)`.
    fn mul(self, rhs: Natural) -> (r: Natural)
        ensures
            r.wf(),
            r@ == self@ * rhs@,
            rhs@ == 1 && self.wf() ==> r.same(&self),
            self@ == 1 && rhs.wf() ==> r.same(&rhs),
            self@ == 0 || rhs@ == 0 ==> r == Natural::Small(0),
    {
        let ghost (a, b) = (self, rhs);
        let lhs = into_limbs(self);
        let rhs = into_limbs(rhs);
        let product = Natural::Big(mul_limbs(&lhs, &rhs)).trim();
        proof {
            assert(b@ == 1 ==> a@ * b@ == a@) by (nonlinear_arith);
            assert(a@ == 1 ==> a@ * b@ == b@) by (nonlinear_arith);
            assert(a@ == 0 || b@ == 0 ==> a@ * b@ == 0) by (nonlinear_arith);
            if b@ == 1 && a.wf() {
                product.lemma_unique(&a);
            }
            if a@ == 1 && b.wf() {
                product.lemma_unique(&b);
            }
            if a@ == 0 || b@ == 0 {
                lemma_value_single(0u64);
                product.lemma_unique(&Natural::Small(0));
            }
        }
        product
    }
}

/// The result is stated by the contract of the function itself: a value
/// that holds a vector cannot be written down in a spec function.
impl vstd::std_specs::ops::MulSpecImpl<Natural> for Natural {
    open spec fn obeys_mul_spec() -> bool {
        false
    }

    open spec fn mul_req(self, rhs: Natural) -> bool {
        true
    }

    open spec fn mul_spec(self, rhs: Natural) -> Natural {
        arbitrary()
    }
}

impl Natural {
    /// Moves a value up by `n` whole limbs: `n` zero limbs are put below its
    /// own. The caller sees to it that the result has no more limbs than
    /// `max_hunks()`.
    pub fn shift_up(self, n: usize) -> (r: Natural)
        requires
            self.limbs().len() + n <= max_hunks_spec(),
        ensures
            r.wf(),
            r@ == self@ * weight(n as nat),
            r.limbs() == normal_limbs(zeros(n as nat) + self.limbs()),
    {
        let ghost v = self@;
        let hunks = into_limbs(self);
        proof {
            assert(weight(n as nat) * v == v * weight(n as nat)) by (nonlinear_arith);
        }
        Natural::Big(shift_limbs(&hunks, n)).trim()
    }
}

impl Natural {
    /// Whether `self` is the smaller number.
    pub fn less_than(&self, other: &Natural) -> (r: bool)
        ensures
            r == (self@ < other@),
    {
        proof {
            self.lemma_small_value();
            other.lemma_small_value();
        }
        match (self, other) {
            (Natural::Small(lhs), Natural::Small(rhs)) => *lhs < *rhs,
            (Natural::Small(lhs), Natural::Big(rhs)) => {
                let lhs = vec![*lhs];
                assert(lhs@ =~= self.limbs());
                limbs_less(&lhs, rhs)
            },
            (Natural::Big(lhs), Natural::Small(rhs)) => {
                let rhs = vec![*rhs];
                assert(rhs@ =~= other.limbs());
                limbs_less(lhs, &rhs)
            },
            (Natural::Big(lhs), Natural::Big(rhs)) => limbs_less(lhs, rhs),
        }
    }

    /// Whether the value is zero, in whatever form it is held.
    pub fn is_zero(&self) -> (r: bool)
        ensures
            r == (self@ == 0),
    {
        let zero = Natural::Small(0);
        proof {
            zero.lemma_small_value();
        }
        !zero.less_than(self)
    }

    /// As `shift_up`, and `None` where the result would have more limbs than
    /// `max_hunks()`.
    pub fn checked_shift_up(self, n: usize) -> (r: Option<Natural>)
        ensures
            r is Some <==> self.limbs().len() + n <= max_hunks_spec(),
            r is Some ==> r->0.wf() && r->0@ == self@ * weight(n as nat),
    {
        let limit = Natural::max_hunks();
        let len = self.len();
        if len <= limit && n <= limit - len {
            Some(self.shift_up(n))
        } else {
            None
        }
    }

    /// `self` to the power `exp`, by squaring and multiplying: for each bit
    /// of the exponent, from the most significant down, the result so far is
    /// squared, and multiplied by `self` where the bit is set. The power
    /// zero of any value is `Small(1)`.
    pub fn pow(self, exp: Natural) -> (r: Natural)
        ensures
            r.wf(),
            r@ == pow(self@ as int, exp@),
            exp@ == 0 ==> r == Natural::Small(1),
    {
        let ghost base = self@ as int;
        let ghost e = exp@;
        let mut bits = BitIter::new(exp);
        let ghost all = bits@;
        let ghost mut done = Seq::<bool>::empty();
        let mut acc = Natural::Small(1);
        proof {
            lemma_value_single(1u64);
            lemma_pow0(base);
        }
        let mut cur = bits.next();
        while cur.is_some()
            invariant
                bits.wf(),
                base == self@,
                cur is Some ==> done.push(cur->0) + bits@ =~= all,
                cur is None ==> done =~= all,
                acc.wf(),
                acc@ == pow(base, bits_value(done)),
            decreases bits@.len() + if cur is Some { 1nat } else { 0nat },
        {
            let bit = cur.unwrap();
            proof {
                let n = bits_value(done);
                lemma_bits_value_push(done, bit);
                lemma_pow_adds(base, n, n);
                lemma_pow_adds(base, 2 * n, 1);
                lemma_pow1(base);
                done = done.push(bit);
            }
            let square = acc.clone() * acc;
            acc = if bit { square * self.clone() } else { square };
            cur = bits.next();
        }
        proof {
            lemma_bits_value_of(e);
            if e == 0 {
                acc.lemma_unique(&Natural::Small(1));
            }
        }
        acc
    }
}

impl core::ops::Add<Natural> for Natural {
    type Output = Natural;

    /// The sum, in canonical form. Adding zero to a value in canonical form
    /// gives that value.
    fn add(self, rhs: Natural) -> (r: Natural)
        ensures
            r.wf(),
            r@ == self@ + rhs@,
            rhs@ == 0 && self.wf() ==> r.same(&self),
            self@ == 0 && rhs.wf() ==> r.same(&rhs),
    {
        let ghost (a, b) = (self, rhs);
        let lhs = into_limbs(self);
        let rhs = into_limbs(rhs);
        let sum = Natural::Big(add_limbs(&lhs, &rhs)).trim();
        proof {
            if b@ == 0 && a.wf() {
                sum.lemma_unique(&a);
            }
            if a@ == 0 && b.wf() {
                sum.lemma_unique(&b);
            }
        }
        sum
    }
}

/// The result is stated by the contract of the function itself: a value
/// that holds a vector cannot be written down in a spec function.
impl vstd::std_specs::ops::AddSpecImpl<Natural> for Natural {
    open spec fn obeys_add_spec() -> bool {
        false
    }

    open spec fn add_req(self, rhs: Natural) -> bool {
        true
    }

    open spec fn add_spec(self, rhs: Natural) -> Natural {
        arbitrary()
    }
}

impl core::ops::Sub<Natural> for Natural {
    type Output = Option<Natural>;

    /// The difference in canonical form, or `None` where `rhs` is the larger.
    fn sub(self, rhs: Natural) -> (r: Option<Natural>)
        ensures
            r is Some <==> self@ >= rhs@,
            r is Some ==> r->0.wf() && r->0@ == self@ - rhs@,
    {
        proof {
            if let Natural::Small(a) = self {
                lemma_value_single(a);
            }
            if let Natural::Small(b) = rhs {
                lemma_value_single(b);
            }
        }
        match (self, rhs) {
            (Natural::Small(lhs), Natural::Small(rhs)) => match lhs.checked_sub(rhs) {
                Some(diff) => {
                    proof {
                        lemma_value_single(diff);
                    }
                    Some(Natural::Small(diff))
                },
                None => None,
            },
            (lhs, rhs) => {
                let lhs = into_limbs(lhs);
                let rhs = into_limbs(rhs);
                match sub_limbs(&lhs, &rhs) {
                    Some(diff) => Some(Natural::Big(diff).trim()),
                    None => None,
                }
            },
        }
    }
}

/// The result is stated by the contract of the function itself: a value
/// that holds a vector cannot be written down in a spec function.
impl vstd::std_specs::ops::SubSpecImpl<Natural> for Natural {
    open spec fn obeys_sub_spec() -> bool {
        false
    }

    open spec fn sub_req(self, rhs: Natural) -> bool {
        true
    }

    open spec fn sub_spec(self, rhs: Natural) -> Option<Natural> {
        arbitrary()
    }
}

} // verus!
