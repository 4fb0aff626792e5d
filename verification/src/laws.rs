//! Laws of the arithmetic.
//!
//! The operations return well-formed values and state the number that the
//! result stands for. A number has one well-formed representation only, so
//! these laws hold of the results limb for limb. Each law takes the operands
//! and the results of the operations it speaks of; a result is described by
//! what the operation ensures of it.

use vstd::prelude::*;
use vstd::arithmetic::div_mod::{lemma_fundamental_div_mod, lemma_mod_bound, lemma_small_mod};
use vstd::arithmetic::power::{pow, lemma_pow0};
use vstd::utf8::encode_utf8;
use crate::decimal::{
    decimal_chars, decimal_value, is_decimal, lemma_decimal_chars_bytes, lemma_decimal_round_trip,
};
use crate::limbs::{
    is_canonical, limbs_value, normal_limbs, lemma_normal_limbs, lemma_normal_limbs_idempotent,
    lemma_prefix_bound, lemma_value_lower_bound, lemma_value_single, lemma_weight_monotone,
};
use crate::naturals::Natural;

verus! {

/// Normalising a limb sequence gives a canonical one: it is not empty, and
/// where it has two limbs or more its most significant limb is not zero.
/// Normalising once more changes nothing.
pub proof fn law_trim_normalizes(limbs: Seq<u64>)
    ensures
        is_canonical(normal_limbs(limbs)),
        normal_limbs(limbs).len() >= 2 ==> normal_limbs(limbs).last() != 0,
        limbs_value(normal_limbs(limbs)) == limbs_value(limbs),
        normal_limbs(normal_limbs(limbs)) == normal_limbs(limbs),
{
    lemma_normal_limbs(limbs);
    lemma_normal_limbs_idempotent(limbs);
}

/// A trimmed value is `Small`, or `Big` with two limbs or more and a most
/// significant limb that is not zero; trimming it again gives the same value.
pub proof fn law_trim_idempotent(v: Natural, once: Natural, twice: Natural)
    requires
        once.wf(),
        once.limbs() == normal_limbs(v.limbs()),
        twice.wf(),
        twice.limbs() == normal_limbs(once.limbs()),
    ensures
        once is Small || (once.limbs().len() >= 2 && once.limbs().last() != 0),
        twice.same(&once),
{
    lemma_normal_limbs(v.limbs());
    lemma_normal_limbs(once.limbs());
    twice.lemma_unique(&once);
}

/// Adding zero to a well-formed value gives that value.
pub proof fn law_add_zero(a: Natural, sum: Natural)
    requires
        a.wf(),
        sum.wf(),
        sum@ == a@ + Natural::Small(0)@,
    ensures
        sum.same(&a),
{
    lemma_value_single(0u64);
    sum.lemma_unique(&a);
}

/// Addition commutes: `a + b` and `b + a` are the same value.
pub proof fn law_add_commutes(a: Natural, b: Natural, ab: Natural, ba: Natural)
    requires
        ab.wf(),
        ab@ == a@ + b@,
        ba.wf(),
        ba@ == b@ + a@,
    ensures
        ab.same(&ba),
{
    ab.lemma_unique(&ba);
}

/// Addition is associative: `(a + b) + c` and `a + (b + c)` are the same
/// value.
pub proof fn law_add_associates(
    a: Natural,
    b: Natural,
    c: Natural,
    ab: Natural,
    bc: Natural,
    left: Natural,
    right: Natural,
)
    requires
        ab@ == a@ + b@,
        bc@ == b@ + c@,
        left.wf(),
        left@ == ab@ + c@,
        right.wf(),
        right@ == a@ + bc@,
    ensures
        left.same(&right),
{
    left.lemma_unique(&right);
}

/// Where `a` is not below `b`, adding `b` to the difference `a - b` gives
/// `a` back.
pub proof fn law_sub_then_add(a: Natural, b: Natural, diff: Natural, back: Natural)
    requires
        a.wf(),
        a@ >= b@,
        diff@ == a@ - b@,
        back.wf(),
        back@ == diff@ + b@,
    ensures
        back.same(&a),
{
    back.lemma_unique(&a);
}

/// Multiplying a well-formed value by one gives that value.
pub proof fn law_mul_one(a: Natural, product: Natural)
    requires
        a.wf(),
        product.wf(),
        product@ == a@ * Natural::Small(1)@,
    ensures
        product.same(&a),
{
    lemma_value_single(1u64);
    assert(a@ * 1 == a@);
    product.lemma_unique(&a);
}

/// Multiplying by zero gives `Small(0)`.
pub proof fn law_mul_zero(a: Natural, product: Natural)
    requires
        product.wf(),
        product@ == a@ * Natural::Small(0)@,
    ensures
        product == Natural::Small(0),
{
    lemma_value_single(0u64);
    assert(a@ * 0 == 0);
    product.lemma_unique(&Natural::Small(0));
}

/// Multiplication commutes.
pub proof fn law_mul_commutes(a: Natural, b: Natural, ab: Natural, ba: Natural)
    requires
        ab.wf(),
        ab@ == a@ * b@,
        ba.wf(),
        ba@ == b@ * a@,
    ensures
        ab.same(&ba),
{
    assert(a@ * b@ == b@ * a@) by (nonlinear_arith);
    ab.lemma_unique(&ba);
}

/// For a divisor that is not zero, the quotient times the divisor plus the
/// remainder is the dividend, and the remainder is below the divisor.
pub proof fn law_div_rem(
    a: Natural,
    b: Natural,
    quotient: Natural,
    remainder: Natural,
    product: Natural,
    total: Natural,
)
    requires
        a.wf(),
        b@ != 0,
        quotient@ == a@ / b@,
        remainder@ == a@ % b@,
        product@ == quotient@ * b@,
        total.wf(),
        total@ == product@ + remainder@,
    ensures
        total.same(&a),
        remainder@ < b@,
{
    lemma_fundamental_div_mod(a@ as int, b@ as int);
    lemma_mod_bound(a@ as int, b@ as int);
    assert(b@ * (a@ / b@) == (a@ / b@) * b@) by (nonlinear_arith);
    total.lemma_unique(&a);
}

/// A dividend of one limb is its own remainder under a well-formed divisor
/// of two limbs or more.
pub proof fn law_rem_of_small_by_big(a: Natural, b: Natural, remainder: Natural)
    requires
        a is Small,
        b is Big,
        b.wf(),
        remainder.wf(),
        remainder@ == a@ % b@,
    ensures
        remainder.same(&a),
{
    law_small_below_big(a, b);
    lemma_small_mod(a@, b@);
    remainder.lemma_unique(&a);
}

/// Every `Small` value is below every well-formed `Big` value.
pub proof fn law_small_below_big(a: Natural, b: Natural)
    requires
        a is Small,
        b is Big,
        b.wf(),
    ensures
        a@ < b@,
{
    a.lemma_small_value();
    b.lemma_small_value();
}

/// Of two well-formed values, the one with more limbs is the greater.
pub proof fn law_more_limbs_is_greater(a: Natural, b: Natural)
    requires
        a.wf(),
        b.wf(),
        a.limbs().len() < b.limbs().len(),
    ensures
        a@ < b@,
{
    lemma_prefix_bound(a.limbs(), a.limbs().len());
    lemma_value_lower_bound(b.limbs());
    lemma_weight_monotone(a.limbs().len(), (b.limbs().len() - 1) as nat);
}

/// Well-formed values are equal exactly when they stand for the same
/// number.
pub proof fn law_equal_values_are_same(a: Natural, b: Natural)
    requires
        a.wf(),
        b.wf(),
    ensures
        a.same(&b) <==> a@ == b@,
{
    if a@ == b@ {
        a.lemma_unique(&b);
    }
}

/// Any value to the power zero is `Small(1)`.
pub proof fn law_pow_zero(a: Natural, power: Natural)
    requires
        power.wf(),
        power@ == pow(a@ as int, Natural::Small(0)@),
    ensures
        power == Natural::Small(1),
{
    lemma_value_single(0u64);
    lemma_value_single(1u64);
    lemma_pow0(a@ as int);
    power.lemma_unique(&Natural::Small(1));
}

/// Writing a well-formed value out as decimal text and reading that text
/// gives the value back: the text is accepted, and the number read is the
/// value.
pub proof fn law_decimal_round_trip(v: Natural, text: Seq<char>, back: Natural)
    requires
        v.wf(),
        text == decimal_chars(v@),
        back.wf(),
        back@ == decimal_value(encode_utf8(text)),
    ensures
        is_decimal(encode_utf8(text)),
        back.same(&v),
{
    lemma_decimal_chars_bytes(v@, text);
    lemma_decimal_round_trip(v@);
    back.lemma_unique(&v);
}

} // verus!
