//! Decimal text: reading a natural number from its digits and writing it out.

use vstd::prelude::*;
use vstd::string::{StringExecFns, StringSliceAdditionalSpecFns};
use vstd::utf8::{encode_utf8, is_ascii_chars_encode_utf8};
use vstd::arithmetic::div_mod::{
    lemma_fundamental_div_mod, lemma_fundamental_div_mod_converse_div,
    lemma_fundamental_div_mod_converse_mod,
};
use crate::limbs::{
    limb_base, limbs_value, zeros, lemma_value_empty, lemma_value_prepend, lemma_value_single,
};
use crate::naturals::Natural;
use crate::ops::into_limbs;

verus! {

/// The number of decimal digits that always fit one limb.
pub const CHUNK_DIGITS: usize = 19;

/// Ten to the power `CHUNK_DIGITS`.
pub const CHUNK_BASE: u64 = 10_000_000_000_000_000_000;

/// An ASCII decimal digit.
pub open spec fn is_digit(b: u8) -> bool {
    48 <= b <= 57
}

/// A text that is not empty and holds decimal digits only.
pub open spec fn is_decimal(s: Seq<u8>) -> bool {
    s.len() > 0 && forall|i: int| 0 <= i < s.len() ==> is_digit(#[trigger] s[i])
}

/// All bytes are decimal digits.
pub open spec fn all_digits(s: Seq<u8>) -> bool {
    forall|i: int| 0 <= i < s.len() ==> is_digit(#[trigger] s[i])
}

/// The number that a sequence of decimal digits stands for, most
/// significant digit first.
pub open spec fn decimal_value(s: Seq<u8>) -> nat
    decreases s.len(),
{
    if s.len() == 0 {
        0
    } else {
        10 * decimal_value(s.drop_last()) + (s.last() - 48) as nat
    }
}

/// Ten to the power `n`.
pub open spec fn pow10(n: nat) -> nat
    decreases n,
{
    if n == 0 {
        1
    } else {
        10 * pow10((n - 1) as nat)
    }
}

/// The decimal digits of `v`, most significant first, without leading
/// zeros; the one digit `0` for zero.
pub open spec fn decimal_digits(v: nat) -> Seq<u8>
    decreases v,
{
    if v < 10 {
        seq![(48 + v) as u8]
    } else {
        decimal_digits(v / 10).push((48 + v % 10) as u8)
    }
}

/// The decimal digits of `v`, and no digit for zero.
pub open spec fn leading_digits(v: nat) -> Seq<u8> {
    if v == 0 {
        Seq::empty()
    } else {
        decimal_digits(v)
    }
}

pub proof fn lemma_pow10_chunk()
    ensures
        pow10(CHUNK_DIGITS as nat) == CHUNK_BASE,
{
    reveal_with_fuel(pow10, 20);
}

pub proof fn lemma_pow10_monotone(m: nat, n: nat)
    requires
        m <= n,
    ensures
        pow10(m) <= pow10(n),
        pow10(m) >= 1,
    decreases n,
{
    if m < n {
        lemma_pow10_monotone(m, (n - 1) as nat);
    } else if n > 0 {
        lemma_pow10_monotone((m - 1) as nat, (n - 1) as nat);
    }
}

/// The value of two digit sequences, one after the other.
pub proof fn lemma_decimal_value_concat(a: Seq<u8>, b: Seq<u8>)
    ensures
        decimal_value(a + b) == decimal_value(a) * pow10(b.len()) + decimal_value(b),
    decreases b.len(),
{
    if b.len() == 0 {
        assert(a + b =~= a);
        assert(decimal_value(a) * 1 == decimal_value(a));
    } else {
        lemma_decimal_value_concat(a, b.drop_last());
        assert((a + b).drop_last() =~= a + b.drop_last());
        let (x, p) = (decimal_value(a), pow10((b.len() - 1) as nat));
        assert(10 * (x * p) == x * (10 * p)) by (nonlinear_arith);
    }
}

/// `n` digits stand for a number below ten to the power `n`.
pub proof fn lemma_decimal_value_bound(s: Seq<u8>)
    requires
        all_digits(s),
    ensures
        decimal_value(s) < pow10(s.len()),
    decreases s.len(),
{
    if s.len() > 0 {
        lemma_decimal_value_bound(s.drop_last());
    }
}

/// The digits of a number: its leading digits without the last, then the
/// last.
pub proof fn lemma_decimal_digits_step(v: nat)
    ensures
        decimal_digits(v) == leading_digits(v / 10).push((48 + v % 10) as u8),
{
    if v < 10 {
        assert(decimal_digits(v) =~= Seq::<u8>::empty().push((48 + v % 10) as u8));
    }
}

/// Writing a number out and reading the digits gives the number back.
pub proof fn lemma_decimal_round_trip(v: nat)
    ensures
        is_decimal(decimal_digits(v)),
        decimal_value(decimal_digits(v)) == v,
    decreases v,
{
    if v < 10 {
        let s = seq![(48 + v) as u8];
        assert(s.drop_last() =~= Seq::<u8>::empty());
        assert(decimal_value(s.drop_last()) == 0);
    } else {
        lemma_decimal_round_trip(v / 10);
        let s = decimal_digits(v / 10).push((48 + v % 10) as u8);
        assert(s.drop_last() =~= decimal_digits(v / 10));
    }
}

/// The decimal digits of `v` as characters.
pub open spec fn decimal_chars(v: nat) -> Seq<char> {
    Seq::new(decimal_digits(v).len(), |i: int| decimal_digits(v)[i] as char)
}

/// The bytes of a text that holds the decimal digits of a number are those
/// digits.
pub proof fn lemma_decimal_chars_bytes(v: nat, text: Seq<char>)
    requires
        text == decimal_chars(v),
    ensures
        encode_utf8(text) == decimal_digits(v),
{
    lemma_decimal_round_trip(v);
    let digits = decimal_digits(v);
    assert forall|i: int| 0 <= i < text.len() implies '\0' <= #[trigger] text[i] <= '\u{7f}' by {
        assert(is_digit(digits[i]));
    }
    is_ascii_chars_encode_utf8(text);
    assert forall|i: int| 0 <= i < text.len() implies encode_utf8(text)[i] == digits[i] by {
        assert(is_digit(digits[i]));
        assert(text[i] as u8 == encode_utf8(text)[i]);
    }
    assert(encode_utf8(text) =~= digits);
}

/// The text of one decimal digit.
fn digit_text(digit: u8) -> (r: &'static str)
    requires
        is_digit(digit),
    ensures
        r@ == seq![digit as char],
{
    proof {
        reveal_strlit("0");
        reveal_strlit("1");
        reveal_strlit("2");
        reveal_strlit("3");
        reveal_strlit("4");
        reveal_strlit("5");
        reveal_strlit("6");
        reveal_strlit("7");
        reveal_strlit("8");
        reveal_strlit("9");
    }
    let r = match digit {
        48 => "0",
        49 => "1",
        50 => "2",
        51 => "3",
        52 => "4",
        53 => "5",
        54 => "6",
        55 => "7",
        56 => "8",
        _ => "9",
    };
    assert(r@ =~= seq![digit as char]);
    r
}

/// The number that the digits of `text` from `from` up to `to` stand for,
/// or `None` where one of them is no digit.
fn parse_chunk(text: &[u8], from: usize, to: usize) -> (r: Option<u64>)
    requires
        from <= to <= text@.len(),
        to - from <= CHUNK_DIGITS,
    ensures
        r is Some <==> all_digits(text@.subrange(from as int, to as int)),
        r is Some ==> r->0 == decimal_value(text@.subrange(from as int, to as int)),
{
    let mut value: u64 = 0;
    let mut i: usize = from;
    proof {
        assert(text@.subrange(from as int, from as int) =~= Seq::<u8>::empty());
    }
    while i < to
        invariant
            from <= i <= to <= text@.len(),
            to - from <= CHUNK_DIGITS,
            all_digits(text@.subrange(from as int, i as int)),
            value == decimal_value(text@.subrange(from as int, i as int)),
        decreases to - i,
    {
        let b = text[i];
        let ghost before = text@.subrange(from as int, i as int);
        let ghost after = text@.subrange(from as int, i + 1);
        proof {
            assert(after.drop_last() =~= before);
            assert(after.last() == b);
        }
        if b < 48 || b > 57 {
            proof {
                let whole = text@.subrange(from as int, to as int);
                assert(whole[i - from] == b);
            }
            return None;
        }
        proof {
            lemma_decimal_value_bound(before);
            lemma_pow10_monotone(before.len(), 18);
            reveal_with_fuel(pow10, 20);
            assert(pow10(18) == 1_000_000_000_000_000_000);
            assert forall|j: int| 0 <= j < after.len() implies is_digit(#[trigger] after[j]) by {
                if j < before.len() {
                    assert(after[j] == before[j]);
                }
            }
        }
        value = value * 10 + (b - 48) as u64;
        i += 1;
    }
    Some(value)
}

/// Division of a limb vector by one limb that is not zero: the quotient,
/// limb for limb from the most significant down, and the remainder.
fn short_div(v: &Vec<u64>, d: u64) -> (r: (Vec<u64>, u64))
    requires
        d > 0,
    ensures
        limbs_value(r.0@) == limbs_value(v@) / (d as nat),
        r.1 == limbs_value(v@) % (d as nat),
        limbs_value(v@) == limbs_value(r.0@) * d + r.1,
{
    let n = v.len();
    let mut quotient: Vec<u64> = Vec::new();
    let mut k: usize = 0;
    while k < n
        invariant
            k <= n,
            quotient@ =~= zeros(k as nat),
        decreases n - k,
    {
        quotient.push(0);
        k += 1;
    }
    let mut rem: u64 = 0;
    let mut i: usize = n;
    proof {
        assert(v@.skip(n as int) =~= Seq::<u64>::empty());
        assert(quotient@.skip(n as int) =~= Seq::<u64>::empty());
        lemma_value_empty();
        assert(0 * d == 0);
    }
    while i > 0
        invariant
            i <= n,
            n == v@.len(),
            quotient@.len() == n,
            rem < d,
            limbs_value(v@.skip(i as int)) == limbs_value(quotient@.skip(i as int)) * d + rem,
        decreases i,
    {
        i -= 1;
        let y = v[i];
        let ghost above = limbs_value(quotient@.skip(i + 1));
        let ghost old_quotient = quotient@;
        assert(rem * limb_base() + y < d * limb_base()) by (nonlinear_arith)
            requires
                rem < d,
                y < limb_base(),
        ;
        let cur: u128 = rem as u128 * 0x1_0000_0000_0000_0000 + y as u128;
        assert(cur / (d as u128) < limb_base()) by (nonlinear_arith)
            requires
                cur < d * limb_base(),
                d > 0,
        ;
        let x: u64 = (cur / d as u128) as u64;
        let next: u64 = (cur % d as u128) as u64;
        quotient.set(i, x);
        proof {
            assert(quotient@.skip(i + 1) =~= old_quotient.skip(i + 1));
            assert(quotient@.skip(i as int) =~= seq![x] + quotient@.skip(i + 1));
            assert(v@.skip(i as int) =~= seq![y] + v@.skip(i + 1));
            lemma_value_prepend(x, quotient@.skip(i + 1));
            lemma_value_prepend(y, v@.skip(i + 1));
            lemma_fundamental_div_mod(cur as int, d as int);
            assert(d * (cur / d as u128) == (cur / d as u128) * d) by (nonlinear_arith);
            assert(y + limb_base() * (above * d + rem) == (x + limb_base() * above) * d + next)
                by (nonlinear_arith)
                requires
                    rem * limb_base() + y == x * d + next,
            ;
        }
        rem = next;
    }
    proof {
        assert(v@.skip(0) =~= v@);
        assert(quotient@.skip(0) =~= quotient@);
        let (a, q) = (limbs_value(v@), limbs_value(quotient@));
        lemma_fundamental_div_mod_converse_div(a as int, d as int, q as int, rem as int);
        lemma_fundamental_div_mod_converse_mod(a as int, d as int, q as int, rem as int);
    }
    (quotient, rem)
}

/// The bytes of `v` in reverse order.
fn reversed(v: &Vec<u8>) -> (r: Vec<u8>)
    ensures
        r@ == v@.reverse(),
{
    let mut out: Vec<u8> = Vec::new();
    let mut i: usize = v.len();
    while i > 0
        invariant
            i <= v@.len(),
            out@.len() == v@.len() - i,
            forall|j: int| 0 <= j < out@.len() ==> out@[j] == v@[v@.len() - 1 - j],
        decreases i,
    {
        i -= 1;
        out.push(v[i]);
    }
    assert(out@ =~= v@.reverse());
    out
}

impl Natural {
    /// Reads a number from decimal digits.
    ///
    /// The text is taken in chunks of `CHUNK_DIGITS` digits, the first one
    /// shorter where the length asks for it. Each chunk is read as one limb,
    /// and the number so far is multiplied by `CHUNK_BASE` before the chunk
    /// is added. An empty text, or one with a byte that is no digit, is an
    /// error.
    pub fn parse_decimal_bytes(text: &[u8]) -> (r: Result<Natural, ()>)
        ensures
            r is Ok <==> is_decimal(text@),
            r is Ok ==> r->Ok_0.wf() && r->Ok_0@ == decimal_value(text@),
    {
        let n = text.len();
        if n == 0 {
            return Err(());
        }
        let mut value = Natural::Small(0);
        let mut pos: usize = 0;
        let mut end: usize = n % CHUNK_DIGITS;
        proof {
            lemma_value_single(0u64);
            assert(text@.subrange(0, 0) =~= Seq::<u8>::empty());
        }
        while pos < n
            invariant
                pos <= end <= n,
                n == text@.len(),
                end - pos <= CHUNK_DIGITS,
                (n - end) % (CHUNK_DIGITS as int) == 0,
                pos > 0 ==> end == pos + CHUNK_DIGITS || pos == n,
                pos == 0 ==> value@ == 0,
                value.wf(),
                all_digits(text@.subrange(0, pos as int)),
                value@ == decimal_value(text@.subrange(0, pos as int)),
            decreases (n - pos) + (n - end),
        {
            let ghost before = text@.subrange(0, pos as int);
            let ghost part = text@.subrange(pos as int, end as int);
            let ghost after = text@.subrange(0, end as int);
            proof {
                assert(after =~= before + part);
            }
            match parse_chunk(text, pos, end) {
                None => {
                    proof {
                        if is_decimal(text@) {
                            assert forall|j: int| 0 <= j < part.len() implies is_digit(
                                #[trigger] part[j],
                            ) by {
                                assert(part[j] == text@[pos + j]);
                            }
                        }
                    }
                    return Err(());
                },
                Some(chunk) => {
                    proof {
                        lemma_decimal_value_concat(before, part);
                        lemma_pow10_chunk();
                        lemma_value_single(CHUNK_BASE);
                        lemma_value_single(chunk);
                        assert(0 * pow10(part.len()) == 0);
                        assert(0 * CHUNK_BASE == 0);
                        assert forall|j: int| 0 <= j < after.len() implies is_digit(
                            #[trigger] after[j],
                        ) by {
                            if j < before.len() {
                                assert(after[j] == before[j]);
                            } else {
                                assert(after[j] == part[j - before.len()]);
                            }
                        }
                    }
                    value = value * Natural::Small(CHUNK_BASE) + Natural::Small(chunk);
                    pos = end;
                    end = if n - pos >= CHUNK_DIGITS { pos + CHUNK_DIGITS } else { n };
                },
            }
        }
        proof {
            assert(text@.subrange(0, n as int) =~= text@);
        }
        Ok(value)
    }

    /// Reads a number from decimal text: see `parse_decimal_bytes`.
    pub fn parse_decimal(text: &str) -> (r: Result<Natural, ()>)
        ensures
            r is Ok <==> is_decimal(text.spec_bytes()),
            r is Ok ==> r->Ok_0.wf() && r->Ok_0@ == decimal_value(text.spec_bytes()),
    {
        Natural::parse_decimal_bytes(text.as_bytes())
    }

    /// The decimal digits of this number, most significant first, as ASCII
    /// bytes.
    ///
    /// The number is divided by `CHUNK_BASE` again and again. Each remainder
    /// gives `CHUNK_DIGITS` digits, the last one only as many as it has.
    pub fn to_decimal_bytes(&self) -> (r: Vec<u8>)
        ensures
            r@ == decimal_digits(self@),
    {
        let ghost v = self@;
        let mut rest = self.clone().trim();
        let mut out: Vec<u8> = Vec::new();
        let mut more = true;
        while more
            invariant
                rest.wf(),
                more && out@.len() == 0 ==> rest@ == v,
                more && out@.len() > 0 ==> rest@ > 0 && decimal_digits(v) == leading_digits(rest@)
                    + out@.reverse(),
                !more ==> out@.len() > 0 && decimal_digits(v) == out@.reverse(),
            decreases rest@ + if more { 1nat } else { 0nat },
        {
            let ghost before = rest@;
            let (quotient, chunk) = short_div(&into_limbs(rest), CHUNK_BASE);
            rest = Natural::Big(quotient).trim();
            proof {
                rest.lemma_small_value();
                lemma_pow10_chunk();
            }
            let rest_is_zero = match rest {
                Natural::Small(0) => true,
                _ => false,
            };
            let mut part = chunk;
            let mut k: usize = CHUNK_DIGITS;
            while k > 0 && (part > 0 || !rest_is_zero || out.len() == 0)
                invariant
                    k <= CHUNK_DIGITS,
                    rest_is_zero == (rest@ == 0),
                    part < pow10(k as nat),
                    out@.len() == 0 ==> rest@ * pow10(k as nat) + part == v,
                    out@.len() > 0 ==> decimal_digits(v) == leading_digits(
                        (rest@ * pow10(k as nat) + part) as nat,
                    ) + out@.reverse(),
                    k < CHUNK_DIGITS ==> out@.len() > 0,
                decreases k,
            {
                let ghost whole: nat = (rest@ * pow10(k as nat) + part) as nat;
                let ghost lower = pow10((k - 1) as nat);
                let digit: u8 = 48 + (part % 10) as u8;
                proof {
                    lemma_decimal_digits_step(whole);
                    assert(rest@ * (10 * lower) == 10 * (rest@ * lower)) by (nonlinear_arith);
                    assert(whole / 10 == rest@ * lower + part / 10);
                    assert(whole % 10 == part % 10);
                    assert(out@.push(digit).reverse() =~= seq![digit] + out@.reverse());
                    if out@.len() > 0 {
                        assert(whole > 0) by (nonlinear_arith)
                            requires
                                whole == rest@ * (10 * lower) + part,
                                part > 0 || rest@ > 0,
                                lower >= 1,
                        ;
                        assert(leading_digits(whole / 10).push(digit) + out@.reverse()
                            =~= leading_digits(whole / 10) + (seq![digit] + out@.reverse()));
                    } else {
                        assert(leading_digits(v / 10).push(digit)
                            =~= leading_digits(v / 10) + (seq![digit] + out@.reverse()));
                    }
                    lemma_pow10_monotone(0, (k - 1) as nat);
                }
                out.push(digit);
                part = part / 10;
                k -= 1;
            }
            proof {
                assert(rest@ * 1 == rest@);
                if rest@ == 0 {
                    assert(0 * pow10(k as nat) == 0);
                    assert(leading_digits(0) + out@.reverse() =~= out@.reverse());
                } else {
                    assert(before >= CHUNK_BASE) by (nonlinear_arith)
                        requires
                            before == rest@ * CHUNK_BASE + chunk,
                            rest@ > 0,
                    ;
                }
            }
            more = !rest_is_zero;
        }
        reversed(&out)
    }

    /// This number as decimal text, without leading zeros.
    pub fn to_decimal_string(&self) -> (r: String)
        ensures
            r@ == decimal_chars(self@),
            encode_utf8(r@) == decimal_digits(self@),
    {
        let digits = self.to_decimal_bytes();
        let mut text = String::new();
        let mut i: usize = 0;
        proof {
            lemma_decimal_round_trip(self@);
        }
        while i < digits.len()
            invariant
                i <= digits@.len(),
                is_decimal(digits@),
                text@.len() == i,
                forall|j: int| 0 <= j < i ==> text@[j] == digits@[j] as char,
            decreases digits.len() - i,
        {
            text.append(digit_text(digits[i]));
            i += 1;
        }
        proof {
            assert(text@ =~= decimal_chars(self@));
            lemma_decimal_chars_bytes(self@, text@);
        }
        text
    }
}

impl core::str::FromStr for Natural {
    type Err = ();

    /// Reads a number from decimal text: see `parse_decimal_bytes`.
    fn from_str(text: &str) -> (r: Result<Natural, ()>)
        ensures
            r is Ok <==> is_decimal(text.spec_bytes()),
            r is Ok ==> r->Ok_0.wf() && r->Ok_0@ == decimal_value(text.spec_bytes()),
    {
        Natural::parse_decimal(text)
    }
}

} // verus!
