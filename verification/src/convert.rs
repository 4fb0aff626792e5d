//! Conversions between natural numbers and the primitive integer types.

use vstd::prelude::*;
use vstd::std_specs::convert::{FromSpecImpl, TryFromSpecImpl};
use crate::limbs::{limb_base, weight, lemma_value_empty, lemma_value_push, lemma_value_single};
use crate::naturals::Natural;

verus! {

/// The natural number with the value of `value`: one limb where it fits,
/// else the low and the high half of it, least significant first.
pub fn from_wide(value: u128) -> (r: Natural)
    ensures
        r.wf(),
        r@ == value,
        value < limb_base() ==> r == Natural::Small(value as u64),
{
    let low: u64 = (value % 0x1_0000_0000_0000_0000) as u64;
    let high: u64 = (value / 0x1_0000_0000_0000_0000) as u64;
    proof {
        lemma_value_single(low);
    }
    if high == 0 {
        Natural::Small(low)
    } else {
        let mut parts: Vec<u64> = Vec::new();
        parts.push(low);
        parts.push(high);
        proof {
            reveal_with_fuel(weight, 2);
            lemma_value_empty();
            lemma_value_push(Seq::<u64>::empty(), low);
            lemma_value_push(seq![low], high);
            assert(parts@ =~= seq![low].push(high));
            assert(Seq::<u64>::empty().push(low) =~= seq![low]);
            assert(low * 1 == low);
        }
        Natural::Big(parts)
    }
}

impl From<u8> for Natural {
    fn from(value: u8) -> (r: Natural) {
        Natural::Small(value as u64)
    }
}

impl FromSpecImpl<u8> for Natural {
    open spec fn obeys_from_spec() -> bool {
        true
    }

    open spec fn from_spec(value: u8) -> Natural {
        Natural::Small(value as u64)
    }
}

impl From<u16> for Natural {
    fn from(value: u16) -> (r: Natural) {
        Natural::Small(value as u64)
    }
}

impl FromSpecImpl<u16> for Natural {
    open spec fn obeys_from_spec() -> bool {
        true
    }

    open spec fn from_spec(value: u16) -> Natural {
        Natural::Small(value as u64)
    }
}

impl From<u32> for Natural {
    fn from(value: u32) -> (r: Natural) {
        Natural::Small(value as u64)
    }
}

impl FromSpecImpl<u32> for Natural {
    open spec fn obeys_from_spec() -> bool {
        true
    }

    open spec fn from_spec(value: u32) -> Natural {
        Natural::Small(value as u64)
    }
}

impl From<u64> for Natural {
    fn from(value: u64) -> (r: Natural) {
        Natural::Small(value as u64)
    }
}

impl FromSpecImpl<u64> for Natural {
    open spec fn obeys_from_spec() -> bool {
        true
    }

    open spec fn from_spec(value: u64) -> Natural {
        Natural::Small(value as u64)
    }
}

impl From<usize> for Natural {
    fn from(value: usize) -> (r: Natural) {
        Natural::Small(value as u64)
    }
}

impl FromSpecImpl<usize> for Natural {
    open spec fn obeys_from_spec() -> bool {
        true
    }

    open spec fn from_spec(value: usize) -> Natural {
        Natural::Small(value as u64)
    }
}

impl From<u128> for Natural {
    fn from(value: u128) -> (r: Natural)
        ensures
            r.wf(),
            r@ == value,
    {
        from_wide(value)
    }
}

/// The result is stated by the contract of the function itself: a value
/// that holds a vector cannot be written down in a spec function.
impl FromSpecImpl<u128> for Natural {
    open spec fn obeys_from_spec() -> bool {
        false
    }

    open spec fn from_spec(value: u128) -> Natural {
        arbitrary()
    }
}

impl TryFrom<i8> for Natural {
    type Error = ();

    /// A negative value is an error.
    fn try_from(value: i8) -> (r: Result<Natural, ()>) {
        if value < 0 {
            Err(())
        } else {
            Ok(Natural::Small(value as u64))
        }
    }
}

impl TryFromSpecImpl<i8> for Natural {
    open spec fn obeys_try_from_spec() -> bool {
        true
    }

    open spec fn try_from_spec(value: i8) -> Result<Natural, ()> {
        if value < 0 {
            Err(())
        } else {
            Ok(Natural::Small(value as u64))
        }
    }
}

impl TryFrom<i16> for Natural {
    type Error = ();

    /// A negative value is an error.
    fn try_from(value: i16) -> (r: Result<Natural, ()>) {
        if value < 0 {
            Err(())
        } else {
            Ok(Natural::Small(value as u64))
        }
    }
}

impl TryFromSpecImpl<i16> for Natural {
    open spec fn obeys_try_from_spec() -> bool {
        true
    }

    open spec fn try_from_spec(value: i16) -> Result<Natural, ()> {
        if value < 0 {
            Err(())
        } else {
            Ok(Natural::Small(value as u64))
        }
    }
}

impl TryFrom<i32> for Natural {
    type Error = ();

    /// A negative value is an error.
    fn try_from(value: i32) -> (r: Result<Natural, ()>) {
        if value < 0 {
            Err(())
        } else {
            Ok(Natural::Small(value as u64))
        }
    }
}

impl TryFromSpecImpl<i32> for Natural {
    open spec fn obeys_try_from_spec() -> bool {
        true
    }

    open spec fn try_from_spec(value: i32) -> Result<Natural, ()> {
        if value < 0 {
            Err(())
        } else {
            Ok(Natural::Small(value as u64))
        }
    }
}

impl TryFrom<i64> for Natural {
    type Error = ();

    /// A negative value is an error.
    fn try_from(value: i64) -> (r: Result<Natural, ()>) {
        if value < 0 {
            Err(())
        } else {
            Ok(Natural::Small(value as u64))
        }
    }
}

impl TryFromSpecImpl<i64> for Natural {
    open spec fn obeys_try_from_spec() -> bool {
        true
    }

    open spec fn try_from_spec(value: i64) -> Result<Natural, ()> {
        if value < 0 {
            Err(())
        } else {
            Ok(Natural::Small(value as u64))
        }
    }
}

impl TryFrom<isize> for Natural {
    type Error = ();

    /// A negative value is an error.
    fn try_from(value: isize) -> (r: Result<Natural, ()>) {
        if value < 0 {
            Err(())
        } else {
            Ok(Natural::Small(value as u64))
        }
    }
}

impl TryFromSpecImpl<isize> for Natural {
    open spec fn obeys_try_from_spec() -> bool {
        true
    }

    open spec fn try_from_spec(value: isize) -> Result<Natural, ()> {
        if value < 0 {
            Err(())
        } else {
            Ok(Natural::Small(value as u64))
        }
    }
}

impl TryFrom<i128> for Natural {
    type Error = ();

    /// A negative value is an error.
    fn try_from(value: i128) -> (r: Result<Natural, ()>)
        ensures
            r is Ok <==> value >= 0,
            r is Ok ==> r->Ok_0.wf() && r->Ok_0@ == value,
    {
        if value < 0 {
            Err(())
        } else {
            Ok(from_wide(value as u128))
        }
    }
}

/// The result is stated by the contract of the function itself: a value
/// that holds a vector cannot be written down in a spec function.
impl TryFromSpecImpl<i128> for Natural {
    open spec fn obeys_try_from_spec() -> bool {
        false
    }

    open spec fn try_from_spec(value: i128) -> Result<Natural, ()> {
        arbitrary()
    }
}

impl Natural {
    /// The value as one limb, where it is `Small`.
    pub fn try_into_word(self) -> (r: Result<u64, ()>)
        ensures
            r is Ok <==> self is Small,
            r is Ok ==> r->Ok_0 == self->Small_0,
            self.wf() ==> (r is Ok <==> self@ < limb_base()),
            r is Ok ==> r->Ok_0 == self@,
    {
        proof {
            self.lemma_small_value();
        }
        match self {
            Natural::Small(inner) => Ok(inner),
            Natural::Big(_) => Err(()),
        }
    }
}

impl TryFrom<Natural> for u64 {
    type Error = ();

    /// The value as one limb, where it is `Small`.
    fn try_from(value: Natural) -> (r: Result<u64, ()>) {
        match value {
            Natural::Small(inner) => Ok(inner),
            Natural::Big(_) => Err(()),
        }
    }
}

impl TryFromSpecImpl<Natural> for u64 {
    open spec fn obeys_try_from_spec() -> bool {
        true
    }

    open spec fn try_from_spec(value: Natural) -> Result<u64, ()> {
        match value {
            Natural::Small(inner) => Ok(inner),
            Natural::Big(_) => Err(()),
        }
    }
}

} // verus!
