//! Signed integers: a sign beside the limbs of a magnitude.

use vstd::prelude::*;
use vstd::std_specs::convert::FromSpecImpl;
use crate::limbs::limbs_value;
use crate::Sign;

verus! {

/// An integer as a sign and the limbs of its magnitude, least significant
/// first. Zero has no sign.
pub struct Integer {
    pub sign: Option<Sign>,
    pub parts: Vec<u64>,
}

impl View for Integer {
    type V = int;

    /// The number that this value stands for.
    open spec fn view(&self) -> int {
        match self.sign {
            Some(Sign::Negative) => -(limbs_value(self.parts@) as int),
            _ => limbs_value(self.parts@) as int,
        }
    }
}

/// The sign of a number: none for zero.
pub open spec fn sign_of(value: int) -> Option<Sign> {
    if value == 0 {
        None
    } else if value < 0 {
        Some(Sign::Negative)
    } else {
        Some(Sign::Positive)
    }
}

/// The magnitude of a number.
pub open spec fn magnitude_of(value: int) -> nat {
    if value < 0 {
        (-value) as nat
    } else {
        value as nat
    }
}

/// The low and the high limb of a magnitude of two limbs.
pub open spec fn wide_parts(magnitude: nat) -> Seq<u64> {
    seq![(magnitude % 0x1_0000_0000_0000_0000) as u64, (magnitude / 0x1_0000_0000_0000_0000) as u64]
}

/// The magnitude of a value that fits 64 bits with its sign.
fn narrow_magnitude(value: i128) -> (r: u64)
    requires
        i64::MIN <= value <= i64::MAX,
    ensures
        r == magnitude_of(value as int),
{
    if value < 0 {
        (-value) as u64
    } else {
        value as u64
    }
}

/// The magnitude of a value of 128 bits.
fn wide_magnitude(value: i128) -> (r: u128)
    ensures
        r == magnitude_of(value as int),
{
    if value < 0 {
        (-(value + 1)) as u128 + 1
    } else {
        value as u128
    }
}

impl Integer {
    /// An integer from any value that converts into one.
    pub fn new<T: Into<Integer>>(n: T) -> (r: Integer)
        ensures
            call_ensures(T::into, (n,), r),
    {
        n.into()
    }

    /// An integer of one limb.
    fn narrow(negative: bool, magnitude: u64) -> (r: Integer)
        ensures
            r.sign == if magnitude == 0 {
                None
            } else if negative {
                Some(Sign::Negative)
            } else {
                Some(Sign::Positive)
            },
            r.parts@ == seq![magnitude],
    {
        let sign = if magnitude == 0 {
            None
        } else if negative {
            Some(Sign::Negative)
        } else {
            Some(Sign::Positive)
        };
        let mut parts: Vec<u64> = Vec::new();
        parts.push(magnitude);
        assert(parts@ =~= seq![magnitude]);
        Integer { sign, parts }
    }

    /// An integer of two limbs.
    fn wide(negative: bool, magnitude: u128) -> (r: Integer)
        ensures
            r.sign == if magnitude == 0 {
                None
            } else if negative {
                Some(Sign::Negative)
            } else {
                Some(Sign::Positive)
            },
            r.parts@ == wide_parts(magnitude as nat),
    {
        let sign = if magnitude == 0 {
            None
        } else if negative {
            Some(Sign::Negative)
        } else {
            Some(Sign::Positive)
        };
        let mut parts: Vec<u64> = Vec::new();
        parts.push((magnitude % 0x1_0000_0000_0000_0000) as u64);
        parts.push((magnitude / 0x1_0000_0000_0000_0000) as u64);
        assert(parts@ =~= wide_parts(magnitude as nat));
        Integer { sign, parts }
    }
}

impl From<u8> for Integer {
    fn from(value: u8) -> (r: Integer)
        ensures
            r.sign == sign_of(value as int),
            r.parts@ == seq![value as u64],
    {
        Integer::narrow(false, value as u64)
    }
}

/// The result is stated by the contract of the function itself: a value
/// that holds a vector cannot be written down in a spec function.
impl FromSpecImpl<u8> for Integer {
    open spec fn obeys_from_spec() -> bool {
        false
    }

    open spec fn from_spec(value: u8) -> Integer {
        arbitrary()
    }
}

impl From<u16> for Integer {
    fn from(value: u16) -> (r: Integer)
        ensures
            r.sign == sign_of(value as int),
            r.parts@ == seq![value as u64],
    {
        Integer::narrow(false, value as u64)
    }
}

/// The result is stated by the contract of the function itself: a value
/// that holds a vector cannot be written down in a spec function.
impl FromSpecImpl<u16> for Integer {
    open spec fn obeys_from_spec() -> bool {
        false
    }

    open spec fn from_spec(value: u16) -> Integer {
        arbitrary()
    }
}

impl From<u32> for Integer {
    fn from(value: u32) -> (r: Integer)
        ensures
            r.sign == sign_of(value as int),
            r.parts@ == seq![value as u64],
    {
        Integer::narrow(false, value as u64)
    }
}

/// The result is stated by the contract of the function itself: a value
/// that holds a vector cannot be written down in a spec function.
impl FromSpecImpl<u32> for Integer {
    open spec fn obeys_from_spec() -> bool {
        false
    }

    open spec fn from_spec(value: u32) -> Integer {
        arbitrary()
    }
}

impl From<u64> for Integer {
    fn from(value: u64) -> (r: Integer)
        ensures
            r.sign == sign_of(value as int),
            r.parts@ == seq![value as u64],
    {
        Integer::narrow(false, value as u64)
    }
}

/// The result is stated by the contract of the function itself: a value
/// that holds a vector cannot be written down in a spec function.
impl FromSpecImpl<u64> for Integer {
    open spec fn obeys_from_spec() -> bool {
        false
    }

    open spec fn from_spec(value: u64) -> Integer {
        arbitrary()
    }
}

impl From<usize> for Integer {
    fn from(value: usize) -> (r: Integer)
        ensures
            r.sign == sign_of(value as int),
            r.parts@ == seq![value as u64],
    {
        Integer::narrow(false, value as u64)
    }
}

/// The result is stated by the contract of the function itself: a value
/// that holds a vector cannot be written down in a spec function.
impl FromSpecImpl<usize> for Integer {
    open spec fn obeys_from_spec() -> bool {
        false
    }

    open spec fn from_spec(value: usize) -> Integer {
        arbitrary()
    }
}

impl From<u128> for Integer {
    fn from(value: u128) -> (r: Integer)
        ensures
            r.sign == sign_of(value as int),
            r.parts@ == wide_parts(value as nat),
    {
        Integer::wide(false, value)
    }
}

/// The result is stated by the contract of the function itself: a value
/// that holds a vector cannot be written down in a spec function.
impl FromSpecImpl<u128> for Integer {
    open spec fn obeys_from_spec() -> bool {
        false
    }

    open spec fn from_spec(value: u128) -> Integer {
        arbitrary()
    }
}

impl From<i8> for Integer {
    fn from(value: i8) -> (r: Integer)
        ensures
            r.sign == sign_of(value as int),
            r.parts@ == seq![magnitude_of(value as int) as u64],
    {
        Integer::narrow(value < 0, narrow_magnitude(value as i128))
    }
}

/// The result is stated by the contract of the function itself: a value
/// that holds a vector cannot be written down in a spec function.
impl FromSpecImpl<i8> for Integer {
    open spec fn obeys_from_spec() -> bool {
        false
    }

    open spec fn from_spec(value: i8) -> Integer {
        arbitrary()
    }
}

impl From<i16> for Integer {
    fn from(value: i16) -> (r: Integer)
        ensures
            r.sign == sign_of(value as int),
            r.parts@ == seq![magnitude_of(value as int) as u64],
    {
        Integer::narrow(value < 0, narrow_magnitude(value as i128))
    }
}

/// The result is stated by the contract of the function itself: a value
/// that holds a vector cannot be written down in a spec function.
impl FromSpecImpl<i16> for Integer {
    open spec fn obeys_from_spec() -> bool {
        false
    }

    open spec fn from_spec(value: i16) -> Integer {
        arbitrary()
    }
}

impl From<i32> for Integer {
    fn from(value: i32) -> (r: Integer)
        ensures
            r.sign == sign_of(value as int),
            r.parts@ == seq![magnitude_of(value as int) as u64],
    {
        Integer::narrow(value < 0, narrow_magnitude(value as i128))
    }
}

/// The result is stated by the contract of the function itself: a value
/// that holds a vector cannot be written down in a spec function.
impl FromSpecImpl<i32> for Integer {
    open spec fn obeys_from_spec() -> bool {
        false
    }

    open spec fn from_spec(value: i32) -> Integer {
        arbitrary()
    }
}

impl From<i64> for Integer {
    fn from(value: i64) -> (r: Integer)
        ensures
            r.sign == sign_of(value as int),
            r.parts@ == seq![magnitude_of(value as int) as u64],
    {
        Integer::narrow(value < 0, narrow_magnitude(value as i128))
    }
}

/// The result is stated by the contract of the function itself: a value
/// that holds a vector cannot be written down in a spec function.
impl FromSpecImpl<i64> for Integer {
    open spec fn obeys_from_spec() -> bool {
        false
    }

    open spec fn from_spec(value: i64) -> Integer {
        arbitrary()
    }
}

impl From<isize> for Integer {
    fn from(value: isize) -> (r: Integer)
        ensures
            r.sign == sign_of(value as int),
            r.parts@ == seq![magnitude_of(value as int) as u64],
    {
        Integer::narrow(value < 0, narrow_magnitude(value as i128))
    }
}

/// The result is stated by the contract of the function itself: a value
/// that holds a vector cannot be written down in a spec function.
impl FromSpecImpl<isize> for Integer {
    open spec fn obeys_from_spec() -> bool {
        false
    }

    open spec fn from_spec(value: isize) -> Integer {
        arbitrary()
    }
}

impl From<i128> for Integer {
    fn from(value: i128) -> (r: Integer)
        ensures
            r.sign == sign_of(value as int),
            r.parts@ == wide_parts(magnitude_of(value as int)),
    {
        Integer::wide(value < 0, wide_magnitude(value))
    }
}

/// The result is stated by the contract of the function itself: a value
/// that holds a vector cannot be written down in a spec function.
impl FromSpecImpl<i128> for Integer {
    open spec fn obeys_from_spec() -> bool {
        false
    }

    open spec fn from_spec(value: i128) -> Integer {
        arbitrary()
    }
}

} // verus!
