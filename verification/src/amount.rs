//! Amounts of value, counted in the smallest denomination.

use vstd::prelude::*;

verus! {

/// An amount of value in the smallest denomination.
#[derive(Clone, Copy, Debug, PartialEq, Eq, Structural)]
pub struct Nano {
    pub value: u64,
}

impl Nano {
    /// The amount that holds nothing.
    pub fn zero() -> (r: Nano)
        ensures
            r.value == 0,
    {
        Nano { value: 0 }
    }

    /// The amount of `value` units.
    pub fn from(value: u64) -> (r: Nano)
        ensures
            r.value == value,
    {
        Nano { value }
    }

    /// The number of units in this amount.
    pub fn as_nano(self) -> (r: u64)
        ensures
            r == self.value,
    {
        self.value
    }

    /// The sum of two amounts, or `None` where it cannot be counted in 64 bits.
    pub fn checked_add(self, rhs: Nano) -> (r: Option<Nano>)
        ensures
            r == (if self.value + rhs.value <= u64::MAX {
                Some(Nano { value: (self.value + rhs.value) as u64 })
            } else {
                None
            }),
    {
        if rhs.value <= u64::MAX - self.value {
            Some(Nano { value: self.value + rhs.value })
        } else {
            None
        }
    }
}

} // verus!
