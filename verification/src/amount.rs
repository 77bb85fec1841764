//! The non-negative amount carried by a TZE output.
//!
//! The wire format stores an amount as a signed 64-bit little-endian field,
//! but a well-formed amount is never negative; the type keeps that invariant
//! from construction on, so a `TzeOut` can only hold a valid amount.

use vstd::prelude::*;

verus! {

/// A non-negative number of zatoshis.
#[derive(Clone, Copy, Debug, PartialEq, Eq, PartialOrd, Ord, Hash)]
pub struct Amount {
    zatoshis: i64,
}

impl View for Amount {
    type V = int;

    closed spec fn view(&self) -> int {
        self.zatoshis as int
    }
}

impl Amount {
    /// The amount's invariant: it is never negative (and, being an `i64`,
    /// always below 2^63).
    #[verifier::type_invariant]
    closed spec fn non_negative(self) -> bool {
        self.zatoshis >= 0
    }

    /// Builds an amount from a signed 64-bit integer; fails exactly on
    /// negative input.
    pub fn from_i64(zatoshis: i64) -> (r: Option<Amount>)
        ensures
            zatoshis >= 0 ==> (r matches Some(a) && a@ == zatoshis as int),
            zatoshis < 0 ==> r is None,
    {
        if zatoshis >= 0 {
            Some(Amount { zatoshis })
        } else {
            None
        }
    }

    /// The amount as a signed integer; always non-negative.
    pub fn zatoshis(&self) -> (r: i64)
        ensures
            r == self@,
            0 <= r,
    {
        proof {
            use_type_invariant(self);
        }
        self.zatoshis
    }
}

} // verus!
