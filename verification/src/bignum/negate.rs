//! Negation of [`Bignum`]s.
use crate::bignum::{Bignum, value_at};
use vstd::prelude::*;

verus! {

impl Bignum {
    /// Flips the sign of the number, keeping its digits.
    pub fn neg(self) -> (r: Bignum)
        ensures
            r.is_neg == !self.is_neg,
            r.int@ == self.int@,
            r.dec@ == self.dec@,
            forall|k: nat| #[trigger] value_at(r, k) == -value_at(self, k),
    {
        Bignum { is_neg: !self.is_neg, dec: self.dec, int: self.int }
    }
}

} // verus!
