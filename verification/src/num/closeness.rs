//! Approximate comparison of numbers.
use vstd::prelude::*;

use crate::num::{Num, SIGN};

verus! {

impl Num {
    /// The place of the bit pattern in the order of the numbers; the two zeros are one place apart.
    pub open spec fn place(self) -> int {
        if self.is_negative() {
            -(self.magnitude() as int) - 1
        } else {
            self.magnitude() as int
        }
    }

    /// How many places apart two numbers are, as a 64-bit difference.
    pub open spec fn places_apart(self, other: Num) -> int {
        let d = self.place() - other.place();
        let wrapped = if d > i64::MAX {
            d - 0x1_0000_0000_0000_0000
        } else if d < i64::MIN {
            d + 0x1_0000_0000_0000_0000
        } else {
            d
        };
        if wrapped < 0 {
            -wrapped
        } else {
            wrapped
        }
    }

    /// Whether two numbers are equal, differ by at most `epsilon`, or are at most `ulps` places apart.
    pub open spec fn spec_approx_eq(self, other: Num, epsilon: Num, ulps: u32) -> bool {
        ||| self.num_eq(other)
        ||| self.sub(other).abs().le(epsilon)
        ||| self.places_apart(other) <= ulps
    }

    #[verifier::when_used_as_spec(spec_approx_eq)]
    pub fn approx_eq(self, other: Num, epsilon: Num, ulps: u32) -> (r: bool)
        ensures
            r == self.spec_approx_eq(other, epsilon, ulps),
    {
        if self.num_eq(other) || self.sub(other).abs().le(epsilon) {
            return true;
        }
        let a: i128 = self.place_index();
        let b: i128 = other.place_index();
        let d: i128 = a - b;
        let wrapped: i128 = if d > i64::MAX as i128 {
            d - 0x1_0000_0000_0000_0000
        } else if d < i64::MIN as i128 {
            d + 0x1_0000_0000_0000_0000
        } else {
            d
        };
        let apart: i128 = if wrapped < 0 {
            -wrapped
        } else {
            wrapped
        };
        apart <= ulps as i128
    }

    fn place_index(self) -> (r: i128)
        ensures
            r == self.place(),
            -0x8000_0000_0000_0000 <= r <= 0x7fff_ffff_ffff_ffff,
    {
        if self.bits >= SIGN {
            -((self.bits - SIGN) as i128) - 1
        } else {
            self.bits as i128
        }
    }

    /// Greater, and not merely by rounding.
    pub open spec fn spec_clearly_gt(self, other: Num) -> bool {
        !self.approx_eq(other, Num::epsilon(), 4) && self.gt(other)
    }

    #[verifier::when_used_as_spec(spec_clearly_gt)]
    pub fn clearly_gt(self, other: Num) -> (r: bool)
        ensures
            r == self.spec_clearly_gt(other),
    {
        !self.approx_eq(other, Num::epsilon(), 4) && self.gt(other)
    }
}

} // verus!
