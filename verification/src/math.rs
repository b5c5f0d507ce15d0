//! Elementary functions, supplied by the caller.
//!
//! Sine, cosine and their kin have no exact binary64 result, and platforms
//! differ in the last bits. The library leaves their evaluation to a function
//! that its callers pass in, and fixes only what it is asked and what is done
//! with its answers.
use vstd::prelude::*;

use crate::num::Num;

verus! {

/// The evaluation of an elementary function at given arguments.
#[derive(Clone, Copy, Debug, PartialEq, Eq)]
pub enum Elementary {
    Sin(Num),
    Cos(Num),
    Tan(Num),
    Acos(Num),
    Atan(Num),
    /// The angle of the vector with the given ordinate and abscissa, in this order.
    Atan2(Num, Num),
}

/// `math` answers every question, and the same question always alike.
#[verifier::opaque]
pub open spec fn evaluates<M: Fn(Elementary) -> Num>(math: &M) -> bool {
    &&& forall|e: Elementary| #[trigger] call_requires(*math, (e,))
    &&& forall|e: Elementary, a: Num, b: Num| #[trigger]
        call_ensures(*math, (e,), a) && #[trigger] call_ensures(*math, (e,), b) ==> a == b
}

/// What `math` answers.
#[verifier::opaque]
pub open spec fn spec_evaluate<M: Fn(Elementary) -> Num>(math: &M, e: Elementary) -> Num {
    choose|r: Num| call_ensures(*math, (e,), r)
}

#[verifier::when_used_as_spec(spec_evaluate)]
pub fn evaluate<M: Fn(Elementary) -> Num>(math: &M, e: Elementary) -> (r: Num)
    requires
        evaluates(math),
    ensures
        r == spec_evaluate(math, e),
{
    reveal(evaluates);
    reveal(spec_evaluate);
    math(e)
}

} // verus!
