use vstd::prelude::*;

use crate::num::Num;

verus! {

/// A point in the plane, by its abscissa and ordinate.
///
/// The derived equality compares bit patterns; `same_as` compares numbers.
#[derive(Clone, Copy, Debug, PartialEq, Eq, Hash, Structural)]
pub struct Point(pub Num, pub Num);

impl Point {
    pub open spec fn spec_same_as(self, other: Point) -> bool {
        self.0.num_eq(other.0) && self.1.num_eq(other.1)
    }

    /// Whether the coordinates of the two points are equal as numbers.
    #[verifier::when_used_as_spec(spec_same_as)]
    pub fn same_as(self, other: Point) -> (r: bool)
        ensures
            r == self.spec_same_as(other),
    {
        self.0.num_eq(other.0) && self.1.num_eq(other.1)
    }

    pub open spec fn spec_is_finite(self) -> bool {
        self.0.is_finite() && self.1.is_finite()
    }

    #[verifier::when_used_as_spec(spec_is_finite)]
    pub fn is_finite(self) -> (r: bool)
        ensures
            r == self.spec_is_finite(),
    {
        self.0.is_finite() && self.1.is_finite()
    }

    /// The sum of the squared differences of the coordinates.
    pub open spec fn spec_sq_distance_to(self, other: Point) -> Num {
        let dx = self.0.sub(other.0);
        let dy = self.1.sub(other.1);
        dx.mul(dx).add(dy.mul(dy))
    }

    #[verifier::when_used_as_spec(spec_sq_distance_to)]
    pub fn sq_distance_to(self, other: Point) -> (r: Num)
        ensures
            r == self.spec_sq_distance_to(other),
    {
        let dx: Num = self.0.sub(other.0);
        let dy: Num = self.1.sub(other.1);
        dx.mul(dx).add(dy.mul(dy))
    }

    pub open spec fn spec_distance_to(self, other: Point) -> Num {
        self.sq_distance_to(other).sqrt()
    }

    #[verifier::when_used_as_spec(spec_distance_to)]
    pub fn distance_to(self, other: Point) -> (r: Num)
        ensures
            r == self.spec_distance_to(other),
    {
        self.sq_distance_to(other).sqrt()
    }
}

} // verus!
