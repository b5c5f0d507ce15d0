use vstd::prelude::*;

use crate::error::GeometryError;
use crate::geometry::primitives::edge::Edge;
use crate::geometry::primitives::point::Point;
use crate::num::Num;

verus! {

/// A disc, by its center and radius.
#[derive(Clone, Copy, Debug, PartialEq, Eq, Structural)]
pub struct Circle {
    pub center: Point,
    pub radius: Num,
}

impl Circle {
    pub open spec fn spec_try_new(center: Point, radius: Num) -> Result<Circle, GeometryError> {
        if !radius.is_finite() || radius.lt(Num::zero()) {
            Err(GeometryError::InvalidCircleRadius)
        } else if !center.is_finite() {
            Err(GeometryError::InvalidCircleCenter)
        } else {
            Ok(Circle { center, radius })
        }
    }

    #[verifier::when_used_as_spec(spec_try_new)]
    pub fn try_new(center: Point, radius: Num) -> (r: Result<Circle, GeometryError>)
        ensures
            r == Circle::spec_try_new(center, radius),
    {
        if !radius.is_finite() || radius.lt(Num::zero()) {
            return Err(GeometryError::InvalidCircleRadius);
        }
        if !center.is_finite() {
            return Err(GeometryError::InvalidCircleCenter);
        }
        Ok(Circle { center, radius })
    }

    pub open spec fn spec_collides_with_edge(self, edge: Edge) -> bool {
        edge.sq_distance_to(self.center).le(self.radius.mul(self.radius))
    }

    #[verifier::when_used_as_spec(spec_collides_with_edge)]
    pub fn collides_with_edge(self, edge: Edge) -> (r: bool)
        ensures
            r == self.spec_collides_with_edge(edge),
    {
        edge.sq_distance_to(self.center).le(self.radius.mul(self.radius))
    }
}

} // verus!
