use vstd::prelude::*;

use crate::error::GeometryError;
use crate::geometry::primitives::point::Point;
use crate::geometry::primitives::rect::Rect;
use crate::num::Num;

verus! {

/// A straight line from one point to another.
#[derive(Clone, Copy, Debug, PartialEq, Eq, Structural)]
pub struct Edge {
    pub start: Point,
    pub end: Point,
}

impl Edge {
    pub open spec fn spec_try_new(start: Point, end: Point) -> Result<Edge, GeometryError> {
        if start.same_as(end) {
            Err(GeometryError::DegenerateEdge)
        } else {
            Ok(Edge { start, end })
        }
    }

    #[verifier::when_used_as_spec(spec_try_new)]
    pub fn try_new(start: Point, end: Point) -> (r: Result<Edge, GeometryError>)
        ensures
            r == Edge::spec_try_new(start, end),
    {
        if start.same_as(end) {
            Err(GeometryError::DegenerateEdge)
        } else {
            Ok(Edge { start, end })
        }
    }

    pub open spec fn spec_length(self) -> Num {
        self.start.distance_to(self.end)
    }

    #[verifier::when_used_as_spec(spec_length)]
    pub fn length(self) -> (r: Num)
        ensures
            r == self.spec_length(),
    {
        self.start.distance_to(self.end)
    }

    /// The point half way between the end points.
    pub open spec fn spec_centroid(self) -> Point {
        Point(
            self.start.0.add(self.end.0).div(Num::two()),
            self.start.1.add(self.end.1).div(Num::two()),
        )
    }

    #[verifier::when_used_as_spec(spec_centroid)]
    pub fn centroid(self) -> (r: Point)
        ensures
            r == self.spec_centroid(),
    {
        Point(
            self.start.0.add(self.end.0).div(Num::two()),
            self.start.1.add(self.end.1).div(Num::two()),
        )
    }

    pub open spec fn scaled_point(p: Point, center: Point, factor: Num) -> Point {
        Point(
            p.0.sub(center.0).mul(factor).add(center.0),
            p.1.sub(center.1).mul(factor).add(center.1),
        )
    }

    /// The edge scaled about its centroid.
    pub open spec fn spec_scale(self, factor: Num) -> Edge {
        let c = self.centroid();
        Edge {
            start: Edge::scaled_point(self.start, c, factor),
            end: Edge::scaled_point(self.end, c, factor),
        }
    }

    #[verifier::when_used_as_spec(spec_scale)]
    pub fn scale(self, factor: Num) -> (r: Edge)
        ensures
            r == self.spec_scale(factor),
    {
        let c: Point = self.centroid();
        Edge {
            start: Point(
                self.start.0.sub(c.0).mul(factor).add(c.0),
                self.start.1.sub(c.1).mul(factor).add(c.1),
            ),
            end: Point(
                self.end.0.sub(c.0).mul(factor).add(c.0),
                self.end.1.sub(c.1).mul(factor).add(c.1),
            ),
        }
    }

    pub open spec fn spec_bbox(self) -> Rect {
        Rect {
            x_min: self.start.0.min(self.end.0),
            y_min: self.start.1.min(self.end.1),
            x_max: self.start.0.max(self.end.0),
            y_max: self.start.1.max(self.end.1),
        }
    }

    #[verifier::when_used_as_spec(spec_bbox)]
    pub fn bbox(self) -> (r: Rect)
        ensures
            r == self.spec_bbox(),
    {
        Rect {
            x_min: self.start.0.min(self.end.0),
            y_min: self.start.1.min(self.end.1),
            x_max: self.start.0.max(self.end.0),
            y_max: self.start.1.max(self.end.1),
        }
    }

    /// The point of the edge that is nearest to `point`.
    pub open spec fn spec_closest_point(self, point: Point) -> Point {
        let c = self.end.0.sub(self.start.0);
        let d = self.end.1.sub(self.start.1);
        let dot = point.0.sub(self.start.0).mul(c).add(point.1.sub(self.start.1).mul(d));
        let len_sq = c.mul(c).add(d.mul(d));
        let t = if len_sq.num_eq(Num::zero()) {
            Num::one().neg()
        } else {
            dot.div(len_sq)
        };
        if t.lt(Num::zero()) {
            self.start
        } else if t.gt(Num::one()) {
            self.end
        } else {
            Point(self.start.0.add(t.mul(c)), self.start.1.add(t.mul(d)))
        }
    }

    #[verifier::when_used_as_spec(spec_closest_point)]
    pub fn closest_point(self, point: Point) -> (r: Point)
        ensures
            r == self.spec_closest_point(point),
    {
        let c: Num = self.end.0.sub(self.start.0);
        let d: Num = self.end.1.sub(self.start.1);
        let dot: Num = point.0.sub(self.start.0).mul(c).add(point.1.sub(self.start.1).mul(d));
        let len_sq: Num = c.mul(c).add(d.mul(d));
        let t: Num = if len_sq.num_eq(Num::zero()) {
            Num::one().neg()
        } else {
            dot.div(len_sq)
        };
        if t.lt(Num::zero()) {
            self.start
        } else if t.gt(Num::one()) {
            self.end
        } else {
            Point(self.start.0.add(t.mul(c)), self.start.1.add(t.mul(d)))
        }
    }

    pub open spec fn spec_sq_distance_to(self, point: Point) -> Num {
        point.sq_distance_to(self.closest_point(point))
    }

    #[verifier::when_used_as_spec(spec_sq_distance_to)]
    pub fn sq_distance_to(self, point: Point) -> (r: Num)
        ensures
            r == self.spec_sq_distance_to(point),
    {
        point.sq_distance_to(self.closest_point(point))
    }

    /// Numerators of the two line parameters of the crossing with `other`, and their denominator.
    ///
    /// A parameter counts from the end of its edge towards the start.
    pub open spec fn crossing_terms(self, other: Edge) -> (Num, Num, Num) {
        let Point(x1, y1) = self.start;
        let Point(x2, y2) = self.end;
        let Point(x3, y3) = other.start;
        let Point(x4, y4) = other.end;
        (
            x2.sub(x4).mul(y4.sub(y3)).sub(y2.sub(y4).mul(x4.sub(x3))),
            x2.sub(x4).mul(y2.sub(y1)).sub(y2.sub(y4).mul(x2.sub(x1))),
            x2.sub(x1).mul(y4.sub(y3)).sub(y2.sub(y1).mul(x4.sub(x3))),
        )
    }

    pub(crate) fn compute_crossing_terms(self, other: Edge) -> (r: (Num, Num, Num))
        ensures
            r == self.crossing_terms(other),
    {
        let Point(x1, y1) = self.start;
        let Point(x2, y2) = self.end;
        let Point(x3, y3) = other.start;
        let Point(x4, y4) = other.end;
        (
            x2.sub(x4).mul(y4.sub(y3)).sub(y2.sub(y4).mul(x4.sub(x3))),
            x2.sub(x4).mul(y2.sub(y1)).sub(y2.sub(y4).mul(x2.sub(x1))),
            x2.sub(x1).mul(y4.sub(y3)).sub(y2.sub(y1).mul(x4.sub(x3))),
        )
    }

    /// The point on the line through the edge at a parameter that counts from the end.
    pub open spec fn spec_point_from_end(self, t: Num) -> Point {
        Point(
            self.end.0.add(t.mul(self.start.0.sub(self.end.0))),
            self.end.1.add(t.mul(self.start.1.sub(self.end.1))),
        )
    }

    #[verifier::when_used_as_spec(spec_point_from_end)]
    pub fn point_from_end(self, t: Num) -> (r: Point)
        ensures
            r == self.spec_point_from_end(t),
    {
        Point(
            self.end.0.add(t.mul(self.start.0.sub(self.end.0))),
            self.end.1.add(t.mul(self.start.1.sub(self.end.1))),
        )
    }

    /// The point at which two edges cross; none if they are parallel or do not meet.
    pub open spec fn spec_collides_at(self, other: Edge) -> Option<Point> {
        let (t_nom, u_nom, denom) = self.crossing_terms(other);
        let t = t_nom.div(denom);
        let u = u_nom.div(denom);
        if !self.bbox().collides_with_rect(other.bbox()) || denom.num_eq(Num::zero()) {
            None
        } else if t.ge(Num::zero()) && t.le(Num::one()) && u.ge(Num::zero()) && u.le(Num::one()) {
            Some(self.point_from_end(t))
        } else {
            None
        }
    }

    #[verifier::when_used_as_spec(spec_collides_at)]
    pub fn collides_at(self, other: Edge) -> (r: Option<Point>)
        ensures
            r == self.spec_collides_at(other),
    {
        if !self.bbox().collides_with_rect(other.bbox()) {
            return None;
        }
        let (t_nom, u_nom, denom): (Num, Num, Num) = self.compute_crossing_terms(other);
        if denom.num_eq(Num::zero()) {
            return None;
        }
        let t: Num = t_nom.div(denom);
        let u: Num = u_nom.div(denom);
        if t.ge(Num::zero()) && t.le(Num::one()) && u.ge(Num::zero()) && u.le(Num::one()) {
            Some(self.point_from_end(t))
        } else {
            None
        }
    }

    pub open spec fn spec_collides_with_edge(self, other: Edge) -> bool {
        self.collides_at(other) is Some
    }

    #[verifier::when_used_as_spec(spec_collides_with_edge)]
    pub fn collides_with_edge(self, other: Edge) -> (r: bool)
        ensures
            r == self.spec_collides_with_edge(other),
    {
        self.collides_at(other).is_some()
    }
}

} // verus!
