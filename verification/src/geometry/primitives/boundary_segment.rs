use vstd::prelude::*;

use crate::geometry::geo_enums::GeoPosition;
use crate::geometry::primitives::arc::Arc;
use crate::geometry::primitives::circle::Circle;
use crate::geometry::primitives::edge::Edge;
use crate::geometry::primitives::point::Point;
use crate::geometry::primitives::rect::Rect;
use crate::geometry::transformation::Transformation;
use crate::math::{evaluates, Elementary};
use crate::num::Num;

verus! {

/// Boundary segment of a closed shape: either a straight line or a circular arc.
#[derive(Clone, Copy, Debug, PartialEq, Eq, Structural)]
pub enum BoundarySegment {
    Line(Edge),
    Arc(Arc),
}

impl BoundarySegment {
    pub open spec fn spec_start(&self) -> Point {
        match self {
            BoundarySegment::Line(edge) => edge.start,
            BoundarySegment::Arc(arc) => arc.start,
        }
    }

    #[verifier::when_used_as_spec(spec_start)]
    pub fn start(&self) -> (r: Point)
        ensures
            r == self.spec_start(),
    {
        match self {
            BoundarySegment::Line(edge) => edge.start,
            BoundarySegment::Arc(arc) => arc.start,
        }
    }

    pub open spec fn spec_end(&self) -> Point {
        match self {
            BoundarySegment::Line(edge) => edge.end,
            BoundarySegment::Arc(arc) => arc.end,
        }
    }

    #[verifier::when_used_as_spec(spec_end)]
    pub fn end(&self) -> (r: Point)
        ensures
            r == self.spec_end(),
    {
        match self {
            BoundarySegment::Line(edge) => edge.end,
            BoundarySegment::Arc(arc) => arc.end,
        }
    }

    pub open spec fn spec_bbox(&self) -> Rect {
        match self {
            BoundarySegment::Line(edge) => edge.bbox(),
            BoundarySegment::Arc(arc) => arc.bbox,
        }
    }

    #[verifier::when_used_as_spec(spec_bbox)]
    pub fn bbox(&self) -> (r: Rect)
        ensures
            r == self.spec_bbox(),
    {
        match self {
            BoundarySegment::Line(edge) => edge.bbox(),
            BoundarySegment::Arc(arc) => arc.bbox,
        }
    }

    /// The points in which the segment meets an edge.
    pub open spec fn meeting_points<M: Fn(Elementary) -> Num>(
        &self,
        edge: Edge,
        math: &M,
    ) -> Seq<Point> {
        match self {
            BoundarySegment::Line(line) => match line.collides_at(edge) {
                Some(point) => seq![point],
                None => Seq::empty(),
            },
            BoundarySegment::Arc(arc) => arc.meeting_points(edge, math),
        }
    }

    pub fn collides_at<M: Fn(Elementary) -> Num>(&self, edge: Edge, math: &M) -> (r: Vec<Point>)
        requires
            evaluates(math),
        ensures
            r@ == self.meeting_points(edge, math),
    {
        match self {
            BoundarySegment::Line(line) => {
                let mut points: Vec<Point> = Vec::new();
                if let Some(point) = line.collides_at(edge) {
                    points.push(point);
                }
                points
            },
            BoundarySegment::Arc(arc) => arc.collides_at(edge, math),
        }
    }

    pub open spec fn spec_transformed<M: Fn(Elementary) -> Num>(
        self,
        t: Transformation,
        math: &M,
    ) -> BoundarySegment {
        match self {
            BoundarySegment::Line(edge) => BoundarySegment::Line(edge.transformed(t)),
            BoundarySegment::Arc(arc) => BoundarySegment::Arc(arc.transformed(t, math)),
        }
    }

    /// The image of the segment.
    #[verifier::when_used_as_spec(spec_transformed)]
    pub fn transformed<M: Fn(Elementary) -> Num>(self, t: Transformation, math: &M) -> (r:
        BoundarySegment)
        requires
            evaluates(math),
        ensures
            r == self.spec_transformed(t, math),
    {
        match self {
            BoundarySegment::Line(edge) => BoundarySegment::Line(edge.transformed(t)),
            BoundarySegment::Arc(arc) => BoundarySegment::Arc(arc.transformed(t, math)),
        }
    }

    /// Moves the segment.
    pub fn transform<M: Fn(Elementary) -> Num>(&mut self, t: Transformation, math: &M)
        requires
            evaluates(math),
        ensures
            *final(self) == old(self).transformed(t, math),
    {
        *self = self.transformed(t, math);
    }

    /// Makes the segment the image of another, of whichever kind either is.
    pub fn transform_from<M: Fn(Elementary) -> Num>(
        &mut self,
        reference: &BoundarySegment,
        t: Transformation,
        math: &M,
    )
        requires
            evaluates(math),
        ensures
            *final(self) == reference.transformed(t, math),
    {
        *self = reference.transformed(t, math);
    }

    pub open spec fn spec_sq_distance_to<M: Fn(Elementary) -> Num>(
        &self,
        point: Point,
        math: &M,
    ) -> Num {
        match self {
            BoundarySegment::Line(edge) => edge.sq_distance_to(point),
            BoundarySegment::Arc(arc) => arc.sq_distance_to(point, math),
        }
    }

    #[verifier::when_used_as_spec(spec_sq_distance_to)]
    pub fn sq_distance_to<M: Fn(Elementary) -> Num>(&self, point: Point, math: &M) -> (r: Num)
        requires
            evaluates(math),
        ensures
            r == self.spec_sq_distance_to(point, math),
    {
        match self {
            BoundarySegment::Line(edge) => edge.sq_distance_to(point),
            BoundarySegment::Arc(arc) => arc.sq_distance_to(point, math),
        }
    }

    pub open spec fn spec_distance_to<M: Fn(Elementary) -> Num>(
        &self,
        point: Point,
        math: &M,
    ) -> Num {
        self.sq_distance_to(point, math).sqrt()
    }

    #[verifier::when_used_as_spec(spec_distance_to)]
    pub fn distance_to<M: Fn(Elementary) -> Num>(&self, point: Point, math: &M) -> (r: Num)
        requires
            evaluates(math),
        ensures
            r == self.spec_distance_to(point, math),
    {
        self.sq_distance_to(point, math).sqrt()
    }

    /// A line collides with the points at distance 0 only, an arc with those within tolerance.
    pub open spec fn spec_collides_with_point<M: Fn(Elementary) -> Num>(
        &self,
        point: Point,
        math: &M,
    ) -> bool {
        match self {
            BoundarySegment::Line(edge) => edge.sq_distance_to(point).num_eq(Num::zero()),
            BoundarySegment::Arc(arc) => arc.collides_with_point(point, math),
        }
    }

    #[verifier::when_used_as_spec(spec_collides_with_point)]
    pub fn collides_with_point<M: Fn(Elementary) -> Num>(&self, point: Point, math: &M) -> (r: bool)
        requires
            evaluates(math),
        ensures
            r == self.spec_collides_with_point(point, math),
    {
        match self {
            BoundarySegment::Line(edge) => edge.sq_distance_to(point).num_eq(Num::zero()),
            BoundarySegment::Arc(arc) => arc.collides_with_point(point, math),
        }
    }

    pub open spec fn spec_collides_with_edge<M: Fn(Elementary) -> Num>(
        &self,
        edge: Edge,
        math: &M,
    ) -> bool {
        match self {
            BoundarySegment::Line(line) => line.collides_with_edge(edge),
            BoundarySegment::Arc(arc) => arc.collides_with_edge(edge, math),
        }
    }

    #[verifier::when_used_as_spec(spec_collides_with_edge)]
    pub fn collides_with_edge<M: Fn(Elementary) -> Num>(&self, edge: Edge, math: &M) -> (r: bool)
        requires
            evaluates(math),
        ensures
            r == self.spec_collides_with_edge(edge, math),
    {
        match self {
            BoundarySegment::Line(line) => line.collides_with_edge(edge),
            BoundarySegment::Arc(arc) => arc.collides_with_edge(edge, math),
        }
    }

    pub open spec fn spec_collides_with_arc<M: Fn(Elementary) -> Num>(
        &self,
        arc: &Arc,
        math: &M,
    ) -> bool {
        match self {
            BoundarySegment::Line(edge) => arc.collides_with_edge(*edge, math),
            BoundarySegment::Arc(self_arc) => self_arc.collides_with_arc(arc, math),
        }
    }

    #[verifier::when_used_as_spec(spec_collides_with_arc)]
    pub fn collides_with_arc<M: Fn(Elementary) -> Num>(&self, arc: &Arc, math: &M) -> (r: bool)
        requires
            evaluates(math),
        ensures
            r == self.spec_collides_with_arc(arc, math),
    {
        match self {
            BoundarySegment::Line(edge) => arc.collides_with_edge(*edge, math),
            BoundarySegment::Arc(self_arc) => self_arc.collides_with_arc(arc, math),
        }
    }

    pub open spec fn spec_collides_with_rect<M: Fn(Elementary) -> Num>(
        &self,
        rect: Rect,
        math: &M,
    ) -> bool {
        match self {
            BoundarySegment::Line(edge) => rect.collides_with_edge(*edge),
            BoundarySegment::Arc(arc) => arc.collides_with_rect(rect, math),
        }
    }

    #[verifier::when_used_as_spec(spec_collides_with_rect)]
    pub fn collides_with_rect<M: Fn(Elementary) -> Num>(&self, rect: Rect, math: &M) -> (r: bool)
        requires
            evaluates(math),
        ensures
            r == self.spec_collides_with_rect(rect, math),
    {
        match self {
            BoundarySegment::Line(edge) => rect.collides_with_edge(*edge),
            BoundarySegment::Arc(arc) => arc.collides_with_rect(rect, math),
        }
    }

    pub open spec fn spec_collides_with_circle<M: Fn(Elementary) -> Num>(
        &self,
        circle: Circle,
        math: &M,
    ) -> bool {
        match self {
            BoundarySegment::Line(edge) => circle.collides_with_edge(*edge),
            BoundarySegment::Arc(arc) => arc.collides_with_circle(circle, math),
        }
    }

    #[verifier::when_used_as_spec(spec_collides_with_circle)]
    pub fn collides_with_circle<M: Fn(Elementary) -> Num>(&self, circle: Circle, math: &M) -> (r:
        bool)
        requires
            evaluates(math),
        ensures
            r == self.spec_collides_with_circle(circle, math),
    {
        match self {
            BoundarySegment::Line(edge) => circle.collides_with_edge(*edge),
            BoundarySegment::Arc(arc) => arc.collides_with_circle(circle, math),
        }
    }

    pub open spec fn spec_collides_with_segment<M: Fn(Elementary) -> Num>(
        &self,
        other: &BoundarySegment,
        math: &M,
    ) -> bool {
        match other {
            BoundarySegment::Line(edge) => self.collides_with_edge(*edge, math),
            BoundarySegment::Arc(arc) => self.collides_with_arc(arc, math),
        }
    }

    #[verifier::when_used_as_spec(spec_collides_with_segment)]
    pub fn collides_with_segment<M: Fn(Elementary) -> Num>(
        &self,
        other: &BoundarySegment,
        math: &M,
    ) -> (r: bool)
        requires
            evaluates(math),
        ensures
            r == self.spec_collides_with_segment(other, math),
    {
        match other {
            BoundarySegment::Line(edge) => self.collides_with_edge(*edge, math),
            BoundarySegment::Arc(arc) => self.collides_with_arc(arc, math),
        }
    }

    /// The squared distance to the segment; a point that the segment collides with is interior.
    pub fn sq_separation_distance<M: Fn(Elementary) -> Num>(&self, point: Point, math: &M) -> (r: (
        GeoPosition,
        Num,
    ))
        requires
            evaluates(math),
        ensures
            r.0 == if self.collides_with_point(point, math) {
                GeoPosition::Interior
            } else {
                GeoPosition::Exterior
            },
            r.1 == self.sq_distance_to(point, math),
    {
        match self {
            BoundarySegment::Line(edge) => {
                let sq_distance: Num = edge.sq_distance_to(point);
                if sq_distance.num_eq(Num::zero()) {
                    (GeoPosition::Interior, sq_distance)
                } else {
                    (GeoPosition::Exterior, sq_distance)
                }
            },
            BoundarySegment::Arc(arc) => arc.sq_separation_distance(point, math),
        }
    }

    pub fn separation_distance<M: Fn(Elementary) -> Num>(&self, point: Point, math: &M) -> (r: (
        GeoPosition,
        Num,
    ))
        requires
            evaluates(math),
        ensures
            r.0 == if self.collides_with_point(point, math) {
                GeoPosition::Interior
            } else {
                GeoPosition::Exterior
            },
            r.1 == self.distance_to(point, math),
    {
        let (position, sq_distance): (GeoPosition, Num) = self.sq_separation_distance(point, math);
        (position, sq_distance.sqrt())
    }
}

impl From<Edge> for BoundarySegment {
    fn from(edge: Edge) -> (r: BoundarySegment) {
        BoundarySegment::Line(edge)
    }
}

impl vstd::std_specs::convert::FromSpecImpl<Edge> for BoundarySegment {
    open spec fn obeys_from_spec() -> bool {
        true
    }

    open spec fn from_spec(edge: Edge) -> BoundarySegment {
        BoundarySegment::Line(edge)
    }
}

impl From<Arc> for BoundarySegment {
    fn from(arc: Arc) -> (r: BoundarySegment) {
        BoundarySegment::Arc(arc)
    }
}

impl vstd::std_specs::convert::FromSpecImpl<Arc> for BoundarySegment {
    open spec fn obeys_from_spec() -> bool {
        true
    }

    open spec fn from_spec(arc: Arc) -> BoundarySegment {
        BoundarySegment::Arc(arc)
    }
}

} // verus!
