//! Collisions asked about from the side of lines, rectangles and circles.
use vstd::prelude::*;

use crate::geometry::primitives::arc::Arc;
use crate::geometry::primitives::boundary_segment::BoundarySegment;
use crate::geometry::primitives::circle::Circle;
use crate::geometry::primitives::edge::Edge;
use crate::geometry::primitives::rect::Rect;
use crate::math::{evaluates, Elementary};
use crate::num::Num;

verus! {

impl Edge {
    pub fn collides_with_arc<M: Fn(Elementary) -> Num>(self, arc: &Arc, math: &M) -> (r: bool)
        requires
            evaluates(math),
        ensures
            r == arc.collides_with_edge(self, math),
    {
        arc.collides_with_edge(self, math)
    }

    pub fn collides_with_segment<M: Fn(Elementary) -> Num>(
        self,
        segment: &BoundarySegment,
        math: &M,
    ) -> (r: bool)
        requires
            evaluates(math),
        ensures
            r == segment.collides_with_edge(self, math),
    {
        segment.collides_with_edge(self, math)
    }
}

impl Arc {
    pub fn collides_with_segment<M: Fn(Elementary) -> Num>(
        &self,
        segment: &BoundarySegment,
        math: &M,
    ) -> (r: bool)
        requires
            evaluates(math),
        ensures
            r == match *segment {
                BoundarySegment::Line(edge) => self.collides_with_edge(edge, math),
                BoundarySegment::Arc(arc) => self.collides_with_arc(&arc, math),
            },
    {
        match segment {
            BoundarySegment::Line(edge) => self.collides_with_edge(*edge, math),
            BoundarySegment::Arc(arc) => self.collides_with_arc(arc, math),
        }
    }
}

impl Rect {
    pub fn collides_with_arc<M: Fn(Elementary) -> Num>(self, arc: &Arc, math: &M) -> (r: bool)
        requires
            evaluates(math),
        ensures
            r == arc.collides_with_rect(self, math),
    {
        arc.collides_with_rect(self, math)
    }

    pub fn collides_with_segment<M: Fn(Elementary) -> Num>(
        self,
        segment: &BoundarySegment,
        math: &M,
    ) -> (r: bool)
        requires
            evaluates(math),
        ensures
            r == segment.collides_with_rect(self, math),
    {
        segment.collides_with_rect(self, math)
    }
}

impl Circle {
    pub fn collides_with_arc<M: Fn(Elementary) -> Num>(self, arc: &Arc, math: &M) -> (r: bool)
        requires
            evaluates(math),
        ensures
            r == arc.collides_with_circle(self, math),
    {
        arc.collides_with_circle(self, math)
    }

    pub fn collides_with_segment<M: Fn(Elementary) -> Num>(
        self,
        segment: &BoundarySegment,
        math: &M,
    ) -> (r: bool)
        requires
            evaluates(math),
        ensures
            r == segment.collides_with_circle(self, math),
    {
        segment.collides_with_circle(self, math)
    }
}

} // verus!
