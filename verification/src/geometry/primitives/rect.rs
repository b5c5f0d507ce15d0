use vstd::prelude::*;

use crate::error::GeometryError;
use crate::geometry::primitives::edge::Edge;
use crate::geometry::primitives::point::Point;
use crate::num::Num;

verus! {

/// A rectangle with sides parallel to the axes.
#[derive(Clone, Copy, Debug, PartialEq, Eq, Structural)]
pub struct Rect {
    pub x_min: Num,
    pub y_min: Num,
    pub x_max: Num,
    pub y_max: Num,
}

impl Rect {
    pub open spec fn spec_try_new(x_min: Num, y_min: Num, x_max: Num, y_max: Num) -> Result<
        Rect,
        GeometryError,
    > {
        if x_min.lt(x_max) && y_min.lt(y_max) {
            Ok(Rect { x_min, y_min, x_max, y_max })
        } else {
            Err(GeometryError::EmptyRect)
        }
    }

    #[verifier::when_used_as_spec(spec_try_new)]
    pub fn try_new(x_min: Num, y_min: Num, x_max: Num, y_max: Num) -> (r: Result<
        Rect,
        GeometryError,
    >)
        ensures
            r == Rect::spec_try_new(x_min, y_min, x_max, y_max),
    {
        if x_min.lt(x_max) && y_min.lt(y_max) {
            Ok(Rect { x_min, y_min, x_max, y_max })
        } else {
            Err(GeometryError::EmptyRect)
        }
    }

    pub open spec fn spec_including(self, point: Point) -> Rect {
        Rect {
            x_min: self.x_min.min(point.0),
            y_min: self.y_min.min(point.1),
            x_max: self.x_max.max(point.0),
            y_max: self.y_max.max(point.1),
        }
    }

    /// The rectangle with its bounds moved out to a point.
    #[verifier::when_used_as_spec(spec_including)]
    pub fn including(self, point: Point) -> (r: Rect)
        ensures
            r == self.spec_including(point),
    {
        Rect {
            x_min: self.x_min.min(point.0),
            y_min: self.y_min.min(point.1),
            x_max: self.x_max.max(point.0),
            y_max: self.y_max.max(point.1),
        }
    }

    /// The bounds moved out to each of the points in turn.
    pub open spec fn including_all(self, points: Seq<Point>) -> Rect
        decreases points.len(),
    {
        if points.len() == 0 {
            self
        } else {
            self.including_all(points.drop_last()).including(points.last())
        }
    }

    pub fn extended_over(self, points: &[Point]) -> (r: Rect)
        ensures
            r == self.including_all(points@),
    {
        let mut bounds: Rect = self;
        let mut i: usize = 0;
        assert(points@.take(0) =~= Seq::<Point>::empty());
        while i < points.len()
            invariant
                i <= points.len(),
                bounds == self.including_all(points@.take(i as int)),
            decreases points.len() - i,
        {
            assert(points@.take(i + 1).drop_last() =~= points@.take(i as int));
            bounds = bounds.including(points[i]);
            i = i + 1;
        }
        assert(points@.take(points@.len() as int) =~= points@);
        bounds
    }

    /// Bounds that every finite number lies beyond or on.
    #[verifier::allow_in_spec]
    pub fn finite_inside_out() -> Rect
        returns
            (Rect {
                x_min: Num::max_value(),
                y_min: Num::max_value(),
                x_max: Num::max_value().neg(),
                y_max: Num::max_value().neg(),
            }),
    {
        Rect {
            x_min: Num::max_value(),
            y_min: Num::max_value(),
            x_max: Num::max_value().neg(),
            y_max: Num::max_value().neg(),
        }
    }

    /// Bounds that every number lies beyond or on.
    #[verifier::allow_in_spec]
    pub fn unbounded_inside_out() -> Rect
        returns
            (Rect {
                x_min: Num::infinity(),
                y_min: Num::infinity(),
                x_max: Num::infinity().neg(),
                y_max: Num::infinity().neg(),
            }),
    {
        Rect {
            x_min: Num::infinity(),
            y_min: Num::infinity(),
            x_max: Num::infinity().neg(),
            y_max: Num::infinity().neg(),
        }
    }

    pub open spec fn spec_width(self) -> Num {
        self.x_max.sub(self.x_min)
    }

    #[verifier::when_used_as_spec(spec_width)]
    pub fn width(self) -> (r: Num)
        ensures
            r == self.spec_width(),
    {
        self.x_max.sub(self.x_min)
    }

    pub open spec fn spec_collides_with_point(self, point: Point) -> bool {
        point.0.ge(self.x_min) && point.0.le(self.x_max) && point.1.ge(self.y_min) && point.1.le(
            self.y_max,
        )
    }

    #[verifier::when_used_as_spec(spec_collides_with_point)]
    pub fn collides_with_point(self, point: Point) -> (r: bool)
        ensures
            r == self.spec_collides_with_point(point),
    {
        point.0.ge(self.x_min) && point.0.le(self.x_max) && point.1.ge(self.y_min) && point.1.le(
            self.y_max,
        )
    }

    pub open spec fn spec_collides_with_rect(self, other: Rect) -> bool {
        self.x_min.max(other.x_min).le(self.x_max.min(other.x_max)) && self.y_min.max(
            other.y_min,
        ).le(self.y_max.min(other.y_max))
    }

    #[verifier::when_used_as_spec(spec_collides_with_rect)]
    pub fn collides_with_rect(self, other: Rect) -> (r: bool)
        ensures
            r == self.spec_collides_with_rect(other),
    {
        self.x_min.max(other.x_min).le(self.x_max.min(other.x_max)) && self.y_min.max(
            other.y_min,
        ).le(self.y_max.min(other.y_max))
    }

    /// The four sides, counterclockwise from the top.
    pub open spec fn spec_edges(self) -> [Edge; 4] {
        let ne = Point(self.x_max, self.y_max);
        let nw = Point(self.x_min, self.y_max);
        let sw = Point(self.x_min, self.y_min);
        let se = Point(self.x_max, self.y_min);
        [
            Edge { start: ne, end: nw },
            Edge { start: nw, end: sw },
            Edge { start: sw, end: se },
            Edge { start: se, end: ne },
        ]
    }

    #[verifier::when_used_as_spec(spec_edges)]
    pub fn edges(self) -> (r: [Edge; 4])
        ensures
            r == self.spec_edges(),
    {
        let ne: Point = Point(self.x_max, self.y_max);
        let nw: Point = Point(self.x_min, self.y_max);
        let sw: Point = Point(self.x_min, self.y_min);
        let se: Point = Point(self.x_max, self.y_min);
        [
            Edge { start: ne, end: nw },
            Edge { start: nw, end: sw },
            Edge { start: sw, end: se },
            Edge { start: se, end: ne },
        ]
    }

    /// Whether an edge has a point in the rectangle.
    pub open spec fn spec_collides_with_edge(self, edge: Edge) -> bool {
        &&& self.collides_with_rect(edge.bbox())
        &&& {
            ||| self.collides_with_point(edge.start)
            ||| self.collides_with_point(edge.end)
            ||| exists|i: int| 0 <= i < 4 && edge.collides_with_edge(#[trigger] self.edges()[i])
        }
    }

    #[verifier::loop_isolation(false)]
    #[verifier::when_used_as_spec(spec_collides_with_edge)]
    pub fn collides_with_edge(self, edge: Edge) -> (r: bool)
        ensures
            r == self.spec_collides_with_edge(edge),
    {
        if !self.collides_with_rect(edge.bbox()) {
            return false;
        }
        if self.collides_with_point(edge.start) || self.collides_with_point(edge.end) {
            return true;
        }
        let sides: [Edge; 4] = self.edges();
        let mut i: usize = 0;
        while i < 4
            invariant
                i <= 4,
                forall|j: int| 0 <= j < i ==> !edge.collides_with_edge(#[trigger] sides[j]),
            decreases 4 - i,
        {
            if edge.collides_with_edge(sides[i]) {
                assert(edge.collides_with_edge(self.edges()[i as int]));
                return true;
            }
            i = i + 1;
        }
        false
    }
}

} // verus!
