//! Crossings of a boundary with the horizontal ray that leaves a point to the right.
use vstd::prelude::*;

use crate::geometry::primitives::arc::Arc;
use crate::geometry::primitives::boundary::point_epsilon;
use crate::geometry::primitives::boundary_segment::BoundarySegment;
use crate::geometry::primitives::edge::Edge;
use crate::geometry::primitives::point::Point;
use crate::geometry::primitives::rect::Rect;
use crate::math::{evaluates, Elementary};
use crate::num::Num;

verus! {

pub open spec fn spec_horizontal_ray_from_point(point: Point, bbox: Rect) -> Edge {
    Edge { start: point, end: Point(bbox.x_max.add(bbox.width()), point.1) }
}

/// The ray from a point to well beyond a box.
#[verifier::when_used_as_spec(spec_horizontal_ray_from_point)]
pub fn horizontal_ray_from_point(point: Point, bbox: Rect) -> (r: Edge)
    ensures
        r == spec_horizontal_ray_from_point(point, bbox),
{
    Edge { start: point, end: Point(bbox.x_max.add(bbox.width()), point.1) }
}

pub open spec fn spec_ray_edge_crossing(point: Point, edge: Edge) -> Option<Point> {
    let Point(start_x, start_y) = edge.start;
    let Point(end_x, end_y) = edge.end;
    let t = point.1.sub(start_y).div(end_y.sub(start_y));
    let x = start_x.add(t.mul(end_x.sub(start_x)));
    if start_y.gt(point.1) == end_y.gt(point.1) {
        None
    } else if x.clearly_gt(point.0) {
        Some(Point(x, point.1))
    } else {
        None
    }
}

/// The point in which an edge crosses the ray.
///
/// An edge crosses only if exactly one of its ends lies above the ray.
#[verifier::when_used_as_spec(spec_ray_edge_crossing)]
pub fn ray_edge_crossing(point: Point, edge: Edge) -> (r: Option<Point>)
    ensures
        r == spec_ray_edge_crossing(point, edge),
{
    let Point(start_x, start_y) = edge.start;
    let Point(end_x, end_y) = edge.end;
    if start_y.gt(point.1) == end_y.gt(point.1) {
        return None;
    }
    let t: Num = point.1.sub(start_y).div(end_y.sub(start_y));
    let x: Num = start_x.add(t.mul(end_x.sub(start_x)));
    if x.clearly_gt(point.0) {
        Some(Point(x, point.1))
    } else {
        None
    }
}

pub open spec fn spec_is_horizontal_tangent(arc: &Arc, point: Point) -> bool {
    point.0.sub(arc.center.0).abs().le(point_epsilon().max(arc.radius.mul(point_epsilon())))
}

/// Whether a point of the arc's circle is its top or bottom.
#[verifier::when_used_as_spec(spec_is_horizontal_tangent)]
pub fn is_horizontal_tangent(arc: &Arc, point: Point) -> (r: bool)
    ensures
        r == spec_is_horizontal_tangent(arc, point),
{
    point.0.sub(arc.center.0).abs().le(point_epsilon().max(arc.radius.mul(point_epsilon())))
}

/// Those of the given points of an arc in which the ray crosses it, not merely touches it.
pub open spec fn proper_crossings(point: Point, arc: &Arc, found: Seq<Point>) -> Seq<Point>
    decreases found.len(),
{
    if found.len() == 0 {
        Seq::empty()
    } else {
        let before = proper_crossings(point, arc, found.drop_last());
        if found.last().0.clearly_gt(point.0) && !is_horizontal_tangent(arc, found.last()) {
            before.push(found.last())
        } else {
            before
        }
    }
}

pub fn ray_arc_crossings<M: Fn(Elementary) -> Num>(
    point: Point,
    ray: Edge,
    arc: &Arc,
    math: &M,
) -> (r: Vec<Point>)
    requires
        evaluates(math),
    ensures
        r@ == proper_crossings(point, arc, arc.meeting_points(ray, math)),
{
    let found: Vec<Point> = arc.collides_at(ray, math);
    let mut kept: Vec<Point> = Vec::new();
    let mut i: usize = 0;
    assert(found@.take(0) =~= Seq::<Point>::empty());
    while i < found.len()
        invariant
            i <= found.len(),
            kept@ == proper_crossings(point, arc, found@.take(i as int)),
        decreases found.len() - i,
    {
        assert(found@.take(i + 1).drop_last() =~= found@.take(i as int));
        if found[i].0.clearly_gt(point.0) && !is_horizontal_tangent(arc, found[i]) {
            kept.push(found[i]);
        }
        i = i + 1;
    }
    assert(found@.take(found@.len() as int) =~= found@);
    kept
}

/// Whether a point is far from each of the points found so far.
pub open spec fn is_unseen(found: Seq<Point>, point: Point) -> bool {
    forall|i: int|
        0 <= i < found.len() ==> (#[trigger] found[i]).sq_distance_to(point).gt(
            point_epsilon().mul(point_epsilon()),
        )
}

/// The points found so far, with the given one if it is unseen.
pub open spec fn with_unseen(found: Seq<Point>, point: Point) -> Seq<Point> {
    if is_unseen(found, point) {
        found.push(point)
    } else {
        found
    }
}

fn unseen(found: &Vec<Point>, point: Point) -> (r: bool)
    ensures
        r == is_unseen(found@, point),
{
    let threshold: Num = point_epsilon().mul(point_epsilon());
    let mut i: usize = 0;
    while i < found.len()
        invariant
            i <= found.len(),
            threshold == point_epsilon().mul(point_epsilon()),
            forall|j: int|
                0 <= j < i ==> (#[trigger] found@[j]).sq_distance_to(point).gt(threshold),
        decreases found.len() - i,
    {
        if !found[i].sq_distance_to(point).gt(threshold) {
            assert(!is_unseen(found@, point)) by {
                assert(!found@[i as int].sq_distance_to(point).gt(threshold));
            }
            return false;
        }
        i = i + 1;
    }
    true
}

pub fn push_unique_intersection(intersections: &mut Vec<Point>, point: Point)
    ensures
        final(intersections)@ == with_unseen(old(intersections)@, point),
{
    if unseen(intersections, point) {
        intersections.push(point);
    }
}

/// Where a ray crosses straight segments and where it crosses arcs.
#[verifier::ext_equal]
pub struct CrossingsModel {
    pub straight: Seq<Point>,
    pub curved: Seq<Point>,
}

impl CrossingsModel {
    pub open spec fn none() -> CrossingsModel {
        CrossingsModel { straight: Seq::empty(), curved: Seq::empty() }
    }

    /// These, and the crossing of one more straight segment.
    ///
    /// A point in which an arc was crossed is not counted again.
    pub open spec fn with_straight(self, point: Point) -> CrossingsModel {
        if is_unseen(self.curved, point) {
            CrossingsModel { straight: self.straight.push(point), ..self }
        } else {
            self
        }
    }

    /// These, and one more crossing of an arc, if it is unseen.
    pub open spec fn with_curved(self, point: Point) -> CrossingsModel {
        if is_unseen(self.straight, point) {
            CrossingsModel { curved: with_unseen(self.curved, point), ..self }
        } else {
            self
        }
    }

    /// These, and the crossings of one more arc.
    pub open spec fn with_all_curved(self, points: Seq<Point>) -> CrossingsModel
        decreases points.len(),
    {
        if points.len() == 0 {
            self
        } else {
            self.with_all_curved(points.drop_last()).with_curved(points.last())
        }
    }

    /// These, and the crossings of one more segment.
    pub open spec fn with_segment<M: Fn(Elementary) -> Num>(
        self,
        point: Point,
        ray: Edge,
        segment: BoundarySegment,
        math: &M,
    ) -> CrossingsModel {
        match segment {
            BoundarySegment::Line(edge) => match ray_edge_crossing(point, edge) {
                Some(crossing) => self.with_straight(crossing),
                None => self,
            },
            BoundarySegment::Arc(arc) => self.with_all_curved(
                proper_crossings(point, &arc, arc.meeting_points(ray, math)),
            ),
        }
    }

    pub open spec fn count(self) -> nat {
        self.straight.len() + self.curved.len()
    }
}

/// The crossings of the ray with the given segments.
///
/// Each straight segment is crossed for itself: two of them may be crossed in one point. Where
/// an arc takes part, one point is one crossing.
pub open spec fn crossings<M: Fn(Elementary) -> Num>(
    point: Point,
    ray: Edge,
    segments: Seq<BoundarySegment>,
    math: &M,
) -> CrossingsModel
    decreases segments.len(),
{
    if segments.len() == 0 {
        CrossingsModel::none()
    } else {
        crossings(point, ray, segments.drop_last(), math).with_segment(
            point,
            ray,
            segments.last(),
            math,
        )
    }
}

/// How many of the given edges the ray crosses.
pub open spec fn edges_crossed(point: Point, edges: Seq<Edge>) -> nat
    decreases edges.len(),
{
    if edges.len() == 0 {
        0
    } else {
        edges_crossed(point, edges.drop_last()) + if ray_edge_crossing(point, edges.last()) is Some {
            1nat
        } else {
            0
        }
    }
}

/// Along straight segments, each segment that the ray crosses counts once, wherever the others
/// are crossed.
pub proof fn straight_segments_are_counted_one_by_one<M: Fn(Elementary) -> Num>(
    point: Point,
    ray: Edge,
    segments: Seq<BoundarySegment>,
    edges: Seq<Edge>,
    math: &M,
)
    requires
        segments == edges.map_values(|edge: Edge| BoundarySegment::Line(edge)),
    ensures
        crossings(point, ray, segments, math).count() == edges_crossed(point, edges),
        crossings(point, ray, segments, math).curved == Seq::<Point>::empty(),
    decreases edges.len(),
{
    if edges.len() > 0 {
        assert(segments.drop_last() =~= edges.drop_last().map_values(
            |edge: Edge| BoundarySegment::Line(edge),
        ));
        straight_segments_are_counted_one_by_one(
            point,
            ray,
            segments.drop_last(),
            edges.drop_last(),
            math,
        );
    }
}

/// Where a ray crosses straight segments and where it crosses arcs.
pub struct Crossings {
    pub straight: Vec<Point>,
    pub curved: Vec<Point>,
}

impl View for Crossings {
    type V = CrossingsModel;

    open spec fn view(&self) -> CrossingsModel {
        CrossingsModel { straight: self.straight@, curved: self.curved@ }
    }
}

impl Crossings {
    pub fn none() -> (r: Crossings)
        ensures
            r@ == CrossingsModel::none(),
    {
        Crossings { straight: Vec::new(), curved: Vec::new() }
    }

    /// Adds the crossings of one more segment.
    pub fn push_crossings<M: Fn(Elementary) -> Num>(
        &mut self,
        point: Point,
        ray: Edge,
        segment: &BoundarySegment,
        math: &M,
    )
        requires
            evaluates(math),
        ensures
            final(self)@ == old(self)@.with_segment(point, ray, *segment, math),
    {
        match segment {
            BoundarySegment::Line(edge) => {
                if let Some(crossing) = ray_edge_crossing(point, *edge) {
                    if unseen(&self.curved, crossing) {
                        self.straight.push(crossing);
                    }
                }
            },
            BoundarySegment::Arc(arc) => {
                let found: Vec<Point> = ray_arc_crossings(point, ray, arc, math);
                let ghost before = self@;
                let mut i: usize = 0;
                assert(found@.take(0) =~= Seq::<Point>::empty());
                while i < found.len()
                    invariant
                        i <= found.len(),
                        self@ == before.with_all_curved(found@.take(i as int)),
                    decreases found.len() - i,
                {
                    assert(found@.take(i + 1).drop_last() =~= found@.take(i as int));
                    if unseen(&self.straight, found[i]) {
                        push_unique_intersection(&mut self.curved, found[i]);
                    }
                    i = i + 1;
                }
                assert(found@.take(found@.len() as int) =~= found@);
            },
        }
    }

    /// Whether the number of crossings is odd.
    pub fn is_odd(&self) -> (r: bool)
        ensures
            r == (self@.count() % 2 == 1),
    {
        (self.straight.len() % 2 == 1) != (self.curved.len() % 2 == 1)
    }
}

} // verus!
