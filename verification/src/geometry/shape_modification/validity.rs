//! Whether a modified shape covers what it should.
use vstd::prelude::*;

use crate::geometry::primitives::boundary_segment::BoundarySegment;
use crate::geometry::primitives::point::Point;
use crate::geometry::primitives::simple_polygon::SPolygon;
use crate::geometry::shape_modification::candidates::contains_point;
use crate::geometry::shape_modification::ShapeModifyMode;
use crate::math::{evaluates, Elementary};
use crate::num::Num;

verus! {

/// The point is nearer to a segment of the polygon than a millionth of its diameter.
pub open spec fn is_on_boundary<M: Fn(Elementary) -> Num>(
    shape: &SPolygon,
    point: Point,
    math: &M,
) -> bool {
    exists|i: int|
        0 <= i < shape@.segments(math).len() && (#[trigger] shape@.segments(math)[i]).distance_to(
            point,
            math,
        ).lt(shape.diameter.mul(Num::e_minus_6()))
}

fn on_boundary<M: Fn(Elementary) -> Num>(shape: &SPolygon, point: Point, math: &M) -> (r: bool)
    requires
        evaluates(math),
        shape.valid(math),
    ensures
        r == is_on_boundary(shape, point, math),
{
    let segments: Vec<BoundarySegment> = shape.segment_iter(math);
    let limit: Num = shape.diameter.mul(Num::e_minus_6());
    let mut i: usize = 0;
    while i < segments.len()
        invariant
            i <= segments@.len(),
            evaluates(math),
            segments@ == shape@.segments(math),
            limit == shape.diameter.mul(Num::e_minus_6()),
            forall|j: int|
                0 <= j < i ==> !(#[trigger] shape@.segments(math)[j]).distance_to(point, math).lt(
                    limit,
                ),
        decreases segments.len() - i,
    {
        if segments[i].distance_to(point, math).lt(limit) {
            assert(shape@.segments(math)[i as int].distance_to(point, math).lt(limit));
            return true;
        }
        i = i + 1;
    }
    false
}

/// The vertices of a polygon, followed by the axis extrema of its arcs.
pub open spec fn extremes<M: Fn(Elementary) -> Num>(shape: &SPolygon, math: &M) -> Seq<Point> {
    crate::geometry::primitives::boundary::extreme_boundary_points(
        shape.vertices@,
        shape.bulges@,
        math,
    )->Ok_0
}

/// The point is one of those of the modified polygon, on its boundary, or on the side of it
/// where it should be.
pub open spec fn is_covered<M: Fn(Elementary) -> Num>(
    simpl: &SPolygon,
    mode: ShapeModifyMode,
    point: Point,
    math: &M,
) -> bool {
    ||| crate::geometry::shape_modification::candidates::holds_point(extremes(simpl, math), point)
    ||| is_on_boundary(simpl, point, math)
    ||| match mode {
        ShapeModifyMode::Inflate => simpl.collides_with(point, math),
        ShapeModifyMode::Deflate => !simpl.collides_with(point, math),
    }
}

/// Whether every boundary point of a polygon is in the right place with respect to the
/// modified polygon: inside it if that was to grow, and outside if it was to shrink.
pub fn shape_modification_valid<M: Fn(Elementary) -> Num>(
    orig: &SPolygon,
    simpl: &SPolygon,
    mode: ShapeModifyMode,
    math: &M,
) -> (r: bool)
    requires
        evaluates(math),
        orig.valid(math),
        simpl.valid(math),
    ensures
        r == forall|i: int|
            0 <= i < extremes(orig, math).len() ==> is_covered(
                simpl,
                mode,
                #[trigger] extremes(orig, math)[i],
                math,
            ),
{
    let orig_points: Vec<Point> = orig.boundary_points(math);
    let simpl_points: Vec<Point> = simpl.boundary_points(math);
    let mut i: usize = 0;
    while i < orig_points.len()
        invariant
            i <= orig_points@.len(),
            evaluates(math),
            simpl.valid(math),
            orig_points@ == extremes(orig, math),
            simpl_points@ == extremes(simpl, math),
            forall|j: int|
                0 <= j < i ==> is_covered(simpl, mode, #[trigger] extremes(orig, math)[j], math),
        decreases orig_points.len() - i,
    {
        let p: Point = orig_points[i];
        assert(p == extremes(orig, math)[i as int]);
        if !contains_point(&simpl_points, p) {
            let on_edge: bool = on_boundary(simpl, p, math);
            let inside: bool = simpl.collides_with(p, math);
            let misplaced: bool = match mode {
                ShapeModifyMode::Inflate => !inside && !on_edge,
                ShapeModifyMode::Deflate => inside && !on_edge,
            };
            if misplaced {
                assert(!is_covered(simpl, mode, p, math));
                return false;
            }
        }
        i = i + 1;
    }
    true
}

/// Every finite boundary point of a valid polygon is in the right place with respect to the
/// polygon itself.
pub proof fn a_shape_covers_itself<M: Fn(Elementary) -> Num>(
    shape: &SPolygon,
    mode: ShapeModifyMode,
    i: int,
    math: &M,
)
    requires
        shape.valid(math),
        0 <= i < extremes(shape, math).len(),
        extremes(shape, math)[i].is_finite(),
    ensures
        is_covered(shape, mode, extremes(shape, math)[i], math),
{
    assert(extremes(shape, math)[i].same_as(extremes(shape, math)[i]));
}

/// A point that is clearly off the boundary of the modified polygon is in the right place for one of
/// the modes only: inside it if that was to grow, and outside if it was to shrink.
pub proof fn clear_points_are_in_place_for_one_mode<M: Fn(Elementary) -> Num>(
    simpl: &SPolygon,
    point: Point,
    math: &M,
)
    requires
        !crate::geometry::shape_modification::candidates::holds_point(
            extremes(simpl, math),
            point,
        ),
        !is_on_boundary(simpl, point, math),
    ensures
        is_covered(simpl, ShapeModifyMode::Inflate, point, math) == simpl.collides_with(
            point,
            math,
        ),
        is_covered(simpl, ShapeModifyMode::Inflate, point, math) != is_covered(
            simpl,
            ShapeModifyMode::Deflate,
            point,
            math,
        ),
{
}

} // verus!
