//! What is inside a polygon and what is not.
use vstd::prelude::*;

use crate::geometry::primitives::arc::Arc;
use crate::geometry::primitives::boundary_segment::BoundarySegment;
use crate::geometry::primitives::edge::Edge;
use crate::geometry::primitives::point::Point;
use crate::geometry::primitives::simple_polygon::SPolygon;
use crate::math::Elementary;
use crate::num::Num;

verus! {

/// Side `i` of a polygon, as a straight line.
pub open spec fn side(shape: &SPolygon, i: int) -> Edge {
    Edge {
        start: shape.vertices@[i],
        end: crate::geometry::primitives::boundary::successor(shape.vertices@, i),
    }
}

/// Side `i` is crossed by the ray that leaves one of the points to the right, and not by that of the
/// other.
pub open spec fn is_passed(shape: &SPolygon, i: int, p: Point, q: Point) -> bool {
    (crate::geometry::primitives::ray_casting::ray_edge_crossing(p, side(shape, i)) is Some) != (
    crate::geometry::primitives::ray_casting::ray_edge_crossing(q, side(shape, i)) is Some)
}

/// The point lies on none of the sides.
pub open spec fn is_off_the_boundary<M: Fn(Elementary) -> Num>(
    shape: &SPolygon,
    point: Point,
    math: &M,
) -> bool {
    forall|i: int|
        0 <= i < shape@.segments(math).len() ==> !(#[trigger] shape@.segments(
            math,
        )[i]).collides_with_point(point, math)
}

spec fn sides(shape: &SPolygon) -> Seq<Edge> {
    Seq::new(shape.vertices@.len(), |i: int| side(shape, i))
}

proof fn lemma_passed(edges: Seq<Edge>, p: Point, q: Point, i: int)
    requires
        forall|j: int|
            0 <= j < edges.len() && j != i ==> (
            crate::geometry::primitives::ray_casting::ray_edge_crossing(p, #[trigger] edges[j])
                is Some) == (crate::geometry::primitives::ray_casting::ray_edge_crossing(
                q,
                edges[j],
            ) is Some),
        0 <= i < edges.len() ==> (crate::geometry::primitives::ray_casting::ray_edge_crossing(
            p,
            edges[i],
        ) is Some) != (crate::geometry::primitives::ray_casting::ray_edge_crossing(q, edges[i])
            is Some),
    ensures
        ({
            let (m, n) = (
                crate::geometry::primitives::ray_casting::edges_crossed(p, edges),
                crate::geometry::primitives::ray_casting::edges_crossed(q, edges),
            );
            if 0 <= i < edges.len() {
                m == n + 1 || n == m + 1
            } else {
                m == n
            }
        }),
    decreases edges.len(),
{
    if edges.len() > 0 {
        assert(edges[edges.len() - 1] == edges.last());
        assert forall|j: int| 0 <= j < edges.drop_last().len() && j != i implies (
        crate::geometry::primitives::ray_casting::ray_edge_crossing(
            p,
            #[trigger] edges.drop_last()[j],
        ) is Some) == (crate::geometry::primitives::ray_casting::ray_edge_crossing(
            q,
            edges.drop_last()[j],
        ) is Some) by {
            assert(edges.drop_last()[j] == edges[j]);
        }
        lemma_passed(edges.drop_last(), p, q, i);
    }
}

proof fn lemma_crossed_sides<M: Fn(Elementary) -> Num>(shape: &SPolygon, point: Point, math: &M)
    requires
        shape.valid(math),
        !shape.has_arcs(),
        shape.bbox.collides_with_point(point),
        is_off_the_boundary(shape, point, math),
    ensures
        shape.collides_with(point, math) == (crate::geometry::primitives::ray_casting::edges_crossed(
            point,
            sides(shape),
        ) % 2 == 1),
{
    let segments = shape@.segments(math);
    assert(segments =~= sides(shape).map_values(|edge: Edge| BoundarySegment::Line(edge))) by {
        assert forall|i: int| 0 <= i < shape.vertices@.len() implies #[trigger] segments[i]
            == BoundarySegment::Line(side(shape, i)) by {
            crate::geometry::primitives::laws::segments_without_arcs_are_chords(shape, i, math);
        }
    }
    crate::geometry::primitives::ray_casting::straight_segments_are_counted_one_by_one(
        point,
        crate::geometry::primitives::ray_casting::horizontal_ray_from_point(point, shape.bbox),
        segments,
        sides(shape),
        math,
    );
}

/// Of two points that lie on no side of a straight-sided polygon, with just one side to pass on the way
/// from one to the other, one is inside and the other is not.
pub proof fn passing_a_side_leads_in_or_out<M: Fn(Elementary) -> Num>(
    shape: &SPolygon,
    p: Point,
    q: Point,
    i: int,
    math: &M,
)
    requires
        shape.valid(math),
        !shape.has_arcs(),
        shape.bbox.collides_with_point(p),
        shape.bbox.collides_with_point(q),
        is_off_the_boundary(shape, p, math),
        is_off_the_boundary(shape, q, math),
        0 <= i < shape.vertices@.len(),
        is_passed(shape, i, p, q),
        forall|j: int|
            0 <= j < shape.vertices@.len() && j != i ==> !(#[trigger] is_passed(shape, j, p, q)),
    ensures
        shape.collides_with(p, math) != shape.collides_with(q, math),
{
    lemma_crossed_sides(shape, p, math);
    lemma_crossed_sides(shape, q, math);
    let edges = sides(shape);
    assert forall|j: int| 0 <= j < edges.len() && j != i implies (
    crate::geometry::primitives::ray_casting::ray_edge_crossing(p, #[trigger] edges[j]) is Some)
        == (crate::geometry::primitives::ray_casting::ray_edge_crossing(q, edges[j]) is Some) by {
        assert(edges[j] == side(shape, j));
        assert(!is_passed(shape, j, p, q));
    }
    assert(edges[i] == side(shape, i));
    lemma_passed(edges, p, q, i);
}

/// Of two points that lie on no side of a straight-sided polygon, with no side to pass on the way from
/// one to the other, both are inside or neither is; and one that is crossed by no side on its right is
/// not inside.
pub proof fn nothing_changes_without_passing_a_side<M: Fn(Elementary) -> Num>(
    shape: &SPolygon,
    p: Point,
    q: Point,
    math: &M,
)
    requires
        shape.valid(math),
        !shape.has_arcs(),
        shape.bbox.collides_with_point(p),
        shape.bbox.collides_with_point(q),
        is_off_the_boundary(shape, p, math),
        is_off_the_boundary(shape, q, math),
        forall|j: int| 0 <= j < shape.vertices@.len() ==> !(#[trigger] is_passed(shape, j, p, q)),
    ensures
        shape.collides_with(p, math) == shape.collides_with(q, math),
        (forall|j: int|
            0 <= j < shape.vertices@.len()
                ==> crate::geometry::primitives::ray_casting::ray_edge_crossing(
                p,
                #[trigger] side(shape, j),
            ) is None) ==> !shape.collides_with(p, math),
{
    lemma_crossed_sides(shape, p, math);
    lemma_crossed_sides(shape, q, math);
    let edges = sides(shape);
    assert forall|j: int| 0 <= j < edges.len() implies (
    crate::geometry::primitives::ray_casting::ray_edge_crossing(p, #[trigger] edges[j]) is Some)
        == (crate::geometry::primitives::ray_casting::ray_edge_crossing(q, edges[j]) is Some) by {
        assert(edges[j] == side(shape, j));
        assert(!is_passed(shape, j, p, q));
    }
    lemma_passed(edges, p, q, -1);
    if forall|j: int|
        0 <= j < shape.vertices@.len()
            ==> crate::geometry::primitives::ray_casting::ray_edge_crossing(
            p,
            #[trigger] side(shape, j),
        ) is None {
        assert forall|j: int| 0 <= j < edges.len() implies
            crate::geometry::primitives::ray_casting::ray_edge_crossing(p, #[trigger] edges[j])
            is None by {
            assert(edges[j] == side(shape, j));
        }
        lemma_none_crossed(edges, p);
    }
}

proof fn lemma_none_crossed(edges: Seq<Edge>, p: Point)
    requires
        forall|j: int|
            0 <= j < edges.len() ==> crate::geometry::primitives::ray_casting::ray_edge_crossing(
                p,
                #[trigger] edges[j],
            ) is None,
    ensures
        crate::geometry::primitives::ray_casting::edges_crossed(p, edges) == 0,
    decreases edges.len(),
{
    if edges.len() > 0 {
        assert(edges[edges.len() - 1] == edges.last());
        assert forall|j: int| 0 <= j < edges.drop_last().len() implies
            crate::geometry::primitives::ray_casting::ray_edge_crossing(
            p,
            #[trigger] edges.drop_last()[j],
        ) is None by {
            assert(edges.drop_last()[j] == edges[j]);
        }
        lemma_none_crossed(edges.drop_last(), p);
    }
}

/// No two of the points are farther apart than the diameter, and two of them are as far, up to
/// rounding: the pair is returned.
pub proof fn no_two_points_are_farther_apart_than_the_diameter(
    points: Seq<Point>,
    d: Num,
    i: int,
    j: int,
) -> (pair: (int, int))
    requires
        crate::geometry::primitives::boundary::is_diameter(points, d),
        d.is_finite(),
        0 <= i < j < points.len(),
        forall|k: int, l: int|
            0 <= k < l < points.len() ==> (#[trigger] points[k].sq_distance_to(
                points[l],
            )).is_finite(),
    ensures
        0 <= pair.0 < pair.1 < points.len(),
        ({
            let (p, q) = (points[pair.0], points[pair.1]);
            let v = crate::num::estimate::exact(d);
            let t = 2real * crate::num::estimate::half_step(d);
            let greatest = crate::geometry::primitives::edge_laws::squared_distance(p, q);
            let error = crate::geometry::primitives::edge_laws::squared_distance_error(p, q);
            &&& v >= 0real
            &&& crate::num::estimate::size(v * v - greatest) <= t * (2real * v + t) + error
            &&& crate::geometry::primitives::edge_laws::squared_distance(points[i], points[j])
                <= greatest + error + crate::geometry::primitives::edge_laws::squared_distance_error(
                points[i],
                points[j],
            )
        }),
{
    let (a, b) = choose|a: int, b: int|
        {
            &&& 0 <= a < b < points.len()
            &&& d == (#[trigger] points[a].sq_distance_to(points[b])).sqrt()
            &&& forall|i: int, j: int|
                0 <= i < j < points.len() ==> (#[trigger] points[i].sq_distance_to(points[j])).le(
                    points[a].sq_distance_to(points[b]),
                )
        };
    let (p, q) = (points[a], points[b]);
    assert(d == p.distance_to(q));
    crate::geometry::primitives::edge_laws::distances_are_near(p, q);
    crate::geometry::primitives::edge_laws::squared_distances_are_near(p, q);
    assert(points[i].sq_distance_to(points[j]).is_finite());
    assert(points[a].sq_distance_to(points[b]).is_finite());
    crate::geometry::primitives::edge_laws::squared_distances_are_near(points[i], points[j]);
    crate::num::estimate::exact_values_compare(
        points[i].sq_distance_to(points[j]),
        p.sq_distance_to(q),
    );
    (a, b)
}

/// A straight segment and a curved one collide with each other or not, whichever of them is asked.
pub proof fn mixed_segments_collide_symmetrically<M: Fn(Elementary) -> Num>(
    first: BoundarySegment,
    second: BoundarySegment,
    math: &M,
)
    requires
        first is Line != second is Line,
    ensures
        first.collides_with_segment(&second, math) == second.collides_with_segment(&first, math),
{
}

/// How far off the vertical through the center of a circle a point is measured to be may differ from
/// what it is by so much.
pub open spec fn tangent_error(arc: Arc, point: Point) -> real {
    crate::num::estimate::half_step(point.0.sub(arc.center.0)) + crate::num::estimate::half_step(
        arc.radius.mul(crate::geometry::primitives::boundary::point_epsilon()),
    )
}

/// A horizontal line touches a circle where it meets it on the vertical through the center: within the
/// tolerance for points, or within that part of the radius if it is more, up to rounding.
pub proof fn horizontal_tangents_are_above_or_below_the_center(arc: Arc, point: Point)
    requires
        point.0.sub(arc.center.0).is_finite(),
        arc.radius.mul(crate::geometry::primitives::boundary::point_epsilon()).is_finite(),
    ensures
        ({
            let eps = crate::num::estimate::exact(
                crate::geometry::primitives::boundary::point_epsilon(),
            );
            let r = crate::num::estimate::exact(arc.radius);
            let off = crate::num::estimate::size(
                crate::num::estimate::exact(point.0) - crate::num::estimate::exact(arc.center.0),
            );
            let error = tangent_error(arc, point);
            &&& off + error <= eps || off + error <= r * eps
                ==> crate::geometry::primitives::ray_casting::is_horizontal_tangent(&arc, point)
            &&& off - error > eps && off - error > r * eps
                ==> !crate::geometry::primitives::ray_casting::is_horizontal_tangent(&arc, point)
        }),
{
    let eps = crate::geometry::primitives::boundary::point_epsilon();
    let off = point.0.sub(arc.center.0);
    assert(eps.is_finite());
    crate::num::estimate::differences_are_near(point.0, arc.center.0);
    crate::num::estimate::absolute_values_are_exact(off);
    crate::num::estimate::products_are_near(arc.radius, eps);
    crate::num::estimate::lemma_sign(off);
    crate::num::estimate::lemma_sign(arc.radius.mul(eps));
    crate::num::estimate::exact_values_compare(eps, arc.radius.mul(eps));
    crate::num::estimate::exact_values_compare(off.abs(), eps.max(arc.radius.mul(eps)));
}

} // verus!
