//! Laws of boxes and discs, on exact values.
use vstd::prelude::*;

use crate::geometry::primitives::arc::Arc;
use crate::geometry::primitives::circle::Circle;
use crate::geometry::primitives::crossing_laws::Place;
use crate::geometry::primitives::edge::Edge;
use crate::geometry::primitives::point::Point;
use crate::geometry::primitives::rect::Rect;
use crate::math::Elementary;
use crate::num::Num;

verus! {

pub open spec fn has_finite_bounds(rect: Rect) -> bool {
    rect.x_min.is_finite() && rect.y_min.is_finite() && rect.x_max.is_finite()
        && rect.y_max.is_finite()
}

/// The place lies between the bounds of the box.
pub open spec fn is_within(rect: Rect, place: Place) -> bool {
    &&& crate::num::estimate::exact(rect.x_min) <= place.x <= crate::num::estimate::exact(
        rect.x_max,
    )
    &&& crate::num::estimate::exact(rect.y_min) <= place.y <= crate::num::estimate::exact(
        rect.y_max,
    )
}

/// A box collides with the points between its bounds.
pub proof fn boxes_hold_what_lies_between_their_bounds(rect: Rect, point: Point)
    requires
        has_finite_bounds(rect),
        point.is_finite(),
    ensures
        rect.collides_with_point(point) <==> is_within(
            rect,
            crate::geometry::primitives::crossing_laws::place_of(point),
        ),
{
    crate::num::estimate::exact_values_compare(point.0, rect.x_min);
    crate::num::estimate::exact_values_compare(point.0, rect.x_max);
    crate::num::estimate::exact_values_compare(point.1, rect.y_min);
    crate::num::estimate::exact_values_compare(point.1, rect.y_max);
}

spec fn larger(x: Num, y: Num) -> real {
    if crate::num::estimate::exact(x) >= crate::num::estimate::exact(y) {
        crate::num::estimate::exact(x)
    } else {
        crate::num::estimate::exact(y)
    }
}

proof fn lemma_bounds_meet(a: Num, b: Num, c: Num, d: Num)
    requires
        a.is_finite(),
        b.is_finite(),
        c.is_finite(),
        d.is_finite(),
    ensures
        a.max(b).le(c.min(d)) <==> larger(a, b) <= crate::num::estimate::exact(c) && larger(a, b)
            <= crate::num::estimate::exact(d),
{
    crate::num::estimate::exact_values_compare(a, b);
    crate::num::estimate::exact_values_compare(c, d);
    crate::num::estimate::exact_values_compare(a.max(b), c.min(d));
}

/// Two boxes collide if and only if some place lies in both.
pub proof fn boxes_collide_where_they_share_a_place(first: Rect, second: Rect)
    requires
        has_finite_bounds(first),
        has_finite_bounds(second),
    ensures
        first.collides_with_rect(second) <==> exists|place: Place| #[trigger]
            is_within(first, place) && is_within(second, place),
        first.collides_with_rect(second) == second.collides_with_rect(first),
{
    lemma_bounds_meet(first.x_min, second.x_min, first.x_max, second.x_max);
    lemma_bounds_meet(first.y_min, second.y_min, first.y_max, second.y_max);
    lemma_bounds_meet(second.x_min, first.x_min, second.x_max, first.x_max);
    lemma_bounds_meet(second.y_min, first.y_min, second.y_max, first.y_max);
    if first.collides_with_rect(second) {
        let place = Place {
            x: larger(first.x_min, second.x_min),
            y: larger(first.y_min, second.y_min),
        };
        assert(is_within(first, place) && is_within(second, place));
    }
}

/// Every place between the ends of an edge lies in its box, and the box reaches no farther than them.
pub proof fn edges_lie_in_their_boxes(edge: Edge, s: real)
    requires
        edge.start.is_finite(),
        edge.end.is_finite(),
        0real <= s <= 1real,
    ensures
        is_within(edge.bbox(), crate::geometry::primitives::crossing_laws::place_along(edge, s)),
        edge.bbox().x_min == edge.start.0 || edge.bbox().x_min == edge.end.0,
        edge.bbox().y_min == edge.start.1 || edge.bbox().y_min == edge.end.1,
        edge.bbox().x_max == edge.start.0 || edge.bbox().x_max == edge.end.0,
        edge.bbox().y_max == edge.start.1 || edge.bbox().y_max == edge.end.1,
{
    lemma_between(edge.start.0, edge.end.0, s);
    lemma_between(edge.start.1, edge.end.1, s);
}

proof fn lemma_between(a: Num, b: Num, s: real)
    requires
        a.is_finite(),
        b.is_finite(),
        0real <= s <= 1real,
    ensures
        ({
            let (x, y) = (crate::num::estimate::exact(a), crate::num::estimate::exact(b));
            &&& crate::num::estimate::exact(a.min(b)) <= x + s * (y - x)
            &&& x + s * (y - x) <= crate::num::estimate::exact(a.max(b))
        }),
{
    crate::num::estimate::exact_values_compare(a, b);
    let (x, y) = (crate::num::estimate::exact(a), crate::num::estimate::exact(b));
    let (d, r) = (y - x, 1real - s);
    crate::geometry::primitives::real_algebra::lemma_from_the_end(s, d);
    if d >= 0real {
        assert(s * d >= 0real) by (nonlinear_arith)
            requires
                s >= 0real,
                d >= 0real,
        ;
        assert(r * d >= 0real) by (nonlinear_arith)
            requires
                r >= 0real,
                d >= 0real,
        ;
    } else {
        let e = -d;
        assert(s * e >= 0real) by (nonlinear_arith)
            requires
                s >= 0real,
                e >= 0real,
        ;
        assert(r * e >= 0real) by (nonlinear_arith)
            requires
                r >= 0real,
                e >= 0real,
        ;
        crate::geometry::primitives::real_algebra::lemma_from_the_end(s, e);
    }
}

/// The sides of a box follow each other counter-clockwise, from its upper right corner, along its
/// bounds.
pub proof fn sides_run_along_the_bounds(rect: Rect)
    ensures
        ({
            let sides = rect.edges();
            &&& forall|i: int|
                0 <= i < 4 ==> (#[trigger] sides[i]).end == sides[if i == 3 {
                    0
                } else {
                    i + 1
                }].start
            &&& sides[0].start.1 == rect.y_max && sides[0].end.1 == rect.y_max
            &&& sides[1].start.0 == rect.x_min && sides[1].end.0 == rect.x_min
            &&& sides[2].start.1 == rect.y_min && sides[2].end.1 == rect.y_min
            &&& sides[3].start.0 == rect.x_max && sides[3].end.0 == rect.x_max
        }),
{
}

/// A disc collides with an edge if the point of the edge that is closest to its center is no farther
/// from it than the radius, up to rounding.
pub proof fn discs_collide_with_what_is_near_enough(circle: Circle, edge: Edge)
    requires
        edge.sq_distance_to(circle.center).is_finite(),
        circle.radius.mul(circle.radius).is_finite(),
    ensures
        ({
            let closest = edge.closest_point(circle.center);
            let distance = crate::geometry::primitives::edge_laws::squared_distance(
                circle.center,
                closest,
            );
            let r = crate::num::estimate::exact(circle.radius);
            let error = crate::geometry::primitives::edge_laws::squared_distance_error(
                circle.center,
                closest,
            ) + crate::num::estimate::half_step(circle.radius.mul(circle.radius));
            &&& distance + error <= r * r ==> circle.collides_with_edge(edge)
            &&& distance - error > r * r ==> !circle.collides_with_edge(edge)
        }),
{
    let r = circle.radius;
    let closest = edge.closest_point(circle.center);
    crate::geometry::primitives::edge_laws::squared_distances_are_near(circle.center, closest);
    crate::num::estimate::products_are_near(r, r);
    crate::num::estimate::exact_values_compare(edge.sq_distance_to(circle.center), r.mul(r));
}

/// How far the computed distance from a circle may be from what it is.
pub closed spec fn circle_distance_error(
    point: Point,
    center: Point,
    radius: Num,
    distance: real,
) -> real {
    let d = point.distance_to(center);
    let (r, t) = (crate::num::estimate::exact(d), 2real * crate::num::estimate::half_step(d));
    (t * (2real * r + t) + crate::geometry::primitives::edge_laws::squared_distance_error(
        point,
        center,
    )) / distance + crate::num::estimate::half_step(d.sub(radius)) + crate::num::estimate::half_step(
        radius.mul(crate::geometry::primitives::arc::distance_epsilon()),
    )
}

/// A point counts as one of a circle if its distance from the center differs from the radius by no more
/// than the tolerance for distances, or by that part of the radius if it is more, up to rounding.
pub proof fn points_are_on_circles_within_tolerance(
    point: Point,
    center: Point,
    radius: Num,
    distance: real,
)
    requires
        distance > 0real,
        distance * distance == crate::geometry::primitives::edge_laws::squared_distance(
            point,
            center,
        ),
        point.distance_to(center).is_finite(),
        crate::num::estimate::exact(point.distance_to(center)) > 0real,
        point.distance_to(center).sub(radius).is_finite(),
        radius.mul(crate::geometry::primitives::arc::distance_epsilon()).is_finite(),
    ensures
        ({
            let eps = crate::num::estimate::exact(
                crate::geometry::primitives::arc::distance_epsilon(),
            );
            let r = crate::num::estimate::exact(radius);
            let off = crate::num::estimate::size(distance - r);
            let error = circle_distance_error(point, center, radius, distance);
            &&& off + error <= eps || off + error <= r * eps ==> Arc::on_circle(
                point,
                center,
                radius,
            )
            &&& off - error > eps && off - error > r * eps ==> !Arc::on_circle(
                point,
                center,
                radius,
            )
        }),
{
    let eps = crate::geometry::primitives::arc::distance_epsilon();
    let d = point.distance_to(center);
    let (v, t) = (crate::num::estimate::exact(d), 2real * crate::num::estimate::half_step(d));
    crate::geometry::primitives::edge_laws::distances_are_near(point, center);
    let error = t * (2real * v + t)
        + crate::geometry::primitives::edge_laws::squared_distance_error(point, center);
    crate::geometry::primitives::real_algebra::lemma_near_root(v, distance, error);
    let off = d.sub(radius);
    crate::num::estimate::differences_are_near(d, radius);
    crate::num::estimate::absolute_values_are_exact(off);
    crate::num::estimate::products_are_near(radius, eps);
    crate::num::estimate::lemma_sign(off);
    crate::num::estimate::lemma_sign(radius.mul(eps));
    crate::num::estimate::exact_values_compare(eps, radius.mul(eps));
    crate::num::estimate::exact_values_compare(off.abs(), eps.max(radius.mul(eps)));
}

/// A disc collides with an arc if the arc comes as near to its center as the radius.
pub proof fn discs_collide_with_arcs_that_come_near_enough<M: Fn(Elementary) -> Num>(
    arc: Arc,
    circle: Circle,
    math: &M,
)
    requires
        arc.distance_to(circle.center, math).is_finite(),
        circle.radius.is_finite(),
    ensures
        ({
            let closest = arc.closest_point_on_arc(circle.center, math);
            let d = crate::num::estimate::exact(closest.distance_to(circle.center));
            arc.collides_with_circle(circle, math) <==> d <= crate::num::estimate::exact(
                circle.radius,
            )
        }),
{
    crate::num::estimate::exact_values_compare(
        arc.distance_to(circle.center, math),
        circle.radius,
    );
}

} // verus!
