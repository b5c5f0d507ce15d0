//! Laws of points and edges, on exact values.
use vstd::prelude::*;

use crate::geometry::primitives::crossing_laws::Place;
use crate::geometry::primitives::edge::Edge;
use crate::geometry::primitives::point::Point;
use crate::num::estimate::Estimate;
use crate::num::Num;

verus! {

/// The square of the distance of two points.
pub open spec fn squared_distance(p: Point, q: Point) -> real {
    let (a, b) = (
        crate::geometry::primitives::crossing_laws::place_of(p),
        crate::geometry::primitives::crossing_laws::place_of(q),
    );
    (a.x - b.x) * (a.x - b.x) + (a.y - b.y) * (a.y - b.y)
}

spec fn squared_distance_estimate(p: Point, q: Point) -> Estimate {
    let (dx, dy) = (p.0.sub(q.0), p.1.sub(q.1));
    let (x, y) = (
        Estimate::of(p.0).minus(Estimate::of(q.0), dx),
        Estimate::of(p.1).minus(Estimate::of(q.1), dy),
    );
    x.times(x, dx.mul(dx)).plus(y.times(y, dy.mul(dy)), dx.mul(dx).add(dy.mul(dy)))
}

/// How far a computed squared distance may be from the exact one.
pub closed spec fn squared_distance_error(p: Point, q: Point) -> real {
    squared_distance_estimate(p, q).error
}

/// A squared distance is that of the two points, up to rounding.
pub proof fn squared_distances_are_near(p: Point, q: Point)
    requires
        p.sq_distance_to(q).is_finite(),
    ensures
        crate::num::estimate::size(
            crate::num::estimate::exact(p.sq_distance_to(q)) - squared_distance(p, q),
        ) <= squared_distance_error(p, q),
{
    let (dx, dy) = (p.0.sub(q.0), p.1.sub(q.1));
    crate::num::estimate::sums_are_near(dx.mul(dx), dy.mul(dy));
    crate::num::estimate::products_are_near(dx, dx);
    crate::num::estimate::products_are_near(dy, dy);
    crate::num::estimate::differences_are_near(p.0, q.0);
    crate::num::estimate::differences_are_near(p.1, q.1);
    let (x, y) = (
        Estimate::of(p.0).minus(Estimate::of(q.0), dx),
        Estimate::of(p.1).minus(Estimate::of(q.1), dy),
    );
    crate::num::estimate::estimated_products(x, dx, x, dx);
    crate::num::estimate::estimated_products(y, dy, y, dy);
    crate::num::estimate::estimated_sums(
        x.times(x, dx.mul(dx)),
        dx.mul(dx),
        y.times(y, dy.mul(dy)),
        dy.mul(dy),
    );
}

/// The square of a distance is the squared distance of the two points, up to rounding.
pub proof fn distances_are_near(p: Point, q: Point)
    requires
        p.distance_to(q).is_finite(),
    ensures
        crate::num::estimate::exact(p.distance_to(q)) >= 0real,
        ({
            let d = crate::num::estimate::exact(p.distance_to(q));
            let t = 2real * crate::num::estimate::half_step(p.distance_to(q));
            crate::num::estimate::size(d * d - squared_distance(p, q)) <= t * (2real * d + t)
                + squared_distance_error(p, q)
        }),
{
    crate::num::estimate::roots_are_near(p.sq_distance_to(q));
    squared_distances_are_near(p, q);
}

/// The centroid of an edge lies half way between its ends, up to rounding.
pub proof fn centroids_lie_half_way(edge: Edge)
    requires
        edge.centroid().is_finite(),
    ensures
        ({
            let c = edge.centroid();
            let half = crate::geometry::primitives::crossing_laws::place_along(edge, 1real / 2real);
            let (x, y) = (edge.start.0.add(edge.end.0), edge.start.1.add(edge.end.1));
            crate::geometry::primitives::crossing_laws::is_near(
                c,
                half,
                (Place {
                    x: crate::num::estimate::half_step(x) / 2real + crate::num::estimate::half_step(
                        c.0,
                    ),
                    y: crate::num::estimate::half_step(y) / 2real + crate::num::estimate::half_step(
                        c.1,
                    ),
                }),
            )
        }),
{
    lemma_half_way(edge.start.0, edge.end.0);
    lemma_half_way(edge.start.1, edge.end.1);
}

proof fn lemma_half_way(a: Num, b: Num)
    requires
        a.add(b).div(Num::two()).is_finite(),
    ensures
        ({
            let (x, y) = (crate::num::estimate::exact(a), crate::num::estimate::exact(b));
            let m = a.add(b).div(Num::two());
            crate::num::estimate::size(
                crate::num::estimate::exact(m) - (x + (1real / 2real) * (y - x)),
            ) <= crate::num::estimate::half_step(a.add(b)) / 2real + crate::num::estimate::half_step(
                m,
            )
        }),
{
    crate::num::estimate::exact_constants();
    let two = Num::two();
    crate::num::estimate::finite_quotients_have_finite_dividends(a.add(b), two);
    crate::num::estimate::sums_are_near(a, b);
    let (e, f) = (Estimate::of(a), Estimate::of(b));
    crate::num::estimate::estimated_sums(e, a, f, b);
    crate::num::estimate::estimated_quotients(e.plus(f, a.add(b)), a.add(b), two);
}

/// The numbers that are computed for the closest point.
spec fn way_x(edge: Edge) -> Estimate {
    Estimate::of(edge.end.0).minus(Estimate::of(edge.start.0), edge.end.0.sub(edge.start.0))
}

spec fn way_y(edge: Edge) -> Estimate {
    Estimate::of(edge.end.1).minus(Estimate::of(edge.start.1), edge.end.1.sub(edge.start.1))
}

spec fn foot_dividend(edge: Edge, point: Point) -> Num {
    let (c, d) = (edge.end.0.sub(edge.start.0), edge.end.1.sub(edge.start.1));
    point.0.sub(edge.start.0).mul(c).add(point.1.sub(edge.start.1).mul(d))
}

spec fn foot_divisor(edge: Edge) -> Num {
    let (c, d) = (edge.end.0.sub(edge.start.0), edge.end.1.sub(edge.start.1));
    c.mul(c).add(d.mul(d))
}

spec fn foot(edge: Edge, point: Point) -> Num {
    foot_dividend(edge, point).div(foot_divisor(edge))
}

spec fn foot_dividend_estimate(edge: Edge, point: Point) -> Estimate {
    let (c, d) = (edge.end.0.sub(edge.start.0), edge.end.1.sub(edge.start.1));
    let (p, q) = (point.0.sub(edge.start.0), point.1.sub(edge.start.1));
    Estimate::of(point.0).minus(Estimate::of(edge.start.0), p).times(way_x(edge), p.mul(c)).plus(
        Estimate::of(point.1).minus(Estimate::of(edge.start.1), q).times(way_y(edge), q.mul(d)),
        foot_dividend(edge, point),
    )
}

spec fn foot_divisor_estimate(edge: Edge) -> Estimate {
    let (c, d) = (edge.end.0.sub(edge.start.0), edge.end.1.sub(edge.start.1));
    way_x(edge).times(way_x(edge), c.mul(c)).plus(
        way_y(edge).times(way_y(edge), d.mul(d)),
        foot_divisor(edge),
    )
}

/// How far the computed foot of a point on the line through an edge may be from where it is, as a part
/// of the edge.
pub closed spec fn foot_error(edge: Edge, point: Point) -> real {
    foot_dividend_estimate(edge, point).divided_by(
        foot_divisor_estimate(edge),
        foot_divisor(edge),
        foot(edge, point),
    ).error
}

/// How far the closest point may be from the place on the edge that it stands for.
pub closed spec fn closest_margin(edge: Edge, point: Point) -> Place {
    let t = foot(edge, point);
    let (c, d) = (edge.end.0.sub(edge.start.0), edge.end.1.sub(edge.start.1));
    Place {
        x: Estimate::of(edge.start.0).plus(
            Estimate::of(t).times(way_x(edge), t.mul(c)),
            edge.start.0.add(t.mul(c)),
        ).error,
        y: Estimate::of(edge.start.1).plus(
            Estimate::of(t).times(way_y(edge), t.mul(d)),
            edge.start.1.add(t.mul(d)),
        ).error,
    }
}

/// Nothing overflows on the way to the closest point, and the length of the edge does not vanish.
pub closed spec fn foot_in_range(edge: Edge, point: Point) -> bool {
    &&& foot_divisor(edge).is_finite()
    &&& crate::num::estimate::exact(foot_divisor(edge)) != 0real
    &&& foot(edge, point).is_finite()
    &&& edge.closest_point(point).is_finite()
}

/// How far the place beyond `s` on the edge the point lies, times the square of the length of the edge:
/// the dot product of the way to the point with the edge.
pub open spec fn ahead(edge: Edge, s: real, point: Point) -> real {
    let (p, q) = (
        crate::geometry::primitives::crossing_laws::place_of(edge.start),
        crate::geometry::primitives::crossing_laws::place_of(edge.end),
    );
    let at = crate::geometry::primitives::crossing_laws::place_along(edge, s);
    let to = crate::geometry::primitives::crossing_laws::place_of(point);
    (to.x - at.x) * (q.x - p.x) + (to.y - at.y) * (q.y - p.y)
}

proof fn lemma_foot(edge: Edge, point: Point)
    requires
        foot_in_range(edge, point),
        crate::geometry::primitives::crossing_laws::squared_length(edge) > 0real,
    ensures
        way_x(edge).covers(edge.end.0.sub(edge.start.0)),
        way_y(edge).covers(edge.end.1.sub(edge.start.1)),
        ({
            let length = crate::geometry::primitives::crossing_laws::squared_length(edge);
            crate::num::estimate::size(
                crate::num::estimate::exact(foot(edge, point)) - ahead(edge, 0real, point) / length,
            ) <= foot_error(edge, point)
        }),
{
    let (c, d) = (edge.end.0.sub(edge.start.0), edge.end.1.sub(edge.start.1));
    let (p, q) = (point.0.sub(edge.start.0), point.1.sub(edge.start.1));
    let (n, m) = (foot_dividend(edge, point), foot_divisor(edge));
    crate::num::estimate::finite_quotients_have_finite_dividends(n, m);
    crate::num::estimate::sums_are_near(p.mul(c), q.mul(d));
    crate::num::estimate::products_are_near(p, c);
    crate::num::estimate::products_are_near(q, d);
    crate::num::estimate::sums_are_near(c.mul(c), d.mul(d));
    let (s, e) = (edge.start, edge.end);
    crate::num::estimate::differences_are_near(e.0, s.0);
    crate::num::estimate::differences_are_near(e.1, s.1);
    crate::num::estimate::differences_are_near(point.0, s.0);
    crate::num::estimate::differences_are_near(point.1, s.1);
    let (x, y) = (way_x(edge), way_y(edge));
    let (f, g) = (
        Estimate::of(point.0).minus(Estimate::of(s.0), p),
        Estimate::of(point.1).minus(Estimate::of(s.1), q),
    );
    crate::num::estimate::estimated_products(f, p, x, c);
    crate::num::estimate::estimated_products(g, q, y, d);
    crate::num::estimate::estimated_sums(f.times(x, p.mul(c)), p.mul(c), g.times(y, q.mul(d)), q.mul(
        d,
    ));
    crate::num::estimate::estimated_products(x, c, x, c);
    crate::num::estimate::estimated_products(y, d, y, d);
    crate::num::estimate::estimated_sums(x.times(x, c.mul(c)), c.mul(c), y.times(y, d.mul(d)), d.mul(
        d,
    ));
    crate::num::estimate::estimated_ratios(
        foot_dividend_estimate(edge, point),
        n,
        foot_divisor_estimate(edge),
        m,
    );
    let (a, b) = (
        crate::geometry::primitives::crossing_laws::place_of(s),
        crate::geometry::primitives::crossing_laws::place_of(e),
    );
    crate::geometry::primitives::real_algebra::lemma_none_of(b.x - a.x);
    crate::geometry::primitives::real_algebra::lemma_none_of(b.y - a.y);
}

/// The closest point of an edge stands for a place on it from which the way to the given point is
/// square to the edge, or leads out beyond the end that the place is at, up to rounding.
pub proof fn closest_points_are_at_the_foot(edge: Edge, point: Point) -> (s: real)
    requires
        foot_in_range(edge, point),
        crate::geometry::primitives::crossing_laws::squared_length(edge) > 0real,
        edge.start.is_finite(),
        edge.end.is_finite(),
    ensures
        0real <= s <= 1real,
        s == 0real ==> edge.closest_point(point) == edge.start || crate::geometry::primitives::crossing_laws::is_near(
            edge.closest_point(point),
            crate::geometry::primitives::crossing_laws::place_along(edge, s),
            closest_margin(edge, point),
        ),
        s == 1real ==> edge.closest_point(point) == edge.end || crate::geometry::primitives::crossing_laws::is_near(
            edge.closest_point(point),
            crate::geometry::primitives::crossing_laws::place_along(edge, s),
            closest_margin(edge, point),
        ),
        0real < s < 1real ==> crate::geometry::primitives::crossing_laws::is_near(
            edge.closest_point(point),
            crate::geometry::primitives::crossing_laws::place_along(edge, s),
            closest_margin(edge, point),
        ),
        s < 1real ==> ahead(edge, s, point) <= foot_error(edge, point)
            * crate::geometry::primitives::crossing_laws::squared_length(edge),
        s > 0real ==> ahead(edge, s, point) >= -(foot_error(edge, point)
            * crate::geometry::primitives::crossing_laws::squared_length(edge)),
{
    lemma_foot(edge, point);
    crate::num::estimate::exact_constants();
    let t = foot(edge, point);
    let (c, d) = (edge.end.0.sub(edge.start.0), edge.end.1.sub(edge.start.1));
    let value = crate::num::estimate::exact(t);
    let length = crate::geometry::primitives::crossing_laws::squared_length(edge);
    let at = ahead(edge, 0real, point);
    crate::num::estimate::exact_values_compare(t, Num::zero());
    crate::num::estimate::exact_values_compare(t, Num::one());
    assert(!foot_divisor(edge).num_eq(Num::zero())) by {
        crate::num::estimate::exact_values_compare(foot_divisor(edge), Num::zero());
    }
    let s = if value < 0real {
        0real
    } else if value > 1real {
        1real
    } else {
        value
    };
    if 0real <= value <= 1real {
        let p = edge.start;
        crate::num::estimate::sums_are_near(p.0, t.mul(c));
        crate::num::estimate::sums_are_near(p.1, t.mul(d));
        let e = Estimate::of(t);
        crate::num::estimate::estimated_products(e, t, way_x(edge), c);
        crate::num::estimate::estimated_products(e, t, way_y(edge), d);
        crate::num::estimate::estimated_sums(
            Estimate::of(p.0),
            p.0,
            e.times(way_x(edge), t.mul(c)),
            t.mul(c),
        );
        crate::num::estimate::estimated_sums(
            Estimate::of(p.1),
            p.1,
            e.times(way_y(edge), t.mul(d)),
            t.mul(d),
        );
    }
    lemma_ahead(edge, s, point);
    crate::geometry::primitives::real_algebra::lemma_near_foot(
        at,
        length,
        value,
        s,
        foot_error(edge, point),
    );
    s
}

/// Farther along the edge, the point is less far ahead.
proof fn lemma_ahead(edge: Edge, s: real, point: Point)
    ensures
        ahead(edge, s, point) == ahead(edge, 0real, point)
            - crate::geometry::primitives::crossing_laws::squared_length(edge) * s,
{
    let (p, q, to) = (
        crate::geometry::primitives::crossing_laws::place_of(edge.start),
        crate::geometry::primitives::crossing_laws::place_of(edge.end),
        crate::geometry::primitives::crossing_laws::place_of(point),
    );
    let (x, y) = (q.x - p.x, q.y - p.y);
    let (f, g) = (to.x - p.x, to.y - p.y);
    crate::geometry::primitives::real_algebra::lemma_none_of(x);
    crate::geometry::primitives::real_algebra::lemma_none_of(y);
    let (m, n) = (x * x, y * y);
    assert((f - s * x) * x == f * x - (x * x) * s) by (nonlinear_arith);
    assert((g - s * y) * y == g * y - (y * y) * s) by (nonlinear_arith);
    assert((m + n) * s == m * s + n * s) by (nonlinear_arith);
    let at = crate::geometry::primitives::crossing_laws::place_along(edge, s);
    assert(to.x - at.x == f - s * x && to.y - at.y == g - s * y);
    let from = crate::geometry::primitives::crossing_laws::place_along(edge, 0real);
    assert(to.x - from.x == f && to.y - from.y == g);
}

/// The difference of two products of differences, as it is computed.
spec fn cross_of(a: (Num, Num), b: (Num, Num), c: (Num, Num), d: (Num, Num)) -> Num {
    a.0.sub(a.1).mul(b.0.sub(b.1)).sub(c.0.sub(c.1).mul(d.0.sub(d.1)))
}

spec fn difference_estimate(a: (Num, Num)) -> Estimate {
    Estimate::of(a.0).minus(Estimate::of(a.1), a.0.sub(a.1))
}

spec fn cross_estimate(a: (Num, Num), b: (Num, Num), c: (Num, Num), d: (Num, Num)) -> Estimate {
    difference_estimate(a).times(difference_estimate(b), a.0.sub(a.1).mul(b.0.sub(b.1))).minus(
        difference_estimate(c).times(difference_estimate(d), c.0.sub(c.1).mul(d.0.sub(d.1))),
        cross_of(a, b, c, d),
    )
}

proof fn lemma_cross(a: (Num, Num), b: (Num, Num), c: (Num, Num), d: (Num, Num))
    requires
        cross_of(a, b, c, d).is_finite(),
    ensures
        cross_estimate(a, b, c, d).covers(cross_of(a, b, c, d)),
{
    let (p, q, r, s) = (a.0.sub(a.1), b.0.sub(b.1), c.0.sub(c.1), d.0.sub(d.1));
    crate::num::estimate::differences_are_near(p.mul(q), r.mul(s));
    crate::num::estimate::products_are_near(p, q);
    crate::num::estimate::products_are_near(r, s);
    crate::num::estimate::differences_are_near(a.0, a.1);
    crate::num::estimate::differences_are_near(b.0, b.1);
    crate::num::estimate::differences_are_near(c.0, c.1);
    crate::num::estimate::differences_are_near(d.0, d.1);
    crate::num::estimate::estimated_products(
        difference_estimate(a),
        p,
        difference_estimate(b),
        q,
    );
    crate::num::estimate::estimated_products(
        difference_estimate(c),
        r,
        difference_estimate(d),
        s,
    );
    crate::num::estimate::estimated_differences(
        difference_estimate(a).times(difference_estimate(b), p.mul(q)),
        p.mul(q),
        difference_estimate(c).times(difference_estimate(d), r.mul(s)),
        r.mul(s),
    );
}

/// The cross product of two edges, taken as vectors.
pub open spec fn cross_product(first: Edge, second: Edge) -> real {
    let (p, q) = (
        crate::geometry::primitives::crossing_laws::place_of(first.start),
        crate::geometry::primitives::crossing_laws::place_of(first.end),
    );
    let (r, s) = (
        crate::geometry::primitives::crossing_laws::place_of(second.start),
        crate::geometry::primitives::crossing_laws::place_of(second.end),
    );
    (q.x - p.x) * (s.y - r.y) - (q.y - p.y) * (s.x - r.x)
}

/// What is computed for the crossing of two edges.
spec fn crossing_estimates(first: Edge, second: Edge) -> (Estimate, Estimate, Estimate) {
    let (x1, x2, x3, x4) = (first.start.0, first.end.0, second.start.0, second.end.0);
    let (y1, y2, y3, y4) = (first.start.1, first.end.1, second.start.1, second.end.1);
    (
        cross_estimate((x2, x4), (y4, y3), (y2, y4), (x4, x3)),
        cross_estimate((x2, x4), (y2, y1), (y2, y4), (x2, x1)),
        cross_estimate((x2, x1), (y4, y3), (y2, y1), (x4, x3)),
    )
}

spec fn first_crossing(first: Edge, second: Edge) -> Num {
    let (t, u, d) = first.crossing_terms(second);
    t.div(d)
}

spec fn second_crossing(first: Edge, second: Edge) -> Num {
    let (t, u, d) = first.crossing_terms(second);
    u.div(d)
}

/// How far the computed parameters of the crossing may be from what they are.
pub closed spec fn edge_crossing_error(first: Edge, second: Edge) -> real {
    let (t, u, d) = crossing_estimates(first, second);
    let divisor = first.crossing_terms(second).2;
    t.divided_by(d, divisor, first_crossing(first, second)).error + u.divided_by(
        d,
        divisor,
        second_crossing(first, second),
    ).error
}

/// How far the computed crossing may be from where it is, if that is at `s` of the first edge.
pub closed spec fn edge_crossing_margin(first: Edge, second: Edge, s: real) -> Place {
    let t = first_crossing(first, second);
    let (p, q) = (first.start, first.end);
    let (dx, dy) = (p.0.sub(q.0), p.1.sub(q.1));
    let parameter = Estimate { value: 1real - s, error: edge_crossing_error(first, second) };
    Place {
        x: Estimate::of(q.0).plus(
            parameter.times(difference_estimate((p.0, q.0)), t.mul(dx)),
            q.0.add(t.mul(dx)),
        ).error,
        y: Estimate::of(q.1).plus(
            parameter.times(difference_estimate((p.1, q.1)), t.mul(dy)),
            q.1.add(t.mul(dy)),
        ).error,
    }
}

/// Nothing overflows on the way to the crossing, and the edges do not count as parallel.
pub closed spec fn edge_crossing_in_range(first: Edge, second: Edge) -> bool {
    let (t, u, d) = first.crossing_terms(second);
    &&& t.is_finite()
    &&& u.is_finite()
    &&& d.is_finite()
    &&& crate::num::estimate::exact(d) != 0real
    &&& first_crossing(first, second).is_finite()
    &&& second_crossing(first, second).is_finite()
    &&& first.point_from_end(first_crossing(first, second)).is_finite()
}

/// The edges, which are not parallel, cross at `s` of the first and `q` of the second.
pub open spec fn lines_cross_at(first: Edge, second: Edge, s: real, q: real) -> bool {
    &&& cross_product(first, second) != 0real
    &&& crate::geometry::primitives::crossing_laws::place_along(first, s)
        == crate::geometry::primitives::crossing_laws::place_along(second, q)
}

proof fn lemma_crossing_parameters(first: Edge, second: Edge, s: real, q: real)
    requires
        edge_crossing_in_range(first, second),
        lines_cross_at(first, second, s, q),
    ensures
        ({
            let (t, u) = (first_crossing(first, second), second_crossing(first, second));
            &&& crate::num::estimate::size(crate::num::estimate::exact(t) - (1real - s))
                <= edge_crossing_error(first, second)
            &&& crate::num::estimate::size(crate::num::estimate::exact(u) - (1real - q))
                <= edge_crossing_error(first, second)
        }),
{
    let (x1, x2, x3, x4) = (first.start.0, first.end.0, second.start.0, second.end.0);
    let (y1, y2, y3, y4) = (first.start.1, first.end.1, second.start.1, second.end.1);
    let (e, f, d) = crossing_estimates(first, second);
    let (t, u, divisor) = first.crossing_terms(second);
    lemma_cross((x2, x4), (y4, y3), (y2, y4), (x4, x3));
    lemma_cross((x2, x4), (y2, y1), (y2, y4), (x2, x1));
    lemma_cross((x2, x1), (y4, y3), (y2, y1), (x4, x3));
    let (a, b) = (
        crate::geometry::primitives::crossing_laws::place_of(first.start),
        crate::geometry::primitives::crossing_laws::place_of(first.end),
    );
    let (g, h) = (
        crate::geometry::primitives::crossing_laws::place_of(second.start),
        crate::geometry::primitives::crossing_laws::place_of(second.end),
    );
    let (dx, dy) = (b.x - a.x, b.y - a.y);
    let (ex, ey) = (h.x - g.x, h.y - g.y);
    let (m, n) = (1real - s, 1real - q);
    assert(b.x - h.x == m * dx - n * ex) by {
        assert((1real - s) * dx == dx - s * dx) by (nonlinear_arith);
        assert((1real - q) * ex == ex - q * ex) by (nonlinear_arith);
    }
    assert(b.y - h.y == m * dy - n * ey) by {
        assert((1real - s) * dy == dy - s * dy) by (nonlinear_arith);
        assert((1real - q) * ey == ey - q * ey) by (nonlinear_arith);
    }
    crate::geometry::primitives::real_algebra::lemma_crossed(m, n, dx, dy, ex, ey);
    let k = dx * ey - dy * ex;
    assert(d.value == k);
    assert(e.value == m * k);
    assert(f.value == n * k);
    crate::geometry::primitives::real_algebra::lemma_parts(m, k);
    crate::geometry::primitives::real_algebra::lemma_parts(n, k);
    crate::num::estimate::estimated_ratios(e, t, d, divisor);
    crate::num::estimate::estimated_ratios(f, u, d, divisor);
}

/// Two edges that cross, clearly between the ends of both, collide, and the point at which they do is
/// where they cross, up to rounding. Edges whose lines cross clearly beyond an end do not collide.
pub proof fn edges_collide_where_they_cross(first: Edge, second: Edge, s: real, q: real)
    requires
        edge_crossing_in_range(first, second),
        lines_cross_at(first, second, s, q),
    ensures
        ({
            let error = edge_crossing_error(first, second);
            let inside = error <= s <= 1real - error && error <= q <= 1real - error;
            let beyond = s < -error || s > 1real + error || q < -error || q > 1real + error;
            &&& inside && first.bbox().collides_with_rect(second.bbox())
                ==> first.collides_with_edge(second) && first.collides_at(second) is Some
                && crate::geometry::primitives::crossing_laws::is_near(
                first.collides_at(second)->0,
                crate::geometry::primitives::crossing_laws::place_along(first, s),
                edge_crossing_margin(first, second, s),
            )
            &&& beyond ==> !first.collides_with_edge(second) && first.collides_at(second) is None
        }),
{
    let error = edge_crossing_error(first, second);
    let (t, u) = (first_crossing(first, second), second_crossing(first, second));
    let d = first.crossing_terms(second).2;
    lemma_crossing_parameters(first, second, s, q);
    crate::num::estimate::exact_constants();
    crate::num::estimate::exact_values_compare(t, Num::zero());
    crate::num::estimate::exact_values_compare(t, Num::one());
    crate::num::estimate::exact_values_compare(u, Num::zero());
    crate::num::estimate::exact_values_compare(u, Num::one());
    assert(!d.num_eq(Num::zero())) by {
        crate::num::estimate::exact_values_compare(d, Num::zero());
    }
    lemma_crossing_point(first, second, s, q);
}

/// The computed point is near the crossing.
proof fn lemma_crossing_point(first: Edge, second: Edge, s: real, q: real)
    requires
        edge_crossing_in_range(first, second),
        lines_cross_at(first, second, s, q),
    ensures
        crate::geometry::primitives::crossing_laws::is_near(
            first.point_from_end(first_crossing(first, second)),
            crate::geometry::primitives::crossing_laws::place_along(first, s),
            edge_crossing_margin(first, second, s),
        ),
{
    let error = edge_crossing_error(first, second);
    let t = first_crossing(first, second);
    lemma_crossing_parameters(first, second, s, q);
    let (a, b) = (first.start, first.end);
    let (dx, dy) = (a.0.sub(b.0), a.1.sub(b.1));
    let parameter = Estimate { value: 1real - s, error };
    let (x, y) = (difference_estimate((a.0, b.0)), difference_estimate((a.1, b.1)));
    crate::num::estimate::sums_are_near(b.0, t.mul(dx));
    crate::num::estimate::sums_are_near(b.1, t.mul(dy));
    crate::num::estimate::products_are_near(t, dx);
    crate::num::estimate::products_are_near(t, dy);
    crate::num::estimate::differences_are_near(a.0, b.0);
    crate::num::estimate::differences_are_near(a.1, b.1);
    crate::num::estimate::estimated_products(parameter, t, x, dx);
    crate::num::estimate::estimated_products(parameter, t, y, dy);
    crate::num::estimate::estimated_sums(
        Estimate::of(b.0),
        b.0,
        parameter.times(x, t.mul(dx)),
        t.mul(dx),
    );
    crate::num::estimate::estimated_sums(
        Estimate::of(b.1),
        b.1,
        parameter.times(y, t.mul(dy)),
        t.mul(dy),
    );
    crate::geometry::primitives::real_algebra::lemma_from_the_end(s, y.value);
    crate::geometry::primitives::real_algebra::lemma_from_the_end(s, x.value);
}

/// Where two edges meet if they are made longer at their ends: at the crossing of their lines, if it
/// lies clearly in front of both, up to rounding; nowhere, if it lies clearly before one of the ends.
pub proof fn longer_edges_meet_in_front(first: Edge, second: Edge, s: real, q: real)
    requires
        edge_crossing_in_range(first, second),
        lines_cross_at(first, second, s, q),
    ensures
        ({
            let error = edge_crossing_error(first, second);
            let found =
                crate::geometry::shape_modification::candidates::calculate_intersection_in_front(
                first,
                second,
            );
            &&& s > 1real + error && q > 1real + error ==> found is Some
                && crate::geometry::primitives::crossing_laws::is_near(
                found->0,
                crate::geometry::primitives::crossing_laws::place_along(first, s),
                edge_crossing_margin(first, second, s),
            )
            &&& s < 1real - error || q < 1real - error ==> found is None
        }),
{
    let (t, u) = (first_crossing(first, second), second_crossing(first, second));
    let d = first.crossing_terms(second).2;
    lemma_crossing_parameters(first, second, s, q);
    crate::num::estimate::exact_constants();
    crate::num::estimate::exact_values_compare(t, Num::zero());
    crate::num::estimate::exact_values_compare(u, Num::zero());
    assert(!d.num_eq(Num::zero())) by {
        crate::num::estimate::exact_values_compare(d, Num::zero());
    }
    lemma_crossing_point(first, second, s, q);
}

/// The numbers on the way to the crossing of an edge with the ray that leaves a point to the right.
spec fn ray_parameter(point: Point, edge: Edge) -> Num {
    point.1.sub(edge.start.1).div(edge.end.1.sub(edge.start.1))
}

spec fn ray_crossing_estimate(point: Point, edge: Edge) -> Estimate {
    let t = ray_parameter(point, edge);
    let dx = edge.end.0.sub(edge.start.0);
    Estimate::of(edge.start.0).plus(
        difference_estimate((point.1, edge.start.1)).divided_by(
            difference_estimate((edge.end.1, edge.start.1)),
            edge.end.1.sub(edge.start.1),
            t,
        ).times(difference_estimate((edge.end.0, edge.start.0)), t.mul(dx)),
        edge.start.0.add(t.mul(dx)),
    )
}

/// How far to the side the computed crossing may be from where it is.
pub closed spec fn ray_crossing_error(point: Point, edge: Edge) -> real {
    ray_crossing_estimate(point, edge).error
}

/// Nothing overflows on the way to the crossing, and the height of the edge does not vanish.
pub closed spec fn ray_crossing_in_range(point: Point, edge: Edge) -> bool {
    let t = ray_parameter(point, edge);
    let dy = edge.end.1.sub(edge.start.1);
    &&& dy.is_finite()
    &&& crate::num::estimate::exact(dy) != 0real
    &&& edge.start.0.add(t.mul(edge.end.0.sub(edge.start.0))).is_finite()
}

/// An edge crosses the ray that leaves a point to the right only if one of its ends lies above the
/// point and the other does not. Then the crossing is at the height of the point, and where the edge
/// is at that height, up to rounding; it lies to the right of the point, and the ray meets none that
/// lies clearly to its left.
pub proof fn rays_cross_edges_at_their_height(point: Point, edge: Edge, s: real)
    requires
        point.is_finite(),
        edge.start.is_finite(),
        edge.end.is_finite(),
        ray_crossing_in_range(point, edge),
        crate::num::estimate::exact(edge.end.1) != crate::num::estimate::exact(edge.start.1),
        crate::geometry::primitives::crossing_laws::place_along(edge, s).y
            == crate::num::estimate::exact(point.1),
    ensures
        ({
            let found = crate::geometry::primitives::ray_casting::ray_edge_crossing(point, edge);
            let place = crate::geometry::primitives::crossing_laws::place_along(edge, s);
            let (x, y) = (crate::num::estimate::exact(point.0), crate::num::estimate::exact(point.1));
            let above = |p: Point| crate::num::estimate::exact(p.1) > y;
            let error = ray_crossing_error(point, edge);
            &&& match found {
                Some(Point(a, b)) => {
                    &&& above(edge.start) != above(edge.end)
                    &&& b == point.1
                    &&& crate::num::estimate::size(crate::num::estimate::exact(a) - place.x) <= error
                    &&& crate::num::estimate::exact(a) > x
                },
                None => true,
            }
            &&& place.x + error <= x ==> found is None
            &&& above(edge.start) != above(edge.end) && place.x - error > x && !is_hardly_beyond(
                point,
                edge,
            ) ==> found is Some
        }),
{
    let (p, q) = (edge.start, edge.end);
    let t = ray_parameter(point, edge);
    let (dx, dy) = (q.0.sub(p.0), q.1.sub(p.1));
    let x = p.0.add(t.mul(dx));
    crate::num::estimate::exact_values_compare(p.1, point.1);
    crate::num::estimate::exact_values_compare(q.1, point.1);
    crate::num::estimate::sums_are_near(p.0, t.mul(dx));
    crate::num::estimate::products_are_near(t, dx);
    crate::num::estimate::finite_quotients_have_finite_dividends(point.1.sub(p.1), dy);
    crate::num::estimate::differences_are_near(point.1, p.1);
    crate::num::estimate::differences_are_near(q.1, p.1);
    crate::num::estimate::differences_are_near(q.0, p.0);
    let (a, b, c) = (
        difference_estimate((point.1, p.1)),
        difference_estimate((q.1, p.1)),
        difference_estimate((q.0, p.0)),
    );
    crate::num::estimate::estimated_ratios(a, point.1.sub(p.1), b, dy);
    let e = a.divided_by(b, dy, t);
    crate::geometry::primitives::real_algebra::lemma_parts(s, b.value);
    assert(e.value == s);
    crate::num::estimate::estimated_products(e, t, c, dx);
    crate::num::estimate::estimated_sums(Estimate::of(p.0), p.0, e.times(c, t.mul(dx)), t.mul(dx));
    crate::num::estimate::exact_values_compare(x, point.0);
}

/// The computed crossing is to the right of the point by no more than rounding can make up.
pub closed spec fn is_hardly_beyond(point: Point, edge: Edge) -> bool {
    let t = ray_parameter(point, edge);
    edge.start.0.add(t.mul(edge.end.0.sub(edge.start.0))).approx_eq(point.0, Num::epsilon(), 4)
}

spec fn scaled_estimate(x: Num, center: Num, factor: Num) -> Estimate {
    let d = x.sub(center);
    difference_estimate((x, center)).times(Estimate::of(factor), d.mul(factor)).plus(
        Estimate::of(center),
        d.mul(factor).add(center),
    )
}

/// How far the ends of a scaled edge may be from where they should be.
pub closed spec fn scaling_margin(end: Point, center: Point, factor: Num) -> Place {
    Place {
        x: scaled_estimate(end.0, center.0, factor).error,
        y: scaled_estimate(end.1, center.1, factor).error,
    }
}

/// The place that is so many times as far from the center as the end, in the same direction.
pub open spec fn scaled_place(end: Point, center: Point, factor: Num) -> Place {
    let (p, c) = (
        crate::geometry::primitives::crossing_laws::place_of(end),
        crate::geometry::primitives::crossing_laws::place_of(center),
    );
    let f = crate::num::estimate::exact(factor);
    Place { x: c.x + (p.x - c.x) * f, y: c.y + (p.y - c.y) * f }
}

/// A scaled edge has its ends at so many times the distance from the centroid, up to rounding.
pub proof fn edges_are_scaled_about_their_centroid(edge: Edge, factor: Num)
    requires
        edge.scale(factor).start.is_finite(),
        edge.scale(factor).end.is_finite(),
    ensures
        crate::geometry::primitives::crossing_laws::is_near(
            edge.scale(factor).start,
            scaled_place(edge.start, edge.centroid(), factor),
            scaling_margin(edge.start, edge.centroid(), factor),
        ),
        crate::geometry::primitives::crossing_laws::is_near(
            edge.scale(factor).end,
            scaled_place(edge.end, edge.centroid(), factor),
            scaling_margin(edge.end, edge.centroid(), factor),
        ),
{
    let c = edge.centroid();
    lemma_scaled(edge.start.0, c.0, factor);
    lemma_scaled(edge.start.1, c.1, factor);
    lemma_scaled(edge.end.0, c.0, factor);
    lemma_scaled(edge.end.1, c.1, factor);
}

proof fn lemma_scaled(x: Num, center: Num, factor: Num)
    requires
        x.sub(center).mul(factor).add(center).is_finite(),
    ensures
        scaled_estimate(x, center, factor).covers(x.sub(center).mul(factor).add(center)),
{
    let d = x.sub(center);
    crate::num::estimate::sums_are_near(d.mul(factor), center);
    crate::num::estimate::products_are_near(d, factor);
    crate::num::estimate::differences_are_near(x, center);
    let (e, f) = (difference_estimate((x, center)), Estimate::of(factor));
    crate::num::estimate::estimated_products(e, d, f, factor);
    crate::num::estimate::estimated_sums(
        e.times(f, d.mul(factor)),
        d.mul(factor),
        Estimate::of(center),
        center,
    );
}

} // verus!
