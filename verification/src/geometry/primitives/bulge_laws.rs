//! The circles of arcs that are given by their bulge, on exact values.
use vstd::prelude::*;

use crate::geometry::primitives::arc::Arc;
use crate::geometry::primitives::crossing_laws::Place;
use crate::geometry::primitives::point::Point;
use crate::num::estimate::Estimate;
use crate::num::Num;

verus! {

/// The radius of an arc over a chord of the given length.
pub open spec fn bulge_radius(length: real, bulge: real) -> real {
    (length * (bulge * bulge + 1real)) / (4real * bulge)
}

/// How far the center of the circle lies from the chord, on the side away from the arc.
pub open spec fn bulge_offset(length: real, bulge: real) -> real {
    bulge_radius(length, bulge) - (bulge * length) / 2real
}

/// The numbers that are computed for an arc with a bulge.
struct Steps {
    length: Num,
    b: Num,
    square: Num,
    dividend: Num,
    divisor: Num,
    radius: Num,
    sagitta: Num,
    offset: Num,
    dx: Num,
    dy: Num,
    x: Num,
    y: Num,
}

spec fn steps(start: Point, end: Point, bulge: Num) -> Steps {
    let length = start.distance_to(end);
    let b = bulge.abs();
    let square = b.mul(b).add(Num::one());
    let dividend = length.mul(square);
    let divisor = Num::four().mul(b);
    let radius = dividend.div(divisor);
    let sagitta = b.mul(length).div(Num::two());
    let offset = radius.sub(sagitta);
    let dx = end.0.sub(start.0);
    let dy = end.1.sub(start.1);
    Steps {
        length,
        b,
        square,
        dividend,
        divisor,
        radius,
        sagitta,
        offset,
        dx,
        dy,
        x: offset.neg().mul(dy).div(length),
        y: offset.mul(dx).div(length),
    }
}

impl Steps {
    spec fn length_estimate(self, start: Point, end: Point, length: real) -> Estimate {
        let (v, t) = (
            crate::num::estimate::exact(self.length),
            2real * crate::num::estimate::half_step(self.length),
        );
        Estimate {
            value: length,
            error: (t * (2real * v + t)
                + crate::geometry::primitives::edge_laws::squared_distance_error(start, end))
                / length,
        }
    }

    spec fn radius_estimate(self, start: Point, end: Point, length: real) -> Estimate {
        let b = Estimate::of(self.b);
        self.length_estimate(start, end, length).times(
            b.times(b, self.b.mul(self.b)).plus(Estimate::of(Num::one()), self.square),
            self.dividend,
        ).divided_by(
            Estimate::of(Num::four()).times(b, self.divisor),
            self.divisor,
            self.radius,
        )
    }

    spec fn offset_estimate(self, start: Point, end: Point, length: real) -> Estimate {
        self.radius_estimate(start, end, length).minus(
            Estimate::of(self.b).times(
                self.length_estimate(start, end, length),
                self.b.mul(self.length),
            ).over(Num::two(), self.sagitta),
            self.offset,
        )
    }

    spec fn dx_estimate(self, start: Point, end: Point) -> Estimate {
        Estimate::of(end.0).minus(Estimate::of(start.0), self.dx)
    }

    spec fn dy_estimate(self, start: Point, end: Point) -> Estimate {
        Estimate::of(end.1).minus(Estimate::of(start.1), self.dy)
    }

    spec fn x_estimate(self, start: Point, end: Point, length: real) -> Estimate {
        self.offset_estimate(start, end, length).negated().times(
            self.dy_estimate(start, end),
            self.offset.neg().mul(self.dy),
        ).divided_by(self.length_estimate(start, end, length), self.length, self.x)
    }

    spec fn y_estimate(self, start: Point, end: Point, length: real) -> Estimate {
        self.offset_estimate(start, end, length).times(
            self.dx_estimate(start, end),
            self.offset.mul(self.dx),
        ).divided_by(self.length_estimate(start, end, length), self.length, self.y)
    }
}

spec fn center_estimates(start: Point, end: Point, bulge: Num, length: real) -> (
    Estimate,
    Estimate,
) {
    let n = steps(start, end, bulge);
    let (x, y) = (n.x_estimate(start, end, length), n.y_estimate(start, end, length));
    let (hx, hy) = (n.dx.div(Num::two()), n.dy.div(Num::two()));
    let (mx, my) = (start.0.add(hx), start.1.add(hy));
    let center = Arc::circle_from_bulge(start, end, bulge).0;
    let (p, q) = (
        Estimate::of(start.0).plus(n.dx_estimate(start, end).over(Num::two(), hx), mx),
        Estimate::of(start.1).plus(n.dy_estimate(start, end).over(Num::two(), hy), my),
    );
    if bulge.lt(Num::zero()) {
        (p.plus(x.negated(), center.0), q.plus(y.negated(), center.1))
    } else {
        (p.plus(x, center.0), q.plus(y, center.1))
    }
}

/// How far the computed radius may be from what it is.
pub closed spec fn radius_error(start: Point, end: Point, bulge: Num, length: real) -> real {
    steps(start, end, bulge).radius_estimate(start, end, length).error
}

/// How far the computed center may be from where it is.
pub closed spec fn center_margin(start: Point, end: Point, bulge: Num, length: real) -> Place {
    let (x, y) = center_estimates(start, end, bulge, length);
    Place { x: x.error, y: y.error }
}

/// Nothing overflows on the way to the circle, and what is divided by does not vanish.
pub closed spec fn circle_in_range(start: Point, end: Point, bulge: Num) -> bool {
    let n = steps(start, end, bulge);
    let (center, radius) = Arc::circle_from_bulge(start, end, bulge);
    &&& n.length.is_finite()
    &&& crate::num::estimate::exact(n.length) > 0real
    &&& n.divisor.is_finite()
    &&& crate::num::estimate::exact(n.divisor) != 0real
    &&& n.x.is_finite()
    &&& n.y.is_finite()
    &&& center.is_finite()
}

proof fn lemma_radius(start: Point, end: Point, bulge: Num, length: real)
    requires
        circle_in_range(start, end, bulge),
        crate::num::estimate::exact(bulge) != 0real,
        bulge.is_finite(),
        length > 0real,
        length * length == crate::geometry::primitives::edge_laws::squared_distance(start, end),
    ensures
        ({
            let n = steps(start, end, bulge);
            &&& n.length_estimate(start, end, length).covers(n.length)
            &&& n.radius_estimate(start, end, length).covers(n.radius)
            &&& n.offset_estimate(start, end, length).covers(n.offset)
            &&& n.dx.is_finite()
            &&& n.dy.is_finite()
            &&& n.offset.neg().mul(n.dy).is_finite()
            &&& n.offset.mul(n.dx).is_finite()
        }),
{
    let n = steps(start, end, bulge);
    let (v, t) = (
        crate::num::estimate::exact(n.length),
        2real * crate::num::estimate::half_step(n.length),
    );
    crate::num::estimate::exact_constants();
    crate::num::estimate::absolute_values_are_exact(bulge);
    crate::geometry::primitives::edge_laws::distances_are_near(start, end);
    let error = t * (2real * v + t)
        + crate::geometry::primitives::edge_laws::squared_distance_error(start, end);
    crate::geometry::primitives::real_algebra::lemma_near_root(v, length, error);
    crate::num::estimate::finite_quotients_have_finite_dividends(
        n.offset.neg().mul(n.dy),
        n.length,
    );
    crate::num::estimate::finite_quotients_have_finite_dividends(n.offset.mul(n.dx), n.length);
    crate::num::estimate::products_are_near(n.offset, n.dx);
    crate::num::estimate::products_are_near(n.offset.neg(), n.dy);
    crate::num::estimate::differences_are_near(n.radius, n.sagitta);
    crate::num::estimate::finite_quotients_have_finite_dividends(n.dividend, n.divisor);
    crate::num::estimate::products_are_near(n.length, n.square);
    crate::num::estimate::sums_are_near(n.b.mul(n.b), Num::one());
    let (l, b) = (n.length_estimate(start, end, length), Estimate::of(n.b));
    crate::num::estimate::estimated_products(b, n.b, b, n.b);
    let square = b.times(b, n.b.mul(n.b)).plus(Estimate::of(Num::one()), n.square);
    crate::num::estimate::estimated_sums(
        b.times(b, n.b.mul(n.b)),
        n.b.mul(n.b),
        Estimate::of(Num::one()),
        Num::one(),
    );
    crate::num::estimate::estimated_products(l, n.length, square, n.square);
    let four = Estimate::of(Num::four());
    crate::num::estimate::estimated_products(four, Num::four(), b, n.b);
    assert(four.times(b, n.divisor).value == 4real * b.value);
    crate::num::estimate::estimated_ratios(
        l.times(square, n.dividend),
        n.dividend,
        four.times(b, n.divisor),
        n.divisor,
    );
    let two = Num::two();
    crate::num::estimate::finite_quotients_have_finite_dividends(n.b.mul(n.length), two);
    crate::num::estimate::estimated_products(b, n.b, l, n.length);
    crate::num::estimate::estimated_quotients(
        b.times(l, n.b.mul(n.length)),
        n.b.mul(n.length),
        two,
    );
    crate::num::estimate::estimated_differences(
        n.radius_estimate(start, end, length),
        n.radius,
        b.times(l, n.b.mul(n.length)).over(two, n.sagitta),
        n.sagitta,
    );
}

proof fn lemma_center(start: Point, end: Point, bulge: Num, length: real)
    requires
        circle_in_range(start, end, bulge),
        crate::num::estimate::exact(bulge) != 0real,
        bulge.is_finite(),
        length > 0real,
        length * length == crate::geometry::primitives::edge_laws::squared_distance(start, end),
    ensures
        ({
            let center = Arc::circle_from_bulge(start, end, bulge).0;
            let (x, y) = center_estimates(start, end, bulge, length);
            x.covers(center.0) && y.covers(center.1)
        }),
{
    let n = steps(start, end, bulge);
    lemma_radius(start, end, bulge, length);
    crate::num::estimate::exact_constants();
    let two = Num::two();
    let (hx, hy) = (n.dx.div(two), n.dy.div(two));
    let (mx, my) = (start.0.add(hx), start.1.add(hy));
    let offset = n.offset_estimate(start, end, length);
    let l = n.length_estimate(start, end, length);
    let (dx, dy) = (n.dx_estimate(start, end), n.dy_estimate(start, end));
    crate::num::estimate::differences_are_near(end.0, start.0);
    crate::num::estimate::differences_are_near(end.1, start.1);
    crate::num::estimate::estimated_negations(offset, n.offset);
    crate::num::estimate::estimated_products(offset.negated(), n.offset.neg(), dy, n.dy);
    crate::num::estimate::estimated_products(offset, n.offset, dx, n.dx);
    crate::num::estimate::estimated_ratios(
        offset.negated().times(dy, n.offset.neg().mul(n.dy)),
        n.offset.neg().mul(n.dy),
        l,
        n.length,
    );
    crate::num::estimate::estimated_ratios(
        offset.times(dx, n.offset.mul(n.dx)),
        n.offset.mul(n.dx),
        l,
        n.length,
    );
    let (x, y) = (n.x_estimate(start, end, length), n.y_estimate(start, end, length));
    crate::num::estimate::estimated_negations(x, n.x);
    crate::num::estimate::estimated_negations(y, n.y);
    let (ex, ey) = if bulge.lt(Num::zero()) {
        (n.x.neg(), n.y.neg())
    } else {
        (n.x, n.y)
    };
    crate::num::estimate::sums_are_near(mx, ex);
    crate::num::estimate::sums_are_near(my, ey);
    crate::num::estimate::sums_are_near(start.0, hx);
    crate::num::estimate::sums_are_near(start.1, hy);
    crate::num::estimate::estimated_quotients(dx, n.dx, two);
    crate::num::estimate::estimated_quotients(dy, n.dy, two);
    let (px, py) = (
        Estimate::of(start.0).plus(dx.over(two, hx), mx),
        Estimate::of(start.1).plus(dy.over(two, hy), my),
    );
    crate::num::estimate::estimated_sums(Estimate::of(start.0), start.0, dx.over(two, hx), hx);
    crate::num::estimate::estimated_sums(Estimate::of(start.1), start.1, dy.over(two, hy), hy);
    if bulge.lt(Num::zero()) {
        crate::num::estimate::estimated_sums(px, mx, x.negated(), ex);
        crate::num::estimate::estimated_sums(py, my, y.negated(), ey);
    } else {
        crate::num::estimate::estimated_sums(px, mx, x, ex);
        crate::num::estimate::estimated_sums(py, my, y, ey);
    }
}

/// The circle of an arc over a chord: its radius and its center are those of a circle through both ends
/// of the chord, up to rounding. The center lies beside the chord by the offset, to the left for a
/// positive bulge and to the right for a negative one; for a bulge beyond one the offset is negative.
pub proof fn bulges_make_circles_through_both_ends(
    start: Point,
    end: Point,
    bulge: Num,
    length: real,
) -> (center: Place)
    requires
        circle_in_range(start, end, bulge),
        crate::num::estimate::exact(bulge) != 0real,
        bulge.is_finite(),
        length > 0real,
        length * length == crate::geometry::primitives::edge_laws::squared_distance(start, end),
    ensures
        ({
            let b = crate::num::estimate::size(crate::num::estimate::exact(bulge));
            let r = bulge_radius(length, b);
            let (p, q) = (
                crate::geometry::primitives::crossing_laws::place_of(start),
                crate::geometry::primitives::crossing_laws::place_of(end),
            );
            let found = Arc::circle_from_bulge(start, end, bulge);
            let side = (q.x - p.x) * (center.y - p.y) - (q.y - p.y) * (center.x - p.x);
            &&& crate::num::estimate::size(crate::num::estimate::exact(found.1) - r)
                <= radius_error(start, end, bulge, length)
            &&& crate::geometry::primitives::crossing_laws::is_near(
                found.0,
                center,
                center_margin(start, end, bulge, length),
            )
            &&& (center.x - p.x) * (center.x - p.x) + (center.y - p.y) * (center.y - p.y) == r * r
            &&& (center.x - q.x) * (center.x - q.x) + (center.y - q.y) * (center.y - q.y) == r * r
            &&& side == if crate::num::estimate::exact(bulge) < 0real {
                -(bulge_offset(length, b) * length)
            } else {
                bulge_offset(length, b) * length
            }
        }),
{
    lemma_radius(start, end, bulge, length);
    lemma_center(start, end, bulge, length);
    crate::num::estimate::exact_constants();
    crate::num::estimate::absolute_values_are_exact(bulge);
    crate::num::estimate::exact_values_compare(bulge, Num::zero());
    let b = crate::num::estimate::size(crate::num::estimate::exact(bulge));
    let (p, q) = (
        crate::geometry::primitives::crossing_laws::place_of(start),
        crate::geometry::primitives::crossing_laws::place_of(end),
    );
    let (x, y) = (q.x - p.x, q.y - p.y);
    let k = bulge_offset(length, b);
    crate::geometry::primitives::real_algebra::lemma_square_of_negative(x);
    crate::geometry::primitives::real_algebra::lemma_square_of_negative(y);
    let (u, v) = (x / length, y / length);
    let s = if crate::num::estimate::exact(bulge) < 0real {
        -k
    } else {
        k
    };
    let center = Place { x: p.x + x / 2real - s * v, y: p.y + y / 2real + s * u };
    crate::geometry::primitives::real_algebra::lemma_moved_divisor(k, y, length);
    crate::geometry::primitives::real_algebra::lemma_moved_divisor(k, x, length);
    crate::geometry::primitives::real_algebra::lemma_negative_times(k, u);
    crate::geometry::primitives::real_algebra::lemma_negative_times(k, v);
    crate::geometry::primitives::real_algebra::lemma_negative_times(k, length);
    let (ex, ey) = center_estimates(start, end, bulge, length);
    assert(ex.value == center.x);
    assert(ey.value == center.y);
    crate::geometry::primitives::real_algebra::lemma_unit(x, y, length);
    crate::geometry::primitives::real_algebra::lemma_square_of_negative(k);
    crate::geometry::primitives::real_algebra::lemma_radius_and_offset(
        length,
        b,
        bulge_radius(length, b),
    );
    crate::geometry::primitives::real_algebra::lemma_beside_chord(x, y, u, v, s, length);
    center
}

} // verus!
