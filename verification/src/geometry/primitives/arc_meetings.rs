//! Where two arcs meet, on exact values.
use vstd::prelude::*;

use crate::geometry::primitives::arc::Arc;
use crate::geometry::primitives::crossing_laws::Place;
use crate::geometry::primitives::point::Point;
use crate::math::Elementary;
use crate::num::estimate::Estimate;
use crate::num::Num;

verus! {

/// The square of the distance of the centers of two arcs.
pub open spec fn squared_distance(first: Arc, second: Arc) -> real {
    let (p, q) = (
        crate::geometry::primitives::crossing_laws::place_of(first.center),
        crate::geometry::primitives::crossing_laws::place_of(second.center),
    );
    (q.x - p.x) * (q.x - p.x) + (q.y - p.y) * (q.y - p.y)
}

/// How far a place lies to the right of the line from one center to the other, whose distance is
/// given.
pub open spec fn deviation(first: Arc, second: Arc, distance: real, place: Place) -> real {
    let (p, q) = (
        crate::geometry::primitives::crossing_laws::place_of(first.center),
        crate::geometry::primitives::crossing_laws::place_of(second.center),
    );
    (place.x - p.x) * ((q.y - p.y) / distance) - (place.y - p.y) * ((q.x - p.x) / distance)
}

/// The numbers that are computed for two arcs.
struct Steps {
    dx: Num,
    dy: Num,
    squared: Num,
    d: Num,
    r: Num,
    q: Num,
    dividend: Num,
    a: Num,
    height_squared: Num,
    height: Num,
    x: Num,
    y: Num,
    ux: Num,
    uy: Num,
    base_x: Num,
    base_y: Num,
}

spec fn steps(first: Arc, second: Arc) -> Steps {
    let dx = first.center.0.sub(second.center.0);
    let dy = first.center.1.sub(second.center.1);
    let squared = dx.mul(dx).add(dy.mul(dy));
    let d = squared.sqrt();
    let r = first.radius.mul(first.radius);
    let q = second.radius.mul(second.radius);
    let dividend = r.sub(q).add(d.mul(d));
    let a = dividend.div(Num::two().mul(d));
    let height_squared = r.sub(a.mul(a));
    let height = height_squared.sqrt();
    let x = second.center.0.sub(first.center.0);
    let y = second.center.1.sub(first.center.1);
    let ux = x.div(d);
    let uy = y.div(d);
    Steps {
        dx,
        dy,
        squared,
        d,
        r,
        q,
        dividend,
        a,
        height_squared,
        height,
        x,
        y,
        ux,
        uy,
        base_x: first.center.0.add(a.mul(ux)),
        base_y: first.center.1.add(a.mul(uy)),
    }
}

spec fn left_point(first: Arc, second: Arc) -> Point {
    let n = steps(first, second);
    Point(n.base_x.sub(n.uy.mul(n.height)), n.base_y.add(n.ux.mul(n.height)))
}

spec fn right_point(first: Arc, second: Arc) -> Point {
    let n = steps(first, second);
    Point(n.base_x.add(n.uy.mul(n.height)), n.base_y.sub(n.ux.mul(n.height)))
}

impl Steps {
    spec fn squared_estimate(self, first: Arc, second: Arc) -> Estimate {
        let x = Estimate::of(first.center.0).minus(Estimate::of(second.center.0), self.dx);
        let y = Estimate::of(first.center.1).minus(Estimate::of(second.center.1), self.dy);
        x.times(x, self.dx.mul(self.dx)).plus(y.times(y, self.dy.mul(self.dy)), self.squared)
    }

    /// The distance of the centers.
    spec fn d_estimate(self, first: Arc, second: Arc, distance: real) -> Estimate {
        let (r, t) = (
            crate::num::estimate::exact(self.d),
            2real * crate::num::estimate::half_step(self.d),
        );
        Estimate {
            value: distance,
            error: (self.squared_estimate(first, second).error + t * (2real * r + t)) / distance,
        }
    }

    spec fn r_estimate(self, first: Arc) -> Estimate {
        let r = Estimate::of(first.radius);
        r.times(r, self.r)
    }

    spec fn a_estimate(self, first: Arc, second: Arc, distance: real) -> Estimate {
        let q = Estimate::of(second.radius);
        let d = self.d_estimate(first, second, distance);
        self.r_estimate(first).minus(q.times(q, self.q), self.r.sub(self.q)).plus(
            d.times(d, self.d.mul(self.d)),
            self.dividend,
        ).divided_by(
            Estimate::of(Num::two()).times(d, Num::two().mul(self.d)),
            Num::two().mul(self.d),
            self.a,
        )
    }

    spec fn height_squared_estimate(self, first: Arc, second: Arc, distance: real) -> Estimate {
        let a = self.a_estimate(first, second, distance);
        self.r_estimate(first).minus(a.times(a, self.a.mul(self.a)), self.height_squared)
    }

    /// The distance from the line through the centers, which is `side`.
    spec fn height_estimate(self, first: Arc, second: Arc, distance: real, side: real) -> Estimate {
        let (r, t) = (
            crate::num::estimate::exact(self.height),
            2real * crate::num::estimate::half_step(self.height),
        );
        Estimate {
            value: side,
            error: (self.height_squared_estimate(first, second, distance).error + t * (2real * r
                + t)) / side,
        }
    }

    spec fn ux_estimate(self, first: Arc, second: Arc, distance: real) -> Estimate {
        Estimate::of(second.center.0).minus(Estimate::of(first.center.0), self.x).divided_by(
            self.d_estimate(first, second, distance),
            self.d,
            self.ux,
        )
    }

    spec fn uy_estimate(self, first: Arc, second: Arc, distance: real) -> Estimate {
        Estimate::of(second.center.1).minus(Estimate::of(first.center.1), self.y).divided_by(
            self.d_estimate(first, second, distance),
            self.d,
            self.uy,
        )
    }

    spec fn base_x_estimate(self, first: Arc, second: Arc, distance: real) -> Estimate {
        Estimate::of(first.center.0).plus(
            self.a_estimate(first, second, distance).times(
                self.ux_estimate(first, second, distance),
                self.a.mul(self.ux),
            ),
            self.base_x,
        )
    }

    spec fn base_y_estimate(self, first: Arc, second: Arc, distance: real) -> Estimate {
        Estimate::of(first.center.1).plus(
            self.a_estimate(first, second, distance).times(
                self.uy_estimate(first, second, distance),
                self.a.mul(self.uy),
            ),
            self.base_y,
        )
    }

    spec fn left(self, first: Arc, second: Arc, distance: real, side: real) -> (
        Estimate,
        Estimate,
    ) {
        let h = self.height_estimate(first, second, distance, side);
        let p = left_point(first, second);
        (
            self.base_x_estimate(first, second, distance).minus(
                self.uy_estimate(first, second, distance).times(h, self.uy.mul(self.height)),
                p.0,
            ),
            self.base_y_estimate(first, second, distance).plus(
                self.ux_estimate(first, second, distance).times(h, self.ux.mul(self.height)),
                p.1,
            ),
        )
    }

    spec fn right(self, first: Arc, second: Arc, distance: real, side: real) -> (
        Estimate,
        Estimate,
    ) {
        let h = self.height_estimate(first, second, distance, side);
        let p = right_point(first, second);
        (
            self.base_x_estimate(first, second, distance).plus(
                self.uy_estimate(first, second, distance).times(h, self.uy.mul(self.height)),
                p.0,
            ),
            self.base_y_estimate(first, second, distance).minus(
                self.ux_estimate(first, second, distance).times(h, self.ux.mul(self.height)),
                p.1,
            ),
        )
    }
}

/// How far the computed distance of the centers may be from what it is.
pub closed spec fn distance_error(first: Arc, second: Arc, distance: real) -> real {
    steps(first, second).d_estimate(first, second, distance).error
}

/// How far the computed square of the deviation may be from what it is.
pub closed spec fn deviation_error(first: Arc, second: Arc, distance: real) -> real {
    steps(first, second).height_squared_estimate(first, second, distance).error
}

/// How far the computed meeting point may be from the one at that deviation.
pub closed spec fn meeting_margin(
    first: Arc,
    second: Arc,
    distance: real,
    deviation: real,
) -> Place {
    let n = steps(first, second);
    let (x, y) = if deviation < 0real {
        n.left(first, second, distance, -deviation)
    } else {
        n.right(first, second, distance, deviation)
    };
    Place { x: x.error, y: y.error }
}

/// Nothing overflows on the way to the meeting points.
pub closed spec fn stays_in_range(first: Arc, second: Arc) -> bool {
    let n = steps(first, second);
    let (p, q) = (left_point(first, second), right_point(first, second));
    &&& n.d.is_finite()
    &&& n.d.mul(n.d).is_finite()
    &&& Num::two().mul(n.d).is_finite()
    &&& n.r.is_finite()
    &&& n.q.is_finite()
    &&& n.a.is_finite()
    &&& n.height_squared.is_finite()
    &&& n.height.is_finite()
    &&& crate::num::estimate::exact(Num::two().mul(n.d)) != 0real
    &&& crate::num::estimate::exact(n.d) > 0real
    &&& p.is_finite()
    &&& q.is_finite()
}

proof fn lemma_squared(first: Arc, second: Arc)
    requires
        steps(first, second).d.is_finite(),
    ensures
        ({
            let n = steps(first, second);
            &&& n.squared_estimate(first, second).covers(n.squared)
            &&& n.squared_estimate(first, second).value == squared_distance(first, second)
        }),
{
    let n = steps(first, second);
    let (c, e) = (first.center, second.center);
    crate::num::estimate::roots_are_near(n.squared);
    crate::num::estimate::sums_are_near(n.dx.mul(n.dx), n.dy.mul(n.dy));
    crate::num::estimate::products_are_near(n.dx, n.dx);
    crate::num::estimate::products_are_near(n.dy, n.dy);
    crate::num::estimate::differences_are_near(c.0, e.0);
    crate::num::estimate::differences_are_near(c.1, e.1);
    let (x, y) = (
        Estimate::of(c.0).minus(Estimate::of(e.0), n.dx),
        Estimate::of(c.1).minus(Estimate::of(e.1), n.dy),
    );
    crate::num::estimate::estimated_products(x, n.dx, x, n.dx);
    crate::num::estimate::estimated_products(y, n.dy, y, n.dy);
    crate::num::estimate::estimated_sums(
        x.times(x, n.dx.mul(n.dx)),
        n.dx.mul(n.dx),
        y.times(y, n.dy.mul(n.dy)),
        n.dy.mul(n.dy),
    );
    crate::geometry::primitives::real_algebra::lemma_square_of_negative(x.value);
    crate::geometry::primitives::real_algebra::lemma_square_of_negative(y.value);
}

proof fn lemma_distance(first: Arc, second: Arc, distance: real)
    requires
        stays_in_range(first, second),
        distance > 0real,
        distance * distance == squared_distance(first, second),
    ensures
        steps(first, second).d_estimate(first, second, distance).covers(steps(first, second).d),
{
    let n = steps(first, second);
    let (r, t) = (
        crate::num::estimate::exact(n.d),
        2real * crate::num::estimate::half_step(n.d),
    );
    lemma_squared(first, second);
    crate::num::estimate::roots_are_near(n.squared);
    let error = n.squared_estimate(first, second).error + t * (2real * r + t);
    crate::geometry::primitives::real_algebra::lemma_near_root(r, distance, error);
}

/// The estimates on the way to the meeting points.
proof fn lemma_foot(first: Arc, second: Arc, distance: real)
    requires
        stays_in_range(first, second),
        distance > 0real,
        distance * distance == squared_distance(first, second),
    ensures
        ({
            let n = steps(first, second);
            &&& n.a_estimate(first, second, distance).covers(n.a)
            &&& n.height_squared_estimate(first, second, distance).covers(n.height_squared)
            &&& n.r_estimate(first).covers(n.r)
        }),
{
    let n = steps(first, second);
    lemma_distance(first, second, distance);
    crate::num::estimate::exact_constants();
    let d = n.d_estimate(first, second, distance);
    let (r, q) = (first.radius, second.radius);
    crate::num::estimate::products_are_near(r, r);
    crate::num::estimate::products_are_near(q, q);
    let (e, f) = (Estimate::of(r), Estimate::of(q));
    crate::num::estimate::estimated_products(e, r, e, r);
    crate::num::estimate::estimated_products(f, q, f, q);
    crate::num::estimate::finite_quotients_have_finite_dividends(n.dividend, Num::two().mul(n.d));
    crate::num::estimate::sums_are_near(n.r.sub(n.q), n.d.mul(n.d));
    let (rr, qq) = (e.times(e, n.r), f.times(f, n.q));
    crate::num::estimate::estimated_differences(rr, n.r, qq, n.q);
    crate::num::estimate::estimated_products(d, n.d, d, n.d);
    let dd = d.times(d, n.d.mul(n.d));
    let difference = rr.minus(qq, n.r.sub(n.q));
    crate::num::estimate::estimated_sums(difference, n.r.sub(n.q), dd, n.d.mul(n.d));
    let two = Estimate::of(Num::two());
    crate::num::estimate::estimated_products(two, Num::two(), d, n.d);
    let divisor = two.times(d, Num::two().mul(n.d));
    assert(divisor.value == 2real * distance);
    crate::num::estimate::estimated_ratios(
        difference.plus(dd, n.dividend),
        n.dividend,
        divisor,
        Num::two().mul(n.d),
    );
    let a = n.a_estimate(first, second, distance);
    crate::num::estimate::differences_are_near(n.r, n.a.mul(n.a));
    crate::num::estimate::estimated_products(a, n.a, a, n.a);
    crate::num::estimate::estimated_differences(rr, n.r, a.times(a, n.a.mul(n.a)), n.a.mul(n.a));
}

proof fn lemma_base(first: Arc, second: Arc, distance: real)
    requires
        stays_in_range(first, second),
        distance > 0real,
        distance * distance == squared_distance(first, second),
    ensures
        ({
            let n = steps(first, second);
            &&& n.ux_estimate(first, second, distance).covers(n.ux)
            &&& n.uy_estimate(first, second, distance).covers(n.uy)
            &&& n.base_x_estimate(first, second, distance).covers(n.base_x)
            &&& n.base_y_estimate(first, second, distance).covers(n.base_y)
            &&& n.uy.mul(n.height).is_finite()
            &&& n.ux.mul(n.height).is_finite()
        }),
{
    let n = steps(first, second);
    lemma_distance(first, second, distance);
    lemma_foot(first, second, distance);
    let d = n.d_estimate(first, second, distance);
    let a = n.a_estimate(first, second, distance);
    let (hx, hy) = (n.uy.mul(n.height), n.ux.mul(n.height));
    crate::num::estimate::differences_are_near(n.base_x, hx);
    crate::num::estimate::sums_are_near(n.base_y, hy);
    let (c, e) = (first.center, second.center);
    crate::num::estimate::sums_are_near(c.0, n.a.mul(n.ux));
    crate::num::estimate::sums_are_near(c.1, n.a.mul(n.uy));
    crate::num::estimate::products_are_near(n.a, n.ux);
    crate::num::estimate::products_are_near(n.a, n.uy);
    crate::num::estimate::finite_quotients_have_finite_dividends(n.x, n.d);
    crate::num::estimate::finite_quotients_have_finite_dividends(n.y, n.d);
    crate::num::estimate::differences_are_near(e.0, c.0);
    crate::num::estimate::differences_are_near(e.1, c.1);
    let (x, y) = (
        Estimate::of(e.0).minus(Estimate::of(c.0), n.x),
        Estimate::of(e.1).minus(Estimate::of(c.1), n.y),
    );
    crate::num::estimate::estimated_differences(Estimate::of(e.0), e.0, Estimate::of(c.0), c.0);
    crate::num::estimate::estimated_differences(Estimate::of(e.1), e.1, Estimate::of(c.1), c.1);
    crate::num::estimate::estimated_ratios(x, n.x, d, n.d);
    crate::num::estimate::estimated_ratios(y, n.y, d, n.d);
    let (ux, uy) = (
        n.ux_estimate(first, second, distance),
        n.uy_estimate(first, second, distance),
    );
    crate::num::estimate::estimated_products(a, n.a, ux, n.ux);
    crate::num::estimate::estimated_products(a, n.a, uy, n.uy);
    crate::num::estimate::estimated_sums(
        Estimate::of(c.0),
        c.0,
        a.times(ux, n.a.mul(n.ux)),
        n.a.mul(n.ux),
    );
    crate::num::estimate::estimated_sums(
        Estimate::of(c.1),
        c.1,
        a.times(uy, n.a.mul(n.uy)),
        n.a.mul(n.uy),
    );
}

proof fn lemma_height(first: Arc, second: Arc, distance: real, side: real)
    requires
        stays_in_range(first, second),
        distance > 0real,
        distance * distance == squared_distance(first, second),
        side > 0real,
        side * side == steps(first, second).height_squared_estimate(first, second, distance).value,
        crate::num::estimate::exact(steps(first, second).height) > 0real,
    ensures
        steps(first, second).height_estimate(first, second, distance, side).covers(
            steps(first, second).height,
        ),
{
    let n = steps(first, second);
    let (r, t) = (
        crate::num::estimate::exact(n.height),
        2real * crate::num::estimate::half_step(n.height),
    );
    lemma_foot(first, second, distance);
    crate::num::estimate::roots_are_near(n.height_squared);
    let error = n.height_squared_estimate(first, second, distance).error + t * (2real * r + t);
    crate::geometry::primitives::real_algebra::lemma_near_root(r, side, error);
}

/// Both computed points have their estimates.
proof fn lemma_points(first: Arc, second: Arc, distance: real, side: real)
    requires
        stays_in_range(first, second),
        distance > 0real,
        distance * distance == squared_distance(first, second),
        side > 0real,
        side * side == steps(first, second).height_squared_estimate(first, second, distance).value,
        crate::num::estimate::exact(steps(first, second).height) > 0real,
    ensures
        ({
            let n = steps(first, second);
            let (p, q) = (left_point(first, second), right_point(first, second));
            &&& n.left(first, second, distance, side).0.covers(p.0)
            &&& n.left(first, second, distance, side).1.covers(p.1)
            &&& n.right(first, second, distance, side).0.covers(q.0)
            &&& n.right(first, second, distance, side).1.covers(q.1)
        }),
{
    let n = steps(first, second);
    lemma_base(first, second, distance);
    lemma_height(first, second, distance, side);
    let h = n.height_estimate(first, second, distance, side);
    let (ux, uy) = (
        n.ux_estimate(first, second, distance),
        n.uy_estimate(first, second, distance),
    );
    let (bx, by) = (
        n.base_x_estimate(first, second, distance),
        n.base_y_estimate(first, second, distance),
    );
    let (hx, hy) = (n.uy.mul(n.height), n.ux.mul(n.height));
    crate::num::estimate::estimated_products(uy, n.uy, h, n.height);
    crate::num::estimate::estimated_products(ux, n.ux, h, n.height);
    let (ex, ey) = (uy.times(h, hx), ux.times(h, hy));
    crate::num::estimate::estimated_differences(bx, n.base_x, ex, hx);
    crate::num::estimate::estimated_sums(by, n.base_y, ey, hy);
    crate::num::estimate::estimated_sums(bx, n.base_x, ex, hx);
    crate::num::estimate::estimated_differences(by, n.base_y, ey, hy);
}

/// The place lies on the circles of both arcs, clearly off the line through their centers, and what
/// is near it lies on both arcs.
pub open spec fn is_shared<M: Fn(Elementary) -> Num>(
    first: Arc,
    second: Arc,
    distance: real,
    place: Place,
    math: &M,
) -> bool {
    let w = deviation(first, second, distance, place);
    &&& crate::geometry::primitives::crossing_laws::is_on_circle(place, first.center, first.radius)
    &&& crate::geometry::primitives::crossing_laws::is_on_circle(
        place,
        second.center,
        second.radius,
    )
    &&& w * w > crate::num::estimate::exact(crate::geometry::primitives::arc::distance_epsilon())
        + deviation_error(first, second, distance)
    &&& forall|q: Point|
        crate::geometry::primitives::crossing_laws::is_near(
            q,
            place,
            meeting_margin(first, second, distance, w),
        ) ==> #[trigger] first.collides_with_point(q, math) && second.collides_with_point(q, math)
}

/// The radii are those of circles, and the rounding of the distance is less than its tolerance.
pub open spec fn is_tolerated(first: Arc, second: Arc, distance: real) -> bool {
    let eps = crate::geometry::primitives::arc::distance_epsilon();
    let (r, s) = (
        crate::num::estimate::exact(first.radius),
        crate::num::estimate::exact(second.radius),
    );
    let (far, deep) = (
        first.radius.add(second.radius).add(eps),
        first.radius.sub(second.radius).abs().sub(eps),
    );
    let error = distance_error(first, second, distance);
    &&& r > 0real
    &&& s > 0real
    &&& far.is_finite()
    &&& deep.is_finite()
    &&& distance - error > crate::num::estimate::exact(eps)
    &&& r + s + error <= crate::num::estimate::exact(far)
    &&& crate::num::estimate::exact(deep) <= crate::num::estimate::size(r - s) - error
}

/// What the geometry says of a shared place.
proof fn lemma_shared_place(first: Arc, second: Arc, distance: real, place: Place)
    requires
        distance > 0real,
        distance * distance == squared_distance(first, second),
        crate::num::estimate::exact(first.radius) > 0real,
        crate::num::estimate::exact(second.radius) > 0real,
        crate::geometry::primitives::crossing_laws::is_on_circle(
            place,
            first.center,
            first.radius,
        ),
        crate::geometry::primitives::crossing_laws::is_on_circle(
            place,
            second.center,
            second.radius,
        ),
    ensures
        ({
            let n = steps(first, second);
            let (r, s) = (
                crate::num::estimate::exact(first.radius),
                crate::num::estimate::exact(second.radius),
            );
            let w = deviation(first, second, distance, place);
            let c = crate::geometry::primitives::crossing_laws::place_of(first.center);
            let a = n.a_estimate(first, second, distance).value;
            let (u, v) = (
                n.ux_estimate(first, second, distance).value,
                n.uy_estimate(first, second, distance).value,
            );
            &&& w * w == n.height_squared_estimate(first, second, distance).value
            &&& place.x == c.x + a * u + w * v
            &&& place.y == c.y + a * v - w * u
            &&& distance <= r + s
            &&& crate::num::estimate::size(r - s) <= distance
        }),
{
    crate::num::estimate::exact_constants();
    let n = steps(first, second);
    let (r, s) = (
        crate::num::estimate::exact(first.radius),
        crate::num::estimate::exact(second.radius),
    );
    let (c, e) = (
        crate::geometry::primitives::crossing_laws::place_of(first.center),
        crate::geometry::primitives::crossing_laws::place_of(second.center),
    );
    let (x, y) = (e.x - c.x, e.y - c.y);
    let (p, q) = (place.x - c.x, place.y - c.y);
    assert(p - x == place.x - e.x && q - y == place.y - e.y);
    crate::geometry::primitives::real_algebra::lemma_on_both_circles(p, q, x, y, distance, r, s);
    let (u, v) = (x / distance, y / distance);
    let (a, w) = (p * u + q * v, p * v - q * u);
    crate::geometry::primitives::real_algebra::lemma_circles_in_reach(a, w, distance, r, s);
}

/// The arcs collide, if the point on the side of the shared place lies on both.
proof fn lemma_collision<M: Fn(Elementary) -> Num>(
    first: Arc,
    second: Arc,
    distance: real,
    math: &M,
)
    requires
        stays_in_range(first, second),
        is_tolerated(first, second, distance),
        distance > 0real,
        distance * distance == squared_distance(first, second),
        distance <= crate::num::estimate::exact(first.radius) + crate::num::estimate::exact(
            second.radius,
        ),
        crate::num::estimate::size(
            crate::num::estimate::exact(first.radius) - crate::num::estimate::exact(second.radius),
        ) <= distance,
        first.bbox.collides_with_rect(second.bbox),
        steps(first, second).height_squared.gt(
            crate::geometry::primitives::arc::distance_epsilon(),
        ),
    ensures
        first.collides_with_arc(&second, math) == (first.spec_both_contain(
            &second,
            left_point(first, second),
            math,
        ) || first.spec_both_contain(&second, right_point(first, second), math)),
{
    let n = steps(first, second);
    let eps = crate::geometry::primitives::arc::distance_epsilon();
    let (far, deep) = (
        first.radius.add(second.radius).add(eps),
        first.radius.sub(second.radius).abs().sub(eps),
    );
    lemma_distance(first, second, distance);
    assert(eps.is_finite());
    crate::num::estimate::exact_constants();
    crate::num::estimate::exact_values_compare(n.d, eps);
    crate::num::estimate::exact_values_compare(n.d, far);
    crate::num::estimate::exact_values_compare(n.d, deep);
    assert(n.d == first.center.distance_to(second.center));
    let h = n.height_squared;
    assert(!h.lt(eps.neg()) && !h.abs().le(eps)) by {
        crate::num::estimate::negations_are_exact(eps);
        crate::num::estimate::exact_values_compare(h, eps);
        crate::num::estimate::exact_values_compare(h, eps.neg());
        crate::num::estimate::exact_values_compare(eps, Num::zero());
        crate::num::estimate::absolute_values_are_exact(h);
        crate::num::estimate::exact_values_compare(h.abs(), eps);
    }
    assert(!n.d.le(eps) && !n.d.gt(far) && !n.d.lt(deep));
}

/// Two arcs whose circles share a place, on either side of the line through their centers, collide if
/// what is near it lies on both.
pub proof fn arcs_that_share_a_place_collide<M: Fn(Elementary) -> Num>(
    first: Arc,
    second: Arc,
    distance: real,
    place: Place,
    math: &M,
)
    requires
        distance > 0real,
        distance * distance == squared_distance(first, second),
        stays_in_range(first, second),
        is_tolerated(first, second, distance),
        first.bbox.collides_with_rect(second.bbox),
        is_shared(first, second, distance, place, math),
    ensures
        first.collides_with_arc(&second, math),
{
    let n = steps(first, second);
    let eps = crate::geometry::primitives::arc::distance_epsilon();
    let w = deviation(first, second, distance, place);
    let square = w * w;
    lemma_shared_place(first, second, distance, place);
    lemma_foot(first, second, distance);
    assert(eps.is_finite());
    crate::num::estimate::exact_constants();
    crate::num::estimate::exact_values_compare(n.height_squared, eps);
    crate::num::estimate::exact_values_compare(eps, Num::zero());
    crate::num::estimate::lemma_sign(n.height_squared);
    crate::num::square_root::lemma_positive_root(n.height_squared);
    crate::num::estimate::lemma_sign(n.height);
    lemma_collision(first, second, distance, math);
    let (u, v) = (
        n.ux_estimate(first, second, distance).value,
        n.uy_estimate(first, second, distance).value,
    );
    crate::geometry::primitives::real_algebra::lemma_square(w);
    crate::geometry::primitives::real_algebra::lemma_square_of_negative(w);
    let margin = meeting_margin(first, second, distance, w);
    if w < 0real {
        lemma_points(first, second, distance, -w);
        crate::geometry::primitives::real_algebra::lemma_negative_factor(v, w);
        crate::geometry::primitives::real_algebra::lemma_negative_factor(u, w);
        let point = left_point(first, second);
        assert(crate::geometry::primitives::crossing_laws::is_near(point, place, margin));
        assert(first.collides_with_point(point, math));
    } else {
        assert(w != 0real) by {
            if w == 0real {
                assert(square == 0real) by (nonlinear_arith)
                    requires
                        w == 0real,
                        square == w * w,
                ;
            }
        }
        lemma_points(first, second, distance, w);
        crate::geometry::primitives::real_algebra::lemma_commuted(v, w);
        crate::geometry::primitives::real_algebra::lemma_commuted(u, w);
        let point = right_point(first, second);
        assert(crate::geometry::primitives::crossing_laws::is_near(point, place, margin));
        assert(first.collides_with_point(point, math));
    }
}

/// Two arcs whose circles share a place collide whichever of them is asked, if what is near it lies on
/// both.
pub proof fn shared_places_make_both_collide<M: Fn(Elementary) -> Num>(
    first: Arc,
    second: Arc,
    distance: real,
    place: Place,
    math: &M,
)
    requires
        distance > 0real,
        distance * distance == squared_distance(first, second),
        stays_in_range(first, second),
        stays_in_range(second, first),
        is_tolerated(first, second, distance),
        is_tolerated(second, first, distance),
        first.bbox.collides_with_rect(second.bbox),
        is_shared(first, second, distance, place, math),
        is_shared(second, first, distance, place, math),
    ensures
        first.collides_with_arc(&second, math),
        second.collides_with_arc(&first, math),
{
    arcs_that_share_a_place_collide(first, second, distance, place, math);
    let (p, q) = (
        crate::geometry::primitives::crossing_laws::place_of(first.center),
        crate::geometry::primitives::crossing_laws::place_of(second.center),
    );
    crate::geometry::primitives::real_algebra::lemma_square_of_negative(q.x - p.x);
    crate::geometry::primitives::real_algebra::lemma_square_of_negative(q.y - p.y);
    arcs_that_share_a_place_collide(second, first, distance, place, math);
}

/// Arcs with distinct centers that collide share a point: one that lies on both, within tolerance.
pub proof fn arcs_that_collide_share_a_point<M: Fn(Elementary) -> Num>(
    first: Arc,
    second: Arc,
    math: &M,
) -> (point: Point)
    requires
        first.collides_with_arc(&second, math),
        !first.center.distance_to(second.center).le(
            crate::geometry::primitives::arc::distance_epsilon(),
        ),
    ensures
        first.collides_with_point(point, math),
        second.collides_with_point(point, math),
{
    let n = steps(first, second);
    let base = Point(n.base_x, n.base_y);
    if first.spec_both_contain(&second, base, math) {
        base
    } else if first.spec_both_contain(&second, left_point(first, second), math) {
        left_point(first, second)
    } else {
        right_point(first, second)
    }
}

/// The distance from one point to another is that of the way back.
pub proof fn distances_are_symmetric(p: Point, q: Point)
    requires
        p.is_finite(),
        q.is_finite(),
    ensures
        p.sq_distance_to(q) == q.sq_distance_to(p),
        p.distance_to(q) == q.distance_to(p),
{
    crate::num::accuracy::differences_are_opposite(p.0, q.0);
    crate::num::accuracy::differences_are_opposite(p.1, q.1);
    crate::num::accuracy::opposite_factors_have_opposite_products(
        p.0.sub(q.0),
        q.0.sub(p.0),
        Num::zero(),
    );
    crate::num::accuracy::opposite_factors_have_opposite_products(
        p.1.sub(q.1),
        q.1.sub(p.1),
        Num::zero(),
    );
}

/// Arcs with one center collide with each other or not, whichever of them is asked; and they do not
/// if their boxes do not, or if their radii differ clearly.
pub proof fn arcs_of_one_center_collide_symmetrically<M: Fn(Elementary) -> Num>(
    first: Arc,
    second: Arc,
    math: &M,
)
    requires
        first.center.is_finite(),
        second.center.is_finite(),
        first.radius.is_finite(),
        second.radius.is_finite(),
        first.center.distance_to(second.center).le(
            crate::geometry::primitives::arc::distance_epsilon(),
        ),
    ensures
        first.collides_with_arc(&second, math) == second.collides_with_arc(&first, math),
        first.collides_with_arc(&second, math) ==> first.bbox.collides_with_rect(second.bbox),
        ({
            let d = first.radius.sub(second.radius);
            d.is_finite() && crate::num::estimate::size(
                crate::num::estimate::exact(first.radius) - crate::num::estimate::exact(
                    second.radius,
                ),
            ) > crate::num::estimate::exact(crate::geometry::primitives::arc::distance_epsilon())
                + crate::num::estimate::half_step(d) ==> !first.collides_with_arc(&second, math)
        }),
{
    let eps = crate::geometry::primitives::arc::distance_epsilon();
    distances_are_symmetric(first.center, second.center);
    let d = first.radius.sub(second.radius);
    crate::num::accuracy::differences_are_opposite(first.radius, second.radius);
    lemma_equal_sizes(d, second.radius.sub(first.radius));
    if d.is_finite() {
        assert(eps.is_finite());
        crate::num::estimate::differences_are_near(first.radius, second.radius);
        crate::num::estimate::absolute_values_are_exact(d);
        crate::num::estimate::exact_values_compare(d.abs(), eps);
    }
}

proof fn lemma_equal_sizes(x: Num, y: Num)
    requires
        crate::num::accuracy::opposite(x, y),
    ensures
        x.abs() == y.abs(),
{
}

/// How far from the first center, towards the second, the line lies that goes through both meeting
/// points of two circles.
pub open spec fn chord_advance(first: Arc, second: Arc, distance: real) -> real {
    let (r, s) = (
        crate::num::estimate::exact(first.radius),
        crate::num::estimate::exact(second.radius),
    );
    (r * r - s * s + distance * distance) / (2real * distance)
}

/// The place on the line through the centers where that line crosses it.
pub open spec fn chord_place(first: Arc, second: Arc, distance: real) -> Place {
    let (p, q) = (
        crate::geometry::primitives::crossing_laws::place_of(first.center),
        crate::geometry::primitives::crossing_laws::place_of(second.center),
    );
    let a = chord_advance(first, second, distance);
    Place {
        x: p.x + a * ((q.x - p.x) / distance),
        y: p.y + a * ((q.y - p.y) / distance),
    }
}

/// How far the computed point may be from this place.
pub closed spec fn chord_margin(first: Arc, second: Arc, distance: real) -> Place {
    let n = steps(first, second);
    Place {
        x: n.base_x_estimate(first, second, distance).error,
        y: n.base_y_estimate(first, second, distance).error,
    }
}

/// Arcs of circles that touch, as nearly as the tolerance tells, collide if what is near where they
/// touch lies on both.
pub proof fn arcs_that_touch_collide<M: Fn(Elementary) -> Num>(
    first: Arc,
    second: Arc,
    distance: real,
    math: &M,
)
    requires
        distance > 0real,
        distance * distance == squared_distance(first, second),
        stays_in_range(first, second),
        is_tolerated(first, second, distance),
        first.bbox.collides_with_rect(second.bbox),
        ({
            let (r, s) = (
                crate::num::estimate::exact(first.radius),
                crate::num::estimate::exact(second.radius),
            );
            let a = chord_advance(first, second, distance);
            &&& distance <= r + s
            &&& crate::num::estimate::size(r - s) <= distance
            &&& crate::num::estimate::size(r * r - a * a) + deviation_error(first, second, distance)
                <= crate::num::estimate::exact(
                crate::geometry::primitives::arc::distance_epsilon(),
            )
        }),
        forall|q: Point|
            crate::geometry::primitives::crossing_laws::is_near(
                q,
                chord_place(first, second, distance),
                chord_margin(first, second, distance),
            ) ==> #[trigger] first.collides_with_point(q, math) && second.collides_with_point(
                q,
                math,
            ),
    ensures
        first.collides_with_arc(&second, math),
{
    let n = steps(first, second);
    let eps = crate::geometry::primitives::arc::distance_epsilon();
    let (far, deep) = (
        first.radius.add(second.radius).add(eps),
        first.radius.sub(second.radius).abs().sub(eps),
    );
    crate::num::estimate::exact_constants();
    lemma_distance(first, second, distance);
    lemma_foot(first, second, distance);
    lemma_base(first, second, distance);
    assert(eps.is_finite());
    crate::num::estimate::exact_values_compare(n.d, eps);
    crate::num::estimate::exact_values_compare(n.d, far);
    crate::num::estimate::exact_values_compare(n.d, deep);
    assert(n.d == first.center.distance_to(second.center));
    let h = n.height_squared;
    assert(!h.lt(eps.neg()) && h.abs().le(eps)) by {
        crate::num::estimate::negations_are_exact(eps);
        crate::num::estimate::exact_values_compare(h, eps.neg());
        crate::num::estimate::absolute_values_are_exact(h);
        crate::num::estimate::exact_values_compare(h.abs(), eps);
    }
    let base = Point(n.base_x, n.base_y);
    assert(crate::geometry::primitives::crossing_laws::is_near(
        base,
        chord_place(first, second, distance),
        chord_margin(first, second, distance),
    ));
    assert(first.collides_with_point(base, math));
}

/// Arcs of circles that are clearly too far apart to meet, or one of which lies clearly within the
/// other, do not collide.
pub proof fn arcs_of_circles_out_of_reach_do_not_collide<M: Fn(Elementary) -> Num>(
    first: Arc,
    second: Arc,
    distance: real,
    math: &M,
)
    requires
        distance > 0real,
        distance * distance == squared_distance(first, second),
        stays_in_range(first, second),
        first.radius.add(second.radius).add(
            crate::geometry::primitives::arc::distance_epsilon(),
        ).is_finite(),
        first.radius.sub(second.radius).abs().sub(
            crate::geometry::primitives::arc::distance_epsilon(),
        ).is_finite(),
        ({
            let eps = crate::geometry::primitives::arc::distance_epsilon();
            let (r, s, e) = (
                crate::num::estimate::exact(first.radius),
                crate::num::estimate::exact(second.radius),
                crate::num::estimate::exact(eps),
            );
            let error = distance_error(first, second, distance);
            let (sum, difference) = (
                first.radius.add(second.radius),
                first.radius.sub(second.radius),
            );
            &&& distance - error > e
            &&& distance - error > r + s + e + crate::num::estimate::half_step(sum)
                + crate::num::estimate::half_step(sum.add(eps)) || distance + error
                < crate::num::estimate::size(r - s) - e - crate::num::estimate::half_step(
                difference,
            ) - crate::num::estimate::half_step(difference.abs().sub(eps))
        }),
    ensures
        !first.collides_with_arc(&second, math),
{
    let n = steps(first, second);
    let eps = crate::geometry::primitives::arc::distance_epsilon();
    let (sum, difference) = (first.radius.add(second.radius), first.radius.sub(second.radius));
    lemma_distance(first, second, distance);
    assert(eps.is_finite());
    crate::num::estimate::exact_constants();
    crate::num::estimate::sums_are_near(sum, eps);
    crate::num::estimate::sums_are_near(first.radius, second.radius);
    crate::num::estimate::differences_are_near(difference.abs(), eps);
    crate::num::estimate::absolute_values_are_exact(difference);
    crate::num::estimate::differences_are_near(first.radius, second.radius);
    crate::num::estimate::exact_values_compare(n.d, eps);
    crate::num::estimate::exact_values_compare(n.d, sum.add(eps));
    crate::num::estimate::exact_values_compare(n.d, difference.abs().sub(eps));
    assert(n.d == first.center.distance_to(second.center));
}

} // verus!
