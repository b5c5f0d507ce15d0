//! Where edges and arcs meet, on exact values.
use vstd::prelude::*;

use crate::geometry::primitives::arc::Arc;
use crate::geometry::primitives::edge::Edge;
use crate::geometry::primitives::point::Point;
use crate::math::Elementary;
use crate::num::estimate::Estimate;
use crate::num::Num;

verus! {

/// A point of the plane.
pub struct Place {
    pub x: real,
    pub y: real,
}

/// The place of a point.
pub open spec fn place_of(point: Point) -> Place {
    Place { x: crate::num::estimate::exact(point.0), y: crate::num::estimate::exact(point.1) }
}

/// The place on the line through an edge that divides it in the ratio `s` to `1 - s`.
pub open spec fn place_along(edge: Edge, s: real) -> Place {
    let (p, q) = (place_of(edge.start), place_of(edge.end));
    Place { x: p.x + s * (q.x - p.x), y: p.y + s * (q.y - p.y) }
}

/// The place has the distance `radius` from `center`.
pub open spec fn is_on_circle(place: Place, center: Point, radius: Num) -> bool {
    let c = place_of(center);
    let r = crate::num::estimate::exact(radius);
    (place.x - c.x) * (place.x - c.x) + (place.y - c.y) * (place.y - c.y) == r * r
}

/// The point is no farther from the place than the margin, along either axis.
pub open spec fn is_near(point: Point, place: Place, margin: Place) -> bool {
    let p = place_of(point);
    &&& point.is_finite()
    &&& crate::num::estimate::size(p.x - place.x) <= margin.x
    &&& crate::num::estimate::size(p.y - place.y) <= margin.y
}

/// How steeply the line through an edge crosses a circle at a place: twice the dot product of the
/// edge and the way from the center. It is zero where the line touches the circle, less where it goes
/// in and more where it comes out.
pub open spec fn steepness(edge: Edge, place: Place, center: Point) -> real {
    let (p, q, c) = (place_of(edge.start), place_of(edge.end), place_of(center));
    2real * ((place.x - c.x) * (q.x - p.x) + (place.y - c.y) * (q.y - p.y))
}

/// The square of the length of an edge.
pub open spec fn squared_length(edge: Edge) -> real {
    let (p, q) = (place_of(edge.start), place_of(edge.end));
    (q.x - p.x) * (q.x - p.x) + (q.y - p.y) * (q.y - p.y)
}

/// The numbers that are computed for an edge and the circle of an arc.
struct Steps {
    dx: Num,
    dy: Num,
    fx: Num,
    fy: Num,
    a: Num,
    b: Num,
    c: Num,
    square: Num,
    product: Num,
    discriminant: Num,
    root: Num,
    divisor: Num,
    first: Num,
    second: Num,
}

spec fn steps(arc: Arc, edge: Edge) -> Steps {
    let dx = edge.end.0.sub(edge.start.0);
    let dy = edge.end.1.sub(edge.start.1);
    let fx = edge.start.0.sub(arc.center.0);
    let fy = edge.start.1.sub(arc.center.1);
    let a = dx.mul(dx).add(dy.mul(dy));
    let b = Num::two().mul(fx.mul(dx).add(fy.mul(dy)));
    let c = fx.mul(fx).add(fy.mul(fy)).sub(arc.radius.mul(arc.radius));
    let square = b.mul(b);
    let product = Num::four().mul(a).mul(c);
    let discriminant = square.sub(product);
    let root = discriminant.sqrt();
    let divisor = Num::two().mul(a);
    Steps {
        dx,
        dy,
        fx,
        fy,
        a,
        b,
        c,
        square,
        product,
        discriminant,
        root,
        divisor,
        first: b.neg().sub(root).div(divisor),
        second: b.neg().add(root).div(divisor),
    }
}

impl Steps {
    spec fn x_way(self, edge: Edge) -> Estimate {
        Estimate::of(edge.end.0).minus(Estimate::of(edge.start.0), self.dx)
    }

    spec fn y_way(self, edge: Edge) -> Estimate {
        Estimate::of(edge.end.1).minus(Estimate::of(edge.start.1), self.dy)
    }

    spec fn x_from(self, arc: Arc, edge: Edge) -> Estimate {
        Estimate::of(edge.start.0).minus(Estimate::of(arc.center.0), self.fx)
    }

    spec fn y_from(self, arc: Arc, edge: Edge) -> Estimate {
        Estimate::of(edge.start.1).minus(Estimate::of(arc.center.1), self.fy)
    }

    spec fn a_estimate(self, edge: Edge) -> Estimate {
        let (x, y) = (self.x_way(edge), self.y_way(edge));
        x.times(x, self.dx.mul(self.dx)).plus(y.times(y, self.dy.mul(self.dy)), self.a)
    }

    spec fn b_estimate(self, arc: Arc, edge: Edge) -> Estimate {
        let (x, y) = (self.x_way(edge), self.y_way(edge));
        let (f, g) = (self.x_from(arc, edge), self.y_from(arc, edge));
        let (m, n) = (self.fx.mul(self.dx), self.fy.mul(self.dy));
        Estimate::of(Num::two()).times(f.times(x, m).plus(g.times(y, n), m.add(n)), self.b)
    }

    spec fn c_estimate(self, arc: Arc, edge: Edge) -> Estimate {
        let (f, g) = (self.x_from(arc, edge), self.y_from(arc, edge));
        let (m, n) = (self.fx.mul(self.fx), self.fy.mul(self.fy));
        let r = Estimate::of(arc.radius);
        f.times(f, m).plus(g.times(g, n), m.add(n)).minus(
            r.times(r, arc.radius.mul(arc.radius)),
            self.c,
        )
    }

    spec fn discriminant_estimate(self, arc: Arc, edge: Edge) -> Estimate {
        let (a, b, c) = (
            self.a_estimate(edge),
            self.b_estimate(arc, edge),
            self.c_estimate(arc, edge),
        );
        b.times(b, self.square).minus(
            Estimate::of(Num::four()).times(a, Num::four().mul(self.a)).times(c, self.product),
            self.discriminant,
        )
    }

    spec fn divisor_estimate(self, edge: Edge) -> Estimate {
        Estimate::of(Num::two()).times(self.a_estimate(edge), self.divisor)
    }

    spec fn first_estimate(self, arc: Arc, edge: Edge) -> Estimate {
        self.b_estimate(arc, edge).negated().minus(
            Estimate::of(self.root),
            self.b.neg().sub(self.root),
        ).divided_by(self.divisor_estimate(edge), self.divisor, self.first)
    }

    spec fn second_estimate(self, arc: Arc, edge: Edge) -> Estimate {
        self.b_estimate(arc, edge).negated().plus(
            Estimate::of(self.root),
            self.b.neg().add(self.root),
        ).divided_by(self.divisor_estimate(edge), self.divisor, self.second)
    }

    /// How far the root may be from what it should be.
    spec fn root_error(self, arc: Arc, edge: Edge) -> real {
        let (r, t) = (
            crate::num::estimate::exact(self.root),
            2real * crate::num::estimate::half_step(self.root),
        );
        (self.discriminant_estimate(arc, edge).error + t * (2real * r + t)) / r
    }

    /// The coordinates of the point at one of the parameters, which should be the one at `s`.
    spec fn margin(self, arc: Arc, edge: Edge, t: Num, s: real) -> Place {
        let u = t.clamp(Num::zero(), Num::one());
        let parameter = Estimate { value: s, error: parameter_error(arc, edge) };
        let (m, n) = (self.dx.mul(u), self.dy.mul(u));
        Place {
            x: Estimate::of(edge.start.0).plus(
                self.x_way(edge).times(parameter, m),
                edge.start.0.add(m),
            ).error,
            y: Estimate::of(edge.start.1).plus(
                self.y_way(edge).times(parameter, n),
                edge.start.1.add(n),
            ).error,
        }
    }
}

/// How far the discriminant of the equation for the crossings may be from what it should be.
pub closed spec fn discriminant_error(arc: Arc, edge: Edge) -> real {
    steps(arc, edge).discriminant_estimate(arc, edge).error
}

/// How far the computed edge parameters may be from those of the crossings.
pub closed spec fn parameter_error(arc: Arc, edge: Edge) -> real {
    let n = steps(arc, edge);
    n.first_estimate(arc, edge).error + n.second_estimate(arc, edge).error + n.root_error(arc, edge)
        / (2real * squared_length(edge))
}

/// How far a reported point may be from the crossing at `s`.
pub closed spec fn crossing_margin(arc: Arc, edge: Edge, s: real) -> Place {
    let n = steps(arc, edge);
    let (p, q) = (n.margin(arc, edge, n.first, s), n.margin(arc, edge, n.second, s));
    Place {
        x: if p.x <= q.x {
            q.x
        } else {
            p.x
        },
        y: if p.y <= q.y {
            q.y
        } else {
            p.y
        },
    }
}

/// Nothing overflows on the way to the crossings of an edge, and its length does not vanish.
pub closed spec fn stays_in_range(arc: Arc, edge: Edge) -> bool {
    let n = steps(arc, edge);
    let (u, w) = (n.first.clamp(Num::zero(), Num::one()), n.second.clamp(Num::zero(), Num::one()));
    &&& n.discriminant.is_finite()
    &&& n.divisor.is_finite()
    &&& crate::num::estimate::exact(n.divisor) != 0real
    &&& n.root.is_finite()
    &&& n.first.is_finite()
    &&& n.second.is_finite()
    &&& edge.start.0.add(n.dx.mul(u)).is_finite()
    &&& edge.start.1.add(n.dy.mul(u)).is_finite()
    &&& edge.start.0.add(n.dx.mul(w)).is_finite()
    &&& edge.start.1.add(n.dy.mul(w)).is_finite()
}

proof fn lemma_ways(arc: Arc, edge: Edge)
    requires
        steps(arc, edge).discriminant.is_finite(),
    ensures
        ({
            let n = steps(arc, edge);
            &&& n.x_way(edge).covers(n.dx)
            &&& n.y_way(edge).covers(n.dy)
            &&& n.x_from(arc, edge).covers(n.fx)
            &&& n.y_from(arc, edge).covers(n.fy)
            &&& Estimate::of(arc.radius).covers(arc.radius)
            &&& n.a.is_finite()
            &&& n.b.is_finite()
            &&& n.c.is_finite()
            &&& n.square.is_finite()
            &&& n.product.is_finite()
            &&& Num::four().mul(n.a).is_finite()
        }),
{
    let n = steps(arc, edge);
    crate::num::estimate::differences_are_near(n.square, n.product);
    crate::num::estimate::products_are_near(n.b, n.b);
    crate::num::estimate::products_are_near(Num::four().mul(n.a), n.c);
    crate::num::estimate::products_are_near(Num::four(), n.a);
    let r = arc.radius;
    crate::num::estimate::differences_are_near(
        n.fx.mul(n.fx).add(n.fy.mul(n.fy)),
        r.mul(r),
    );
    crate::num::estimate::products_are_near(r, r);
    crate::num::estimate::sums_are_near(n.fx.mul(n.fx), n.fy.mul(n.fy));
    crate::num::estimate::products_are_near(n.fx, n.fx);
    crate::num::estimate::products_are_near(n.fy, n.fy);
    crate::num::estimate::sums_are_near(n.dx.mul(n.dx), n.dy.mul(n.dy));
    crate::num::estimate::products_are_near(n.dx, n.dx);
    crate::num::estimate::products_are_near(n.dy, n.dy);
    let (e, s, c) = (edge.end, edge.start, arc.center);
    crate::num::estimate::differences_are_near(e.0, s.0);
    crate::num::estimate::differences_are_near(e.1, s.1);
    crate::num::estimate::differences_are_near(s.0, c.0);
    crate::num::estimate::differences_are_near(s.1, c.1);
    crate::num::estimate::estimated_differences(Estimate::of(e.0), e.0, Estimate::of(s.0), s.0);
    crate::num::estimate::estimated_differences(Estimate::of(e.1), e.1, Estimate::of(s.1), s.1);
    crate::num::estimate::estimated_differences(Estimate::of(s.0), s.0, Estimate::of(c.0), c.0);
    crate::num::estimate::estimated_differences(Estimate::of(s.1), s.1, Estimate::of(c.1), c.1);
}

proof fn lemma_coefficients(arc: Arc, edge: Edge)
    requires
        steps(arc, edge).discriminant.is_finite(),
    ensures
        ({
            let n = steps(arc, edge);
            &&& n.a_estimate(edge).covers(n.a)
            &&& n.b_estimate(arc, edge).covers(n.b)
            &&& n.c_estimate(arc, edge).covers(n.c)
        }),
{
    let n = steps(arc, edge);
    lemma_ways(arc, edge);
    crate::num::estimate::exact_constants();
    let (x, y) = (n.x_way(edge), n.y_way(edge));
    let (f, g) = (n.x_from(arc, edge), n.y_from(arc, edge));
    assert(n.a_estimate(edge).covers(n.a)) by {
        crate::num::estimate::sums_are_near(n.dx.mul(n.dx), n.dy.mul(n.dy));
        crate::num::estimate::estimated_products(x, n.dx, x, n.dx);
        crate::num::estimate::estimated_products(y, n.dy, y, n.dy);
        crate::num::estimate::estimated_sums(
            x.times(x, n.dx.mul(n.dx)),
            n.dx.mul(n.dx),
            y.times(y, n.dy.mul(n.dy)),
            n.dy.mul(n.dy),
        );
    }
    assert(n.b_estimate(arc, edge).covers(n.b)) by {
        let (k, l) = (n.fx.mul(n.dx), n.fy.mul(n.dy));
        crate::num::estimate::products_are_near(Num::two(), k.add(l));
        crate::num::estimate::sums_are_near(k, l);
        crate::num::estimate::estimated_products(f, n.fx, x, n.dx);
        crate::num::estimate::estimated_products(g, n.fy, y, n.dy);
        crate::num::estimate::estimated_sums(f.times(x, k), k, g.times(y, l), l);
        crate::num::estimate::estimated_products(
            Estimate::of(Num::two()),
            Num::two(),
            f.times(x, k).plus(g.times(y, l), k.add(l)),
            k.add(l),
        );
    }
    assert(n.c_estimate(arc, edge).covers(n.c)) by {
        let (k, l) = (n.fx.mul(n.fx), n.fy.mul(n.fy));
        let r = arc.radius;
        crate::num::estimate::differences_are_near(k.add(l), r.mul(r));
        crate::num::estimate::sums_are_near(k, l);
        crate::num::estimate::estimated_products(f, n.fx, f, n.fx);
        crate::num::estimate::estimated_products(g, n.fy, g, n.fy);
        crate::num::estimate::estimated_sums(f.times(f, k), k, g.times(g, l), l);
        crate::num::estimate::estimated_products(Estimate::of(r), r, Estimate::of(r), r);
        crate::num::estimate::estimated_differences(
            f.times(f, k).plus(g.times(g, l), k.add(l)),
            k.add(l),
            Estimate::of(r).times(Estimate::of(r), r.mul(r)),
            r.mul(r),
        );
    }
}

proof fn lemma_discriminant(arc: Arc, edge: Edge)
    requires
        steps(arc, edge).discriminant.is_finite(),
    ensures
        steps(arc, edge).discriminant_estimate(arc, edge).covers(steps(arc, edge).discriminant),
{
    let n = steps(arc, edge);
    lemma_ways(arc, edge);
    lemma_coefficients(arc, edge);
    crate::num::estimate::exact_constants();
    let (a, b, c) = (n.a_estimate(edge), n.b_estimate(arc, edge), n.c_estimate(arc, edge));
    crate::num::estimate::estimated_products(b, n.b, b, n.b);
    let four = Estimate::of(Num::four());
    crate::num::estimate::estimated_products(four, Num::four(), a, n.a);
    let fa = Num::four().mul(n.a);
    crate::num::estimate::estimated_products(four.times(a, fa), fa, c, n.c);
    crate::num::estimate::estimated_differences(
        b.times(b, n.square),
        n.square,
        four.times(a, fa).times(c, n.product),
        n.product,
    );
}

/// At a crossing, the square of the steepness is the discriminant.
proof fn lemma_steepness(arc: Arc, edge: Edge, s: real)
    requires
        is_on_circle(place_along(edge, s), arc.center, arc.radius),
    ensures
        ({
            let n = steps(arc, edge);
            let w = steepness(edge, place_along(edge, s), arc.center);
            &&& w == 2real * squared_length(edge) * s + n.b_estimate(arc, edge).value
            &&& w * w == n.discriminant_estimate(arc, edge).value
            &&& n.a_estimate(edge).value == squared_length(edge)
        }),
{
    crate::num::estimate::exact_constants();
    let n = steps(arc, edge);
    let (p, q, c) = (place_of(edge.start), place_of(edge.end), place_of(arc.center));
    let (x, y) = (q.x - p.x, q.y - p.y);
    let (f, g) = (p.x - c.x, p.y - c.y);
    let r = crate::num::estimate::exact(arc.radius);
    let at = place_along(edge, s);
    let w = steepness(edge, at, arc.center);
    let a = x * x + y * y;
    let b = 2real * (f * x + g * y);
    let k = f * f + g * g - r * r;
    assert(at.x - c.x == f + s * x && at.y - c.y == g + s * y);
    assert((f + s * x) * (f + s * x) + (g + s * y) * (g + s * y) == r * r);
    assert(w == 2real * ((f + s * x) * x + (g + s * y) * y));
    crate::geometry::primitives::real_algebra::lemma_line_and_circle(f, g, x, y, s, r);
    crate::geometry::primitives::real_algebra::lemma_discriminant_of_root(a, b, k, s);
}

spec fn is_clear(arc: Arc, edge: Edge, w: real) -> bool {
    w * w > crate::num::estimate::exact(crate::geometry::primitives::arc::distance_epsilon())
        + discriminant_error(arc, edge)
}

/// Where the discriminant is that of a clear crossing, its root is positive.
proof fn lemma_clear(arc: Arc, edge: Edge, w: real)
    requires
        stays_in_range(arc, edge),
        w * w == steps(arc, edge).discriminant_estimate(arc, edge).value,
        is_clear(arc, edge, w),
    ensures
        steps(arc, edge).discriminant.gt(crate::geometry::primitives::arc::distance_epsilon()),
        crate::num::estimate::exact(steps(arc, edge).root) > 0real,
        w != 0real,
{
    let n = steps(arc, edge);
    let eps = crate::geometry::primitives::arc::distance_epsilon();
    let square = w * w;
    lemma_discriminant(arc, edge);
    crate::num::estimate::exact_constants();
    crate::num::estimate::exact_values_compare(n.discriminant, eps);
    crate::num::estimate::exact_values_compare(eps, Num::zero());
    crate::num::estimate::lemma_sign(n.discriminant);
    crate::num::square_root::lemma_positive_root(n.discriminant);
    crate::num::estimate::lemma_sign(n.root);
    if w == 0real {
        assert(square == 0real) by (nonlinear_arith)
            requires
                w == 0real,
                square == w * w,
        ;
    }
}

/// The root is near the steepness.
proof fn lemma_root(arc: Arc, edge: Edge, w: real)
    requires
        stays_in_range(arc, edge),
        w * w == steps(arc, edge).discriminant_estimate(arc, edge).value,
        crate::num::estimate::exact(steps(arc, edge).root) > 0real,
        w > 0real,
    ensures
        crate::num::estimate::size(w - crate::num::estimate::exact(steps(arc, edge).root)) <= steps(
            arc,
            edge,
        ).root_error(arc, edge),
{
    let n = steps(arc, edge);
    let (root, t) = (
        crate::num::estimate::exact(n.root),
        2real * crate::num::estimate::half_step(n.root),
    );
    lemma_discriminant(arc, edge);
    crate::num::estimate::roots_are_near(n.discriminant);
    let error = n.discriminant_estimate(arc, edge).error + t * (2real * root + t);
    crate::geometry::primitives::real_algebra::lemma_near_root(w, root, error);
}

/// The computed parameters are near the quotients that they stand for.
proof fn lemma_quotients(arc: Arc, edge: Edge)
    requires
        stays_in_range(arc, edge),
        squared_length(edge) > 0real,
    ensures
        ({
            let n = steps(arc, edge);
            &&& n.first_estimate(arc, edge).covers(n.first)
            &&& n.second_estimate(arc, edge).covers(n.second)
            &&& n.divisor_estimate(edge).value == 2real * squared_length(edge)
        }),
{
    let n = steps(arc, edge);
    let b = n.b_estimate(arc, edge);
    lemma_coefficients(arc, edge);
    crate::num::estimate::exact_constants();
    crate::num::estimate::estimated_products(
        Estimate::of(Num::two()),
        Num::two(),
        n.a_estimate(edge),
        n.a,
    );
    crate::num::estimate::estimated_negations(b, n.b);
    let r = Estimate::of(n.root);
    lemma_dividends(n);
    crate::num::estimate::estimated_differences(b.negated(), n.b.neg(), r, n.root);
    crate::num::estimate::estimated_sums(b.negated(), n.b.neg(), r, n.root);
    let (k, l) = (n.b.neg().sub(n.root), n.b.neg().add(n.root));
    crate::num::estimate::estimated_ratios(
        b.negated().minus(r, k),
        k,
        n.divisor_estimate(edge),
        n.divisor,
    );
    crate::num::estimate::estimated_ratios(
        b.negated().plus(r, l),
        l,
        n.divisor_estimate(edge),
        n.divisor,
    );
}

/// An edge with a crossing that is no touch has a length.
proof fn lemma_some_way(edge: Edge, s: real, center: Point)
    requires
        steepness(edge, place_along(edge, s), center) != 0real,
    ensures
        squared_length(edge) > 0real,
{
    let (x, y) = (
        place_of(edge.end).x - place_of(edge.start).x,
        place_of(edge.end).y - place_of(edge.start).y,
    );
    crate::geometry::primitives::real_algebra::lemma_square_sum(x, y);
    if squared_length(edge) == 0real {
        crate::geometry::primitives::real_algebra::lemma_no_way(x, y);
        let (f, g) = (
            place_along(edge, s).x - place_of(center).x,
            place_along(edge, s).y - place_of(center).y,
        );
        assert(f * x == 0real) by (nonlinear_arith)
            requires
                x == 0real,
        ;
        assert(g * y == 0real) by (nonlinear_arith)
            requires
                y == 0real,
        ;
    }
}

/// The computed parameter is near that of the crossing, on the side that the steepness tells.
proof fn lemma_parameters(arc: Arc, edge: Edge, s: real)
    requires
        stays_in_range(arc, edge),
        is_on_circle(place_along(edge, s), arc.center, arc.radius),
        is_clear(arc, edge, steepness(edge, place_along(edge, s), arc.center)),
    ensures
        steps(arc, edge).discriminant.gt(crate::geometry::primitives::arc::distance_epsilon()),
        ({
            let n = steps(arc, edge);
            let w = steepness(edge, place_along(edge, s), arc.center);
            let t = crate::num::estimate::exact(
                if w < 0real {
                    n.first
                } else {
                    n.second
                },
            );
            &&& w != 0real
            &&& crate::num::estimate::size(t - s) <= parameter_error(arc, edge)
        }),
{
    let n = steps(arc, edge);
    let w = steepness(edge, place_along(edge, s), arc.center);
    let b = n.b_estimate(arc, edge).value;
    lemma_steepness(arc, edge, s);
    lemma_clear(arc, edge, w);
    lemma_some_way(edge, s, arc.center);
    lemma_quotients(arc, edge);
    let divisor = 2real * squared_length(edge);
    let root = crate::num::estimate::exact(n.root);
    let error = n.root_error(arc, edge);
    assert(divisor * s == w - b);
    crate::geometry::primitives::real_algebra::lemma_undone(divisor, s);
    lemma_error_sign(arc, edge);
    if w < 0real {
        assert((-w) * (-w) == w * w) by (nonlinear_arith);
        lemma_root(arc, edge, -w);
        crate::geometry::primitives::real_algebra::lemma_near_quotient(w, -root, b, divisor, error);
        assert(n.first_estimate(arc, edge).value == (-root - b) / divisor);
    } else {
        lemma_root(arc, edge, w);
        crate::geometry::primitives::real_algebra::lemma_near_quotient(w, root, b, divisor, error);
        assert(n.second_estimate(arc, edge).value == (root - b) / divisor);
    }
}

/// The estimates of both parameters have some error, which is not negative.
proof fn lemma_error_sign(arc: Arc, edge: Edge)
    requires
        stays_in_range(arc, edge),
        squared_length(edge) > 0real,
    ensures
        steps(arc, edge).first_estimate(arc, edge).error >= 0real,
        steps(arc, edge).second_estimate(arc, edge).error >= 0real,
{
    lemma_quotients(arc, edge);
}

proof fn lemma_dividends(n: Steps)
    requires
        n.b.neg().sub(n.root).div(n.divisor).is_finite(),
        n.b.neg().add(n.root).div(n.divisor).is_finite(),
        n.divisor.is_finite(),
    ensures
        n.b.neg().sub(n.root).is_finite(),
        n.b.neg().add(n.root).is_finite(),
{
    crate::num::estimate::finite_quotients_have_finite_dividends(
        n.b.neg().sub(n.root),
        n.divisor,
    );
    crate::num::estimate::finite_quotients_have_finite_dividends(
        n.b.neg().add(n.root),
        n.divisor,
    );
}

/// A parameter that is brought into the edge does not move away from one that is on it.
proof fn lemma_clamped(t: Num, s: real, error: real)
    requires
        t.is_finite(),
        0real <= s <= 1real,
        crate::num::estimate::size(crate::num::estimate::exact(t) - s) <= error,
    ensures
        (Estimate { value: s, error }).covers(t.clamp(Num::zero(), Num::one())),
{
    crate::num::estimate::exact_constants();
    crate::num::estimate::exact_values_compare(t, Num::zero());
    crate::num::estimate::exact_values_compare(t, Num::one());
}

/// The point at a parameter is near the place that it stands for.
proof fn lemma_point(arc: Arc, edge: Edge, t: Num, s: real)
    requires
        stays_in_range(arc, edge),
        t == steps(arc, edge).first || t == steps(arc, edge).second,
        0real <= s <= 1real,
        crate::num::estimate::size(crate::num::estimate::exact(t) - s) <= parameter_error(arc, edge),
    ensures
        is_near(
            Arc::spec_point_on_edge(edge, t),
            place_along(edge, s),
            crossing_margin(arc, edge, s),
        ),
{
    let n = steps(arc, edge);
    let u = t.clamp(Num::zero(), Num::one());
    let parameter = Estimate { value: s, error: parameter_error(arc, edge) };
    lemma_ways(arc, edge);
    lemma_clamped(t, s, parameter.error);
    let (k, l) = (n.dx.mul(u), n.dy.mul(u));
    let (x, y) = (n.x_way(edge), n.y_way(edge));
    let p = edge.start;
    crate::num::estimate::sums_are_near(p.0, k);
    crate::num::estimate::sums_are_near(p.1, l);
    crate::num::estimate::estimated_products(x, n.dx, parameter, u);
    crate::num::estimate::estimated_products(y, n.dy, parameter, u);
    crate::num::estimate::estimated_sums(Estimate::of(p.0), p.0, x.times(parameter, k), k);
    crate::num::estimate::estimated_sums(Estimate::of(p.1), p.1, y.times(parameter, l), l);
    assert(x.value * s == s * x.value && y.value * s == s * y.value) by {
        crate::geometry::primitives::real_algebra::lemma_commuted(x.value, s);
        crate::geometry::primitives::real_algebra::lemma_commuted(y.value, s);
    }
}

/// The edge comes clearly through the circle of the arc at `s`, a place between its ends, and what is
/// near that place lies on the arc.
pub open spec fn goes_through<M: Fn(Elementary) -> Num>(
    arc: Arc,
    edge: Edge,
    s: real,
    math: &M,
) -> bool {
    let place = place_along(edge, s);
    let w = steepness(edge, place, arc.center);
    &&& 0real <= s <= 1real
    &&& is_on_circle(place, arc.center, arc.radius)
    &&& w * w > crate::num::estimate::exact(crate::geometry::primitives::arc::distance_epsilon())
        + discriminant_error(arc, edge)
    &&& forall|q: Point|
        is_near(q, place, crossing_margin(arc, edge, s)) ==> #[trigger] arc.collides_with_point(
            q,
            math,
        )
}

/// The rounding of the edge parameters is less than their tolerance.
pub open spec fn is_tolerated(arc: Arc, edge: Edge) -> bool {
    let eps = crate::geometry::primitives::arc::distance_epsilon();
    &&& Num::one().add(eps).is_finite()
    &&& parameter_error(arc, edge) <= crate::num::estimate::exact(eps)
    &&& 1real + parameter_error(arc, edge) <= crate::num::estimate::exact(Num::one().add(eps))
}

/// What is found of a crossing: a point near it that is on the edge and on the arc.
proof fn lemma_found<M: Fn(Elementary) -> Num>(
    arc: Arc,
    edge: Edge,
    s: real,
    found: Seq<Point>,
    math: &M,
) -> (point: Point)
    requires
        stays_in_range(arc, edge),
        is_tolerated(arc, edge),
        goes_through(arc, edge, s, math),
    ensures
        is_near(point, place_along(edge, s), crossing_margin(arc, edge, s)),
        ({
            let n = steps(arc, edge);
            let w = steepness(edge, place_along(edge, s), arc.center);
            let t = if w < 0real {
                n.first
            } else {
                n.second
            };
            &&& w != 0real
            &&& arc.crossing_parameters(edge) == seq![n.first, n.second]
            &&& arc.with_edge_intersection(edge, t, found, math) == if Arc::is_new(found, point) {
                found.push(point)
            } else {
                found
            }
        }),
{
    let n = steps(arc, edge);
    let eps = crate::geometry::primitives::arc::distance_epsilon();
    let w = steepness(edge, place_along(edge, s), arc.center);
    lemma_parameters(arc, edge, s);
    let t = if w < 0real {
        n.first
    } else {
        n.second
    };
    lemma_point(arc, edge, t, s);
    let point = Arc::spec_point_on_edge(edge, t);
    crate::num::estimate::exact_constants();
    assert(eps.is_finite());
    crate::num::estimate::negations_are_exact(eps);
    crate::num::estimate::exact_values_compare(eps.neg(), t);
    crate::num::estimate::exact_values_compare(t, Num::one().add(eps));
    assert(arc.collides_with_point(point, math));
    lemma_ways(arc, edge);
    assert(!n.discriminant.lt(eps.neg()) && !n.discriminant.abs().le(eps)) by {
        crate::num::estimate::exact_values_compare(n.discriminant, eps);
        crate::num::estimate::exact_values_compare(n.discriminant, eps.neg());
        crate::num::estimate::exact_values_compare(eps, Num::zero());
        crate::num::estimate::absolute_values_are_exact(n.discriminant);
        crate::num::estimate::exact_values_compare(n.discriminant.abs(), eps);
    }
    assert(arc.crossing_parameters(edge) =~= seq![n.first, n.second]);
    point
}

/// Wherever an edge goes clearly through an arc, one of the reported meeting points is near: there is
/// a point at the crossing, up to rounding, that is reported or within the tolerance for distances of
/// one that is.
pub proof fn every_crossing_is_reported<M: Fn(Elementary) -> Num>(
    arc: Arc,
    edge: Edge,
    s: real,
    math: &M,
) -> (r: (int, Point))
    requires
        stays_in_range(arc, edge),
        is_tolerated(arc, edge),
        goes_through(arc, edge, s, math),
    ensures
        0 <= r.0 < arc.meeting_points(edge, math).len(),
        is_near(r.1, place_along(edge, s), crossing_margin(arc, edge, s)),
        arc.meeting_points(edge, math)[r.0] == r.1
            || !arc.meeting_points(edge, math)[r.0].sq_distance_to(r.1).gt(
            crate::geometry::primitives::arc::distance_epsilon().mul(
                crate::geometry::primitives::arc::distance_epsilon(),
            ),
        ),
{
    let n = steps(arc, edge);
    let w = steepness(edge, place_along(edge, s), arc.center);
    let first = arc.with_edge_intersection(edge, n.first, Seq::empty(), math);
    let all = arc.with_edge_intersection(edge, n.second, first, math);
    if w < 0real {
        let point = lemma_found(arc, edge, s, Seq::empty(), math);
        assert(first == Seq::empty().push(point));
        assert(arc.meeting_points(edge, math) == all);
        assert(all[0] == point);
        (0, point)
    } else {
        let point = lemma_found(arc, edge, s, first, math);
        assert(arc.meeting_points(edge, math) == all);
        if Arc::is_new(first, point) {
            assert(all[first.len() as int] == point);
            (first.len() as int, point)
        } else {
            let i = choose|i: int|
                0 <= i < first.len() && !(#[trigger] first[i]).sq_distance_to(point).gt(
                    crate::geometry::primitives::arc::distance_epsilon().mul(
                        crate::geometry::primitives::arc::distance_epsilon(),
                    ),
                );
            (i, point)
        }
    }
}

/// An edge that goes through an arc and out again, at places that are farther apart than the
/// tolerance for distances, meets it in two points: the first is near where it comes first, the second
/// where it comes later.
pub proof fn edges_through_and_out_again_meet_twice<M: Fn(Elementary) -> Num>(
    arc: Arc,
    edge: Edge,
    s: real,
    later: real,
    math: &M,
)
    requires
        stays_in_range(arc, edge),
        is_tolerated(arc, edge),
        goes_through(arc, edge, s, math),
        goes_through(arc, edge, later, math),
        s < later,
        forall|p: Point, q: Point|
            is_near(p, place_along(edge, s), crossing_margin(arc, edge, s)) && is_near(
                q,
                place_along(edge, later),
                crossing_margin(arc, edge, later),
            ) ==> #[trigger] p.sq_distance_to(q).gt(
                crate::geometry::primitives::arc::distance_epsilon().mul(
                    crate::geometry::primitives::arc::distance_epsilon(),
                ),
            ),
    ensures
        arc.meeting_points(edge, math).len() == 2,
        is_near(
            arc.meeting_points(edge, math)[0],
            place_along(edge, s),
            crossing_margin(arc, edge, s),
        ),
        is_near(
            arc.meeting_points(edge, math)[1],
            place_along(edge, later),
            crossing_margin(arc, edge, later),
        ),
{
    let n = steps(arc, edge);
    let (v, w) = (
        steepness(edge, place_along(edge, s), arc.center),
        steepness(edge, place_along(edge, later), arc.center),
    );
    lemma_steepness(arc, edge, s);
    lemma_steepness(arc, edge, later);
    let first = arc.with_edge_intersection(edge, n.first, Seq::empty(), math);
    let p = lemma_found(arc, edge, s, Seq::empty(), math);
    let q = lemma_found(arc, edge, later, first, math);
    lemma_some_way(edge, s, arc.center);
    let a = 2real * squared_length(edge);
    assert(a * s < a * later) by {
        crate::geometry::primitives::real_algebra::lemma_scaled_order(a, s, later);
    }
    assert(v < 0real && w > 0real) by {
        crate::geometry::primitives::real_algebra::lemma_opposite_roots(v, w);
    }
    assert(first == Seq::empty().push(p));
    assert(first[0] == p);
    assert(Arc::is_new(first, q));
    assert(arc.meeting_points(edge, math) == first.push(q));
}

/// What the square of the distance of a place from the center of a circle has more than that of the
/// radius.
pub open spec fn beyond_circle(place: Place, center: Point, radius: Num) -> real {
    let c = place_of(center);
    let r = crate::num::estimate::exact(radius);
    (place.x - c.x) * (place.x - c.x) + (place.y - c.y) * (place.y - c.y) - r * r
}

spec fn touching(arc: Arc, edge: Edge) -> Num {
    let n = steps(arc, edge);
    n.b.neg().div(n.divisor)
}

spec fn touching_estimate(arc: Arc, edge: Edge) -> Estimate {
    let n = steps(arc, edge);
    n.b_estimate(arc, edge).negated().divided_by(
        n.divisor_estimate(edge),
        n.divisor,
        touching(arc, edge),
    )
}

/// How far the computed parameter of the place nearest to the center may be from what it is.
pub closed spec fn touching_error(arc: Arc, edge: Edge) -> real {
    touching_estimate(arc, edge).error
}

/// How far the reported point may be from where the edge touches the circle.
pub closed spec fn touching_margin(arc: Arc, edge: Edge, s: real) -> Place {
    let n = steps(arc, edge);
    let u = touching(arc, edge).clamp(Num::zero(), Num::one());
    let parameter = Estimate { value: s, error: touching_error(arc, edge) };
    let (m, l) = (n.dx.mul(u), n.dy.mul(u));
    Place {
        x: Estimate::of(edge.start.0).plus(
            n.x_way(edge).times(parameter, m),
            edge.start.0.add(m),
        ).error,
        y: Estimate::of(edge.start.1).plus(
            n.y_way(edge).times(parameter, l),
            edge.start.1.add(l),
        ).error,
    }
}

/// Nothing overflows on the way to where an edge touches a circle, and its length does not vanish.
pub closed spec fn touch_in_range(arc: Arc, edge: Edge) -> bool {
    let n = steps(arc, edge);
    let u = touching(arc, edge).clamp(Num::zero(), Num::one());
    &&& n.discriminant.is_finite()
    &&& n.divisor.is_finite()
    &&& crate::num::estimate::exact(n.divisor) != 0real
    &&& touching(arc, edge).is_finite()
    &&& edge.start.0.add(n.dx.mul(u)).is_finite()
    &&& edge.start.1.add(n.dy.mul(u)).is_finite()
}

/// The discriminant, where the line comes nearest to the center.
proof fn lemma_nearest(arc: Arc, edge: Edge, s: real)
    requires
        steepness(edge, place_along(edge, s), arc.center) == 0real,
    ensures
        ({
            let n = steps(arc, edge);
            let beyond = beyond_circle(place_along(edge, s), arc.center, arc.radius);
            &&& 2real * squared_length(edge) * s == -n.b_estimate(arc, edge).value
            &&& n.discriminant_estimate(arc, edge).value == -(4real * (squared_length(edge)
                * beyond))
            &&& n.a_estimate(edge).value == squared_length(edge)
        }),
{
    crate::num::estimate::exact_constants();
    let (p, q, c) = (place_of(edge.start), place_of(edge.end), place_of(arc.center));
    let (x, y) = (q.x - p.x, q.y - p.y);
    let (f, g) = (p.x - c.x, p.y - c.y);
    let r = crate::num::estimate::exact(arc.radius);
    let at = place_along(edge, s);
    let a = x * x + y * y;
    let b = 2real * (f * x + g * y);
    let k = f * f + g * g - r * r;
    assert(at.x - c.x == f + s * x && at.y - c.y == g + s * y);
    crate::geometry::primitives::real_algebra::lemma_line_and_circle(f, g, x, y, s, r);
    crate::geometry::primitives::real_algebra::lemma_discriminant_at(a, b, k, s);
    assert(2real * a * s + b == 0real);
    assert(0real * 0real == 0real) by (nonlinear_arith);
}

/// An edge that touches the circle of an arc, as nearly as the tolerance tells, meets the arc in one
/// point: where the edge comes nearest to the center, up to rounding, if what is near that place lies
/// on the arc.
pub proof fn touching_edges_meet_once<M: Fn(Elementary) -> Num>(
    arc: Arc,
    edge: Edge,
    s: real,
    math: &M,
)
    requires
        touch_in_range(arc, edge),
        0real <= s <= 1real,
        squared_length(edge) > 0real,
        steepness(edge, place_along(edge, s), arc.center) == 0real,
        ({
            let beyond = beyond_circle(place_along(edge, s), arc.center, arc.radius);
            4real * crate::num::estimate::size(squared_length(edge) * beyond) + discriminant_error(
                arc,
                edge,
            ) <= crate::num::estimate::exact(crate::geometry::primitives::arc::distance_epsilon())
        }),
        ({
            let eps = crate::geometry::primitives::arc::distance_epsilon();
            &&& Num::one().add(eps).is_finite()
            &&& touching_error(arc, edge) <= crate::num::estimate::exact(eps)
            &&& 1real + touching_error(arc, edge) <= crate::num::estimate::exact(
                Num::one().add(eps),
            )
        }),
        forall|q: Point|
            is_near(q, place_along(edge, s), touching_margin(arc, edge, s))
                ==> #[trigger] arc.collides_with_point(q, math),
    ensures
        arc.meeting_points(edge, math).len() == 1,
        is_near(
            arc.meeting_points(edge, math)[0],
            place_along(edge, s),
            touching_margin(arc, edge, s),
        ),
{
    let n = steps(arc, edge);
    let eps = crate::geometry::primitives::arc::distance_epsilon();
    let t = touching(arc, edge);
    lemma_nearest(arc, edge, s);
    lemma_ways(arc, edge);
    lemma_coefficients(arc, edge);
    lemma_discriminant(arc, edge);
    crate::num::estimate::exact_constants();
    let b = n.b_estimate(arc, edge);
    crate::num::estimate::estimated_products(
        Estimate::of(Num::two()),
        Num::two(),
        n.a_estimate(edge),
        n.a,
    );
    crate::num::estimate::estimated_negations(b, n.b);
    crate::num::estimate::estimated_ratios(
        b.negated(),
        n.b.neg(),
        n.divisor_estimate(edge),
        n.divisor,
    );
    crate::geometry::primitives::real_algebra::lemma_undone(2real * squared_length(edge), s);
    assert(touching_estimate(arc, edge).value == s);
    lemma_clamped(t, s, touching_error(arc, edge));
    let u = t.clamp(Num::zero(), Num::one());
    let parameter = Estimate { value: s, error: touching_error(arc, edge) };
    let (k, l) = (n.dx.mul(u), n.dy.mul(u));
    let (x, y) = (n.x_way(edge), n.y_way(edge));
    let p = edge.start;
    crate::num::estimate::sums_are_near(p.0, k);
    crate::num::estimate::sums_are_near(p.1, l);
    crate::num::estimate::estimated_products(x, n.dx, parameter, u);
    crate::num::estimate::estimated_products(y, n.dy, parameter, u);
    crate::num::estimate::estimated_sums(Estimate::of(p.0), p.0, x.times(parameter, k), k);
    crate::num::estimate::estimated_sums(Estimate::of(p.1), p.1, y.times(parameter, l), l);
    crate::geometry::primitives::real_algebra::lemma_commuted(x.value, s);
    crate::geometry::primitives::real_algebra::lemma_commuted(y.value, s);
    let point = Arc::spec_point_on_edge(edge, t);
    assert(is_near(point, place_along(edge, s), touching_margin(arc, edge, s)));
    assert(arc.collides_with_point(point, math));
    assert(eps.is_finite());
    crate::num::estimate::negations_are_exact(eps);
    crate::num::estimate::exact_values_compare(eps.neg(), t);
    crate::num::estimate::exact_values_compare(t, Num::one().add(eps));
    assert(!n.discriminant.lt(eps.neg()) && n.discriminant.abs().le(eps)) by {
        crate::num::estimate::exact_values_compare(n.discriminant, eps.neg());
        crate::num::estimate::absolute_values_are_exact(n.discriminant);
        crate::num::estimate::exact_values_compare(n.discriminant.abs(), eps);
    }
    assert(arc.crossing_parameters(edge) =~= seq![t]);
    assert(arc.meeting_points(edge, math) == Seq::empty().push(point));
}

/// An edge whose line stays clear of the circle of an arc does not meet the arc.
pub proof fn edges_clear_of_the_circle_do_not_meet_arcs<M: Fn(Elementary) -> Num>(
    arc: Arc,
    edge: Edge,
    s: real,
    math: &M,
)
    requires
        touch_in_range(arc, edge),
        steepness(edge, place_along(edge, s), arc.center) == 0real,
        ({
            let beyond = beyond_circle(place_along(edge, s), arc.center, arc.radius);
            4real * (squared_length(edge) * beyond) > crate::num::estimate::exact(
                crate::geometry::primitives::arc::distance_epsilon(),
            ) + discriminant_error(arc, edge)
        }),
    ensures
        arc.meeting_points(edge, math).len() == 0,
        !arc.collides_with_edge(edge, math),
{
    let n = steps(arc, edge);
    let eps = crate::geometry::primitives::arc::distance_epsilon();
    lemma_nearest(arc, edge, s);
    lemma_discriminant(arc, edge);
    assert(eps.is_finite());
    crate::num::estimate::negations_are_exact(eps);
    crate::num::estimate::exact_values_compare(n.discriminant, eps.neg());
}

} // verus!
