//! Points that come to their place by way of another one: first a motion is done, then it is undone
//! and another one is done.
use vstd::prelude::*;

use crate::geometry::primitives::point::Point;
use crate::geometry::transformation::laws::Motion;
use crate::num::Num;

verus! {

/// What is computed on the way, in units.
struct Way {
    one: int,
    /// The first motion, and its determinant.
    cos: int,
    sin: int,
    by: (int, int),
    det: int,
    /// The motion that undoes it.
    back_cos: int,
    back_sin: int,
    back: (int, int),
    /// The second motion, in one coordinate.
    k: int,
    l: int,
    e: int,
    /// What the two come to, and what it is taken for.
    both_cos: int,
    both_sin: int,
    to: int,
    used_cos: int,
    used_sin: int,
    /// The point, its image under the first motion, and where both ways lead.
    point: (int, int),
    image: (int, int),
    by_way: int,
    direct: int,
}

impl Way {
    spec fn big(self) -> int {
        self.one * self.det
    }

    spec fn image_error_x(self) -> int {
        self.one * self.image.0 - (self.cos * self.point.0 - self.sin * self.point.1 + self.one
            * self.by.0)
    }

    spec fn image_error_y(self) -> int {
        self.one * self.image.1 - (self.sin * self.point.0 + self.cos * self.point.1 + self.one
            * self.by.1)
    }

    spec fn det_error(self) -> int {
        self.one * self.det - (self.cos * self.cos + self.sin * self.sin)
    }

    spec fn back_cos_error(self) -> int {
        self.back_cos * self.det - self.cos * self.one
    }

    spec fn back_sin_error(self) -> int {
        self.back_sin * self.det + self.sin * self.one
    }

    spec fn back_error_x(self) -> int {
        self.back.0 * self.det + (self.sin * self.by.1 + self.cos * self.by.0)
    }

    spec fn back_error_y(self) -> int {
        self.back.1 * self.det - (self.sin * self.by.0 - self.cos * self.by.1)
    }

    spec fn both_cos_error(self) -> int {
        self.one * self.both_cos - (self.k * self.back_cos - self.l * self.back_sin)
    }

    spec fn both_sin_error(self) -> int {
        self.one * self.both_sin - (self.l * self.back_cos + self.k * self.back_sin)
    }

    spec fn to_error(self) -> int {
        self.one * self.to - (self.k * self.back.0 - self.l * self.back.1 + self.one * self.e)
    }

    spec fn by_way_error(self) -> int {
        self.one * self.by_way - (self.used_cos * self.image.0 - self.used_sin * self.image.1
            + self.one * self.to)
    }

    spec fn direct_error(self) -> int {
        self.one * self.direct - (self.k * self.point.0 - self.l * self.point.1 + self.one * self.e)
    }

    spec fn p(self) -> int {
        self.k * self.cos + self.l * self.sin
    }

    spec fn q(self) -> int {
        self.l * self.cos - self.k * self.sin
    }

    spec fn cos_part(self) -> int {
        self.det * self.both_cos_error() + self.k * self.back_cos_error() - self.l
            * self.back_sin_error()
    }

    spec fn sin_part(self) -> int {
        self.det * self.both_sin_error() + self.l * self.back_cos_error() + self.k
            * self.back_sin_error()
    }

    spec fn turned(self) -> int {
        self.k * self.point.0 - self.l * self.point.1
    }

    /// What the two ways differ by, made up of the errors.
    spec fn difference(self) -> int {
        self.big() * self.by_way_error() + self.big() * ((self.used_cos - self.both_cos)
            * self.image.0) - self.big() * ((self.used_sin - self.both_sin) * self.image.1)
            + self.image.0 * self.cos_part() - self.image.1 * self.sin_part() + self.p()
            * self.image_error_x() - self.q() * self.image_error_y() + self.big()
            * self.to_error() + self.one * (self.k * self.back_error_x()) - self.one * (self.l
            * self.back_error_y()) - self.turned() * self.det_error() - self.big()
            * self.direct_error()
    }
}

proof fn lemma_mul3(a: int, b: int, c: int)
    ensures
        a * (b + c) == a * b + a * c,
        a * (b - c) == a * b - a * c,
        a * (b * c) == (a * b) * c,
        a * (b * c) == b * (a * c),
        a * b == b * a,
{
    assert(a * (b + c) == a * b + a * c) by (nonlinear_arith);
    assert(a * (b - c) == a * b - a * c) by (nonlinear_arith);
    assert(a * (b * c) == (a * b) * c) by (nonlinear_arith);
    assert(a * (b * c) == b * (a * c)) by (nonlinear_arith);
    assert(a * b == b * a) by (nonlinear_arith);
}

/// A sum or a difference of products, times a number.
proof fn lemma_products_times(k: int, c: int, l: int, s: int, x: int)
    ensures
        (k * c + l * s) * x == k * (c * x) + l * (s * x),
        (k * c - l * s) * x == k * (c * x) - l * (s * x),
{
    let (a, b) = (k * c, l * s);
    assert((a + b) * x == a * x + b * x) by (nonlinear_arith);
    assert((a - b) * x == a * x - b * x) by (nonlinear_arith);
    lemma_mul3(k, c, x);
    lemma_mul3(l, s, x);
}

/// The determinant times one entry of the two motions together.
proof fn lemma_scaled_entry(way: Way)
    ensures
        way.big() * way.both_cos == way.cos_part() + way.one * way.p(),
        way.big() * way.both_sin == way.sin_part() + way.one * way.q(),
{
    let (o, d) = (way.one, way.det);
    let (k, l) = (way.k, way.l);
    let (c, s) = (way.cos, way.sin);
    let (u, w) = (way.back_cos, way.back_sin);
    let (f, g) = (way.back_cos_error(), way.back_sin_error());
    assert((o * d) * way.both_cos == d * (o * way.both_cos)) by (nonlinear_arith);
    assert((o * d) * way.both_sin == d * (o * way.both_sin)) by (nonlinear_arith);
    let (e, h) = (way.both_cos_error(), way.both_sin_error());
    assert(d * (e + k * u - l * w) == d * e + k * (u * d) - l * (w * d)) by (nonlinear_arith);
    assert(d * (h + l * u + k * w) == d * h + l * (u * d) + k * (w * d)) by (nonlinear_arith);
    assert(k * (f + c * o) == k * f + o * (k * c)) by (nonlinear_arith);
    assert(l * (f + c * o) == l * f + o * (l * c)) by (nonlinear_arith);
    assert(l * (g - s * o) == l * g - o * (l * s)) by (nonlinear_arith);
    assert(k * (g - s * o) == k * g - o * (k * s)) by (nonlinear_arith);
    lemma_mul3(o, k * c, l * s);
    lemma_mul3(o, l * c, k * s);
    assert(o * way.both_cos == e + k * u - l * w);
    assert(o * way.both_sin == h + l * u + k * w);
    assert(u * d == f + c * o);
    assert(w * d == g - s * o);
}

/// The translation that the two motions come to, scaled.
proof fn lemma_scaled_translation(way: Way)
    ensures
        way.big() * (way.one * way.to) == way.big() * way.to_error() + way.one * (way.k
            * way.back_error_x()) - way.one * (way.l * way.back_error_y()) - way.one * (way.p()
            * way.by.0 - way.q() * way.by.1) + way.big() * (way.one * way.e),
{
    let (o, d, b) = (way.one, way.det, way.big());
    let (k, l) = (way.k, way.l);
    let (c, s) = (way.cos, way.sin);
    let (x, y) = way.by;
    let (u, w) = way.back;
    let (g, h) = (way.back_error_x(), way.back_error_y());
    let t = way.to_error();
    assert(o * way.to == t + k * u - l * w + o * way.e);
    assert(b * (t + k * u - l * w + o * way.e) == b * t + b * (k * u) - b * (l * w) + b * (o
        * way.e)) by (nonlinear_arith);
    assert((o * d) * (k * u) == o * (k * (u * d))) by (nonlinear_arith);
    assert((o * d) * (l * w) == o * (l * (w * d))) by (nonlinear_arith);
    assert(u * d == g - (s * y + c * x));
    assert(w * d == h + (s * x - c * y));
    lemma_mul3(k, g, s * y + c * x);
    lemma_mul3(l, h, s * x - c * y);
    lemma_mul3(o, k * g, k * (s * y + c * x));
    lemma_mul3(o, l * h, l * (s * x - c * y));
    lemma_products_times(k, c, l, s, x);
    lemma_products_times(l, c, k, s, y);
    lemma_mul3(k, s * y, c * x);
    lemma_mul3(l, s * x, c * y);
    assert(way.p() * x - way.q() * y == k * (s * y + c * x) + l * (s * x - c * y));
    lemma_mul3(o, k * (s * y + c * x), l * (s * x - c * y));
}

/// The coordinates of the image, weighted with the two motions together.
proof fn lemma_weighted_image(way: Way)
    ensures
        (way.one * way.p()) * way.image.0 - (way.one * way.q()) * way.image.1 == way.p()
            * way.image_error_x() - way.q() * way.image_error_y() + (way.cos * way.cos + way.sin
            * way.sin) * way.turned() + way.one * (way.p() * way.by.0 - way.q() * way.by.1),
{
    let o = way.one;
    let (k, l) = (way.k, way.l);
    let (c, s) = (way.cos, way.sin);
    let (x, y) = way.by;
    let (u, w) = way.point;
    let (p, q) = (way.p(), way.q());
    let (g, h) = (way.image_error_x(), way.image_error_y());
    assert((o * p) * way.image.0 == p * (o * way.image.0)) by (nonlinear_arith);
    assert((o * q) * way.image.1 == q * (o * way.image.1)) by (nonlinear_arith);
    assert(o * way.image.0 == g + (c * u - s * w) + o * x);
    assert(o * way.image.1 == h + (s * u + c * w) + o * y);
    let (m, n) = (c * u - s * w, s * u + c * w);
    assert(p * (g + m + o * x) == p * g + p * m + o * (p * x)) by (nonlinear_arith);
    assert(q * (h + n + o * y) == q * h + q * n + o * (q * y)) by (nonlinear_arith);
    lemma_mul3(o, p * x, q * y);
    lemma_turned_back(c, s, k, l, u, w);
}

proof fn lemma_turned_back(c: int, s: int, k: int, l: int, u: int, w: int)
    ensures
        (k * c + l * s) * (c * u - s * w) - (l * c - k * s) * (s * u + c * w) == (c * c + s * s) * (k
            * u - l * w),
{
    let (m, n) = (c * u - s * w, s * u + c * w);
    lemma_products_times(k, c, l, s, m);
    lemma_products_times(l, c, k, s, n);
    lemma_mul3(c, c * u, s * w);
    lemma_mul3(s, c * u, s * w);
    lemma_mul3(c, s * u, c * w);
    lemma_mul3(s, s * u, c * w);
    lemma_mul3(c, s, w);
    lemma_mul3(c, s, u);
    let (ccu, csw, scu, ssw) = (c * (c * u), c * (s * w), s * (c * u), s * (s * w));
    let (csu, ccw, ssu, scw) = (c * (s * u), c * (c * w), s * (s * u), s * (c * w));
    assert(csw == scw);
    assert(scu == csu);
    lemma_mul3(k, ccu, csw);
    lemma_mul3(l, scu, ssw);
    lemma_mul3(l, csu, ccw);
    lemma_mul3(k, ssu, scw);
    assert(k * (c * m) == k * ccu - k * csw);
    assert(l * (s * m) == l * scu - l * ssw);
    assert(l * (c * n) == l * csu + l * ccw);
    assert(k * (s * n) == k * ssu + k * scw);
    let cc = c * c + s * s;
    lemma_mul3(cc, k * u, l * w);
    lemma_mul3(cc, k, u);
    lemma_mul3(cc, l, w);
    lemma_products_times(c, c, s, s, u);
    lemma_products_times(c, c, s, s, w);
    assert(cc * u == ccu + ssu);
    assert(cc * w == ccw + ssw);
    lemma_mul3(k, ccu, ssu);
    lemma_mul3(l, ccw, ssw);
    assert(cc * (k * u) == k * (cc * u));
    assert(cc * (l * w) == l * (cc * w));
}

/// The two ways differ by what the errors make up.
proof fn lemma_difference(way: Way)
    ensures
        way.big() * (way.one * (way.by_way - way.direct)) == way.difference(),
{
    let (o, b) = (way.one, way.big());
    let (x, y) = way.image;
    let (dk, dl) = (way.used_cos - way.both_cos, way.used_sin - way.both_sin);
    let (e, f) = (way.by_way_error(), way.direct_error());
    let (kc, ks) = (way.both_cos, way.both_sin);
    lemma_scaled_entry(way);
    lemma_scaled_translation(way);
    lemma_weighted_image(way);
    assert((kc + dk) * x == kc * x + dk * x) by (nonlinear_arith);
    assert((ks + dl) * y == ks * y + dl * y) by (nonlinear_arith);
    assert(o * way.by_way == e + (kc * x + dk * x) - (ks * y + dl * y) + o * way.to);
    let t = o * way.to;
    assert(b * (e + (kc * x + dk * x) - (ks * y + dl * y) + t) == b * e + (b * kc) * x + b * (dk
        * x) - (b * ks) * y - b * (dl * y) + b * t) by (nonlinear_arith);
    let (m, n) = (way.cos_part(), way.sin_part());
    let (op, oq) = (o * way.p(), o * way.q());
    assert((m + op) * x == x * m + op * x) by (nonlinear_arith);
    assert((n + oq) * y == y * n + oq * y) by (nonlinear_arith);
    let v = way.turned();
    assert(o * way.direct == f + v + o * way.e);
    assert(b * (f + v + o * way.e) == b * f + b * v + b * (o * way.e)) by (nonlinear_arith);
    let cc = way.cos * way.cos + way.sin * way.sin;
    assert(b == way.det_error() + cc);
    assert((way.det_error() + cc) * v == v * way.det_error() + cc * v) by (nonlinear_arith);
    lemma_mul3(o, way.by_way, way.direct);
    lemma_mul3(b, o * way.by_way, o * way.direct);
}

/// One coordinate of a second motion: the weights of the coordinates of a point, the second with
/// the opposite sign, and the translation.
pub struct Coordinate {
    pub k: Num,
    pub l: Num,
    pub translation: Num,
}

impl Coordinate {
    /// The coordinate of the image of a point.
    pub open spec fn of(self, point: Point) -> Num {
        crate::geometry::transformation::laws::coordinate(
            self.k,
            self.l.neg(),
            self.translation,
            point,
        )
    }

    pub open spec fn steps(self, point: Point) -> nat {
        crate::geometry::transformation::laws::coordinate_steps(
            self.k,
            self.l.neg(),
            self.translation,
            point,
        )
    }

    /// The coordinate of a motion that undoes another one and then does this one.
    pub open spec fn after_undoing(self, first: Motion) -> Coordinate {
        let back = first.undone();
        Coordinate {
            k: self.k.mul(back.cos).add(self.l.neg().mul(back.sin)),
            l: self.l.mul(back.cos).add(self.k.mul(back.sin)),
            translation: self.of(Point(back.translation.0, back.translation.1)),
        }
    }

    pub open spec fn is_finite(self) -> bool {
        self.k.is_finite() && self.l.is_finite() && self.translation.is_finite()
    }
}

/// The image of a point under a motion, as it is computed.
pub open spec fn image_under(m: Motion, point: Point) -> Point {
    Point(
        crate::geometry::transformation::laws::coordinate(
            m.cos,
            m.sin.neg(),
            m.translation.0,
            point,
        ),
        crate::geometry::transformation::laws::coordinate(m.sin, m.cos, m.translation.1, point),
    )
}

/// The steps on the way to the cosine or the sine of the two motions together.
pub open spec fn weight_steps(a: Num, b: Num, c: Num, d: Num) -> nat {
    crate::num::accuracy::step(a.mul(b)) + crate::num::accuracy::step(c.mul(d))
        + crate::num::accuracy::step(a.mul(b).add(c.mul(d)))
}

/// The errors in the cosine of the two motions together, scaled with the determinant.
pub open spec fn cos_slack(first: Motion, second: Coordinate) -> nat {
    let one = Num::one_in_units();
    let det = first.determinant().units();
    let back = first.undone();
    det * (one * weight_steps(second.k, back.cos, second.l.neg(), back.sin)) + second.k.units() * (
    crate::num::accuracy::step(back.cos) * det) + second.l.units() * (crate::num::accuracy::step(
        back.sin,
    ) * det)
}

/// The errors in the sine of the two motions together, scaled with the determinant.
pub open spec fn sin_slack(first: Motion, second: Coordinate) -> nat {
    let one = Num::one_in_units();
    let det = first.determinant().units();
    let back = first.undone();
    det * (one * weight_steps(second.l, back.cos, second.k, back.sin)) + second.l.units() * (
    crate::num::accuracy::step(back.cos) * det) + second.k.units() * (crate::num::accuracy::step(
        back.sin,
    ) * det)
}

/// The errors in what undoes the translation, scaled with the determinant, in each coordinate.
pub open spec fn back_slack(first: Motion) -> (nat, nat) {
    let one = Num::one_in_units();
    let det = first.determinant().units();
    let back = first.undone();
    let (x, y) = first.translation;
    (
        one * (crate::num::accuracy::step(first.sin.neg().mul(y)) + crate::num::accuracy::step(
            x.mul(first.cos),
        ) + crate::num::accuracy::step(first.turned_back().0)) + crate::num::accuracy::step(
            back.translation.0,
        ) * det,
        one * (crate::num::accuracy::step(x.mul(first.sin)) + crate::num::accuracy::step(
            first.cos.mul(y),
        ) + crate::num::accuracy::step(first.turned_back().1)) + crate::num::accuracy::step(
            back.translation.1,
        ) * det,
    )
}

/// By how much, at most, a point that comes to its place by way of its image under a first motion
/// may miss the place to which a second motion brings it directly, in one coordinate; times two and
/// the determinant, in units to the fourth.
///
/// `used` stands for what undoing the first motion and doing the second one come to: where it
/// differs from that, its weights count in. Everything else is a step of an operation on the way.
pub open spec fn detour_slack(
    first: Motion,
    second: Coordinate,
    used: Coordinate,
    point: Point,
) -> nat {
    let one = Num::one_in_units();
    let big = one * first.determinant().units();
    let both = second.after_undoing(first);
    let back = first.undone();
    let image = image_under(first, point);
    let (x, y) = (image.0.units(), image.1.units());
    let (k, l) = (second.k.value(), second.l.value());
    let (c, s) = (first.cos.value(), first.sin.value());
    let (back_x, back_y) = back_slack(first);
    big * (one * used.steps(image)) + big * (2 * crate::num::accuracy::gap(
        used.k.value(),
        both.k.value(),
    ) * x) + big * (2 * crate::num::accuracy::gap(used.l.value(), both.l.value()) * y) + x
        * cos_slack(first, second) + y * sin_slack(first, second) + crate::num::accuracy::size(k * c + l * s) * (one
        * crate::geometry::transformation::laws::coordinate_steps(
        first.cos,
        first.sin.neg(),
        first.translation.0,
        point,
    )) + crate::num::accuracy::size(l * c - k * s) * (one * crate::geometry::transformation::laws::coordinate_steps(
        first.sin,
        first.cos,
        first.translation.1,
        point,
    )) + big * (one * second.steps(Point(back.translation.0, back.translation.1))) + one * (
    second.k.units() * back_x) + one * (second.l.units() * back_y) + crate::num::accuracy::size(
        k * point.0.value() - l * point.1.value(),
    ) * (one * weight_steps(first.cos, first.cos, first.sin, first.sin)) + big * (one
        * second.steps(point))
}

proof fn lemma_bounded(v: int, error: int, bound: int)
    requires
        -bound <= 2 * error <= bound,
    ensures
        -(crate::num::accuracy::size(v) * bound) <= 2 * (v * error) <= crate::num::accuracy::size(v) * bound,
{
    crate::geometry::primitives::moments::lemma_scaled_error(v, crate::num::accuracy::size(v) as int, error, bound);
}

/// The error of a sum of two products, each rounded.
proof fn lemma_weight_errs(a: Num, b: Num, c: Num, d: Num)
    requires
        a.mul(b).add(c.mul(d)).is_finite(),
    ensures
        a.is_finite(),
        b.is_finite(),
        c.is_finite(),
        d.is_finite(),
        ({
            let bound = Num::one_in_units() * weight_steps(a, b, c, d);
            let error = Num::one_in_units() * a.mul(b).add(c.mul(d)).value() - (a.value()
                * b.value() + c.value() * d.value());
            -(bound as int) <= 2 * error <= bound
        }),
{
    let one = Num::one_in_units() as int;
    let (x, y) = (a.mul(b), c.mul(d));
    let r = x.add(y);
    crate::num::accuracy::finite_sums_have_finite_terms(x, y);
    assert(a.is_finite() && b.is_finite() && c.is_finite() && d.is_finite()) by {
        reveal(Num::spec_mul);
    }
    crate::num::accuracy::products_err_by_half_a_step(a, b);
    crate::num::accuracy::products_err_by_half_a_step(c, d);
    crate::num::accuracy::sums_err_by_half_a_step(x, y);
    let (vx, vy, vr) = (x.value(), y.value(), r.value());
    let (sx, sy, sr) = (
        crate::num::accuracy::step(x) as int,
        crate::num::accuracy::step(y) as int,
        crate::num::accuracy::step(r) as int,
    );
    crate::geometry::primitives::moments::lemma_scaled_bounds(vr - (vx + vy), sr, one);
    assert((vr - (vx + vy)) * one == vr * one - vx * one - vy * one) by (nonlinear_arith);
    assert(one * (sx + sy + sr) == sx * one + sy * one + sr * one) by (nonlinear_arith);
    assert(one * vr == vr * one) by (nonlinear_arith);
}

/// The error of a coordinate of an image.
proof fn lemma_coordinate_errs(a: Num, b: Num, translation: Num, point: Point)
    requires
        crate::geometry::transformation::laws::coordinate(
            a,
            b,
            translation,
            point,
        ).is_finite(),
    ensures
        ({
            let one = Num::one_in_units() as int;
            let bound = one * crate::geometry::transformation::laws::coordinate_steps(
                a,
                b,
                translation,
                point,
            );
            let error = one * crate::geometry::transformation::laws::coordinate(
                a,
                b,
                translation,
                point,
            ).value() - (a.value() * point.0.value() + b.value() * point.1.value() + one
                * translation.value());
            -bound <= 2 * error <= bound
        }),
{
    let one = Num::one_in_units() as int;
    crate::geometry::transformation::laws::coordinates_err_by_half_steps(a, b, translation, point);
    let v = crate::geometry::transformation::laws::coordinate(a, b, translation, point).value();
    let t = translation.value();
    let k = crate::geometry::transformation::laws::coordinate_steps(
        a,
        b,
        translation,
        point,
    ) as int;
    assert(v * one == one * v) by (nonlinear_arith);
    assert(t * one == one * t) by (nonlinear_arith);
    assert(k * one == one * k) by (nonlinear_arith);
}

/// The error of a quotient that is scaled with its divisor.
proof fn lemma_quotient_errs(x: Num, d: Num)
    requires
        x.is_finite(),
        d.is_finite(),
        d.magnitude() != 0,
        x.div(d).is_finite(),
    ensures
        ({
            let bound = crate::num::accuracy::step(x.div(d)) * d.units();
            let error = x.div(d).value() * d.value() - x.value() * Num::one_in_units();
            -(bound as int) <= 2 * error <= bound
        }),
{
    crate::num::accuracy::quotients_err_by_half_a_step(x, d);
}

/// The error of a difference of two products, each rounded.
proof fn lemma_difference_errs(a: Num, b: Num, c: Num, d: Num)
    requires
        a.mul(b).sub(c.mul(d)).is_finite(),
    ensures
        ({
            let r = a.mul(b).sub(c.mul(d));
            let bound = Num::one_in_units() * (crate::num::accuracy::step(a.mul(b))
                + crate::num::accuracy::step(c.mul(d)) + crate::num::accuracy::step(r));
            let error = Num::one_in_units() * r.value() - (a.value() * b.value() - c.value()
                * d.value());
            -(bound as int) <= 2 * error <= bound
        }),
{
    let one = Num::one_in_units() as int;
    let (x, y) = (a.mul(b), c.mul(d));
    let r = x.sub(y);
    crate::num::accuracy::finite_sums_have_finite_terms(x, y.neg());
    assert(a.is_finite() && b.is_finite() && c.is_finite() && d.is_finite()) by {
        reveal(Num::spec_mul);
    }
    crate::num::accuracy::products_err_by_half_a_step(a, b);
    crate::num::accuracy::products_err_by_half_a_step(c, d);
    crate::num::accuracy::sums_err_by_half_a_step(x, y.neg());
    assert(y.neg().value() == -y.value());
    let (vx, vy, vr) = (x.value(), y.value(), r.value());
    let (sx, sy, sr) = (
        crate::num::accuracy::step(x) as int,
        crate::num::accuracy::step(y) as int,
        crate::num::accuracy::step(r) as int,
    );
    crate::geometry::primitives::moments::lemma_scaled_bounds(vr - (vx - vy), sr, one);
    assert((vr - (vx - vy)) * one == vr * one - vx * one + vy * one) by (nonlinear_arith);
    assert(one * (sx + sy + sr) == sx * one + sy * one + sr * one) by (nonlinear_arith);
    assert(one * vr == vr * one) by (nonlinear_arith);
}

/// What is computed on the way, for numbers.
spec fn way_of(first: Motion, second: Coordinate, used: Coordinate, point: Point) -> Way {
    let back = first.undone();
    let both = second.after_undoing(first);
    let image = image_under(first, point);
    Way {
        one: Num::one_in_units() as int,
        cos: first.cos.value(),
        sin: first.sin.value(),
        by: (first.translation.0.value(), first.translation.1.value()),
        det: first.determinant().value(),
        back_cos: back.cos.value(),
        back_sin: back.sin.value(),
        back: (back.translation.0.value(), back.translation.1.value()),
        k: second.k.value(),
        l: second.l.value(),
        e: second.translation.value(),
        both_cos: both.k.value(),
        both_sin: both.l.value(),
        to: both.translation.value(),
        used_cos: used.k.value(),
        used_sin: used.l.value(),
        point: (point.0.value(), point.1.value()),
        image: (image.0.value(), image.1.value()),
        by_way: used.of(image).value(),
        direct: second.of(point).value(),
    }
}

/// All that is computed on the way is a number.
pub open spec fn is_passable(
    first: Motion,
    second: Coordinate,
    used: Coordinate,
    point: Point,
) -> bool {
    &&& first.can_be_undone()
    &&& second.is_finite()
    &&& second.after_undoing(first).is_finite()
    &&& used.is_finite()
    &&& point.is_finite()
    &&& image_under(first, point).is_finite()
    &&& used.of(image_under(first, point)).is_finite()
    &&& second.of(point).is_finite()
}

proof fn lemma_negative_factor(x: int, y: int)
    ensures
        (-x) * y == -(x * y),
        x * (-y) == -(x * y),
{
    assert((-x) * y == -(x * y)) by (nonlinear_arith);
    assert(x * (-y) == -(x * y)) by (nonlinear_arith);
}

proof fn lemma_part_bounds(first: Motion, second: Coordinate, used: Coordinate, point: Point)
    requires
        is_passable(first, second, used, point),
    ensures
        ({
            let way = way_of(first, second, used, point);
            let (c, s) = (cos_slack(first, second) as int, sin_slack(first, second) as int);
            &&& -c <= 2 * way.cos_part() <= c
            &&& -s <= 2 * way.sin_part() <= s
        }),
{
    let way = way_of(first, second, used, point);
    let one = Num::one_in_units() as int;
    let d = first.determinant();
    let back = first.undone();
    let (k, l) = (second.k, second.l);
    lemma_weight_errs(k, back.cos, l.neg(), back.sin);
    lemma_weight_errs(l, back.cos, k, back.sin);
    assert(l.neg().value() == -l.value());
    lemma_negative_factor(l.value(), back.sin.value());
    let (bk, bl) = (
        one * weight_steps(k, back.cos, l.neg(), back.sin),
        one * weight_steps(l, back.cos, k, back.sin),
    );
    assert(-bk <= 2 * way.both_cos_error() <= bk);
    assert(-bl <= 2 * way.both_sin_error() <= bl);
    lemma_quotient_errs(first.cos, d);
    lemma_quotient_errs(first.sin.neg(), d);
    assert(first.sin.neg().value() == -first.sin.value());
    lemma_negative_factor(first.sin.value(), one);
    let (bc, bs) = (
        (crate::num::accuracy::step(back.cos) * d.units()) as int,
        (crate::num::accuracy::step(back.sin) * d.units()) as int,
    );
    assert(-bc <= 2 * way.back_cos_error() <= bc);
    assert(-bs <= 2 * way.back_sin_error() <= bs);
    lemma_bounded(way.det, way.both_cos_error(), bk);
    lemma_bounded(way.det, way.both_sin_error(), bl);
    lemma_bounded(way.k, way.back_cos_error(), bc);
    lemma_bounded(way.l, way.back_cos_error(), bc);
    lemma_bounded(way.k, way.back_sin_error(), bs);
    lemma_bounded(way.l, way.back_sin_error(), bs);
    assert(crate::num::accuracy::size(way.det) == d.units());
    assert(crate::num::accuracy::size(way.k) == k.units());
    assert(crate::num::accuracy::size(way.l) == l.units());
}

proof fn lemma_back_bounds(first: Motion, second: Coordinate, used: Coordinate, point: Point)
    requires
        is_passable(first, second, used, point),
    ensures
        ({
            let way = way_of(first, second, used, point);
            let (x, y) = (back_slack(first).0 as int, back_slack(first).1 as int);
            &&& -x <= 2 * way.back_error_x() <= x
            &&& -y <= 2 * way.back_error_y() <= y
        }),
{
    let way = way_of(first, second, used, point);
    let one = Num::one_in_units() as int;
    let d = first.determinant();
    let (x, y) = first.translation;
    let (c, s) = (first.cos, first.sin);
    let (u, w) = first.turned_back();
    lemma_difference_errs(s.neg(), y, x, c);
    lemma_difference_errs(x, s, c, y);
    lemma_quotient_errs(u, d);
    lemma_quotient_errs(w, d);
    assert(s.neg().value() == -s.value());
    lemma_negative_factor(s.value(), y.value());
    lemma_mul3(x.value(), c.value(), 0);
    lemma_mul3(x.value(), s.value(), 0);
    lemma_mul3(u.value(), one, 0);
    lemma_mul3(w.value(), one, 0);
    assert(way.back_error_x() == (way.back.0 * way.det - u.value() * one) + (one * u.value() - (
    s.neg().value() * y.value() - x.value() * c.value())));
    assert(way.back_error_y() == (way.back.1 * way.det - w.value() * one) + (one * w.value() - (
    x.value() * s.value() - c.value() * y.value())));
}

proof fn lemma_image_bounds(first: Motion, second: Coordinate, used: Coordinate, point: Point)
    requires
        is_passable(first, second, used, point),
        used.translation.value() == second.after_undoing(first).translation.value(),
    ensures
        ({
            let way = way_of(first, second, used, point);
            let one = Num::one_in_units() as int;
            let image = image_under(first, point);
            let back = first.undone();
            let x = one * crate::geometry::transformation::laws::coordinate_steps(
                first.cos,
                first.sin.neg(),
                first.translation.0,
                point,
            );
            let y = one * crate::geometry::transformation::laws::coordinate_steps(
                first.sin,
                first.cos,
                first.translation.1,
                point,
            );
            let t = one * second.steps(Point(back.translation.0, back.translation.1));
            let (b, d) = (one * used.steps(image), one * second.steps(point));
            let w = one * weight_steps(first.cos, first.cos, first.sin, first.sin);
            &&& -x <= 2 * way.image_error_x() <= x
            &&& -y <= 2 * way.image_error_y() <= y
            &&& -t <= 2 * way.to_error() <= t
            &&& -b <= 2 * way.by_way_error() <= b
            &&& -d <= 2 * way.direct_error() <= d
            &&& -w <= 2 * way.det_error() <= w
        }),
{
    let image = image_under(first, point);
    let back = first.undone();
    let (k, l) = (second.k, second.l);
    lemma_coordinate_errs(first.cos, first.sin.neg(), first.translation.0, point);
    lemma_coordinate_errs(first.sin, first.cos, first.translation.1, point);
    lemma_coordinate_errs(
        k,
        l.neg(),
        second.translation,
        Point(back.translation.0, back.translation.1),
    );
    lemma_coordinate_errs(used.k, used.l.neg(), used.translation, image);
    lemma_coordinate_errs(k, l.neg(), second.translation, point);
    lemma_weight_errs(first.cos, first.cos, first.sin, first.sin);
    assert(first.sin.neg().value() == -first.sin.value());
    assert(l.neg().value() == -l.value());
    assert(used.l.neg().value() == -used.l.value());
    lemma_negative_factor(first.sin.value(), point.1.value());
    lemma_negative_factor(l.value(), back.translation.1.value());
    lemma_negative_factor(l.value(), point.1.value());
    lemma_negative_factor(used.l.value(), image.1.value());
}

/// A point that comes to its place by way of its image under a first motion, which is then undone
/// before a second one is done, comes to where the second one brings it directly, but for the slack
/// of the computation.
pub proof fn detours_lead_to_the_same_place(
    first: Motion,
    second: Coordinate,
    used: Coordinate,
    point: Point,
)
    requires
        is_passable(first, second, used, point),
        used.translation.value() == second.after_undoing(first).translation.value(),
    ensures
        2 * (Num::one_in_units() * first.determinant().units()) * (Num::one_in_units()
            * crate::num::accuracy::gap(
            used.of(image_under(first, point)).value(),
            second.of(point).value(),
        )) <= detour_slack(first, second, used, point),
{
    let way = way_of(first, second, used, point);
    let one = Num::one_in_units() as int;
    let d = first.determinant();
    let image = image_under(first, point);
    let back = first.undone();
    let both = second.after_undoing(first);
    lemma_difference(way);
    lemma_part_bounds(first, second, used, point);
    lemma_back_bounds(first, second, used, point);
    lemma_image_bounds(first, second, used, point);
    let big = one * d.units();
    assert(crate::num::accuracy::size(way.big()) == big) by {
        lemma_negative_factor(one, d.units() as int);
        assert(one * d.units() >= 0) by (nonlinear_arith)
            requires
                one >= 0,
        ;
    }
    let gk = 2 * crate::num::accuracy::gap(used.k.value(), both.k.value());
    let gl = 2 * crate::num::accuracy::gap(used.l.value(), both.l.value());
    let (dk, dl) = (way.used_cos - way.both_cos, way.used_sin - way.both_sin);
    let (x, y) = way.image;
    assert(crate::num::accuracy::size(x) == image.0.units());
    assert(crate::num::accuracy::size(y) == image.1.units());
    lemma_bounded(x, dk, gk as int);
    lemma_bounded(y, dl, gl as int);
    lemma_mul3(x, dk, 0);
    lemma_mul3(y, dl, 0);
    lemma_mul3(crate::num::accuracy::size(x) as int, gk as int, 0);
    lemma_mul3(crate::num::accuracy::size(y) as int, gl as int, 0);
    lemma_bounded(way.big(), dk * x, (gk * image.0.units()) as int);
    lemma_bounded(way.big(), dl * y, (gl * image.1.units()) as int);
    lemma_bounded(way.big(), way.by_way_error(), one * used.steps(image));
    lemma_bounded(x, way.cos_part(), cos_slack(first, second) as int);
    lemma_bounded(y, way.sin_part(), sin_slack(first, second) as int);
    lemma_bounded(
        way.p(),
        way.image_error_x(),
        one * crate::geometry::transformation::laws::coordinate_steps(
            first.cos,
            first.sin.neg(),
            first.translation.0,
            point,
        ),
    );
    lemma_bounded(
        way.q(),
        way.image_error_y(),
        one * crate::geometry::transformation::laws::coordinate_steps(
            first.sin,
            first.cos,
            first.translation.1,
            point,
        ),
    );
    lemma_bounded(
        way.big(),
        way.to_error(),
        one * second.steps(Point(back.translation.0, back.translation.1)),
    );
    let (bx, by) = (back_slack(first).0 as int, back_slack(first).1 as int);
    lemma_bounded(way.k, way.back_error_x(), bx);
    lemma_bounded(way.l, way.back_error_y(), by);
    assert(crate::num::accuracy::size(way.k) == second.k.units());
    assert(crate::num::accuracy::size(way.l) == second.l.units());
    lemma_bounded(one, way.k * way.back_error_x(), second.k.units() * bx);
    lemma_bounded(one, way.l * way.back_error_y(), second.l.units() * by);
    assert(crate::num::accuracy::size(one) == one);
    lemma_bounded(
        way.turned(),
        way.det_error(),
        one * weight_steps(first.cos, first.cos, first.sin, first.sin),
    );
    lemma_bounded(way.big(), way.direct_error(), one * second.steps(point));
    let slack = detour_slack(first, second, used, point) as int;
    let difference = way.difference();
    assert(-slack <= 2 * difference <= slack);
    lemma_distance(way.big(), big, one, way.by_way, way.direct, slack);
}

/// A bound on a scaled difference, whatever the signs are.
proof fn lemma_distance(factor: int, big: int, one: int, a: int, b: int, slack: int)
    requires
        factor == big || factor == -big,
        big >= 0,
        one >= 0,
        -slack <= 2 * (factor * (one * (a - b))) <= slack,
    ensures
        2 * big * (one * crate::num::accuracy::gap(a, b)) <= slack,
{
    let v = one * (a - b);
    lemma_negative_factor(big, v);
    lemma_mul3(2, big, v);
    lemma_mul3(2, big, one * crate::num::accuracy::gap(a, b));
    lemma_negative_factor(one, a - b);
    lemma_negative_factor(big, one * (b - a));
    assert(one * (b - a) == -v) by (nonlinear_arith)
        requires
            v == one * (a - b),
    ;
}

} // verus!
