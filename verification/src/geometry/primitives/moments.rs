//! First moments of outlines and of arcs, and how far computed centroids are from them.
use vstd::arithmetic::power2::*;
use vstd::prelude::*;

use crate::geometry::primitives::arc::Arc;
use crate::geometry::primitives::boundary::area_epsilon;
use crate::geometry::primitives::point::Point;
use crate::math::Elementary;
use crate::num::Num;

verus! {

/// The place of a point in units.
pub open spec fn place(point: Point) -> (int, int) {
    (point.0.value(), point.1.value())
}

/// The places of points in units.
pub open spec fn places(points: Seq<Point>) -> Seq<(int, int)> {
    points.map_values(|point: Point| place(point))
}

/// The place after place `i` on a closed outline.
pub open spec fn next_place(outline: Seq<(int, int)>, i: int) -> (int, int) {
    if i == outline.len() - 1 {
        outline[0]
    } else {
        outline[i + 1]
    }
}

/// The coordinate along one of the axes.
pub open spec fn along(p: (int, int), horizontal: bool) -> int {
    if horizontal {
        p.0
    } else {
        p.1
    }
}

pub open spec fn cross(a: (int, int), b: (int, int)) -> int {
    a.0 * b.1 - b.0 * a.1
}

/// What a side contributes to six times the moment along an axis.
pub open spec fn moment_of_side(a: (int, int), b: (int, int), horizontal: bool) -> int {
    (along(a, horizontal) + along(b, horizontal)) * cross(a, b)
}

/// What a side contributes to twice the area.
pub open spec fn area_of_side(a: (int, int), b: (int, int)) -> int {
    (a.1 + b.1) * (a.0 - b.0)
}

/// Six times the moment along an axis that the first `n` sides of an outline make up.
pub open spec fn moment_of_sides(outline: Seq<(int, int)>, n: nat, horizontal: bool) -> int
    decreases n,
{
    if n == 0 {
        0
    } else {
        moment_of_sides(outline, (n - 1) as nat, horizontal) + moment_of_side(
            outline[n - 1],
            next_place(outline, n - 1),
            horizontal,
        )
    }
}

/// Twice the area that the first `n` sides of an outline make up.
pub open spec fn area_of_sides(outline: Seq<(int, int)>, n: nat) -> int
    decreases n,
{
    if n == 0 {
        0
    } else {
        area_of_sides(outline, (n - 1) as nat) + area_of_side(
            outline[n - 1],
            next_place(outline, n - 1),
        )
    }
}

/// Six times the moment of an outline along an axis: the sum of the coordinates over its area.
pub open spec fn moment(outline: Seq<(int, int)>, horizontal: bool) -> int {
    moment_of_sides(outline, outline.len(), horizontal)
}

/// Twice the area of an outline.
pub open spec fn area(outline: Seq<(int, int)>) -> int {
    area_of_sides(outline, outline.len())
}

/// The outline moved by the opposite of the given translation.
pub open spec fn moved_back(outline: Seq<(int, int)>, by: (int, int)) -> Seq<(int, int)> {
    outline.map_values(|p: (int, int)| (p.0 - by.0, p.1 - by.1))
}

/// What the ends of the sides of a moved outline contribute to its moment; along a closed
/// outline, it cancels out.
spec fn end_term(p: (int, int), by: (int, int), horizontal: bool) -> int {
    let (x, y) = p;
    let (u, w) = by;
    if horizontal {
        w * (x * x) - 4 * (u * (x * y)) - 2 * (u * (w * x)) + 2 * (u * (u * y))
    } else {
        -2 * (w * (x * y)) - u * (y * y) - 2 * (w * (w * x)) + 2 * (u * (w * y))
    }
}

proof fn lemma_moved_side(a: (int, int), b: (int, int), by: (int, int), horizontal: bool)
    ensures
        moment_of_side((a.0 - by.0, a.1 - by.1), (b.0 - by.0, b.1 - by.1), horizontal)
            == moment_of_side(a, b, horizontal) - 3 * (along(by, horizontal) * area_of_side(a, b))
            + end_term(b, by, horizontal) - end_term(a, by, horizontal),
{
    let (x, y) = a;
    let (u, w) = b;
    let (p, q) = by;
    let c = x * w - u * y;
    let d = q * (u - x);
    let e = p * (w - y);
    assert((x - p) * (w - q) == x * w - q * x - p * w + p * q) by (nonlinear_arith);
    assert((u - p) * (y - q) == u * y - q * u - p * y + p * q) by (nonlinear_arith);
    assert(q * (u - x) == q * u - q * x) by (nonlinear_arith);
    assert(p * (w - y) == p * w - p * y) by (nonlinear_arith);
    assert((x - p) * (w - q) - (u - p) * (y - q) == c + d - e);
    assert((y + w) * (x - u) == x * y - u * y + x * w - u * w) by (nonlinear_arith);
    assert(area_of_side(a, b) == c + x * y - u * w);
    let f = area_of_side(a, b);
    let (k, s) = if horizontal {
        (p, x + u)
    } else {
        (q, y + w)
    };
    assert(along((a.0 - by.0, a.1 - by.1), horizontal) + along(
        (b.0 - by.0, b.1 - by.1),
        horizontal,
    ) == s - 2 * k);
    lemma_product_of_sums(s, 2 * k, c, d, e);
    assert((2 * k) * c == 2 * (k * c)) by (nonlinear_arith);
    assert((2 * k) * d == 2 * (k * d)) by (nonlinear_arith);
    assert((2 * k) * e == 2 * (k * e)) by (nonlinear_arith);
    lemma_product_of_three(k, c, x * y, u * w);
    assert(k * f == k * c + k * (x * y) - k * (u * w));
    assert(k * (q * u - q * x) == k * (q * u) - k * (q * x)) by (nonlinear_arith);
    assert(k * d == k * (q * u) - k * (q * x));
    assert(k * (p * w - p * y) == k * (p * w) - k * (p * y)) by (nonlinear_arith);
    assert(k * e == k * (p * w) - k * (p * y));
    if horizontal {
        assert((x + u) * (q * (u - x)) == q * ((x + u) * (u - x))) by (nonlinear_arith);
        assert((x + u) * (u - x) == u * u - x * x) by (nonlinear_arith);
        assert(q * (u * u - x * x) == q * (u * u) - q * (x * x)) by (nonlinear_arith);
        assert(s * d == q * (u * u) - q * (x * x));
        assert((x + u) * (p * (w - y)) == p * ((x + u) * (w - y))) by (nonlinear_arith);
        assert((x + u) * (w - y) == x * w - x * y + u * w - u * y) by (nonlinear_arith);
        assert((x + u) * (w - y) == c + u * w - x * y);
        lemma_product_of_three(p, c, u * w, x * y);
        assert(s * e == p * c + p * (u * w) - p * (x * y));
        assert(moment_of_side((x - p, y - q), (u - p, w - q), true) == s * c + s * d - s * e - 2
            * (k * c) - 2 * (k * d) + 2 * (k * e));
    } else {
        assert((y + w) * (p * (w - y)) == p * ((y + w) * (w - y))) by (nonlinear_arith);
        assert((y + w) * (w - y) == w * w - y * y) by (nonlinear_arith);
        assert(p * (w * w - y * y) == p * (w * w) - p * (y * y)) by (nonlinear_arith);
        assert(s * e == p * (w * w) - p * (y * y));
        assert((y + w) * (q * (u - x)) == q * ((y + w) * (u - x))) by (nonlinear_arith);
        assert((y + w) * (u - x) == u * y - x * y + u * w - x * w) by (nonlinear_arith);
        assert((y + w) * (u - x) == (-c) + u * w - x * y);
        lemma_product_of_three(q, -c, u * w, x * y);
        assert(q * (-c) == -(q * c)) by (nonlinear_arith);
        assert(s * d == -(q * c) + q * (u * w) - q * (x * y));
        assert(q * (p * w) == p * (q * w)) by (nonlinear_arith);
        assert(q * (p * y) == p * (q * y)) by (nonlinear_arith);
        assert(moment_of_side((x - p, y - q), (u - p, w - q), false) == s * c + s * d - s * e - 2
            * (k * c) - 2 * (k * d) + 2 * (k * e));
    }
}

proof fn lemma_product_of_sums(s: int, t: int, c: int, d: int, e: int)
    ensures
        (s - t) * (c + d - e) == s * c + s * d - s * e - t * c - t * d + t * e,
{
    let f = c + d - e;
    assert((s - t) * f == s * f - t * f) by (nonlinear_arith);
    assert(s * (c + d - e) == s * c + s * d - s * e) by (nonlinear_arith);
    assert(t * (c + d - e) == t * c + t * d - t * e) by (nonlinear_arith);
}

proof fn lemma_product_of_three(k: int, a: int, b: int, c: int)
    ensures
        k * (a + b - c) == k * a + k * b - k * c,
{
    assert(k * (a + b - c) == k * a + k * b - k * c) by (nonlinear_arith);
}

proof fn lemma_moved_sides(outline: Seq<(int, int)>, by: (int, int), n: nat, horizontal: bool)
    requires
        n <= outline.len(),
        outline.len() > 0,
    ensures
        moment_of_sides(moved_back(outline, by), n, horizontal) == moment_of_sides(
            outline,
            n,
            horizontal,
        ) - 3 * (along(by, horizontal) * area_of_sides(outline, n)) + end_term(
            if n == outline.len() {
                outline[0]
            } else {
                outline[n as int]
            },
            by,
            horizontal,
        ) - end_term(outline[0], by, horizontal),
    decreases n,
{
    if n > 0 {
        lemma_moved_sides(outline, by, (n - 1) as nat, horizontal);
        let a = outline[n - 1];
        let b = next_place(outline, n - 1);
        lemma_moved_side(a, b, by, horizontal);
        let moved = moved_back(outline, by);
        assert(moved[n - 1] == (a.0 - by.0, a.1 - by.1));
        assert(next_place(moved, n - 1) == (b.0 - by.0, b.1 - by.1));
        let k = along(by, horizontal);
        let s = area_of_sides(outline, (n - 1) as nat);
        let t = area_of_side(a, b);
        assert(k * (s + t) == k * s + k * t) by (nonlinear_arith);
    } else {
        assert(along(by, horizontal) * area_of_sides(outline, 0) == 0) by (nonlinear_arith)
            requires
                area_of_sides(outline, 0) == 0,
        ;
    }
}

/// The moment of an outline that is moved changes by its area times the translation.
pub proof fn moved_outlines_have_moved_moments(
    outline: Seq<(int, int)>,
    by: (int, int),
    horizontal: bool,
)
    requires
        outline.len() > 0,
    ensures
        moment(moved_back(outline, by), horizontal) == moment(outline, horizontal) - 3 * (along(
            by,
            horizontal,
        ) * area(outline)),
{
    lemma_moved_sides(outline, by, outline.len(), horizontal);
}

/// The coordinate of a point along one of the axes.
pub open spec fn weight(point: Point, horizontal: bool) -> Num {
    if horizontal {
        point.0
    } else {
        point.1
    }
}

/// What a side contributes to the computed moment.
pub open spec fn moment_term(from: Point, to: Point, horizontal: bool) -> Num {
    weight(from, horizontal).add(weight(to, horizontal)).mul(
        from.0.mul(to.1).sub(to.0.mul(from.1)),
    )
}

/// The first `n` sides, as they are summed up.
pub open spec fn computed_moment(points: Seq<Point>, n: nat, horizontal: bool) -> Num {
    let sums = crate::geometry::primitives::centroid::chord_moments(points, n);
    if horizontal {
        sums.0
    } else {
        sums.1
    }
}

/// All the steps on the way to what a side contributes, in cubed units.
pub open spec fn term_steps(from: Point, to: Point, horizontal: bool) -> nat {
    let one = Num::one_in_units();
    let sum = weight(from, horizontal).add(weight(to, horizontal));
    let left = from.0.mul(to.1);
    let right = to.0.mul(from.1);
    let exact = cross(place(from), place(to));
    crate::num::accuracy::step(moment_term(from, to, horizontal)) * (one * one)
        + crate::num::accuracy::step(sum) * crate::num::accuracy::gap(exact, 0) + sum.units() * ((
    crate::num::accuracy::step(left.sub(right)) + crate::num::accuracy::step(left)
        + crate::num::accuracy::step(right)) * one)
}

/// Bounds that are scaled with what they bound.
pub proof fn lemma_scaled_bounds(error: int, bound: int, factor: int)
    requires
        factor >= 0,
        -bound <= 2 * error <= bound,
    ensures
        -(bound * factor) <= 2 * (error * factor) <= bound * factor,
{
    assert((bound - 2 * error) * factor >= 0) by (nonlinear_arith)
        requires
            factor >= 0,
            bound - 2 * error >= 0,
    ;
    assert((bound + 2 * error) * factor >= 0) by (nonlinear_arith)
        requires
            factor >= 0,
            bound + 2 * error >= 0,
    ;
    assert((bound - 2 * error) * factor == bound * factor - 2 * (error * factor))
        by (nonlinear_arith);
    assert((bound + 2 * error) * factor == bound * factor + 2 * (error * factor))
        by (nonlinear_arith);
}

pub proof fn lemma_scaled_error(v: int, size: int, error: int, bound: int)
    requires
        v == size || v == -size,
        size >= 0,
        -bound <= 2 * error <= bound,
    ensures
        -(size * bound) <= 2 * (v * error) <= size * bound,
{
    lemma_scaled_bounds(error, bound, size);
    assert(bound * size == size * bound) by (nonlinear_arith);
    assert(error * size == size * error) by (nonlinear_arith);
    assert((-size) * error == -(size * error)) by (nonlinear_arith);
}

proof fn lemma_term_values(
    one: int,
    values: (int, int, int, int, int),
    exact: (int, int, int),
    steps: (int, int, int, int, int),
)
    requires
        one >= 0,
        -steps.0 <= 2 * (values.0 - exact.0) <= steps.0,
        -(steps.1 * one) <= 2 * (values.1 * one - exact.1) <= steps.1 * one,
        -(steps.2 * one) <= 2 * (values.2 * one - exact.2) <= steps.2 * one,
        -steps.3 <= 2 * (values.3 - (values.1 - values.2)) <= steps.3,
        -(steps.4 * one) <= 2 * (values.4 * one - values.0 * values.3) <= steps.4 * one,
    ensures
        ({
            let size = if values.0 < 0 {
                -values.0
            } else {
                values.0
            };
            let turn = exact.1 - exact.2;
            let far = if turn < 0 {
                -turn
            } else {
                turn
            };
            let bound = steps.4 * (one * one) + steps.0 * far + size * ((steps.3 + steps.1
                + steps.2) * one);
            -bound <= 2 * (values.4 * (one * one) - exact.0 * turn) <= bound
        }),
{
    let (s, u, w, k, t) = values;
    let (es, p, q) = exact;
    let turn = p - q;
    let size = if s < 0 {
        -s
    } else {
        s
    };
    let far = if turn < 0 {
        -turn
    } else {
        turn
    };
    lemma_scaled_bounds(k - (u - w), steps.3, one);
    assert((k - (u - w)) * one == k * one - (u * one - w * one)) by (nonlinear_arith);
    let sum = (steps.3 + steps.1 + steps.2) * one;
    assert(sum == steps.3 * one + steps.1 * one + steps.2 * one) by (nonlinear_arith)
        requires
            sum == (steps.3 + steps.1 + steps.2) * one,
    ;
    let e = k * one - turn;
    assert(-sum <= 2 * e <= sum);
    lemma_scaled_error(s, size, e, sum);
    lemma_scaled_error(turn, far, s - es, steps.0);
    assert(far * steps.0 == steps.0 * far) by (nonlinear_arith);
    lemma_scaled_bounds(t * one - s * k, steps.4 * one, one);
    assert((steps.4 * one) * one == steps.4 * (one * one)) by (nonlinear_arith);
    assert((t * one - s * k) * one == t * (one * one) - (s * k) * one) by (nonlinear_arith);
    assert((s * k) * one == s * (k * one)) by (nonlinear_arith);
    assert(s * (k * one) == s * turn + s * e) by (nonlinear_arith)
        requires
            e == k * one - turn,
    ;
    assert(s * turn == es * turn + turn * (s - es)) by (nonlinear_arith);
}

proof fn lemma_term_errs(from: Point, to: Point, horizontal: bool)
    requires
        moment_term(from, to, horizontal).is_finite(),
    ensures
        ({
            let one = Num::one_in_units();
            2 * crate::num::accuracy::gap(
                moment_term(from, to, horizontal).value() * (one * one),
                moment_of_side(place(from), place(to), horizontal),
            ) <= term_steps(from, to, horizontal)
        }),
{
    let one = Num::one_in_units() as int;
    let a = weight(from, horizontal);
    let b = weight(to, horizontal);
    let sum = a.add(b);
    let left = from.0.mul(to.1);
    let right = to.0.mul(from.1);
    let turn = left.sub(right);
    let term = sum.mul(turn);
    assert(sum.is_finite() && turn.is_finite()) by {
        reveal(Num::spec_mul);
    }
    crate::num::accuracy::finite_sums_have_finite_terms(a, b);
    crate::num::accuracy::finite_sums_have_finite_terms(left, right.neg());
    assert(from.0.is_finite() && to.1.is_finite() && to.0.is_finite() && from.1.is_finite()) by {
        reveal(Num::spec_mul);
    }
    crate::num::accuracy::sums_err_by_half_a_step(a, b);
    crate::num::accuracy::products_err_by_half_a_step(from.0, to.1);
    crate::num::accuracy::products_err_by_half_a_step(to.0, from.1);
    crate::num::accuracy::sums_err_by_half_a_step(left, right.neg());
    assert(right.neg().value() == -right.value());
    crate::num::accuracy::products_err_by_half_a_step(sum, turn);
    lemma_term_values(
        one,
        (sum.value(), left.value(), right.value(), turn.value(), term.value()),
        (
            a.value() + b.value(),
            from.0.value() * to.1.value(),
            to.0.value() * from.1.value(),
        ),
        (
            crate::num::accuracy::step(sum) as int,
            crate::num::accuracy::step(left) as int,
            crate::num::accuracy::step(right) as int,
            crate::num::accuracy::step(turn) as int,
            crate::num::accuracy::step(term) as int,
        ),
    );
    assert(sum.units() == if sum.value() < 0 {
        -sum.value()
    } else {
        sum.value()
    });
}

/// All the steps on the way to the moment of the first `n` sides, in cubed units.
pub open spec fn moment_steps(points: Seq<Point>, n: nat, horizontal: bool) -> nat
    decreases n,
{
    if n == 0 {
        0
    } else {
        let one = Num::one_in_units();
        moment_steps(points, (n - 1) as nat, horizontal) + term_steps(
            points[n - 1],
            crate::geometry::primitives::boundary::successor(points, n - 1),
            horizontal,
        ) + crate::num::accuracy::step(computed_moment(points, n, horizontal)) * (one * one)
    }
}

pub proof fn lemma_next_place(points: Seq<Point>, i: int)
    requires
        0 <= i < points.len(),
    ensures
        places(points)[i] == place(points[i]),
        next_place(places(points), i) == place(
            crate::geometry::primitives::boundary::successor(points, i),
        ),
{
}

/// A computed moment differs from the exact one by at most half a step for each operation on the
/// way.
pub proof fn moments_err_by_half_steps(points: Seq<Point>, n: nat, horizontal: bool)
    requires
        n <= points.len(),
        computed_moment(points, n, horizontal).is_finite(),
    ensures
        ({
            let one = Num::one_in_units();
            2 * crate::num::accuracy::gap(
                computed_moment(points, n, horizontal).value() * (one * one),
                moment_of_sides(places(points), n, horizontal),
            ) <= moment_steps(points, n, horizontal)
        }),
    decreases n,
{
    let one = Num::one_in_units() as int;
    if n == 0 {
        crate::num::lemma_zero_significand(Num::zero());
        assert(0 * (one * one) == 0);
    } else {
        let before = computed_moment(points, (n - 1) as nat, horizontal);
        let from = points[n - 1];
        let to = crate::geometry::primitives::boundary::successor(points, n - 1);
        let term = moment_term(from, to, horizontal);
        let r = computed_moment(points, n, horizontal);
        assert(r == before.add(term));
        crate::num::accuracy::finite_sums_have_finite_terms(before, term);
        moments_err_by_half_steps(points, (n - 1) as nat, horizontal);
        lemma_next_place(points, n - 1);
        lemma_term_errs(from, to, horizontal);
        crate::num::accuracy::sums_err_by_half_a_step(before, term);
        let (vb, vt, vr) = (before.value(), term.value(), r.value());
        let step = crate::num::accuracy::step(r) as int;
        let square = one * one;
        assert(square >= 0) by (nonlinear_arith)
            requires
                square == one * one,
        ;
        lemma_scaled_bounds(vr - (vb + vt), step, square);
        assert((vr - (vb + vt)) * square == vr * square - vb * square - vt * square)
            by (nonlinear_arith);
    }
}

/// The areas between arcs and their chords that count, each with the place of its center of mass.
pub open spec fn masses<M: Fn(Elementary) -> Num>(arcs: Seq<Arc>, math: &M) -> Seq<(Point, Num)>
    decreases arcs.len(),
{
    if arcs.len() == 0 {
        Seq::empty()
    } else {
        let before = masses(arcs.drop_last(), math);
        match crate::geometry::primitives::centroid::arc_mass(&arcs.last(), math) {
            Some(mass) => before.push(mass),
            None => before,
        }
    }
}

/// A moment to which those of masses are added in turn.
pub open spec fn with_masses(start: Num, parts: Seq<(Point, Num)>, horizontal: bool) -> Num
    decreases parts.len(),
{
    if parts.len() == 0 {
        start
    } else {
        with_masses(start, parts.drop_last(), horizontal).add(
            weight(parts.last().0, horizontal).mul(parts.last().1),
        )
    }
}

proof fn lemma_masses<M: Fn(Elementary) -> Num>(start: (Num, Num), arcs: Seq<Arc>, math: &M)
    ensures
        crate::geometry::primitives::centroid::with_arc_moments(start, arcs, math) == (
            with_masses(start.0, masses(arcs, math), true),
            with_masses(start.1, masses(arcs, math), false),
        ),
    decreases arcs.len(),
{
    if arcs.len() > 0 {
        lemma_masses(start, arcs.drop_last(), math);
        let before = masses(arcs.drop_last(), math);
        if let Some(mass) = crate::geometry::primitives::centroid::arc_mass(&arcs.last(), math) {
            assert(before.push(mass).drop_last() =~= before);
        }
    }
}

/// The area within the chords counts as none.
pub open spec fn is_flat(points: Seq<Point>) -> bool {
    crate::geometry::primitives::boundary::chord_area(points).abs().le(area_epsilon())
}

/// The moment of what lies within the chords, as it is computed: that of the first vertex if there
/// is no area.
pub open spec fn chord_part(points: Seq<Point>, horizontal: bool) -> Num {
    let within = crate::geometry::primitives::boundary::chord_area(points);
    if is_flat(points) {
        weight(points[0], horizontal).mul(within)
    } else {
        computed_moment(points, points.len(), horizontal).div(Num::six().mul(within)).mul(within)
    }
}

/// The coordinate of a centroid along an axis, as it is computed.
pub open spec fn computed_centroid(
    points: Seq<Point>,
    parts: Seq<(Point, Num)>,
    given: Num,
    horizontal: bool,
) -> Num {
    with_masses(chord_part(points, horizontal), parts, horizontal).div(given)
}

/// The centroid of a boundary is computed from its chords and from the masses of its arcs.
pub proof fn centroids_are_made_of_masses<M: Fn(Elementary) -> Num>(
    points: Seq<Point>,
    arcs: Seq<Arc>,
    given: Num,
    math: &M,
)
    ensures
        crate::geometry::primitives::centroid::boundary_centroid(points, arcs, given, math)
            == Point(
            computed_centroid(points, masses(arcs, math), given, true),
            computed_centroid(points, masses(arcs, math), given, false),
        ),
{
    lemma_masses((chord_part(points, true), chord_part(points, false)), arcs, math);
}

/// An outline, the area within it if that counts as none, and masses: all in units.
#[verifier::ext_equal]
pub struct Content {
    pub outline: Seq<(int, int)>,
    pub flat: Option<int>,
    pub masses: Seq<((int, int), int)>,
}

/// The masses, in units.
pub open spec fn mass_places(parts: Seq<(Point, Num)>) -> Seq<((int, int), int)> {
    parts.map_values(|part: (Point, Num)| (place(part.0), part.1.value()))
}

pub open spec fn content_of(points: Seq<Point>, parts: Seq<(Point, Num)>) -> Content {
    Content {
        outline: places(points),
        flat: if is_flat(points) {
            Some(crate::geometry::primitives::boundary::chord_area(points).value())
        } else {
            None
        },
        masses: mass_places(parts),
    }
}

/// The sum of the moments of the masses.
pub open spec fn mass_moment(parts: Seq<((int, int), int)>, horizontal: bool) -> int
    decreases parts.len(),
{
    if parts.len() == 0 {
        0
    } else {
        mass_moment(parts.drop_last(), horizontal) + along(parts.last().0, horizontal)
            * parts.last().1
    }
}

pub open spec fn total_mass(parts: Seq<((int, int), int)>) -> int
    decreases parts.len(),
{
    if parts.len() == 0 {
        0
    } else {
        total_mass(parts.drop_last()) + parts.last().1
    }
}

impl Content {
    /// Six times the moment along an axis, in cubed units.
    pub open spec fn moment(self, horizontal: bool) -> int {
        let one = Num::one_in_units() as int;
        (match self.flat {
            Some(within) => 6 * (one * (along(self.outline[0], horizontal) * within)),
            None => moment(self.outline, horizontal),
        }) + 6 * (one * mass_moment(self.masses, horizontal))
    }

    /// Twice the area, in squared units.
    pub open spec fn area(self) -> int {
        let one = Num::one_in_units() as int;
        (match self.flat {
            Some(within) => 2 * (one * within),
            None => area(self.outline),
        }) + 2 * (one * total_mass(self.masses))
    }

    /// The same, moved by the opposite of the given translation.
    pub open spec fn moved_back(self, by: (int, int)) -> Content {
        Content {
            outline: moved_back(self.outline, by),
            flat: self.flat,
            masses: moved_masses(self.masses, by),
        }
    }
}

pub open spec fn moved_masses(parts: Seq<((int, int), int)>, by: (int, int)) -> Seq<
    ((int, int), int),
> {
    parts.map_values(
        |part: ((int, int), int)| ((part.0.0 - by.0, part.0.1 - by.1), part.1),
    )
}

proof fn lemma_moved_masses(parts: Seq<((int, int), int)>, by: (int, int), horizontal: bool)
    ensures
        mass_moment(moved_masses(parts, by), horizontal) == mass_moment(parts, horizontal) - along(
            by,
            horizontal,
        ) * total_mass(parts),
    decreases parts.len(),
{
    let k = along(by, horizontal);
    if parts.len() > 0 {
        lemma_moved_masses(parts.drop_last(), by, horizontal);
        assert(moved_masses(parts, by).drop_last() =~= moved_masses(parts.drop_last(), by));
        let (x, a) = (along(parts.last().0, horizontal), parts.last().1);
        let t = total_mass(parts.drop_last());
        assert((x - k) * a == x * a - k * a) by (nonlinear_arith);
        assert(k * (t + a) == k * t + k * a) by (nonlinear_arith);
    } else {
        assert(k * 0 == 0);
    }
}

/// The moment of what is moved changes by its area times the translation.
pub proof fn moved_contents_have_moved_moments(content: Content, by: (int, int), horizontal: bool)
    requires
        content.outline.len() > 0,
    ensures
        content.moved_back(by).moment(horizontal) == content.moment(horizontal) - 3 * (along(
            by,
            horizontal,
        ) * content.area()),
{
    let one = Num::one_in_units() as int;
    let k = along(by, horizontal);
    moved_outlines_have_moved_moments(content.outline, by, horizontal);
    lemma_moved_masses(content.masses, by, horizontal);
    let t = total_mass(content.masses);
    let m = mass_moment(content.masses, horizontal);
    assert(one * (m - k * t) == one * m - k * (one * t)) by (nonlinear_arith);
    match content.flat {
        Some(w) => {
            let x = along(content.outline[0], horizontal);
            assert(moved_back(content.outline, by)[0] == (
                content.outline[0].0 - by.0,
                content.outline[0].1 - by.1,
            ));
            assert(one * ((x - k) * w) == one * (x * w) - k * (one * w)) by (nonlinear_arith);
            lemma_split_area(k, 2 * (one * w), 2 * (one * t));
            lemma_twice(k, one * w);
        },
        None => {
            lemma_split_area(k, area(content.outline), 2 * (one * t));
        },
    }
    lemma_twice(k, one * t);
}

proof fn lemma_split_area(k: int, a: int, b: int)
    ensures
        k * (a + b) == k * a + k * b,
{
    assert(k * (a + b) == k * a + k * b) by (nonlinear_arith);
}

proof fn lemma_twice(k: int, a: int)
    ensures
        k * (2 * a) == 2 * (k * a),
{
    assert(k * (2 * a) == 2 * (k * a)) by (nonlinear_arith);
}

proof fn lemma_six()
    ensures
        Num::six().is_finite(),
        Num::six().value() == 6 * Num::one_in_units(),
        Num::one_in_units() > 0,
{
    let six = Num::six();
    lemma_pow2_pos(1074);
    lemma2_to64_rest();
    assert(six.magnitude() == 0x4018_0000_0000_0000u64);
    assert(six.scale() == 1024);
    assert(six.significand() == 0x18_0000_0000_0000u64);
    assert(2 * six.significand() == 3 * pow2(52));
    lemma_pow2_adds(52, 1024);
    lemma_pow2_unfold(1076);
    lemma_pow2_unfold(1075);
    let (m, p, h) = (six.significand() as int, pow2(1024) as int, pow2(52) as int);
    assert(2 * (m * p) == 3 * (h * p)) by (nonlinear_arith)
        requires
            2 * m == 3 * h,
    ;
}

/// All the steps on the way to the moment of what lies within the chords, in cubed units.
pub open spec fn chord_part_steps(points: Seq<Point>, horizontal: bool) -> nat {
    let one = Num::one_in_units();
    let within = crate::geometry::primitives::boundary::chord_area(points);
    let sixfold = Num::six().mul(within);
    let quotient = computed_moment(points, points.len(), horizontal).div(sixfold);
    let part = chord_part(points, horizontal);
    if is_flat(points) {
        6 * (one * (crate::num::accuracy::step(part) * one))
    } else {
        one * (6 * (crate::num::accuracy::step(part) * one) + quotient.units()
            * crate::num::accuracy::step(sixfold) + crate::num::accuracy::step(quotient)
            * sixfold.units()) + moment_steps(points, points.len(), horizontal)
    }
}

/// All the steps on the way from the moment of what lies within the chords to that of everything,
/// in units.
pub open spec fn mass_steps(start: Num, parts: Seq<(Point, Num)>, horizontal: bool) -> nat
    decreases parts.len(),
{
    if parts.len() == 0 {
        0
    } else {
        mass_steps(start, parts.drop_last(), horizontal) + crate::num::accuracy::step(
            weight(parts.last().0, horizontal).mul(parts.last().1),
        ) + crate::num::accuracy::step(with_masses(start, parts, horizontal))
    }
}

/// All the steps on the way to a centroid, in cubed units.
pub open spec fn centroid_steps(
    points: Seq<Point>,
    parts: Seq<(Point, Num)>,
    given: Num,
    horizontal: bool,
) -> nat {
    let one = Num::one_in_units();
    let start = chord_part(points, horizontal);
    6 * (one * (crate::num::accuracy::step(computed_centroid(points, parts, given, horizontal))
        * given.units())) + 6 * (one * (one * mass_steps(start, parts, horizontal)))
        + chord_part_steps(points, horizontal)
}

/// All that is computed on the way to the centroid is a number, and what is divided by is not zero.
pub open spec fn has_centroid(
    points: Seq<Point>,
    parts: Seq<(Point, Num)>,
    given: Num,
    horizontal: bool,
) -> bool {
    let within = crate::geometry::primitives::boundary::chord_area(points);
    &&& points.len() > 0
    &&& !is_flat(points) ==> {
        &&& computed_moment(points, points.len(), horizontal).is_finite()
        &&& within.is_finite()
        &&& Num::six().mul(within).is_finite()
        &&& Num::six().mul(within).magnitude() != 0
    }
    &&& given.is_finite()
    &&& given.magnitude() != 0
    &&& computed_centroid(points, parts, given, horizontal).is_finite()
}

proof fn lemma_chord_part_values(
    one: int,
    values: (int, int, int, int, int),
    sizes: (int, int),
    steps: (int, int, int),
)
    requires
        one > 0,
        ({
            let (m, q, w, d, t) = values;
            &&& -(steps.0 * one) <= 2 * (m * one - q * w) <= steps.0 * one
            &&& -steps.1 <= 2 * (d - 6 * w) <= steps.1
            &&& -(steps.2 * sizes.1) <= 2 * (q * d - t * one) <= steps.2 * sizes.1
            &&& q == sizes.0 || q == -sizes.0
            &&& sizes.0 >= 0
        }),
    ensures
        ({
            let (m, q, w, d, t) = values;
            let bound = 6 * (steps.0 * one) + sizes.0 * steps.1 + steps.2 * sizes.1;
            -bound <= 2 * (6 * (m * one) - t * one) <= bound
        }),
{
    let (m, q, w, d, t) = values;
    lemma_scaled_error(q, sizes.0, d - 6 * w, steps.1);
    assert(q * (d - 6 * w) == q * d - 6 * (q * w)) by (nonlinear_arith);
}

/// What is computed of the moment within the chords.
proof fn lemma_chord_part(points: Seq<Point>, horizontal: bool)
    requires
        points.len() > 0,
        chord_part(points, horizontal).is_finite(),
        !is_flat(points) ==> {
            let within = crate::geometry::primitives::boundary::chord_area(points);
            &&& computed_moment(points, points.len(), horizontal).is_finite()
            &&& within.is_finite()
            &&& Num::six().mul(within).is_finite()
            &&& Num::six().mul(within).magnitude() != 0
        },
    ensures
        ({
            let one = Num::one_in_units() as int;
            let exact = if is_flat(points) {
                6 * (one * (weight(points[0], horizontal).value()
                    * crate::geometry::primitives::boundary::chord_area(points).value()))
            } else {
                moment(places(points), horizontal)
            };
            2 * crate::num::accuracy::gap(
                6 * (one * (chord_part(points, horizontal).value() * one)),
                exact,
            ) <= chord_part_steps(points, horizontal)
        }),
{
    let one = Num::one_in_units() as int;
    let within = crate::geometry::primitives::boundary::chord_area(points);
    let part = chord_part(points, horizontal);
    lemma_six();
    if is_flat(points) {
        let x = weight(points[0], horizontal);
        assert(x.is_finite() && within.is_finite()) by {
            reveal(Num::spec_mul);
        }
        crate::num::accuracy::products_err_by_half_a_step(x, within);
        let (v, e) = (part.value() * one, x.value() * within.value());
        let step = crate::num::accuracy::step(part) * one;
        lemma_scaled_bounds(v - e, step, one);
        assert((v - e) * one == one * v - one * e) by (nonlinear_arith);
        assert(step * one == one * step) by (nonlinear_arith);
    } else {
        let total = computed_moment(points, points.len(), horizontal);
        let sixfold = Num::six().mul(within);
        let quotient = total.div(sixfold);
        assert(quotient.is_finite()) by {
            reveal(Num::spec_mul);
        }
        crate::num::accuracy::products_err_by_half_a_step(quotient, within);
        crate::num::accuracy::products_err_by_half_a_step(Num::six(), within);
        crate::num::accuracy::quotients_err_by_half_a_step(total, sixfold);
        let (d, w) = (sixfold.value(), within.value());
        let sd = crate::num::accuracy::step(sixfold) as int;
        assert((6 * one) * w == (6 * w) * one) by (nonlinear_arith);
        assert((d - 6 * w) * one == d * one - (6 * w) * one) by (nonlinear_arith);
        lemma_cancelled(d - 6 * w, sd, one);
        lemma_chord_part_values(
            one,
            (part.value(), quotient.value(), w, d, total.value()),
            (quotient.units() as int, sixfold.units() as int),
            (
                crate::num::accuracy::step(part) as int,
                sd,
                crate::num::accuracy::step(quotient) as int,
            ),
        );
        moments_err_by_half_steps(points, points.len(), horizontal);
        let (p, t) = (part.value(), total.value());
        let bound = 6 * (crate::num::accuracy::step(part) * one) + quotient.units() * sd
            + crate::num::accuracy::step(quotient) * sixfold.units();
        lemma_scaled_bounds(6 * (p * one) - t * one, bound, one);
        assert((6 * (p * one) - t * one) * one == 6 * (one * (p * one)) - t * (one * one))
            by (nonlinear_arith);
        assert(bound * one == one * bound) by (nonlinear_arith);
    }
}

/// What is computed of the moments of masses, in squared units.
proof fn lemma_with_masses(start: Num, parts: Seq<(Point, Num)>, horizontal: bool)
    requires
        with_masses(start, parts, horizontal).is_finite(),
    ensures
        start.is_finite(),
        ({
            let one = Num::one_in_units() as int;
            2 * crate::num::accuracy::gap(
                with_masses(start, parts, horizontal).value() * one,
                start.value() * one + mass_moment(mass_places(parts), horizontal),
            ) <= one * mass_steps(start, parts, horizontal)
        }),
    decreases parts.len(),
{
    let one = Num::one_in_units() as int;
    if parts.len() == 0 {
        assert(one * 0 == 0);
    } else {
        let before = with_masses(start, parts.drop_last(), horizontal);
        let (x, a) = (weight(parts.last().0, horizontal), parts.last().1);
        let term = x.mul(a);
        let r = before.add(term);
        crate::num::accuracy::finite_sums_have_finite_terms(before, term);
        assert(x.is_finite() && a.is_finite()) by {
            reveal(Num::spec_mul);
        }
        lemma_with_masses(start, parts.drop_last(), horizontal);
        assert(mass_places(parts).drop_last() =~= mass_places(parts.drop_last()));
        crate::num::accuracy::products_err_by_half_a_step(x, a);
        crate::num::accuracy::sums_err_by_half_a_step(before, term);
        let (vr, vb, vt) = (r.value(), before.value(), term.value());
        let (sr, st) = (
            crate::num::accuracy::step(r) as int,
            crate::num::accuracy::step(term) as int,
        );
        lemma_scaled_bounds(vr - (vb + vt), sr, one);
        assert((vr - (vb + vt)) * one == vr * one - vb * one - vt * one) by (nonlinear_arith);
        let ms = mass_steps(start, parts.drop_last(), horizontal) as int;
        assert(one * (ms + st + sr) == one * ms + st * one + sr * one) by (nonlinear_arith);
    }
}

proof fn lemma_cancelled(error: int, bound: int, factor: int)
    requires
        factor > 0,
    ensures
        -(bound * factor) <= 2 * (error * factor) <= bound * factor ==> -bound <= 2 * error
            <= bound,
{
    if -(bound * factor) <= 2 * (error * factor) <= bound * factor {
        assert((bound - 2 * error) * factor == bound * factor - 2 * (error * factor))
            by (nonlinear_arith);
        assert((bound + 2 * error) * factor == bound * factor + 2 * (error * factor))
            by (nonlinear_arith);
        assert(bound - 2 * error >= 0) by (nonlinear_arith)
            requires
                factor > 0,
                (bound - 2 * error) * factor >= 0,
        ;
        assert(bound + 2 * error >= 0) by (nonlinear_arith)
            requires
                factor > 0,
                (bound + 2 * error) * factor >= 0,
        ;
    }
}

/// A centroid, times six and the given area, is the moment of the outline and the masses, but for
/// half a step for each operation on the way.
pub proof fn centroids_are_moments_over_the_area(
    points: Seq<Point>,
    parts: Seq<(Point, Num)>,
    given: Num,
    horizontal: bool,
)
    requires
        has_centroid(points, parts, given, horizontal),
    ensures
        2 * crate::num::accuracy::gap(
            6 * (Num::one_in_units() * (computed_centroid(
                points,
                parts,
                given,
                horizontal,
            ).value() * given.value())),
            content_of(points, parts).moment(horizontal),
        ) <= centroid_steps(points, parts, given, horizontal),
{
    let one = Num::one_in_units() as int;
    let start = chord_part(points, horizontal);
    let total = with_masses(start, parts, horizontal);
    let r = total.div(given);
    lemma_six();
    assert(total.is_finite()) by {
        reveal(Num::spec_div);
    }
    lemma_with_masses(start, parts, horizontal);
    lemma_chord_part(points, horizontal);
    crate::num::accuracy::quotients_err_by_half_a_step(total, given);
    let (c, t, p) = (r.value() * given.value(), total.value() * one, start.value() * one);
    let m = mass_moment(mass_places(parts), horizontal);
    let step = crate::num::accuracy::step(r) * given.units();
    let steps = one * mass_steps(start, parts, horizontal);
    lemma_scaled_bounds(c - t, step as int, one);
    lemma_scaled_bounds(t - (p + m), steps, one);
    assert((c - t) * one == one * c - one * t) by (nonlinear_arith);
    assert((t - (p + m)) * one == one * t - one * p - one * m) by (nonlinear_arith);
    assert(step * one == one * step) by (nonlinear_arith);
    assert(steps * one == one * steps) by (nonlinear_arith);
    assert(places(points)[0] == place(points[0]));
}

/// By how much, at most, a centroid may miss the origin after it was moved there, times twelve and
/// the given area, in cubed units.
///
/// These are the steps on the way to both centroids, what the rounding of the moved vertices, and of
/// where the masses of the arcs come to lie, does to the moment, and what the given area misses of
/// the exact one, weighted with the centroid.
pub open spec fn centering_slack(
    points: Seq<Point>,
    parts: Seq<(Point, Num)>,
    moved: Seq<Point>,
    moved_parts: Seq<(Point, Num)>,
    centroid: Point,
    given: Num,
    horizontal: bool,
) -> nat {
    let (x, y) = place(centroid);
    let back = content_of(moved, moved_parts).moved_back((-x, -y));
    centroid_steps(moved, moved_parts, given, horizontal) + centroid_steps(
        points,
        parts,
        given,
        horizontal,
    ) + 2 * crate::num::accuracy::gap(
        back.moment(horizontal),
        content_of(points, parts).moment(horizontal),
    ) + 6 * (weight(centroid, horizontal).units() * crate::num::accuracy::gap(
        2 * (Num::one_in_units() * given.value()),
        back.area(),
    ))
}

/// What was moved so that its centroid comes to the origin has its centroid there, but for the slack
/// of the computation.
pub proof fn moved_centroids_are_at_the_origin(
    points: Seq<Point>,
    parts: Seq<(Point, Num)>,
    moved: Seq<Point>,
    moved_parts: Seq<(Point, Num)>,
    centroid: Point,
    given: Num,
    horizontal: bool,
)
    requires
        has_centroid(points, parts, given, horizontal),
        has_centroid(moved, moved_parts, given, horizontal),
        weight(centroid, horizontal) == computed_centroid(points, parts, given, horizontal),
    ensures
        12 * (Num::one_in_units() * (computed_centroid(
            moved,
            moved_parts,
            given,
            horizontal,
        ).units() * given.units())) <= centering_slack(
            points,
            parts,
            moved,
            moved_parts,
            centroid,
            given,
            horizontal,
        ),
{
    let one = Num::one_in_units() as int;
    let (x, y) = place(centroid);
    let content = content_of(moved, moved_parts);
    let back = content.moved_back((-x, -y));
    assert(moved_back(back.outline, (x, y)) =~= content.outline);
    assert(moved_masses(back.masses, (x, y)) =~= content.masses);
    assert(back.moved_back((x, y)) =~= content);
    moved_contents_have_moved_moments(back, (x, y), horizontal);
    centroids_are_moments_over_the_area(points, parts, given, horizontal);
    centroids_are_moments_over_the_area(moved, moved_parts, given, horizontal);
    let r = computed_centroid(moved, moved_parts, given, horizontal);
    let w = weight(centroid, horizontal);
    let (c, d, g) = (w.value(), r.value(), given.value());
    let ab = back.area();
    let missing = crate::num::accuracy::gap(2 * (one * g), ab) as int;
    lemma_scaled_error(c, w.units() as int, 2 * (one * g) - ab, 2 * missing);
    assert(w.units() * (2 * missing) == 2 * (w.units() * missing)) by (nonlinear_arith);
    assert(c * (2 * (one * g) - ab) == 2 * (one * (c * g)) - c * ab) by (nonlinear_arith);
    let slack = centering_slack(
        points,
        parts,
        moved,
        moved_parts,
        centroid,
        given,
        horizontal,
    ) as int;
    assert(-slack <= 12 * (one * (d * g)) <= slack);
    let size = r.units() * given.units();
    assert(d * g == size || d * g == -size) by (nonlinear_arith)
        requires
            d == r.units() || d == -(r.units() as int),
            g == given.units() || g == -(given.units() as int),
            size == r.units() * given.units(),
    ;
    assert(one * (-size) == -(one * size)) by (nonlinear_arith);
}

} // verus!
