//! How little the rounding of its vertices changes an outline.
use vstd::prelude::*;

use crate::geometry::primitives::point::Point;

verus! {

/// The two places are at most half a step apart along each axis.
pub open spec fn is_near(a: (int, int), b: (int, int), steps: (nat, nat)) -> bool {
    &&& 2 * crate::num::accuracy::gap(a.0, b.0) <= steps.0
    &&& 2 * crate::num::accuracy::gap(a.1, b.1) <= steps.1
}

/// By how much, at most, the cross product of two places changes when they are shifted, twice.
pub open spec fn cross_shift(
    a: (int, int),
    b: (int, int),
    shifted: ((int, int), (int, int)),
    steps: ((nat, nat), (nat, nat)),
) -> nat {
    steps.0.0 * crate::num::accuracy::size(shifted.1.1) + crate::num::accuracy::size(a.0) * steps.1.1 + steps.1.0 * crate::num::accuracy::size(shifted.0.1) + crate::num::accuracy::size(
        b.0,
    ) * steps.0.1
}

/// By how much, at most, what a side contributes to the moment changes when its ends are shifted,
/// twice.
pub open spec fn moment_shift(
    a: (int, int),
    b: (int, int),
    shifted: ((int, int), (int, int)),
    steps: ((nat, nat), (nat, nat)),
    horizontal: bool,
) -> nat {
    let sum = crate::geometry::primitives::moments::along(shifted.0, horizontal)
        + crate::geometry::primitives::moments::along(shifted.1, horizontal);
    let off = if horizontal {
        steps.0.0 + steps.1.0
    } else {
        steps.0.1 + steps.1.1
    };
    crate::num::accuracy::size(sum) * cross_shift(a, b, shifted, steps) + off * crate::num::accuracy::size(
        crate::geometry::primitives::moments::cross(a, b),
    )
}

/// By how much, at most, what a side contributes to twice the area changes when its ends are
/// shifted, twice.
pub open spec fn area_shift(
    a: (int, int),
    b: (int, int),
    shifted: ((int, int), (int, int)),
    steps: ((nat, nat), (nat, nat)),
) -> nat {
    crate::num::accuracy::size(shifted.0.1 + shifted.1.1) * (steps.0.0 + steps.1.0) + (steps.0.1 + steps.1.1) * crate::num::accuracy::size(
        a.0 - b.0,
    )
}

proof fn lemma_bounded(v: int, error: int, bound: int)
    requires
        -bound <= 2 * error <= bound,
    ensures
        -(crate::num::accuracy::size(v) * bound) <= 2 * (v * error) <= crate::num::accuracy::size(v) * bound,
        -(bound * crate::num::accuracy::size(v)) <= 2 * (error * v) <= bound * crate::num::accuracy::size(v),
{
    crate::geometry::primitives::moments::lemma_scaled_error(v, crate::num::accuracy::size(v) as int, error, bound);
    assert(v * error == error * v) by (nonlinear_arith);
    assert(crate::num::accuracy::size(v) * bound == bound * crate::num::accuracy::size(v)) by (nonlinear_arith);
}

/// The change of a product: that of the one factor times the other as it becomes, and the one as it
/// was times the change of the other.
proof fn lemma_changed_product(x: int, y: int, u: int, w: int)
    ensures
        u * w - x * y == (u - x) * w + x * (w - y),
{
    assert((u - x) * w == u * w - x * w) by (nonlinear_arith);
    assert(x * (w - y) == x * w - x * y) by (nonlinear_arith);
}

proof fn lemma_shifted_cross(
    a: (int, int),
    b: (int, int),
    shifted: ((int, int), (int, int)),
    steps: ((nat, nat), (nat, nat)),
)
    requires
        is_near(shifted.0, a, steps.0),
        is_near(shifted.1, b, steps.1),
    ensures
        2 * crate::num::accuracy::gap(
            crate::geometry::primitives::moments::cross(shifted.0, shifted.1),
            crate::geometry::primitives::moments::cross(a, b),
        ) <= cross_shift(a, b, shifted, steps),
{
    let (c, d) = shifted;
    lemma_changed_product(a.0, b.1, c.0, d.1);
    lemma_changed_product(b.0, a.1, d.0, c.1);
    lemma_bounded(d.1, c.0 - a.0, steps.0.0 as int);
    lemma_bounded(a.0, d.1 - b.1, steps.1.1 as int);
    lemma_bounded(c.1, d.0 - b.0, steps.1.0 as int);
    lemma_bounded(b.0, c.1 - a.1, steps.0.1 as int);
}

proof fn lemma_shifted_side(
    a: (int, int),
    b: (int, int),
    shifted: ((int, int), (int, int)),
    steps: ((nat, nat), (nat, nat)),
    horizontal: bool,
)
    requires
        is_near(shifted.0, a, steps.0),
        is_near(shifted.1, b, steps.1),
    ensures
        2 * crate::num::accuracy::gap(
            crate::geometry::primitives::moments::moment_of_side(
                shifted.0,
                shifted.1,
                horizontal,
            ),
            crate::geometry::primitives::moments::moment_of_side(a, b, horizontal),
        ) <= moment_shift(a, b, shifted, steps, horizontal),
        2 * crate::num::accuracy::gap(
            crate::geometry::primitives::moments::area_of_side(shifted.0, shifted.1),
            crate::geometry::primitives::moments::area_of_side(a, b),
        ) <= area_shift(a, b, shifted, steps),
{
    let (c, d) = shifted;
    let s = crate::geometry::primitives::moments::along(a, horizontal)
        + crate::geometry::primitives::moments::along(b, horizontal);
    let t = crate::geometry::primitives::moments::along(c, horizontal)
        + crate::geometry::primitives::moments::along(d, horizontal);
    let off = if horizontal {
        steps.0.0 + steps.1.0
    } else {
        steps.0.1 + steps.1.1
    };
    let k = crate::geometry::primitives::moments::cross(a, b);
    let m = crate::geometry::primitives::moments::cross(c, d);
    lemma_shifted_cross(a, b, shifted, steps);
    lemma_changed_product(k, s, m, t);
    assert(m * t == t * m) by (nonlinear_arith);
    assert(k * s == s * k) by (nonlinear_arith);
    lemma_bounded(t, m - k, cross_shift(a, b, shifted, steps) as int);
    lemma_bounded(k, t - s, off as int);
    let (u, w) = (a.1 + b.1, c.1 + d.1);
    let (x, y) = (a.0 - b.0, c.0 - d.0);
    lemma_changed_product(x, u, y, w);
    assert(y * w == w * y) by (nonlinear_arith);
    assert(x * u == u * x) by (nonlinear_arith);
    lemma_bounded(w, y - x, (steps.0.0 + steps.1.0) as int);
    lemma_bounded(x, w - u, (steps.0.1 + steps.1.1) as int);
}

/// The element after element `i` of a cycle.
pub open spec fn following<A>(s: Seq<A>, i: int) -> A {
    if i == s.len() - 1 {
        s[0]
    } else {
        s[i + 1]
    }
}

/// By how much, at most, the moment and twice the area that the first `n` sides of an outline make
/// up change when its places are shifted by at most half a step each, twice.
pub open spec fn outline_shift(
    outline: Seq<(int, int)>,
    shifted: Seq<(int, int)>,
    steps: Seq<(nat, nat)>,
    n: nat,
    horizontal: bool,
) -> (nat, nat)
    decreases n,
{
    if n == 0 {
        (0, 0)
    } else {
        let i = n - 1;
        let before = outline_shift(outline, shifted, steps, i as nat, horizontal);
        let ends = (shifted[i], following(shifted, i));
        let at = (steps[i], following(steps, i));
        (
            before.0 + moment_shift(outline[i], following(outline, i), ends, at, horizontal),
            before.1 + area_shift(outline[i], following(outline, i), ends, at),
        )
    }
}

/// The moment and the area of an outline whose places are shifted by at most half a step each
/// change by no more than these steps make up.
pub proof fn shifted_outlines_barely_change(
    outline: Seq<(int, int)>,
    shifted: Seq<(int, int)>,
    steps: Seq<(nat, nat)>,
    n: nat,
    horizontal: bool,
)
    requires
        n <= outline.len(),
        shifted.len() == outline.len(),
        steps.len() == outline.len(),
        forall|i: int|
            0 <= i < outline.len() ==> is_near(#[trigger] shifted[i], outline[i], steps[i]),
    ensures
        2 * crate::num::accuracy::gap(
            crate::geometry::primitives::moments::moment_of_sides(shifted, n, horizontal),
            crate::geometry::primitives::moments::moment_of_sides(outline, n, horizontal),
        ) <= outline_shift(outline, shifted, steps, n, horizontal).0,
        2 * crate::num::accuracy::gap(
            crate::geometry::primitives::moments::area_of_sides(shifted, n),
            crate::geometry::primitives::moments::area_of_sides(outline, n),
        ) <= outline_shift(outline, shifted, steps, n, horizontal).1,
    decreases n,
{
    if n > 0 {
        let i = n - 1;
        shifted_outlines_barely_change(outline, shifted, steps, i as nat, horizontal);
        let j = if i == outline.len() - 1 {
            0
        } else {
            i + 1
        };
        assert(is_near(shifted[i], outline[i], steps[i]));
        assert(is_near(shifted[j], outline[j], steps[j]));
        lemma_shifted_side(
            outline[i],
            outline[j],
            (shifted[i], shifted[j]),
            (steps[i], steps[j]),
            horizontal,
        );
    }
}

/// The steps of the coordinates of points.
pub open spec fn steps_of(points: Seq<Point>) -> Seq<(nat, nat)> {
    points.map_values(
        |point: Point|
            (crate::num::accuracy::step(point.0), crate::num::accuracy::step(point.1)),
    )
}

} // verus!
