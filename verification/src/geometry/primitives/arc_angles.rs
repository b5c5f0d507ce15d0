//! Laws of angles and of the sweeps of arcs, on exact values.
use vstd::prelude::*;

use crate::geometry::primitives::arc::Arc;
use crate::geometry::primitives::point::Point;
use crate::math::Elementary;
use crate::num::Num;

verus! {

/// How far a normalized angle may be from what it should be.
pub closed spec fn normalization_error(angle: Num) -> real {
    crate::num::estimate::half_step(angle.rem(Num::tau())) + crate::num::estimate::half_step(
        crate::geometry::primitives::arc::normalize_angle(angle),
    )
}

/// A normalized angle differs from the given one by whole turns, and lies within the first turn, up to
/// rounding.
pub proof fn angles_are_normalized_by_whole_turns(angle: Num) -> (turns: int)
    requires
        angle.is_finite(),
        crate::geometry::primitives::arc::normalize_angle(angle).is_finite(),
    ensures
        ({
            let r = crate::num::estimate::exact(
                crate::geometry::primitives::arc::normalize_angle(angle),
            );
            let tau = crate::num::estimate::exact(Num::tau());
            let error = normalization_error(angle);
            &&& crate::num::estimate::size(
                r - (crate::num::estimate::exact(angle) - turns as real * tau),
            ) <= error
            &&& -error <= r <= tau + error
        }),
{
    crate::num::estimate::lemma_quarter_turns();
    crate::num::estimate::exact_constants();
    lemma_turn();
    let rest = angle.rem(Num::tau());
    let n = crate::geometry::primitives::arc::normalize_angle(angle);
    let tau = crate::num::estimate::exact(Num::tau());
    let k = crate::num::estimate::remainders_are_near(angle, Num::tau());
    crate::num::estimate::exact_values_compare(rest, Num::zero());
    crate::num::estimate::lemma_sign(rest);
    crate::num::estimate::lemma_sign(n);
    if rest.lt(Num::zero()) {
        crate::num::estimate::sums_are_near(rest, Num::tau());
        let (a, b) = (k as real, (k - 1) as real);
        assert((a - 1real) * tau == a * tau - tau) by (nonlinear_arith);
        assert(b == a - 1real);
        k - 1
    } else {
        k
    }
}

proof fn lemma_turn()
    ensures
        Num::tau().is_finite(),
        crate::num::estimate::exact(Num::tau()) > 0real,
{
    crate::num::estimate::exact_constants();
    crate::num::estimate::exact_values_compare(Num::tau(), Num::zero());
}

/// How far the angle by which a sweep is measured may be from what it should be.
pub closed spec fn sweep_error(angle: Num, start: Num, sweep: Num) -> real {
    let (way, bound) = if sweep.ge(Num::zero()) {
        (
            angle.sub(start),
            sweep.add(crate::geometry::primitives::arc::angle_epsilon()),
        )
    } else {
        (
            start.sub(angle),
            sweep.neg().add(crate::geometry::primitives::arc::angle_epsilon()),
        )
    };
    crate::num::estimate::half_step(way) + 2real * normalization_error(way)
        + crate::num::estimate::half_step(bound)
}

/// Nothing overflows where an angle is measured.
pub closed spec fn angles_in_range(angle: Num, start: Num, sweep: Num) -> bool {
    let (way, bound) = if sweep.ge(Num::zero()) {
        (
            angle.sub(start),
            sweep.add(crate::geometry::primitives::arc::angle_epsilon()),
        )
    } else {
        (
            start.sub(angle),
            sweep.neg().add(crate::geometry::primitives::arc::angle_epsilon()),
        )
    };
    &&& way.is_finite()
    &&& bound.is_finite()
    &&& crate::geometry::primitives::arc::normalize_angle(way).is_finite()
}

/// The angle is reached by turning from where the sweep begins, in its direction, by `turn` and some
/// whole turns.
pub open spec fn is_reached_by(
    angle: Num,
    start: Num,
    sweep: Num,
    turn: real,
    turns: int,
) -> bool {
    let tau = crate::num::estimate::exact(Num::tau());
    let way = crate::num::estimate::exact(angle) - crate::num::estimate::exact(start);
    if crate::num::estimate::exact(sweep) >= 0real {
        way == turn + turns as real * tau
    } else {
        -way == turn + turns as real * tau
    }
}

proof fn lemma_measured(way: Num, measure: real, turn: real, turns: int, error: real)
    requires
        way.is_finite(),
        crate::geometry::primitives::arc::normalize_angle(way).is_finite(),
        measure == turn + turns as real * crate::num::estimate::exact(Num::tau()),
        crate::num::estimate::size(crate::num::estimate::exact(way) - measure) <= error,
        error + 2real * normalization_error(way) < turn < crate::num::estimate::exact(Num::tau())
            - (error + 2real * normalization_error(way)),
    ensures
        crate::num::estimate::size(
            crate::num::estimate::exact(crate::geometry::primitives::arc::normalize_angle(way))
                - turn,
        ) <= error + normalization_error(way),
{
    let tau = crate::num::estimate::exact(Num::tau());
    let k = angles_are_normalized_by_whole_turns(way);
    lemma_turn();
    let j = turns - k;
    let (a, b, c) = (turns as real, k as real, j as real);
    assert(c == a - b);
    assert((a - b) * tau == a * tau - b * tau) by (nonlinear_arith);
    if j >= 1 {
        assert(c * tau >= tau) by (nonlinear_arith)
            requires
                c >= 1real,
                tau > 0real,
        ;
    } else if j <= -1 {
        let d = -c;
        assert(d * tau >= tau) by (nonlinear_arith)
            requires
                d >= 1real,
                tau > 0real,
        ;
        assert((-c) * tau == -(c * tau)) by (nonlinear_arith);
    } else {
        assert(0real * tau == 0real) by (nonlinear_arith);
    }
}

/// A sweep passes the angles that are reached by turning from where it begins by no more than the sweep
/// and the tolerance, and no others, up to rounding; it passes all, if it makes a full turn.
pub proof fn sweeps_pass_what_they_reach(
    angle: Num,
    start: Num,
    sweep: Num,
    turn: real,
    turns: int,
)
    requires
        sweep.is_finite(),
        angles_in_range(angle, start, sweep),
        is_reached_by(angle, start, sweep, turn, turns),
        sweep_error(angle, start, sweep) < turn < crate::num::estimate::exact(Num::tau())
            - sweep_error(angle, start, sweep),
    ensures
        ({
            let eps = crate::geometry::primitives::arc::angle_epsilon();
            let full = sweep.abs().ge(Num::tau().sub(eps));
            let limit = crate::num::estimate::size(crate::num::estimate::exact(sweep))
                + crate::num::estimate::exact(eps);
            let error = sweep_error(angle, start, sweep);
            &&& full ==> crate::geometry::primitives::arc::angle_in_sweep(angle, start, sweep)
            &&& turn + error <= limit ==> crate::geometry::primitives::arc::angle_in_sweep(
                angle,
                start,
                sweep,
            )
            &&& !full && turn - error > limit
                ==> !crate::geometry::primitives::arc::angle_in_sweep(angle, start, sweep)
        }),
{
    let eps = crate::geometry::primitives::arc::angle_epsilon();
    crate::num::estimate::exact_constants();
    crate::num::estimate::exact_values_compare(sweep, Num::zero());
    crate::num::estimate::negations_are_exact(sweep);
    let way = if sweep.ge(Num::zero()) {
        angle.sub(start)
    } else {
        start.sub(angle)
    };
    let bound = if sweep.ge(Num::zero()) {
        sweep.add(eps)
    } else {
        sweep.neg().add(eps)
    };
    if sweep.ge(Num::zero()) {
        crate::num::estimate::differences_are_near(angle, start);
        crate::num::estimate::sums_are_near(sweep, eps);
    } else {
        crate::num::estimate::differences_are_near(start, angle);
        crate::num::estimate::sums_are_near(sweep.neg(), eps);
    }
    let n = crate::geometry::primitives::arc::normalize_angle(way);
    crate::num::estimate::lemma_sign(bound);
    crate::num::estimate::lemma_sign(n);
    crate::num::estimate::lemma_sign(way.rem(Num::tau()));
    let measure = turn + turns as real * crate::num::estimate::exact(Num::tau());
    lemma_measured(way, measure, turn, turns, crate::num::estimate::half_step(way));
    crate::num::estimate::exact_values_compare(n, bound);
}

/// The closest point of an arc to a point that is neither at its center nor beside it is the nearer of
/// its ends.
pub proof fn beyond_the_sweep_the_nearer_end_is_closest<M: Fn(Elementary) -> Num>(
    arc: Arc,
    point: Point,
    math: &M,
)
    requires
        !arc.contains_point_projection(point, math),
        point.sq_distance_to(arc.start).is_finite(),
        point.sq_distance_to(arc.end).is_finite(),
    ensures
        ({
            let closest = arc.closest_point_on_arc(point, math);
            let (to_start, to_end, to_closest) = (
                crate::num::estimate::exact(point.sq_distance_to(arc.start)),
                crate::num::estimate::exact(point.sq_distance_to(arc.end)),
                crate::num::estimate::exact(point.sq_distance_to(closest)),
            );
            &&& closest == arc.start || closest == arc.end
            &&& to_closest <= to_start
            &&& to_closest <= to_end
        }),
{
    crate::num::estimate::exact_values_compare(
        point.sq_distance_to(arc.start),
        point.sq_distance_to(arc.end),
    );
}

/// The point of a circle in a direction lies from the center by the radius times the cosine and the
/// sine of the direction, up to rounding.
pub proof fn points_of_circles_lie_in_their_direction<M: Fn(Elementary) -> Num>(
    center: Point,
    radius: Num,
    angle: Num,
    math: &M,
)
    requires
        crate::geometry::primitives::arc::point_on_circle(center, radius, angle, math).is_finite(),
    ensures
        ({
            let p = crate::geometry::primitives::arc::point_on_circle(center, radius, angle, math);
            let (cos, sin) = (
                crate::math::evaluate(math, Elementary::Cos(angle)),
                crate::math::evaluate(math, Elementary::Sin(angle)),
            );
            let r = crate::num::estimate::exact(radius);
            &&& crate::num::estimate::size(
                crate::num::estimate::exact(p.0) - (crate::num::estimate::exact(center.0) + r
                    * crate::num::estimate::exact(cos)),
            ) <= crate::num::estimate::half_step(radius.mul(cos))
                + crate::num::estimate::half_step(p.0)
            &&& crate::num::estimate::size(
                crate::num::estimate::exact(p.1) - (crate::num::estimate::exact(center.1) + r
                    * crate::num::estimate::exact(sin)),
            ) <= crate::num::estimate::half_step(radius.mul(sin))
                + crate::num::estimate::half_step(p.1)
        }),
{
    let (cos, sin) = (
        crate::math::evaluate(math, Elementary::Cos(angle)),
        crate::math::evaluate(math, Elementary::Sin(angle)),
    );
    crate::num::estimate::sums_are_near(center.0, radius.mul(cos));
    crate::num::estimate::sums_are_near(center.1, radius.mul(sin));
    crate::num::estimate::products_are_near(radius, cos);
    crate::num::estimate::products_are_near(radius, sin);
}

/// The direction from a center to a point is that of the way between them: the angle whose tangent is
/// the rise over the run, less whole turns, up to rounding. The rise and the run are returned.
pub proof fn directions_are_those_of_the_way<M: Fn(Elementary) -> Num>(
    center: Point,
    point: Point,
    math: &M,
) -> (r: (Num, Num, int))
    requires
        point.0.sub(center.0).is_finite(),
        point.1.sub(center.1).is_finite(),
        forall|rise: Num, run: Num|
            rise.is_finite() && run.is_finite() ==> (#[trigger] crate::math::evaluate(
                math,
                Elementary::Atan2(rise, run),
            )).is_finite() && crate::geometry::primitives::arc::normalize_angle(
                crate::math::evaluate(math, Elementary::Atan2(rise, run)),
            ).is_finite(),
    ensures
        ({
            let (rise, run, turns) = r;
            let angle = crate::math::evaluate(math, Elementary::Atan2(rise, run));
            let (p, c) = (
                crate::geometry::primitives::crossing_laws::place_of(point),
                crate::geometry::primitives::crossing_laws::place_of(center),
            );
            &&& crate::num::estimate::size(crate::num::estimate::exact(rise) - (p.y - c.y))
                <= crate::num::estimate::half_step(rise)
            &&& crate::num::estimate::size(crate::num::estimate::exact(run) - (p.x - c.x))
                <= crate::num::estimate::half_step(run)
            &&& crate::num::estimate::size(
                crate::num::estimate::exact(
                    crate::geometry::primitives::arc::angle_of(center, point, math),
                ) - (crate::num::estimate::exact(angle) - turns as real
                    * crate::num::estimate::exact(Num::tau())),
            ) <= normalization_error(angle)
        }),
{
    let (rise, run) = (point.1.sub(center.1), point.0.sub(center.0));
    crate::num::estimate::differences_are_near(point.1, center.1);
    crate::num::estimate::differences_are_near(point.0, center.0);
    let angle = crate::math::evaluate(math, Elementary::Atan2(rise, run));
    let turns = angles_are_normalized_by_whole_turns(angle);
    (rise, run, turns)
}

/// The closest point of an arc to a point beside it lies on its circle, in the direction of the point.
pub proof fn beside_the_arc_the_closest_point_is_in_line<M: Fn(Elementary) -> Num>(
    arc: Arc,
    point: Point,
    math: &M,
)
    requires
        !arc.spec_at_center(point),
        arc.contains_point_projection(point, math),
    ensures
        arc.closest_point_on_arc(point, math) == crate::geometry::primitives::arc::point_on_circle(
            arc.center,
            arc.radius,
            crate::geometry::primitives::arc::angle_of(arc.center, point, math),
            math,
        ),
{
}

/// The bulge of an arc is the tangent of a quarter of its sweep, up to rounding; the quarter is
/// returned.
pub proof fn bulges_are_tangents_of_a_quarter<M: Fn(Elementary) -> Num>(arc: Arc, math: &M) -> (quarter:
    Num)
    requires
        arc.sweep.is_finite(),
        arc.sweep.div(Num::four()).is_finite(),
    ensures
        arc.bulge(math) == crate::math::evaluate(math, Elementary::Tan(quarter)),
        crate::num::estimate::size(
            crate::num::estimate::exact(quarter) - crate::num::estimate::exact(arc.sweep) / 4real,
        ) <= crate::num::estimate::half_step(quarter),
{
    crate::num::estimate::exact_constants();
    crate::num::estimate::quotients_are_near(arc.sweep, Num::four());
    arc.sweep.div(Num::four())
}

} // verus!
