//! Laws of transformations.
use vstd::arithmetic::power2::*;
use vstd::prelude::*;

use crate::geometry::primitives::point::Point;
use crate::geometry::transformation::{DTransformation, Row, Transformation};
use crate::math::{evaluate, Elementary};
use crate::num::Num;

verus! {

/// The two are finite and equal: the same number, or both zero.
pub open spec fn alike(x: Num, y: Num) -> bool {
    x.is_finite() && y.is_finite() && x.num_eq(y)
}

proof fn lemma_alike(x: Num, y: Num)
    requires
        alike(x, y),
    ensures
        x.magnitude() == y.magnitude(),
        x.magnitude() != 0 ==> x == y,
        x.value() == y.value(),
        x.units() == y.units(),
        alike(x.neg(), y.neg()),
{
    crate::num::laws::order_agrees_with_value(x, y);
}

proof fn lemma_one()
    ensures
        Num::one().is_finite(),
        Num::one().units() == Num::one_in_units(),
        Num::one_in_units() > 0,
        Num::zero().value() == 0,
{
    let one = Num::one();
    lemma_pow2_pos(1074);
    assert(one.magnitude() == 0x3ff0_0000_0000_0000u64);
    assert(one.scale() == 1022);
    lemma2_to64_rest();
    assert(one.significand() == pow2(52));
    lemma_pow2_adds(52, 1022);
    crate::num::lemma_zero_significand(Num::zero());
}

proof fn lemma_alike_products(x: Num, y: Num, a: Num, b: Num)
    requires
        alike(x, a),
        alike(y, b),
        x.mul(y).is_finite(),
    ensures
        alike(x.mul(y), a.mul(b)),
{
    reveal(Num::spec_mul);
    lemma_alike(x, a);
    lemma_alike(y, b);
    crate::num::laws::rounded_numbers_are_numbers(x.units() * y.units(), Num::one_in_units());
    if x.magnitude() == 0 {
        crate::num::laws::zeros_stay_zeros(x, y);
        crate::num::laws::zeros_stay_zeros(a, b);
    } else if y.magnitude() == 0 {
        crate::num::laws::multiplication_commutes(x, y);
        crate::num::laws::multiplication_commutes(a, b);
        crate::num::laws::zeros_stay_zeros(y, x);
        crate::num::laws::zeros_stay_zeros(b, a);
    }
}

proof fn lemma_alike_sums(x: Num, y: Num, a: Num, b: Num)
    requires
        alike(x, a),
        alike(y, b),
        x.add(y).is_finite(),
    ensures
        alike(x.add(y), a.add(b)),
{
    reveal(Num::spec_add);
    lemma_alike(x, a);
    lemma_alike(y, b);
}

/// A product with zero is zero.
proof fn lemma_times_zero(x: Num, z: Num)
    requires
        x.is_finite(),
        alike(z, Num::zero()),
    ensures
        alike(x.mul(z), Num::zero()),
        alike(z.mul(x), Num::zero()),
{
    lemma_alike(z, Num::zero());
    crate::num::laws::zeros_stay_zeros(z, x);
    crate::num::laws::multiplication_commutes(x, z);
}

/// A product with one is the other factor.
proof fn lemma_times_one(x: Num, o: Num)
    requires
        x.is_finite(),
        alike(o, Num::one()),
    ensures
        x.mul(o) == x,
        o.mul(x) == x,
        x.div(o) == x,
{
    lemma_alike(o, Num::one());
    crate::num::laws::one_is_neutral(x);
    crate::num::laws::multiplication_commutes(x, o);
    lemma_one();
    assert(x.div(o) == x) by {
        reveal(Num::spec_div);
        crate::num::laws::exact_results_are_kept(x, Num::one_in_units());
    }
}

/// A sum with zero is the other term.
pub proof fn lemma_plus_zero(x: Num, z: Num)
    requires
        x.is_finite(),
        alike(z, Num::zero()),
    ensures
        alike(x.add(z), x),
        alike(z.add(x), x),
        alike(x.sub(z), x),
        alike(z.sub(x), x.neg()),
{
    lemma_alike(z, Num::zero());
    lemma_one();
    crate::num::laws::differences_and_zeros(x, z);
    crate::num::laws::differences_and_zeros(x, z.neg());
    crate::num::laws::differences_and_zeros(x.neg(), z);
    crate::num::laws::addition_commutes(x, z);
    crate::num::laws::addition_commutes(x.neg(), z);
}

/// The transformation turns by the angle with the given cosine and sine, and then moves by the
/// given translation.
pub open spec fn is_motion(t: Transformation, cos: Num, sin: Num, translation: (Num, Num)) -> bool {
    &&& alike(t.rows.0.0, cos)
    &&& alike(t.rows.0.1, sin.neg())
    &&& alike(t.rows.0.2, translation.0)
    &&& alike(t.rows.1.0, sin)
    &&& alike(t.rows.1.1, cos)
    &&& alike(t.rows.1.2, translation.1)
    &&& alike(t.rows.2.0, Num::zero())
    &&& alike(t.rows.2.1, Num::zero())
    &&& alike(t.rows.2.2, Num::one())
}

/// The row is (1, 0, z): what it makes of a column.
proof fn lemma_dot_first(row: Row, x: Num, y: Num, z: Num)
    requires
        alike(row.0, Num::one()),
        alike(row.1, Num::zero()),
        x.is_finite(),
        y.is_finite(),
        row.2.mul(z).is_finite(),
        x.add(row.2.mul(z)).is_finite(),
    ensures
        alike(row.dot(x, y, z), x.add(row.2.mul(z))),
{
    lemma_times_one(x, row.0);
    lemma_times_zero(y, row.1);
    lemma_plus_zero(x, row.1.mul(y));
    let left = row.0.mul(x).add(row.1.mul(y));
    let right = row.2.mul(z);
    crate::num::laws::order_agrees_with_value(right, right);
    lemma_alike_sums(x, right, left, right);
}

/// The row is (0, 1, z): what it makes of a column.
proof fn lemma_dot_second(row: Row, x: Num, y: Num, z: Num)
    requires
        alike(row.0, Num::zero()),
        alike(row.1, Num::one()),
        x.is_finite(),
        y.is_finite(),
        row.2.mul(z).is_finite(),
        y.add(row.2.mul(z)).is_finite(),
    ensures
        alike(row.dot(x, y, z), y.add(row.2.mul(z))),
{
    lemma_times_zero(x, row.0);
    lemma_times_one(y, row.1);
    lemma_plus_zero(y, row.0.mul(x));
    let left = row.0.mul(x).add(row.1.mul(y));
    let right = row.2.mul(z);
    crate::num::laws::order_agrees_with_value(right, right);
    lemma_alike_sums(y, right, left, right);
}

/// The row is (0, 0, 1): what it makes of a column.
proof fn lemma_dot_third(row: Row, x: Num, y: Num, z: Num)
    requires
        alike(row.0, Num::zero()),
        alike(row.1, Num::zero()),
        alike(row.2, Num::one()),
        x.is_finite(),
        y.is_finite(),
        z.is_finite(),
    ensures
        alike(row.dot(x, y, z), z),
{
    lemma_times_zero(x, row.0);
    lemma_times_zero(y, row.1);
    lemma_times_one(z, row.2);
    lemma_plus_zero(row.0.mul(x), row.1.mul(y));
    lemma_plus_zero(z, row.0.mul(x).add(row.1.mul(y)));
}

/// A row of a motion, as it is: what it makes of the columns of the identity and the like.
proof fn lemma_dot_column(row: Row, x: Num, y: Num, z: Num)
    requires
        row.0.is_finite(),
        row.1.is_finite(),
        row.2.is_finite(),
    ensures
        alike(x, Num::one()) && alike(y, Num::zero()) && alike(z, Num::zero()) ==> alike(
            row.dot(x, y, z),
            row.0,
        ),
        alike(x, Num::zero()) && alike(y, Num::one()) && alike(z, Num::zero()) ==> alike(
            row.dot(x, y, z),
            row.1,
        ),
        alike(x, Num::zero()) && alike(y, Num::zero()) && alike(z, Num::one()) ==> alike(
            row.dot(x, y, z),
            row.2,
        ),
{
    let a = row.0.mul(x);
    let b = row.1.mul(y);
    let c = row.2.mul(z);
    if alike(x, Num::one()) && alike(y, Num::zero()) && alike(z, Num::zero()) {
        lemma_times_one(row.0, x);
        lemma_times_zero(row.1, y);
        lemma_times_zero(row.2, z);
        lemma_plus_zero(a, b);
        lemma_plus_zero(a.add(b), c);
    }
    if alike(x, Num::zero()) && alike(y, Num::one()) && alike(z, Num::zero()) {
        lemma_times_zero(row.0, x);
        lemma_times_one(row.1, y);
        lemma_times_zero(row.2, z);
        lemma_plus_zero(b, a);
        lemma_plus_zero(a.add(b), c);
    }
    if alike(x, Num::zero()) && alike(y, Num::zero()) && alike(z, Num::one()) {
        lemma_times_zero(row.0, x);
        lemma_times_zero(row.1, y);
        lemma_times_one(row.2, z);
        lemma_plus_zero(a, b);
        lemma_plus_zero(c, a.add(b));
    }
}

/// A motion followed by a translation moves by that much more.
pub proof fn translations_are_added(
    t: Transformation,
    cos: Num,
    sin: Num,
    translation: (Num, Num),
    further: (Num, Num),
)
    requires
        is_motion(t, cos, sin, translation),
        further.0.is_finite(),
        further.1.is_finite(),
        translation.0.add(further.0).is_finite(),
        translation.1.add(further.1).is_finite(),
    ensures
        is_motion(
            t.transform(Transformation::from_translation(further)),
            cos,
            sin,
            (translation.0.add(further.0), translation.1.add(further.1)),
        ),
{
    let m = t.rows;
    let moved = Transformation::from_translation(further);
    lemma_one();
    lemma_translated_row(moved.rows.0, m, 0);
    lemma_translated_row(moved.rows.1, m, 1);
    lemma_alike(m.0.2, translation.0);
    lemma_alike(m.1.2, translation.1);
    lemma_alike_sums(translation.0, further.0, m.0.2, further.0);
    lemma_alike_sums(translation.1, further.1, m.1.2, further.1);
    lemma_times_one(further.0, m.2.2);
    lemma_times_one(further.1, m.2.2);
    lemma_dot_first(moved.rows.0, m.0.2, m.1.2, m.2.2);
    lemma_dot_second(moved.rows.1, m.0.2, m.1.2, m.2.2);
    lemma_dot_third(moved.rows.2, m.0.0, m.1.0, m.2.0);
    lemma_dot_third(moved.rows.2, m.0.1, m.1.1, m.2.1);
    lemma_dot_third(moved.rows.2, m.0.2, m.1.2, m.2.2);
}

/// A row of a translation leaves the first two columns of a motion as they are.
proof fn lemma_translated_row(row: Row, m: (Row, Row, Row), place: int)
    requires
        place == 0 ==> alike(row.0, Num::one()) && alike(row.1, Num::zero()),
        place == 1 ==> alike(row.0, Num::zero()) && alike(row.1, Num::one()),
        row.2.is_finite(),
        m.0.0.is_finite(),
        m.0.1.is_finite(),
        m.1.0.is_finite(),
        m.1.1.is_finite(),
        alike(m.2.0, Num::zero()),
        alike(m.2.1, Num::zero()),
    ensures
        place == 0 ==> alike(row.times(m).0, m.0.0) && alike(row.times(m).1, m.0.1),
        place == 1 ==> alike(row.times(m).0, m.1.0) && alike(row.times(m).1, m.1.1),
{
    lemma_times_zero(row.2, m.2.0);
    lemma_times_zero(row.2, m.2.1);
    if place == 0 {
        lemma_plus_zero(m.0.0, row.2.mul(m.2.0));
        lemma_plus_zero(m.0.1, row.2.mul(m.2.1));
        lemma_dot_first(row, m.0.0, m.1.0, m.2.0);
        lemma_dot_first(row, m.0.1, m.1.1, m.2.1);
    }
    if place == 1 {
        lemma_plus_zero(m.1.0, row.2.mul(m.2.0));
        lemma_plus_zero(m.1.1, row.2.mul(m.2.1));
        lemma_dot_second(row, m.0.0, m.1.0, m.2.0);
        lemma_dot_second(row, m.0.1, m.1.1, m.2.1);
    }
}

/// Where a translation is brought by a rotation about the origin with the given cosine and sine.
pub open spec fn turned(translation: (Num, Num), cos: Num, sin: Num) -> (Num, Num) {
    (
        cos.mul(translation.0).add(sin.neg().mul(translation.1)),
        sin.mul(translation.0).add(cos.mul(translation.1)),
    )
}

/// A translation followed by a rotation turns by the angle of the rotation, and moves to where
/// the rotation brings the translation.
pub proof fn rotations_turn_translations<M: Fn(Elementary) -> Num>(
    t: Transformation,
    translation: (Num, Num),
    angle: Num,
    math: &M,
)
    requires
        is_motion(t, Num::one(), Num::zero(), translation),
        evaluate(math, Elementary::Cos(angle)).is_finite(),
        evaluate(math, Elementary::Sin(angle)).is_finite(),
        ({
            let to = turned(
                translation,
                evaluate(math, Elementary::Cos(angle)),
                evaluate(math, Elementary::Sin(angle)),
            );
            to.0.is_finite() && to.1.is_finite()
        }),
    ensures
        ({
            let cos = evaluate(math, Elementary::Cos(angle));
            let sin = evaluate(math, Elementary::Sin(angle));
            is_motion(t.rotate(angle, math), cos, sin, turned(translation, cos, sin))
        }),
{
    let cos = evaluate(math, Elementary::Cos(angle));
    let sin = evaluate(math, Elementary::Sin(angle));
    let r = Transformation::from_rotation(angle, math).rows;
    let m = t.rows;
    lemma_one();
    lemma_alike(m.0.1, Num::zero().neg());
    lemma_dot_column(r.0, m.0.0, m.1.0, m.2.0);
    lemma_dot_column(r.0, m.0.1, m.1.1, m.2.1);
    lemma_dot_column(r.1, m.0.0, m.1.0, m.2.0);
    lemma_dot_column(r.1, m.0.1, m.1.1, m.2.1);
    lemma_turned_row(r.0, m, translation);
    lemma_turned_row(r.1, m, translation);
    lemma_dot_third(r.2, m.0.0, m.1.0, m.2.0);
    lemma_dot_third(r.2, m.0.1, m.1.1, m.2.1);
    lemma_dot_third(r.2, m.0.2, m.1.2, m.2.2);
}

proof fn lemma_turned_row(row: Row, m: (Row, Row, Row), translation: (Num, Num))
    requires
        row.0.is_finite(),
        row.1.is_finite(),
        alike(row.2, Num::zero()),
        alike(m.0.2, translation.0),
        alike(m.1.2, translation.1),
        alike(m.2.2, Num::one()),
        row.0.mul(translation.0).add(row.1.mul(translation.1)).is_finite(),
    ensures
        alike(
            row.dot(m.0.2, m.1.2, m.2.2),
            row.0.mul(translation.0).add(row.1.mul(translation.1)),
        ),
{
    let a = row.0.mul(translation.0);
    let b = row.1.mul(translation.1);
    crate::num::accuracy::finite_sums_have_finite_terms(a, b);
    lemma_alike_products(row.0, translation.0, row.0, m.0.2);
    lemma_alike_products(row.1, translation.1, row.1, m.1.2);
    lemma_alike_sums(a, b, row.0.mul(m.0.2), row.1.mul(m.1.2));
    lemma_times_zero(m.2.2, row.2);
    lemma_plus_zero(row.0.mul(m.0.2).add(row.1.mul(m.1.2)), row.2.mul(m.2.2));
}

/// The transformation that a rotation and a translation make up turns by the angle of the one
/// and moves by the other.
pub proof fn composed_transformations_are_motions<M: Fn(Elementary) -> Num>(
    d: DTransformation,
    math: &M,
)
    requires
        evaluate(math, Elementary::Cos(d.rotation)).is_finite(),
        evaluate(math, Elementary::Sin(d.rotation)).is_finite(),
        d.translation.0.is_finite(),
        d.translation.1.is_finite(),
    ensures
        is_motion(
            d.compose(math),
            evaluate(math, Elementary::Cos(d.rotation)),
            evaluate(math, Elementary::Sin(d.rotation)),
            d.translation,
        ),
{
    let cos = evaluate(math, Elementary::Cos(d.rotation));
    let sin = evaluate(math, Elementary::Sin(d.rotation));
    let none = (Num::zero(), Num::zero());
    lemma_one();
    lemma_times_zero(cos, Num::zero());
    lemma_times_zero(sin, Num::zero());
    lemma_times_zero(sin.neg(), Num::zero());
    lemma_plus_zero(cos.mul(Num::zero()), sin.neg().mul(Num::zero()));
    lemma_plus_zero(sin.mul(Num::zero()), cos.mul(Num::zero()));
    rotations_turn_translations(Transformation::empty(), none, d.rotation, math);
    let start = turned(none, cos, sin);
    lemma_plus_zero(d.translation.0, start.0);
    lemma_plus_zero(d.translation.1, start.1);
    translations_are_added(
        Transformation::empty().rotate(d.rotation, math),
        cos,
        sin,
        start,
        d.translation,
    );
}

proof fn lemma_minor(a: Num, b: Num, c: Num, d: Num)
    requires
        a.is_finite(),
        b.is_finite(),
        c.is_finite(),
        d.is_finite(),
    ensures
        (alike(a, Num::zero()) || alike(d, Num::zero())) && (alike(b, Num::zero()) || alike(
            c,
            Num::zero(),
        )) ==> alike(Transformation::minor(a, b, c, d), Num::zero()),
        alike(a, Num::one()) && alike(d, Num::one()) && (alike(b, Num::zero()) || alike(
            c,
            Num::zero(),
        )) ==> alike(Transformation::minor(a, b, c, d), Num::one()),
        (alike(a, Num::zero()) || alike(d, Num::zero())) && alike(c, Num::one()) ==> alike(
            Transformation::minor(a, b, c, d),
            b.neg(),
        ),
        (alike(a, Num::zero()) || alike(d, Num::zero())) && alike(b, Num::one()) ==> alike(
            Transformation::minor(a, b, c, d),
            c.neg(),
        ),
{
    let left = a.mul(d);
    let right = b.mul(c);
    lemma_one();
    if alike(a, Num::zero()) {
        lemma_times_zero(d, a);
    }
    if alike(d, Num::zero()) {
        lemma_times_zero(a, d);
    }
    if alike(b, Num::zero()) {
        lemma_times_zero(c, b);
    }
    if alike(c, Num::zero()) {
        lemma_times_zero(b, c);
    }
    if alike(c, Num::one()) {
        lemma_times_one(b, c);
    }
    if alike(b, Num::one()) {
        lemma_times_one(c, b);
    }
    if alike(a, Num::one()) {
        lemma_times_one(d, a);
    }
    if right.is_finite() && alike(left, Num::zero()) {
        lemma_plus_zero(right, left);
    }
    if left.is_finite() && alike(right, Num::zero()) {
        lemma_plus_zero(left, right);
    }
}

/// Three factors: zero if one of them is, and one if all are.
proof fn lemma_three_factors(a: Num, b: Num, c: Num)
    requires
        a.is_finite(),
        b.is_finite(),
        c.is_finite(),
    ensures
        alike(a, Num::zero()) || alike(b, Num::zero()) ==> alike(a.mul(b).mul(c), Num::zero()),
        alike(a, Num::one()) && alike(b, Num::one()) && alike(c, Num::one()) ==> alike(
            a.mul(b).mul(c),
            Num::one(),
        ),
{
    lemma_one();
    if alike(a, Num::zero()) {
        lemma_times_zero(b, a);
        lemma_times_zero(c, a.mul(b));
    }
    if alike(b, Num::zero()) {
        lemma_times_zero(a, b);
        lemma_times_zero(c, a.mul(b));
    }
    if alike(a, Num::one()) && alike(b, Num::one()) && alike(c, Num::one()) {
        lemma_times_one(b, a);
        lemma_times_one(c, b);
    }
}

proof fn lemma_determinant_of_translation(t: Transformation, translation: (Num, Num))
    requires
        is_motion(t, Num::one(), Num::zero(), translation),
    ensures
        alike(t.determinant(), Num::one()),
{
    let (a, b, c) = t.rows;
    lemma_one();
    lemma_alike(a.1, Num::zero().neg());
    assert(alike(a.1, Num::zero()));
    lemma_three_factors(a.0, b.1, c.2);
    lemma_three_factors(a.1, b.2, c.0);
    lemma_three_factors(a.2, b.0, c.1);
    assert(a.2.mul(b.1).is_finite()) by {
        lemma_times_one(a.2, b.1);
    }
    lemma_times_zero(a.2.mul(b.1), c.0);
    lemma_three_factors(a.1, b.0, c.2);
    assert(a.0.mul(b.2).is_finite()) by {
        lemma_times_one(b.2, a.0);
    }
    lemma_times_zero(a.0.mul(b.2), c.1);
    let first = a.0.mul(b.1).mul(c.2);
    let second = first.add(a.1.mul(b.2).mul(c.0));
    let third = second.add(a.2.mul(b.0).mul(c.1));
    let fourth = third.sub(a.2.mul(b.1).mul(c.0));
    let fifth = fourth.sub(a.1.mul(b.0).mul(c.2));
    lemma_plus_zero(first, a.1.mul(b.2).mul(c.0));
    lemma_plus_zero(second, a.2.mul(b.0).mul(c.1));
    lemma_plus_zero(third, a.2.mul(b.1).mul(c.0));
    lemma_plus_zero(fourth, a.1.mul(b.0).mul(c.2));
    lemma_plus_zero(fifth, a.0.mul(b.2).mul(c.1));
}

/// The inverse of a translation is the opposite translation.
pub proof fn translations_are_undone(t: Transformation, translation: (Num, Num))
    requires
        is_motion(t, Num::one(), Num::zero(), translation),
    ensures
        is_motion(
            t.inverse(),
            Num::one(),
            Num::zero(),
            (translation.0.neg(), translation.1.neg()),
        ),
{
    let (a, b, c) = t.rows;
    let d = t.determinant();
    lemma_one();
    lemma_determinant_of_translation(t, translation);
    lemma_alike(a.1, Num::zero().neg());
    assert(alike(a.1, Num::zero()));
    lemma_alike(a.2, translation.0);
    lemma_alike(b.2, translation.1);
    lemma_minor(b.1, b.2, c.1, c.2);
    lemma_minor(a.2, a.1, c.2, c.1);
    lemma_minor(a.1, a.2, b.1, b.2);
    lemma_minor(b.2, b.0, c.2, c.0);
    lemma_minor(a.0, a.2, c.0, c.2);
    lemma_minor(a.2, a.0, b.2, b.0);
    lemma_minor(b.0, b.1, c.0, c.1);
    lemma_minor(a.1, a.0, c.1, c.0);
    lemma_minor(a.0, a.1, b.0, b.1);
    lemma_times_one(Transformation::minor(b.1, b.2, c.1, c.2), d);
    lemma_times_one(Transformation::minor(a.2, a.1, c.2, c.1), d);
    lemma_times_one(Transformation::minor(a.1, a.2, b.1, b.2), d);
    lemma_times_one(Transformation::minor(b.2, b.0, c.2, c.0), d);
    lemma_times_one(Transformation::minor(a.0, a.2, c.0, c.2), d);
    lemma_times_one(Transformation::minor(a.2, a.0, b.2, b.0), d);
    lemma_times_one(Transformation::minor(b.0, b.1, c.0, c.1), d);
    lemma_times_one(Transformation::minor(a.1, a.0, c.1, c.0), d);
    lemma_times_one(Transformation::minor(a.0, a.1, b.0, b.1), d);
}

/// A motion after nothing is the motion itself.
pub proof fn nothing_comes_before_a_motion(
    t: Transformation,
    cos: Num,
    sin: Num,
    translation: (Num, Num),
)
    requires
        is_motion(t, cos, sin, translation),
    ensures
        is_motion(Transformation::empty().transform(t), cos, sin, translation),
{
    let (a, b, c) = t.rows;
    lemma_one();
    lemma_dot_column(a, Num::one(), Num::zero(), Num::zero());
    lemma_dot_column(a, Num::zero(), Num::one(), Num::zero());
    lemma_dot_column(a, Num::zero(), Num::zero(), Num::one());
    lemma_dot_column(b, Num::one(), Num::zero(), Num::zero());
    lemma_dot_column(b, Num::zero(), Num::one(), Num::zero());
    lemma_dot_column(b, Num::zero(), Num::zero(), Num::one());
    lemma_dot_column(c, Num::one(), Num::zero(), Num::zero());
    lemma_dot_column(c, Num::zero(), Num::one(), Num::zero());
    lemma_dot_column(c, Num::zero(), Num::zero(), Num::one());
}

/// A translation moves a point by its coordinates, each rounded once.
pub proof fn translated_points(t: Transformation, translation: (Num, Num), point: Point)
    requires
        is_motion(t, Num::one(), Num::zero(), translation),
        point.is_finite(),
        point.0.add(translation.0).is_finite(),
        point.1.add(translation.1).is_finite(),
    ensures
        alike(point.transformed(t).0, point.0.add(translation.0)),
        alike(point.transformed(t).1, point.1.add(translation.1)),
{
    let (a, b, c) = t.rows;
    lemma_one();
    lemma_alike(a.1, Num::zero().neg());
    assert(alike(a.1, Num::zero()));
    lemma_times_one(a.2, Num::one());
    lemma_times_one(b.2, Num::one());
    lemma_alike(a.2, translation.0);
    lemma_alike(b.2, translation.1);
    lemma_alike_sums(point.0, translation.0, point.0, a.2);
    lemma_alike_sums(point.1, translation.1, point.1, b.2);
    lemma_dot_first(a, point.0, point.1, Num::one());
    lemma_dot_second(b, point.0, point.1, Num::one());
}

/// Nothing stays nothing when it is turned.
pub proof fn zero_stays_zero_when_turned(translation: (Num, Num), cos: Num, sin: Num)
    requires
        translation.0.num_eq(Num::zero()),
        translation.1.num_eq(Num::zero()),
        cos.is_finite(),
        sin.is_finite(),
    ensures
        alike(turned(translation, cos, sin).0, Num::zero()),
        alike(turned(translation, cos, sin).1, Num::zero()),
{
    let (x, y) = translation;
    lemma_times_zero(cos, x);
    lemma_times_zero(sin, x);
    lemma_times_zero(cos, y);
    lemma_times_zero(sin.neg(), y);
    lemma_plus_zero(cos.mul(x), sin.neg().mul(y));
    lemma_plus_zero(sin.mul(x), cos.mul(y));
}

/// What is turned by an angle with the cosine one and the sine zero stays where it is.
pub proof fn nothing_turns_by_nothing(translation: (Num, Num), cos: Num, sin: Num)
    requires
        translation.0.is_finite(),
        translation.1.is_finite(),
        cos.num_eq(Num::one()),
        sin.num_eq(Num::zero()),
    ensures
        alike(turned(translation, cos, sin).0, translation.0),
        alike(turned(translation, cos, sin).1, translation.1),
{
    let (x, y) = translation;
    lemma_times_one(x, cos);
    lemma_times_one(y, cos);
    lemma_times_zero(x, sin);
    lemma_alike(sin, Num::zero());
    assert(alike(sin.neg(), Num::zero()));
    lemma_times_zero(y, sin.neg());
    lemma_plus_zero(x, sin.neg().mul(y));
    lemma_plus_zero(y, sin.mul(x));
}

/// The sum of a number and its opposite is zero.
pub proof fn opposites_cancel(x: Num, y: Num)
    requires
        alike(x, y.neg()),
        y.is_finite(),
    ensures
        alike(x.add(y), Num::zero()),
{
    lemma_alike(x, y.neg());
    lemma_one();
    assert(y.neg().value() == -y.value());
    crate::num::laws::exact_sums_are_kept(x, y, Num::zero());
    reveal(Num::spec_add);
}

/// One coordinate of the image of a point: the coordinates, weighted, and a translation.
pub open spec fn coordinate(a: Num, b: Num, translation: Num, point: Point) -> Num {
    a.mul(point.0).add(b.mul(point.1)).add(translation)
}

/// All the steps on the way to this coordinate.
pub open spec fn coordinate_steps(a: Num, b: Num, translation: Num, point: Point) -> nat {
    crate::num::accuracy::step(a.mul(point.0)) + crate::num::accuracy::step(b.mul(point.1))
        + crate::num::accuracy::step(a.mul(point.0).add(b.mul(point.1)))
        + crate::num::accuracy::step(coordinate(a, b, translation, point))
}

/// The coordinate without rounding, in squared units.
pub open spec fn exact_coordinate(a: Num, b: Num, translation: Num, point: Point) -> int {
    a.value() * point.0.value() + b.value() * point.1.value() + translation.value()
        * Num::one_in_units()
}

/// A coordinate of an image differs from the exact one by at most half a step for each operation
/// on the way.
pub proof fn coordinates_err_by_half_steps(a: Num, b: Num, translation: Num, point: Point)
    requires
        coordinate(a, b, translation, point).is_finite(),
    ensures
        2 * crate::num::accuracy::gap(
            coordinate(a, b, translation, point).value() * Num::one_in_units(),
            exact_coordinate(a, b, translation, point),
        ) <= coordinate_steps(a, b, translation, point) * Num::one_in_units(),
{
    let left = a.mul(point.0);
    let right = b.mul(point.1);
    let sum = left.add(right);
    let r = coordinate(a, b, translation, point);
    crate::num::accuracy::finite_sums_have_finite_terms(sum, translation);
    crate::num::accuracy::finite_sums_have_finite_terms(left, right);
    assert(a.is_finite() && b.is_finite() && point.0.is_finite() && point.1.is_finite()) by {
        reveal(Num::spec_mul);
    }
    crate::num::accuracy::products_err_by_half_a_step(a, point.0);
    crate::num::accuracy::products_err_by_half_a_step(b, point.1);
    crate::num::accuracy::sums_err_by_half_a_step(left, right);
    crate::num::accuracy::sums_err_by_half_a_step(sum, translation);
    lemma_coordinate_values(
        Num::one_in_units() as int,
        (left.value(), right.value(), sum.value(), r.value(), translation.value()),
        (a.value() * point.0.value(), b.value() * point.1.value()),
        (
            crate::num::accuracy::step(left) as int,
            crate::num::accuracy::step(right) as int,
            crate::num::accuracy::step(sum) as int,
            crate::num::accuracy::step(r) as int,
        ),
    );
}

proof fn lemma_coordinate_values(
    one: int,
    values: (int, int, int, int, int),
    products: (int, int),
    steps: (int, int, int, int),
)
    requires
        one >= 0,
        -(steps.0 * one) <= 2 * (values.0 * one - products.0) <= steps.0 * one,
        -(steps.1 * one) <= 2 * (values.1 * one - products.1) <= steps.1 * one,
        -steps.2 <= 2 * (values.2 - (values.0 + values.1)) <= steps.2,
        -steps.3 <= 2 * (values.3 - (values.2 + values.4)) <= steps.3,
    ensures
        ({
            let exact = products.0 + products.1 + values.4 * one;
            let all = (steps.0 + steps.1 + steps.2 + steps.3) * one;
            -all <= 2 * (values.3 * one - exact) <= all
        }),
{
    let (l, r, s, v, t) = values;
    assert(-(steps.2 * one) <= 2 * (s * one - (l * one + r * one)) <= steps.2 * one)
        by (nonlinear_arith)
        requires
            one >= 0,
            -steps.2 <= 2 * (s - (l + r)) <= steps.2,
    ;
    assert(-(steps.3 * one) <= 2 * (v * one - (s * one + t * one)) <= steps.3 * one)
        by (nonlinear_arith)
        requires
            one >= 0,
            -steps.3 <= 2 * (v - (s + t)) <= steps.3,
    ;
    assert((steps.0 + steps.1 + steps.2 + steps.3) * one == steps.0 * one + steps.1 * one + steps.2
        * one + steps.3 * one) by (nonlinear_arith);
}

proof fn lemma_row_of_a_motion(row: Row, a: Num, b: Num, translation: Num, point: Point, same: Point)
    requires
        alike(row.0, a),
        alike(row.1, b),
        alike(row.2, translation),
        alike(same.0, point.0),
        alike(same.1, point.1),
        coordinate(a, b, translation, point).is_finite(),
    ensures
        alike(row.dot(same.0, same.1, Num::one()), coordinate(a, b, translation, point)),
{
    let left = a.mul(point.0);
    let right = b.mul(point.1);
    crate::num::accuracy::finite_sums_have_finite_terms(left.add(right), translation);
    crate::num::accuracy::finite_sums_have_finite_terms(left, right);
    lemma_one();
    lemma_alike(row.0, a);
    lemma_alike(row.1, b);
    lemma_alike_products(a, point.0, row.0, same.0);
    lemma_alike_products(b, point.1, row.1, same.1);
    lemma_alike_sums(left, right, row.0.mul(same.0), row.1.mul(same.1));
    lemma_times_one(row.2, Num::one());
    lemma_alike_sums(
        left.add(right),
        translation,
        row.0.mul(same.0).add(row.1.mul(same.1)),
        row.2.mul(Num::one()),
    );
}

/// The image of a point under a motion has the coordinates, weighted with the cosine and the sine,
/// and moved by the translation.
pub proof fn images_under_motions(
    t: Transformation,
    cos: Num,
    sin: Num,
    translation: (Num, Num),
    point: Point,
    same: Point,
)
    requires
        is_motion(t, cos, sin, translation),
        alike(same.0, point.0),
        alike(same.1, point.1),
        coordinate(cos, sin.neg(), translation.0, point).is_finite(),
        coordinate(sin, cos, translation.1, point).is_finite(),
    ensures
        alike(same.transformed(t).0, coordinate(cos, sin.neg(), translation.0, point)),
        alike(same.transformed(t).1, coordinate(sin, cos, translation.1, point)),
{
    lemma_row_of_a_motion(t.rows.0, cos, sin.neg(), translation.0, point, same);
    lemma_row_of_a_motion(t.rows.1, sin, cos, translation.1, point, same);
}

/// A turn by the angle with the given cosine and sine, followed by a translation.
pub struct Motion {
    pub cos: Num,
    pub sin: Num,
    pub translation: (Num, Num),
}

impl Motion {
    /// The transformation is this motion.
    pub open spec fn describes(self, t: Transformation) -> bool {
        is_motion(t, self.cos, self.sin, self.translation)
    }

    /// The sum of the squares of the cosine and the sine: about one.
    pub open spec fn determinant(self) -> Num {
        self.cos.mul(self.cos).add(self.sin.mul(self.sin))
    }

    /// The translation that is left to be undone, turned back, before it is divided by the
    /// determinant.
    pub open spec fn turned_back(self) -> (Num, Num) {
        let (x, y) = self.translation;
        (
            self.sin.neg().mul(y).sub(x.mul(self.cos)),
            x.mul(self.sin).sub(self.cos.mul(y)),
        )
    }

    /// The motion that undoes this one.
    pub open spec fn undone(self) -> Motion {
        let d = self.determinant();
        Motion {
            cos: self.cos.div(d),
            sin: self.sin.neg().div(d),
            translation: (self.turned_back().0.div(d), self.turned_back().1.div(d)),
        }
    }

    /// This motion, followed by a turn and a translation.
    pub open spec fn followed_by(self, other: Motion) -> Motion {
        let to = turned(self.translation, other.cos, other.sin);
        Motion {
            cos: other.cos.mul(self.cos).add(other.sin.neg().mul(self.sin)),
            sin: other.sin.mul(self.cos).add(other.cos.mul(self.sin)),
            translation: (to.0.add(other.translation.0), to.1.add(other.translation.1)),
        }
    }

    pub open spec fn is_finite(self) -> bool {
        &&& self.cos.is_finite()
        &&& self.sin.is_finite()
        &&& self.translation.0.is_finite()
        &&& self.translation.1.is_finite()
    }

    /// It can be undone: all that is computed on the way is a number, and the determinant is not
    /// zero.
    pub open spec fn can_be_undone(self) -> bool {
        &&& self.is_finite()
        &&& self.determinant().is_finite()
        &&& self.determinant().magnitude() != 0
        &&& self.turned_back().0.is_finite()
        &&& self.turned_back().1.is_finite()
        &&& self.undone().is_finite()
    }
}

proof fn lemma_alike_quotients(x: Num, a: Num, d: Num)
    requires
        alike(x, a),
        d.is_finite(),
        d.magnitude() != 0,
        x.div(d).is_finite(),
    ensures
        alike(x.div(d), a.div(d)),
{
    reveal(Num::spec_div);
    lemma_alike(x, a);
    crate::num::laws::rounded_numbers_are_numbers(x.units() * Num::one_in_units(), d.units());
    if x.magnitude() == 0 {
        crate::num::laws::zeros_stay_zeros(x, d);
        crate::num::laws::zeros_stay_zeros(a, d);
    }
}

/// A number that is not zero, divided by itself, is one.
proof fn lemma_over_itself(x: Num)
    requires
        x.is_finite(),
        x.magnitude() != 0,
    ensures
        alike(x.div(x), Num::one()),
{
    reveal(Num::spec_div);
    lemma_one();
    let zero = Num { bits: 0 };
    crate::num::laws::order_agrees_with_value(zero, Num { bits: x.magnitude() });
    crate::num::lemma_zero_significand(zero);
    assert(x.units() > 0);
    crate::num::laws::exact_results_are_kept(Num::one(), x.units());
    assert(x.units() * Num::one_in_units() == Num::one_in_units() * x.units())
        by (nonlinear_arith);
}

/// The determinant of a motion.
proof fn lemma_determinant_of_motion(t: Transformation, m: Motion)
    requires
        m.describes(t),
        m.can_be_undone(),
    ensures
        alike(t.determinant(), m.determinant()),
{
    let (a, b, c) = t.rows;
    let (x, y) = m.translation;
    lemma_one();
    crate::num::accuracy::finite_sums_have_finite_terms(
        m.cos.mul(m.cos),
        m.sin.mul(m.sin),
    );
    crate::num::accuracy::finite_sums_have_finite_terms(
        m.sin.neg().mul(y),
        x.mul(m.cos).neg(),
    );
    crate::num::accuracy::finite_sums_have_finite_terms(
        x.mul(m.sin),
        m.cos.mul(y).neg(),
    );
    lemma_alike(b.0, m.sin);
    lemma_negated_square(m.sin);
    // The two products that count.
    lemma_alike_products(m.cos, m.cos, a.0, b.1);
    lemma_times_one(a.0.mul(b.1), c.2);
    lemma_alike_products(m.sin.neg(), m.sin, a.1, b.0);
    lemma_times_one(a.1.mul(b.0), c.2);
    // Those that vanish.
    lemma_alike_products(m.sin.neg(), y, a.1, b.2);
    lemma_times_zero(a.1.mul(b.2), c.0);
    lemma_alike_products(x, m.sin, a.2, b.0);
    lemma_times_zero(a.2.mul(b.0), c.1);
    lemma_alike_products(x, m.cos, a.2, b.1);
    lemma_times_zero(a.2.mul(b.1), c.0);
    lemma_alike_products(m.cos, y, a.0, b.2);
    lemma_times_zero(a.0.mul(b.2), c.1);
    let first = a.0.mul(b.1).mul(c.2);
    let second = first.add(a.1.mul(b.2).mul(c.0));
    let third = second.add(a.2.mul(b.0).mul(c.1));
    let fourth = third.sub(a.2.mul(b.1).mul(c.0));
    let square = a.1.mul(b.0).mul(c.2);
    let fifth = fourth.sub(square);
    lemma_plus_zero(first, a.1.mul(b.2).mul(c.0));
    lemma_plus_zero(second, a.2.mul(b.0).mul(c.1));
    lemma_plus_zero(third, a.2.mul(b.1).mul(c.0));
    assert(alike(fourth, m.cos.mul(m.cos)));
    lemma_alike(square, m.sin.neg().mul(m.sin));
    assert(alike(square.neg(), m.sin.mul(m.sin)));
    lemma_alike_sums(m.cos.mul(m.cos), m.sin.mul(m.sin), fourth, square.neg());
    lemma_plus_zero(fifth, a.0.mul(b.2).mul(c.1));
}

proof fn lemma_negated_square(x: Num)
    requires
        x.mul(x).is_finite(),
    ensures
        x.neg().mul(x).is_finite(),
        alike(x.neg().mul(x).neg(), x.mul(x)),
{
    reveal(Num::spec_mul);
    crate::num::laws::rounded_numbers_are_numbers(x.units() * x.units(), Num::one_in_units());
}

/// The inverse of a motion is the motion that undoes it.
pub proof fn motions_are_undone(t: Transformation, m: Motion)
    requires
        m.describes(t),
        m.can_be_undone(),
    ensures
        m.undone().describes(t.inverse()),
{
    let (a, b, c) = t.rows;
    let (x, y) = m.translation;
    let d = t.determinant();
    lemma_one();
    lemma_determinant_of_motion(t, m);
    lemma_alike(d, m.determinant());
    lemma_alike(a.1, m.sin.neg());
    lemma_alike(b.0, m.sin);
    assert(m.sin.neg().neg() == m.sin);
    // The four entries that turn.
    lemma_minor(b.1, b.2, c.1, c.2);
    lemma_minor_of_one(b.1, c.2, b.2, c.1);
    lemma_minor(a.2, a.1, c.2, c.1);
    lemma_minor(b.2, b.0, c.2, c.0);
    lemma_minor_of_one(a.0, c.2, a.2, c.0);
    lemma_alike_quotients(m.cos, Transformation::minor(b.1, b.2, c.1, c.2), d);
    lemma_alike_quotients(m.cos, Transformation::minor(a.0, a.2, c.0, c.2), d);
    lemma_alike_quotients(m.sin.neg(), Transformation::minor(b.2, b.0, c.2, c.0), d);
    lemma_negated_quotient(m.sin, d);
    lemma_alike_quotients(m.sin, Transformation::minor(a.2, a.1, c.2, c.1), d);
    // The translation.
    crate::num::accuracy::finite_sums_have_finite_terms(
        m.sin.neg().mul(y),
        x.mul(m.cos).neg(),
    );
    crate::num::accuracy::finite_sums_have_finite_terms(
        x.mul(m.sin),
        m.cos.mul(y).neg(),
    );
    lemma_alike_products(m.sin.neg(), y, a.1, b.2);
    lemma_alike_products(x, m.cos, a.2, b.1);
    lemma_alike(x.mul(m.cos), a.2.mul(b.1));
    lemma_alike_sums(
        m.sin.neg().mul(y),
        x.mul(m.cos).neg(),
        a.1.mul(b.2),
        a.2.mul(b.1).neg(),
    );
    lemma_alike_quotients(m.turned_back().0, Transformation::minor(a.1, a.2, b.1, b.2), d);
    lemma_alike_products(x, m.sin, a.2, b.0);
    lemma_alike_products(m.cos, y, a.0, b.2);
    lemma_alike(m.cos.mul(y), a.0.mul(b.2));
    lemma_alike_sums(
        x.mul(m.sin),
        m.cos.mul(y).neg(),
        a.2.mul(b.0),
        a.0.mul(b.2).neg(),
    );
    lemma_alike_quotients(m.turned_back().1, Transformation::minor(a.2, a.0, b.2, b.0), d);
    // The last row.
    lemma_minor(b.0, b.1, c.0, c.1);
    lemma_minor(a.1, a.0, c.1, c.0);
    lemma_zero_over(Transformation::minor(b.0, b.1, c.0, c.1), d);
    lemma_zero_over(Transformation::minor(a.1, a.0, c.1, c.0), d);
    crate::num::accuracy::finite_sums_have_finite_terms(
        m.cos.mul(m.cos),
        m.sin.mul(m.sin),
    );
    lemma_negated_square(m.sin);
    lemma_alike_products(m.cos, m.cos, a.0, b.1);
    lemma_alike_products(m.sin.neg(), m.sin, a.1, b.0);
    lemma_alike(m.sin.neg().mul(m.sin), a.1.mul(b.0));
    assert(alike(a.1.mul(b.0).neg(), m.sin.mul(m.sin)));
    lemma_alike_sums(
        m.cos.mul(m.cos),
        m.sin.mul(m.sin),
        a.0.mul(b.1),
        a.1.mul(b.0).neg(),
    );
    lemma_over_itself(d);
    lemma_alike_quotients(d, Transformation::minor(a.0, a.1, b.0, b.1), d);
}

proof fn lemma_zero_over(x: Num, d: Num)
    requires
        alike(x, Num::zero()),
        d.is_finite(),
        d.magnitude() != 0,
    ensures
        alike(x.div(d), Num::zero()),
{
    lemma_alike(x, Num::zero());
    crate::num::laws::zeros_stay_zeros(x, d);
}

proof fn lemma_negated_quotient(x: Num, d: Num)
    requires
        x.neg().div(d).is_finite(),
        d.is_finite(),
        d.magnitude() != 0,
        x.is_finite(),
    ensures
        x.div(d).is_finite(),
        x.neg().div(d).neg() == x.div(d),
{
    reveal(Num::spec_div);
    crate::num::laws::rounded_numbers_are_numbers(x.units() * Num::one_in_units(), d.units());
}

/// A minor of one and something, less a product with zero.
proof fn lemma_minor_of_one(a: Num, o: Num, b: Num, z: Num)
    requires
        a.is_finite(),
        b.is_finite(),
        alike(o, Num::one()),
        alike(z, Num::zero()),
    ensures
        alike(Transformation::minor(a, b, z, o), a),
{
    lemma_times_one(a, o);
    lemma_times_zero(b, z);
    lemma_plus_zero(a, b.mul(z));
}

/// A motion followed by a rotation about the origin.
proof fn lemma_turned_motion<M: Fn(Elementary) -> Num>(
    t: Transformation,
    m: Motion,
    angle: Num,
    math: &M,
)
    requires
        m.describes(t),
        m.is_finite(),
        evaluate(math, Elementary::Cos(angle)).is_finite(),
        evaluate(math, Elementary::Sin(angle)).is_finite(),
        ({
            let cos = evaluate(math, Elementary::Cos(angle));
            let sin = evaluate(math, Elementary::Sin(angle));
            let to = turned(m.translation, cos, sin);
            &&& to.0.is_finite()
            &&& to.1.is_finite()
            &&& cos.mul(m.cos).add(sin.neg().mul(m.sin)).is_finite()
            &&& sin.mul(m.cos).add(cos.mul(m.sin)).is_finite()
        }),
    ensures
        ({
            let cos = evaluate(math, Elementary::Cos(angle));
            let sin = evaluate(math, Elementary::Sin(angle));
            is_motion(
                t.rotate(angle, math),
                cos.mul(m.cos).add(sin.neg().mul(m.sin)),
                sin.mul(m.cos).add(cos.mul(m.sin)),
                turned(m.translation, cos, sin),
            )
        }),
{
    let cos = evaluate(math, Elementary::Cos(angle));
    let sin = evaluate(math, Elementary::Sin(angle));
    let r = Transformation::from_rotation(angle, math).rows;
    let n = t.rows;
    lemma_one();
    lemma_turned_row(r.0, n, m.translation);
    lemma_turned_row(r.1, n, m.translation);
    lemma_turned_column(r.0, n.0.0, n.1.0, n.2.0, m.cos, m.sin);
    lemma_turned_column(r.1, n.0.0, n.1.0, n.2.0, m.cos, m.sin);
    let x = cos.mul(m.cos);
    let y = sin.neg().mul(m.sin);
    let u = sin.mul(m.cos);
    let w = cos.mul(m.sin);
    crate::num::accuracy::finite_sums_have_finite_terms(x, y);
    crate::num::accuracy::finite_sums_have_finite_terms(u, w);
    lemma_moved_sign(sin, m.sin);
    lemma_moved_sign(cos, m.sin);
    lemma_moved_sign(sin, m.cos);
    assert(sin.mul(m.sin.neg()) == y);
    assert(cos.mul(m.sin.neg()) == w.neg());
    assert(sin.neg().mul(m.cos) == u.neg());
    crate::num::laws::addition_commutes(x, y);
    lemma_negated_sum(u, w);
    crate::num::laws::addition_commutes(u.neg(), w.neg());
    lemma_turned_column(r.0, n.0.1, n.1.1, n.2.1, m.sin.neg(), m.cos);
    lemma_turned_column(r.1, n.0.1, n.1.1, n.2.1, m.sin.neg(), m.cos);
    lemma_dot_third(r.2, n.0.0, n.1.0, n.2.0);
    lemma_dot_third(r.2, n.0.1, n.1.1, n.2.1);
    lemma_dot_third(r.2, n.0.2, n.1.2, n.2.2);
}

/// A row of a rotation and a column that does not move.
proof fn lemma_turned_column(row: Row, x: Num, y: Num, z: Num, a: Num, b: Num)
    requires
        row.0.is_finite(),
        row.1.is_finite(),
        alike(row.2, Num::zero()),
        alike(x, a),
        alike(y, b),
        alike(z, Num::zero()),
        row.0.mul(a).add(row.1.mul(b)).is_finite(),
    ensures
        alike(row.dot(x, y, z), row.0.mul(a).add(row.1.mul(b))),
{
    crate::num::accuracy::finite_sums_have_finite_terms(row.0.mul(a), row.1.mul(b));
    lemma_alike_products(row.0, a, row.0, x);
    lemma_alike_products(row.1, b, row.1, y);
    lemma_alike_sums(row.0.mul(a), row.1.mul(b), row.0.mul(x), row.1.mul(y));
    lemma_times_zero(row.2, z);
    lemma_plus_zero(row.0.mul(x).add(row.1.mul(y)), row.2.mul(z));
}

/// The sign of a product does not depend on which factor has it.
proof fn lemma_moved_sign(x: Num, y: Num)
    requires
        x.is_finite(),
        y.is_finite(),
    ensures
        x.mul(y.neg()) == x.neg().mul(y),
        x.mul(y.neg()) == x.mul(y).neg(),
{
    reveal(Num::spec_mul);
    crate::num::laws::rounded_numbers_are_numbers(x.units() * y.units(), Num::one_in_units());
}

proof fn lemma_negated_sum(x: Num, y: Num)
    requires
        x.is_finite(),
        y.is_finite(),
        x.add(y).is_finite(),
    ensures
        x.neg().add(y.neg()).is_finite(),
        alike(x.neg().add(y.neg()), x.add(y).neg()),
{
    crate::num::accuracy::opposite_numbers_have_opposite_values(x, x.neg());
    crate::num::accuracy::opposite_terms_have_opposite_sums(x, y, x.neg(), y.neg());
    crate::num::accuracy::opposite_numbers_have_opposite_values(
        x.add(y),
        x.neg().add(y.neg()),
    );
    crate::num::laws::order_agrees_with_value(x.neg().add(y.neg()), x.add(y).neg());
    assert(x.add(y).neg().value() == -x.add(y).value());
}

/// A motion followed by a rotation and a translation.
pub proof fn motions_follow_each_other<M: Fn(Elementary) -> Num>(
    t: Transformation,
    m: Motion,
    d: DTransformation,
    math: &M,
)
    requires
        m.describes(t),
        m.is_finite(),
        evaluate(math, Elementary::Cos(d.rotation)).is_finite(),
        evaluate(math, Elementary::Sin(d.rotation)).is_finite(),
        m.followed_by(motion_of(d, math)).is_finite(),
    ensures
        m.followed_by(motion_of(d, math)).describes(t.transform_from_decomposed(d, math)),
{
    let other = motion_of(d, math);
    let to = turned(m.translation, other.cos, other.sin);
    crate::num::accuracy::finite_sums_have_finite_terms(to.0, d.translation.0);
    crate::num::accuracy::finite_sums_have_finite_terms(to.1, d.translation.1);
    lemma_turned_motion(t, m, d.rotation, math);
    let both = m.followed_by(other);
    translations_are_added(
        t.rotate(d.rotation, math),
        both.cos,
        both.sin,
        to,
        d.translation,
    );
}

/// The motion that a rotation and a translation make up.
pub open spec fn motion_of<M: Fn(Elementary) -> Num>(d: DTransformation, math: &M) -> Motion {
    Motion {
        cos: evaluate(math, Elementary::Cos(d.rotation)),
        sin: evaluate(math, Elementary::Sin(d.rotation)),
        translation: d.translation,
    }
}

} // verus!
