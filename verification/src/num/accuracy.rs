//! How far the results of the arithmetic are from the exact ones, and how signs carry over.
use vstd::arithmetic::div_mod::*;
use vstd::arithmetic::power2::*;
use vstd::prelude::*;

use crate::num::rounding::INFINITE;
use crate::num::Num;

verus! {

/// The distance from a finite number to the next one away from zero, in units of 2^-1074.
pub open spec fn step(x: Num) -> nat {
    pow2(x.scale())
}

/// How far two values are apart.
pub open spec fn gap(a: int, b: int) -> nat {
    if a <= b {
        (b - a) as nat
    } else {
        (a - b) as nat
    }
}

/// The absolute value.
pub open spec fn size(v: int) -> nat {
    gap(v, 0)
}

/// What a quotient is rounded to differs from it by at most half a step.
pub proof fn rounding_errs_by_half_a_step(num: nat, den: nat)
    requires
        den > 0,
        crate::num::rounding::rounded_magnitude(num, den) < INFINITE,
    ensures
        ({
            let r = Num { bits: crate::num::rounding::rounded_magnitude(num, den) };
            2 * crate::num::laws::apart(r.units() * den, num) <= step(r) * den
        }),
{
    let k = crate::num::rounding::scale_of(num, den);
    let r = Num { bits: crate::num::rounding::rounded_magnitude(num, den) };
    let p = pow2(k);
    let unit = den * p;
    let q = crate::num::rounding::nearest_even(num, unit);
    lemma_pow2_pos(k);
    assert(unit > 0) by (nonlinear_arith)
        requires
            den > 0,
            p > 0,
            unit == den * p,
    ;
    crate::num::laws::lemma_rounded_units(num, den);
    lemma_fundamental_div_mod(num as int, unit as int);
    lemma_mod_bound(num as int, unit as int);
    let a = num / unit;
    assert(num == a * unit + num % unit) by (nonlinear_arith)
        requires
            num == unit * a + num % unit,
    ;
    assert((a + 1) * unit == a * unit + unit) by (nonlinear_arith);
    assert(2 * crate::num::laws::apart(q * unit, num) <= unit);
    if r.scale() > k {
        lemma_pow2_strictly_increases(k, r.scale());
    }
    assert(unit <= step(r) * den) by (nonlinear_arith)
        requires
            unit == den * p,
            p <= step(r),
    ;
}

/// A sum differs from the exact one by at most half a step.
pub proof fn sums_err_by_half_a_step(x: Num, y: Num)
    requires
        x.is_finite(),
        y.is_finite(),
        x.add(y).is_finite(),
    ensures
        2 * gap(x.add(y).value(), x.value() + y.value()) <= step(x.add(y)),
{
    reveal(Num::spec_add);
    let sum = x.value() + y.value();
    let r = x.add(y);
    if sum == 0 {
        crate::num::lemma_zero_significand(r);
        lemma_pow2_pos(r.scale());
    } else {
        let num = (if sum < 0 {
            -sum
        } else {
            sum
        }) as nat;
        crate::num::laws::rounded_numbers_are_numbers(num, 1);
        let m = Num { bits: crate::num::rounding::rounded_magnitude(num, 1) };
        assert(r.magnitude() == m.magnitude());
        rounding_errs_by_half_a_step(num, 1);
        assert(m.units() * 1 == m.units());
        assert(step(m) * 1 == step(m));
        assert(m.units() == r.units());
    }
}

/// A product differs from the exact one by at most half a step.
pub proof fn products_err_by_half_a_step(x: Num, y: Num)
    requires
        x.is_finite(),
        y.is_finite(),
        x.mul(y).is_finite(),
    ensures
        2 * gap(x.mul(y).value() * Num::one_in_units(), x.value() * y.value()) <= step(x.mul(y))
            * Num::one_in_units(),
{
    reveal(Num::spec_mul);
    let one = Num::one_in_units();
    let num = x.units() * y.units();
    let r = x.mul(y);
    lemma_pow2_pos(1074);
    crate::num::laws::rounded_numbers_are_numbers(num, one);
    let m = Num { bits: crate::num::rounding::rounded_magnitude(num, one) };
    assert(r.magnitude() == m.magnitude());
    assert(r.units() == m.units());
    rounding_errs_by_half_a_step(num, one);
    let (a, b) = (x.units() as int, y.units() as int);
    assert((-a) * b == -(a * b) && a * (-b) == -(a * b) && (-a) * (-b) == a * b)
        by (nonlinear_arith);
    assert((-(r.units() as int)) * one == -(r.units() * one)) by (nonlinear_arith);
}

/// The two are opposite numbers: equally far from zero on different sides, or both zero.
pub open spec fn opposite(x: Num, y: Num) -> bool {
    &&& !x.is_nan()
    &&& !y.is_nan()
    &&& x.magnitude() == y.magnitude()
    &&& x.magnitude() == 0 || x.is_negative() != y.is_negative()
}

/// Opposite finite numbers have opposite values.
pub proof fn opposite_numbers_have_opposite_values(x: Num, y: Num)
    requires
        opposite(x, y),
    ensures
        opposite(y, x),
        x.value() == -y.value(),
        x.is_finite() == y.is_finite(),
        opposite(x, x.neg()),
{
    if x.magnitude() == 0 {
        crate::num::lemma_zero_significand(x);
        crate::num::lemma_zero_significand(y);
    }
    assert(x.units() == y.units());
}

/// The two differences of two finite numbers are opposite.
pub proof fn differences_are_opposite(x: Num, y: Num)
    requires
        x.is_finite(),
        y.is_finite(),
    ensures
        opposite(x.sub(y), y.sub(x)),
{
    reveal(Num::spec_add);
    assert(x.neg().value() == -x.value());
    assert(y.neg().value() == -y.value());
    let sum = x.value() - y.value();
    crate::num::laws::rounded_numbers_are_numbers(
        (if sum < 0 {
            -sum
        } else {
            sum
        }) as nat,
        1,
    );
}

/// Sums of opposite finite numbers are opposite.
pub proof fn opposite_terms_have_opposite_sums(x: Num, y: Num, a: Num, b: Num)
    requires
        opposite(x, a),
        opposite(y, b),
        x.is_finite(),
        y.is_finite(),
    ensures
        opposite(x.add(y), a.add(b)),
{
    reveal(Num::spec_add);
    opposite_numbers_have_opposite_values(x, a);
    opposite_numbers_have_opposite_values(y, b);
    let sum = x.value() + y.value();
    crate::num::laws::rounded_numbers_are_numbers(
        (if sum < 0 {
            -sum
        } else {
            sum
        }) as nat,
        1,
    );
}

/// Opposite numbers have opposite products with a third one, opposite quotients, and equal
/// squares.
pub proof fn opposite_factors_have_opposite_products(x: Num, y: Num, z: Num)
    requires
        opposite(x, y),
    ensures
        !x.mul(z).is_nan() ==> opposite(x.mul(z), y.mul(z)),
        !z.mul(x).is_nan() ==> opposite(z.mul(x), z.mul(y)),
        !x.div(z).is_nan() ==> opposite(x.div(z), y.div(z)),
        x.mul(x) == y.mul(y),
{
    reveal(Num::spec_mul);
    reveal(Num::spec_div);
    crate::num::laws::multiplication_commutes(x, z);
    crate::num::laws::multiplication_commutes(y, z);
    assert(x.units() == y.units());
    crate::num::laws::rounded_numbers_are_numbers(x.units() * z.units(), Num::one_in_units());
    crate::num::laws::rounded_numbers_are_numbers(x.units() * Num::one_in_units(), z.units());
    crate::num::laws::rounded_numbers_are_numbers(x.units() * x.units(), Num::one_in_units());
    if x.magnitude() == 0 {
        crate::num::laws::zeros_stay_zeros(x, z);
        crate::num::laws::zeros_stay_zeros(y, z);
    }
}

/// The sum of the numbers, one after the other, from zero on.
pub open spec fn running_sum(terms: Seq<Num>) -> Num
    decreases terms.len(),
{
    if terms.len() == 0 {
        Num::zero()
    } else {
        running_sum(terms.drop_last()).add(terms.last())
    }
}

/// The exact sum of the numbers.
pub open spec fn exact_sum(terms: Seq<Num>) -> int
    decreases terms.len(),
{
    if terms.len() == 0 {
        0
    } else {
        exact_sum(terms.drop_last()) + terms.last().value()
    }
}

/// The steps of all the sums on the way.
pub open spec fn steps_on_the_way(terms: Seq<Num>) -> nat
    decreases terms.len(),
{
    if terms.len() == 0 {
        0
    } else {
        steps_on_the_way(terms.drop_last()) + step(running_sum(terms))
    }
}

/// A running sum differs from the exact one by at most half a step for each sum on the way.
pub proof fn running_sums_err_by_half_steps(terms: Seq<Num>)
    requires
        running_sum(terms).is_finite(),
    ensures
        2 * gap(running_sum(terms).value(), exact_sum(terms)) <= steps_on_the_way(terms),
        forall|i: int| 0 <= i < terms.len() ==> (#[trigger] terms[i]).is_finite(),
    decreases terms.len(),
{
    if terms.len() == 0 {
        crate::num::lemma_zero_significand(Num::zero());
    } else {
        let before = running_sum(terms.drop_last());
        finite_sums_have_finite_terms(before, terms.last());
        running_sums_err_by_half_steps(terms.drop_last());
        sums_err_by_half_a_step(before, terms.last());
        assert forall|i: int| 0 <= i < terms.len() implies (#[trigger] terms[i]).is_finite() by {
            if i < terms.len() - 1 {
                assert(terms[i] == terms.drop_last()[i]);
            }
        }
    }
}

/// The same sequence from its last element but one to its first, and then its last.
pub open spec fn backwards<A>(s: Seq<A>) -> Seq<A> {
    Seq::new(
        s.len(),
        |i: int|
            if i == s.len() - 1 {
                s[i]
            } else {
                s[s.len() - 2 - i]
            },
    )
}

proof fn lemma_exact_sum_of_two(a: Seq<Num>, b: Seq<Num>)
    ensures
        exact_sum(a + b) == exact_sum(a) + exact_sum(b),
    decreases b.len(),
{
    if b.len() == 0 {
        assert(a + b =~= a);
    } else {
        assert((a + b).drop_last() =~= a + b.drop_last());
        lemma_exact_sum_of_two(a, b.drop_last());
    }
}

proof fn lemma_exact_sum_reversed(s: Seq<Num>)
    ensures
        exact_sum(s.reverse()) == exact_sum(s),
    decreases s.len(),
{
    if s.len() > 0 {
        let first = seq![s.last()];
        assert(s.reverse() =~= first + s.drop_last().reverse());
        lemma_exact_sum_of_two(first, s.drop_last().reverse());
        lemma_exact_sum_reversed(s.drop_last());
        assert(first.drop_last() =~= Seq::<Num>::empty());
        assert(exact_sum(first) == s.last().value()) by {
            reveal_with_fuel(exact_sum, 2);
        }
    } else {
        assert(s.reverse() =~= s);
    }
}

proof fn lemma_exact_sum_of_opposites(s: Seq<Num>, t: Seq<Num>)
    requires
        s.len() == t.len(),
        forall|i: int| 0 <= i < s.len() ==> opposite(#[trigger] s[i], t[i]),
    ensures
        exact_sum(s) == -exact_sum(t),
    decreases s.len(),
{
    if s.len() > 0 {
        assert forall|i: int| 0 <= i < s.len() - 1 implies opposite(
            #[trigger] s.drop_last()[i],
            t.drop_last()[i],
        ) by {
            assert(opposite(s[i], t[i]));
        }
        lemma_exact_sum_of_opposites(s.drop_last(), t.drop_last());
        opposite_numbers_have_opposite_values(s.last(), t.last());
    }
}

/// Numbers and their opposites, taken in opposite order, have opposite sums.
pub proof fn opposite_numbers_have_opposite_sums(s: Seq<Num>, t: Seq<Num>)
    requires
        s.len() == t.len(),
        forall|i: int| 0 <= i < s.len() ==> opposite(#[trigger] backwards(s)[i], t[i]),
    ensures
        exact_sum(s) == -exact_sum(t),
{
    lemma_exact_sum_of_opposites(backwards(s), t);
    if s.len() > 0 {
        assert(backwards(s) =~= s.drop_last().reverse().push(s.last()));
        assert(backwards(s).drop_last() =~= s.drop_last().reverse());
        lemma_exact_sum_reversed(s.drop_last());
    }
}

/// A quotient differs from the exact one by at most half a step.
pub proof fn quotients_err_by_half_a_step(x: Num, y: Num)
    requires
        x.is_finite(),
        y.is_finite(),
        y.magnitude() != 0,
        x.div(y).is_finite(),
    ensures
        2 * gap(x.div(y).value() * y.value(), x.value() * Num::one_in_units()) <= step(x.div(y))
            * y.units(),
{
    reveal(Num::spec_div);
    let one = Num::one_in_units();
    let num = x.units() * one;
    let den = y.units();
    let r = x.div(y);
    let zero = Num { bits: 0 };
    crate::num::laws::order_agrees_with_value(zero, Num { bits: y.magnitude() });
    crate::num::lemma_zero_significand(zero);
    assert(den > 0);
    crate::num::laws::rounded_numbers_are_numbers(num, den);
    let m = Num { bits: crate::num::rounding::rounded_magnitude(num, den) };
    assert(r.magnitude() == m.magnitude());
    assert(r.units() == m.units());
    rounding_errs_by_half_a_step(num, den);
    let (a, b, q) = (x.units() as int, den as int, r.units() as int);
    assert((-a) * one == -(a * one)) by (nonlinear_arith);
    assert((-q) * b == -(q * b) && q * (-b) == -(q * b) && (-q) * (-b) == q * b)
        by (nonlinear_arith);
}

/// If a sum is finite, so are its terms.
pub proof fn finite_sums_have_finite_terms(x: Num, y: Num)
    requires
        x.add(y).is_finite(),
    ensures
        x.is_finite(),
        y.is_finite(),
{
    reveal(Num::spec_add);
}

proof fn lemma_four()
    ensures
        Num::four().is_finite(),
        Num::four().magnitude() != 0,
        Num::four().units() == 4 * Num::one_in_units(),
        Num::one_in_units() > 0,
{
    let four = Num::four();
    lemma_pow2_pos(1074);
    lemma2_to64_rest();
    assert(four.magnitude() == 0x4010_0000_0000_0000u64);
    assert(four.scale() == 1024);
    assert(four.significand() == pow2(52));
    lemma_pow2_adds(52, 1024);
    lemma_pow2_unfold(1076);
    lemma_pow2_unfold(1075);
}

/// What is multiplied by four and divided by four stays as it is, unless the product is infinite.
pub proof fn quarters_undo_fourfolds(x: Num)
    requires
        x.is_finite(),
        Num::four().mul(x).is_finite(),
    ensures
        Num::four().mul(x).div(Num::four()) == x,
        Num::four().mul(x).is_negative() == x.is_negative(),
        Num::four().mul(x).units() == 4 * x.units(),
{
    reveal(Num::spec_mul);
    let four = Num::four();
    let one = Num::one_in_units();
    let u = x.units();
    let y = four.mul(x);
    lemma_four();
    let num = four.units() * u;
    assert(num == (4 * u) * one) by (nonlinear_arith)
        requires
            num == (4 * one) * u,
    ;
    crate::num::laws::rounded_numbers_are_numbers(num, one);
    let r = Num { bits: crate::num::rounding::rounded_magnitude(num, one) };
    assert(y.magnitude() == r.magnitude());
    crate::num::laws::lemma_rounded_units(num, one);
    crate::num::laws::lemma_scale_bounds(num, one);
    crate::num::laws::lemma_significand_bounds(x);
    let k = crate::num::rounding::scale_of(num, one);
    let s = x.scale();
    let sig = x.significand();
    lemma_pow2_pos(k);
    lemma_pow2_adds(53, s + 2);
    lemma_pow2_adds(s, 2);
    lemma2_to64();
    assert(4 * u == sig * pow2(s + 2)) by (nonlinear_arith)
        requires
            u == sig * pow2(s),
            pow2(s + 2) == pow2(s) * 4,
    ;
    lemma_pow2_pos(s + 2);
    if k > s + 2 {
        if k > s + 3 {
            lemma_pow2_strictly_increases(53 + (s + 2), 52 + k);
        }
        assert(sig * pow2(s + 2) < pow2(53) * pow2(s + 2)) by (nonlinear_arith)
            requires
                sig < pow2(53),
                pow2(s + 2) > 0,
        ;
        assert(4 * u < pow2(52 + k));
        assert((4 * u) * one < one * pow2(52 + k)) by (nonlinear_arith)
            requires
                4 * u < pow2(52 + k),
                one > 0,
        ;
    }
    let unit = one * pow2(k);
    let rest = pow2((s + 2 - k) as nat);
    lemma_pow2_adds(k, (s + 2 - k) as nat);
    assert(unit > 0) by (nonlinear_arith)
        requires
            one > 0,
            pow2(k) > 0,
            unit == one * pow2(k),
    ;
    assert(num == (sig * rest) * unit) by (nonlinear_arith)
        requires
            num == (4 * u) * one,
            4 * u == sig * pow2(s + 2),
            pow2(s + 2) == pow2(k) * rest,
            unit == one * pow2(k),
    ;
    lemma_fundamental_div_mod_converse(num as int, unit as int, (sig * rest) as int, 0);
    assert(r.units() * one == (4 * u) * one);
    assert(r.units() == 4 * u) by (nonlinear_arith)
        requires
            r.units() * one == (4 * u) * one,
            one > 0,
    ;
    assert(y.units() == r.units());
    assert(y.div(four) == x) by {
        reveal(Num::spec_div);
        crate::num::laws::exact_results_are_kept(x, four.units());
        assert((4 * u) * one == u * (4 * one)) by (nonlinear_arith);
    }
}

} // verus!
