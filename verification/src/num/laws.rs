//! Laws of the numbers and their arithmetic.
use vstd::arithmetic::div_mod::*;
use vstd::arithmetic::power2::*;
use vstd::prelude::*;

use crate::num::rounding::{BINADE, INFINITE};
use crate::num::Num;

verus! {

pub proof fn lemma_significand_bounds(x: Num)
    ensures
        x.significand() < 2 * BINADE,
        x.scale() > 0 ==> x.significand() >= BINADE,
        x.magnitude() == x.scale() * BINADE + x.significand(),
        pow2(52) == BINADE,
        pow2(53) == 2 * BINADE,
{
    lemma2_to64_rest();
    let m = x.magnitude() as int;
    let field = m / (BINADE as int);
    lemma_fundamental_div_mod(m, BINADE as int);
}

proof fn lemma_units_increase(x: Num, y: Num)
    requires
        x.magnitude() < y.magnitude(),
    ensures
        x.units() < y.units(),
{
    lemma_significand_bounds(x);
    lemma_significand_bounds(y);
    let (s, t) = (x.scale(), y.scale());
    lemma_pow2_pos(s);
    lemma_pow2_pos(t);
    if s == t {
        assert(x.significand() * pow2(s) < y.significand() * pow2(s)) by (nonlinear_arith)
            requires
                x.significand() < y.significand(),
                pow2(s) > 0,
        ;
    } else {
        assert(s < t);
        lemma_pow2_adds(1, (t - 1) as nat);
        lemma2_to64();
        if s < t - 1 {
            lemma_pow2_strictly_increases(s, (t - 1) as nat);
        }
        let p = pow2((t - 1) as nat);
        assert(x.significand() * pow2(s) < y.significand() * (2 * p)) by (nonlinear_arith)
            requires
                x.significand() < 2 * BINADE,
                y.significand() >= BINADE,
                0 < pow2(s) <= p,
        ;
    }
}

/// Finite numbers compare as their values do.
pub proof fn order_agrees_with_value(x: Num, y: Num)
    requires
        x.is_finite(),
        y.is_finite(),
    ensures
        x.lt(y) <==> x.value() < y.value(),
        x.le(y) <==> x.value() <= y.value(),
        x.num_eq(y) <==> x.value() == y.value(),
{
    let zero = Num { bits: 0 };
    lemma_significand_bounds(zero);
    assert(zero.units() == 0) by (nonlinear_arith)
        requires
            zero.units() == zero.significand() * pow2(zero.scale()),
            zero.significand() == 0,
    ;
    if x.magnitude() > 0 {
        lemma_units_increase(zero, x);
    } else {
        crate::num::lemma_zero_significand(x);
    }
    if y.magnitude() > 0 {
        lemma_units_increase(zero, y);
    } else {
        crate::num::lemma_zero_significand(y);
    }
    if x.magnitude() < y.magnitude() {
        lemma_units_increase(x, y);
    }
    if y.magnitude() < x.magnitude() {
        lemma_units_increase(y, x);
    }
    assert(x.magnitude() == y.magnitude() ==> x.units() == y.units());
}

/// How far two numbers of units are apart.
pub open spec fn apart(a: nat, b: nat) -> nat {
    if a <= b {
        (b - a) as nat
    } else {
        (a - b) as nat
    }
}

proof fn lemma_nearest_multiple(num: nat, unit: nat, j: nat)
    requires
        unit > 0,
    ensures
        apart(crate::num::rounding::nearest_even(num, unit) * unit, num) <= apart(j * unit, num),
{
    let a = num / unit;
    let b = num % unit;
    lemma_fundamental_div_mod(num as int, unit as int);
    lemma_mod_bound(num as int, unit as int);
    assert(num == a * unit + b) by (nonlinear_arith)
        requires
            num == unit * a + b,
    ;
    assert((a + 1) * unit == a * unit + unit) by (nonlinear_arith);
    if j <= a {
        assert(j * unit <= a * unit) by (nonlinear_arith)
            requires
                j <= a,
        ;
    } else {
        assert(j * unit >= (a + 1) * unit) by (nonlinear_arith)
            requires
                j >= a + 1,
        ;
    }
}

pub proof fn lemma_scale_bounds(num: nat, den: nat)
    requires
        den > 0,
    ensures
        num < den * pow2(53 + crate::num::rounding::scale_of(num, den)),
        crate::num::rounding::scale_of(num, den) > 0 ==> num >= den * pow2(
            52 + crate::num::rounding::scale_of(num, den),
        ),
    decreases crate::num::rounding::scale_of(num, den),
{
    if num >= den * pow2(53) {
        lemma_scale_bounds(num, 2 * den);
        let k = crate::num::rounding::scale_of(num, 2 * den);
        let p = pow2(53 + k);
        let h = pow2(52 + k);
        lemma_pow2_unfold(54 + k);
        lemma_pow2_unfold(53 + k);
        assert((2 * den) * p == den * (2 * p)) by (nonlinear_arith);
        assert((2 * den) * h == den * (2 * h)) by (nonlinear_arith);
        assert(53 + (1 + k) == 54 + k);
        assert(52 + (1 + k) == 53 + k);
    }
}

/// The units of what a quotient is rounded to: the nearest multiple of its scale.
pub proof fn lemma_rounded_units(num: nat, den: nat)
    requires
        den > 0,
        crate::num::rounding::rounded_magnitude(num, den) < INFINITE,
    ensures
        ({
            let k = crate::num::rounding::scale_of(num, den);
            let r = Num { bits: crate::num::rounding::rounded_magnitude(num, den) };
            &&& r.units() * den == crate::num::rounding::nearest_even(num, den * pow2(k)) * (den
                * pow2(k))
            &&& r.scale() == k || r.scale() == k + 1
        }),
{
    let k = crate::num::rounding::scale_of(num, den);
    let p = pow2(k);
    let unit = den * p;
    let q = crate::num::rounding::nearest_even(num, unit);
    let r = Num { bits: crate::num::rounding::rounded_magnitude(num, den) };
    lemma2_to64_rest();
    lemma_pow2_pos(k);
    lemma_scale_bounds(num, den);
    lemma_pow2_adds(53, k);
    lemma_pow2_adds(52, k);
    assert(unit > 0) by (nonlinear_arith)
        requires
            den > 0,
            p > 0,
            unit == den * p,
    ;
    let a = num / unit;
    lemma_fundamental_div_mod(num as int, unit as int);
    lemma_mod_bound(num as int, unit as int);
    assert(a < 2 * BINADE) by (nonlinear_arith)
        requires
            num < den * ((2 * BINADE) * p),
            num >= unit * a,
            unit == den * p,
            unit > 0,
    ;
    if k > 0 {
        assert(a >= BINADE) by (nonlinear_arith)
            requires
                num >= den * (BINADE * p),
                num < unit * a + unit,
                unit == den * p,
                unit > 0,
        ;
    }
    assert(r.magnitude() == k * BINADE + q);
    lemma_significand_bounds(r);
    if q == 2 * BINADE {
        assert(r.magnitude() == (k + 2) * BINADE);
        assert(r.magnitude() / BINADE == k + 2);
        assert(r.scale() == k + 1);
        assert(r.significand() == BINADE);
        lemma_pow2_unfold(k + 1);
        assert((BINADE * (2 * p)) * den == (2 * BINADE) * (den * p)) by (nonlinear_arith);
    } else {
        if k > 0 {
            assert(r.magnitude() / BINADE == k + 1);
        }
        assert(r.scale() == k);
        assert(r.significand() == q);
        assert((q * p) * den == q * (den * p)) by (nonlinear_arith);
    }
}

/// No finite number is nearer to a quotient than what it is rounded to, unless that is
/// infinite.
pub proof fn rounding_is_to_nearest(num: nat, den: nat, x: Num)
    requires
        den > 0,
        x.is_finite(),
        crate::num::rounding::rounded_magnitude(num, den) < INFINITE,
    ensures
        apart(
            (Num { bits: crate::num::rounding::rounded_magnitude(num, den) }).units() * den,
            num,
        ) <= apart(x.units() * den, num),
{
    let k = crate::num::rounding::scale_of(num, den);
    let p = pow2(k);
    let unit = den * p;
    lemma_pow2_pos(k);
    lemma_rounded_units(num, den);
    lemma_significand_bounds(x);
    assert(unit > 0) by (nonlinear_arith)
        requires
            den > 0,
            p > 0,
            unit == den * p,
    ;
    let s = x.scale();
    let sig = x.significand();
    if s >= k {
        let t = pow2((s - k) as nat);
        lemma_pow2_adds(k, (s - k) as nat);
        assert((sig * (p * t)) * den == (sig * t) * (den * p)) by (nonlinear_arith);
        lemma_nearest_multiple(num, unit, sig * t);
    } else {
        lemma_scale_bounds(num, den);
        lemma_pow2_adds(52, k);
        lemma_pow2_unfold(k);
        let h = pow2((k - 1) as nat);
        lemma_pow2_pos(s);
        if s < k - 1 {
            lemma_pow2_strictly_increases(s, (k - 1) as nat);
        }
        let b = BINADE as nat;
        assert((sig * pow2(s)) * den <= b * unit) by (nonlinear_arith)
            requires
                sig < 2 * b,
                0 < pow2(s) <= h,
                p == 2 * h,
                unit == den * p,
                den > 0,
        ;
        assert(b * unit == den * (b * p)) by (nonlinear_arith)
            requires
                unit == den * p,
        ;
        lemma_nearest_multiple(num, unit, b);
    }
}

/// A quotient that is the absolute value of a finite number is rounded to that number.
pub proof fn exact_results_are_kept(x: Num, den: nat)
    requires
        x.is_finite(),
        den > 0,
    ensures
        crate::num::rounding::rounded_magnitude(x.units() * den, den) == x.magnitude(),
{
    lemma_significand_bounds(x);
    let k = x.scale();
    let sig = x.significand();
    let p = pow2(k);
    let num = x.units() * den;
    lemma_pow2_pos(k);
    lemma_pow2_adds(53, k);
    lemma_pow2_adds(52, k);
    assert(num == sig * (den * p)) by (nonlinear_arith)
        requires
            num == (sig * p) * den,
    ;
    assert(sig * (den * p) < den * ((2 * BINADE) * p)) by (nonlinear_arith)
        requires
            sig < 2 * BINADE,
            den > 0,
            p > 0,
    ;
    if k > 0 {
        assert(sig * (den * p) >= den * (BINADE * p)) by (nonlinear_arith)
            requires
                sig >= BINADE,
                den > 0,
                p > 0,
        ;
    }
    crate::num::rounding::lemma_scale_of(num, den, k);
    let unit = den * p;
    assert(unit > 0) by (nonlinear_arith)
        requires
            den > 0,
            p > 0,
            unit == den * p,
    ;
    lemma_fundamental_div_mod_converse(num as int, unit as int, sig as int, 0);
}

proof fn lemma_value_of_sum(x: Num, y: Num, r: Num)
    requires
        x.is_finite(),
        y.is_finite(),
        r.is_finite(),
        r.value() == x.value() + y.value(),
    ensures
        x.add(y).num_eq(r),
        r.value() != 0 ==> x.add(y) == r,
{
    reveal(Num::spec_add);
    exact_results_are_kept(r, 1);
    assert(r.units() * 1 == r.units());
    if r.value() == 0 {
        order_agrees_with_value(r, Num { bits: 0 });
        crate::num::lemma_zero_significand(Num { bits: 0 });
    }
}

/// A sum that is itself a number is exact.
pub proof fn exact_sums_are_kept(x: Num, y: Num, r: Num)
    requires
        x.is_finite(),
        y.is_finite(),
        r.is_finite(),
        r.value() == x.value() + y.value(),
    ensures
        x.add(y).num_eq(r),
{
    lemma_value_of_sum(x, y, r);
}

/// Addition is commutative.
pub proof fn addition_commutes(x: Num, y: Num)
    ensures
        x.add(y) == y.add(x),
{
    reveal(Num::spec_add);
}

/// Multiplication is commutative.
pub proof fn multiplication_commutes(x: Num, y: Num)
    ensures
        x.mul(y) == y.mul(x),
{
    reveal(Num::spec_mul);
    assert(x.units() * y.units() == y.units() * x.units()) by (nonlinear_arith);
}

/// The difference of two equal finite numbers is zero.
pub proof fn equal_numbers_differ_by_zero(x: Num, y: Num)
    requires
        x.is_finite(),
        x.num_eq(y),
    ensures
        x.sub(y).num_eq(Num::zero()),
{
    reveal(Num::spec_add);
    order_agrees_with_value(x, y);
    assert(y.neg().value() == -y.value());
}

/// Multiplication by one changes nothing.
pub proof fn one_is_neutral(x: Num)
    requires
        !x.is_nan(),
    ensures
        x.mul(Num::one()) == x,
{
    reveal(Num::spec_mul);
    if x.is_finite() {
        let one = Num::one();
        assert(one.units() == Num::one_in_units()) by {
            assert(one.magnitude() == 0x3ff0_0000_0000_0000u64);
            assert(one.scale() == 1022);
            assert(one.significand() == BINADE);
            lemma2_to64_rest();
            lemma_pow2_adds(52, 1022);
        }
        lemma_pow2_pos(1074);
        exact_results_are_kept(x, Num::one_in_units());
    }
}

/// Negation is undone by negation.
pub proof fn negation_is_an_involution(x: Num)
    ensures
        x.neg().neg() == x,
{
}

/// Of two numbers that are not NaN, both lie between their minimum and their maximum.
pub proof fn minimum_and_maximum_enclose(x: Num, y: Num)
    requires
        !x.is_nan(),
        !y.is_nan(),
    ensures
        x.min(y).le(x),
        x.min(y).le(y),
        x.le(x.max(y)),
        y.le(x.max(y)),
        x.min(y) == x || x.min(y) == y,
        x.max(y) == x || x.max(y) == y,
{
}

/// Halving a number is exact, unless it is an odd multiple of the least positive number.
pub proof fn halving_is_exact(x: Num)
    requires
        x.is_finite(),
        x.units() % 2 == 0,
    ensures
        x.div(Num::two()).is_finite(),
        2 * x.div(Num::two()).value() == x.value(),
{
    reveal(Num::spec_div);
    lemma_significand_bounds(x);
    let two = Num::two();
    let one = Num::one_in_units();
    assert(two.units() == 2 * one) by {
        assert(two.magnitude() == 0x4000_0000_0000_0000u64);
        assert(two.scale() == 1023);
        assert(two.significand() == BINADE);
        lemma2_to64_rest();
        lemma_pow2_adds(52, 1023);
        lemma_pow2_unfold(1075);
    }
    lemma_pow2_pos(1074);
    let half = if x.scale() > 0 {
        Num { bits: (x.magnitude() - BINADE) as u64 }
    } else {
        Num { bits: (x.magnitude() / 2) as u64 }
    };
    assert(half.is_finite());
    assert(2 * half.units() == x.units()) by {
        lemma_significand_bounds(half);
        if x.scale() > 0 {
            assert(half.magnitude() == (x.scale() - 1) * BINADE + x.significand());
            assert(half.magnitude() / BINADE == x.scale());
            assert(half.scale() == x.scale() - 1);
            assert(half.significand() == x.significand());
            lemma_pow2_unfold(x.scale());
            let sig = x.significand();
            let p = pow2((x.scale() - 1) as nat);
            assert(2 * (sig * p) == sig * (2 * p)) by (nonlinear_arith);
        } else {
            lemma2_to64();
            assert(pow2(0) == 1);
            assert(x.significand() * 1 == x.significand());
            assert(half.scale() == 0);
            assert(half.significand() * 1 == half.significand());
        }
    }
    exact_results_are_kept(half, 2 * one);
    let units = half.units();
    assert((2 * units) * one == units * (2 * one)) by (nonlinear_arith);
    let r = x.div(two);
    assert(r.magnitude() == half.magnitude());
    assert(r.units() == half.units());
    assert(r.is_negative() == x.is_negative());
}

/// What is left of a number when half of it is taken off is the other half, unless the number
/// is an odd multiple of the least positive one.
pub proof fn the_other_half_is_equal(x: Num)
    requires
        x.is_finite(),
        x.units() % 2 == 0,
    ensures
        x.sub(x.div(Num::two())).num_eq(x.div(Num::two())),
{
    halving_is_exact(x);
    let half = x.div(Num::two());
    assert(half.neg().value() == -half.value());
    exact_sums_are_kept(x, half.neg(), half);
}

/// What a quotient is rounded to is a number or infinite, but not NaN.
pub proof fn rounded_numbers_are_numbers(num: nat, den: nat)
    ensures
        crate::num::rounding::rounded_magnitude(num, den) <= INFINITE,
        forall|negative: bool| !(#[trigger] Num::rounded(negative, num, den)).is_nan(),
        forall|negative: bool|
            (#[trigger] Num::rounded(negative, num, den)).is_negative() == negative,
{
}

/// The number is one of the two zeros.
pub open spec fn is_zero(x: Num) -> bool {
    x.magnitude() == 0
}

/// Sums, products and quotients of zeros are zeros, as far as they are numbers.
pub proof fn zeros_stay_zeros(x: Num, y: Num)
    requires
        is_zero(x),
    ensures
        x.num_eq(Num::zero()),
        is_zero(y) ==> is_zero(x.add(y)),
        y.is_finite() ==> is_zero(x.mul(y)),
        !y.is_nan() && !is_zero(y) ==> is_zero(x.div(y)),
{
    reveal(Num::spec_add);
    reveal(Num::spec_mul);
    reveal(Num::spec_div);
    crate::num::lemma_zero_significand(x);
    let zero = Num { bits: 0 };
    crate::num::lemma_zero_significand(zero);
    lemma_pow2_pos(1074);
    exact_results_are_kept(zero, Num::one_in_units());
    assert(zero.units() * Num::one_in_units() == 0);
    assert(x.units() * y.units() == 0);
    assert(x.units() * Num::one_in_units() == 0);
    if is_zero(y) {
        crate::num::lemma_zero_significand(y);
    } else if y.is_finite() {
        lemma_units_increase(zero, y);
        exact_results_are_kept(zero, y.units());
        assert(zero.units() * y.units() == 0);
    }
}

/// A finite number less itself is zero, and a zero added to it leaves it as it is.
pub proof fn differences_and_zeros(x: Num, z: Num)
    requires
        x.is_finite(),
        is_zero(z),
    ensures
        is_zero(x.sub(x)),
        is_zero(x.sub(x.add(z))),
        x.add(z).num_eq(x),
        x.add(z).is_finite(),
{
    crate::num::lemma_zero_significand(z);
    assert(x.neg().value() == -x.value());
    assert(is_zero(x.sub(x))) by {
        reveal(Num::spec_add);
    }
    exact_sums_are_kept(x, z, x);
    let y = x.add(z);
    assert(y.is_finite() && y.magnitude() == x.magnitude());
    order_agrees_with_value(x, y);
    assert(y.neg().value() == -y.value());
    assert(is_zero(x.sub(y))) by {
        reveal(Num::spec_add);
    }
}

/// Nothing remains of zero.
pub proof fn remainders_of_zero(x: Num, y: Num)
    requires
        is_zero(x),
        y.is_finite(),
        !is_zero(y),
    ensures
        is_zero(x.rem(y)),
{
    reveal(Num::spec_rem);
    crate::num::lemma_zero_significand(x);
    let zero = Num { bits: 0 };
    crate::num::lemma_zero_significand(zero);
    lemma_units_increase(zero, y);
    lemma_small_mod(0, y.units());
    exact_results_are_kept(zero, 1);
}

/// The sum of a number that is not negative and a positive one is not negative.
pub proof fn sums_of_positives_are_positive(x: Num, y: Num)
    requires
        x.is_finite(),
        x.ge(Num::zero()),
        y.is_finite(),
        y.gt(Num::zero()),
    ensures
        x.add(y).ge(Num::zero()),
        forall|z: Num| is_zero(z) ==> #[trigger] z.le(x.add(y)),
{
    reveal(Num::spec_add);
    let zero = Num::zero();
    crate::num::lemma_zero_significand(zero);
    order_agrees_with_value(zero, x);
    order_agrees_with_value(zero, y);
    let sum = x.value() + y.value();
    rounded_numbers_are_numbers(sum as nat, 1);
}

/// The number is zero, or none at all.
pub open spec fn is_nil(x: Num) -> bool {
    is_zero(x) || x.is_nan()
}

/// Two numbers that are equal differ by zero or, if they are infinite, by no number.
pub proof fn equal_numbers_have_no_difference(x: Num, y: Num)
    requires
        x.num_eq(y),
    ensures
        is_nil(x.sub(y)),
{
    reveal(Num::spec_add);
    if x.is_finite() {
        order_agrees_with_value(x, y);
        assert(y.neg().value() == -y.value());
    }
}

/// What is zero or no number stays so in products and differences.
pub proof fn nil_numbers_stay_nil(x: Num, y: Num)
    requires
        is_nil(x),
    ensures
        is_nil(x.mul(y)),
        is_nil(y.mul(x)),
        is_nil(y) ==> is_nil(x.sub(y)),
{
    multiplication_commutes(x, y);
    if x.is_nan() || y.is_nan() {
        reveal(Num::spec_mul);
        reveal(Num::spec_add);
    } else {
        if y.is_finite() {
            zeros_stay_zeros(x, y);
        } else {
            reveal(Num::spec_mul);
        }
        if is_zero(y) {
            zeros_stay_zeros(x, y.neg());
        }
    }
}

/// Numbers that are equal have equal differences from a third one, or differences of zero.
pub proof fn equal_numbers_have_equal_differences(x: Num, y: Num, z: Num)
    requires
        x.num_eq(y),
    ensures
        x.sub(z) == y.sub(z) || (is_nil(x.sub(z)) && is_nil(y.sub(z))),
{
    reveal(Num::spec_add);
    if x.is_finite() {
        order_agrees_with_value(x, y);
    } else {
        assert(x == y);
    }
}

/// What is no more than a finite number is not rounded to infinity.
pub proof fn rounding_is_monotone_up_to(num: nat, x: Num)
    requires
        x.is_finite(),
        num <= x.units(),
    ensures
        crate::num::rounding::rounded_magnitude(num, 1) < INFINITE,
{
    lemma_significand_bounds(x);
    lemma_scale_bounds(num, 1);
    let k = crate::num::rounding::scale_of(num, 1);
    let s = x.scale();
    lemma_pow2_pos(s);
    lemma_pow2_adds(53, s);
    assert(x.units() < pow2(53) * pow2(s)) by (nonlinear_arith)
        requires
            x.units() == x.significand() * pow2(s),
            x.significand() < pow2(53),
            pow2(s) > 0,
    ;
    if k > s {
        if k > s + 1 {
            lemma_pow2_strictly_increases(53 + s, 52 + k);
        }
        assert(1 * pow2(52 + k) == pow2(52 + k));
    }
    let unit = 1 * pow2(k);
    lemma_pow2_pos(k);
    let q = crate::num::rounding::nearest_even(num, unit);
    let rest = pow2((s - k) as nat);
    lemma_pow2_adds(k, (s - k) as nat);
    let sig = x.significand();
    assert(x.units() == (sig * rest) * unit) by (nonlinear_arith)
        requires
            x.units() == sig * pow2(s),
            pow2(s) == pow2(k) * rest,
            unit == 1 * pow2(k),
    ;
    lemma_fundamental_div_mod(num as int, unit as int);
    lemma_mod_bound(num as int, unit as int);
    assert(q <= sig * rest) by (nonlinear_arith)
        requires
            num <= (sig * rest) * unit,
            num == unit * (num / unit) + num % unit,
            0 <= num % unit < unit,
            unit > 0,
            q == num / unit || (q == num / unit + 1 && num % unit > 0),
    ;
    if k < s {
        // The quotient stays below what the scale allows.
        lemma_pow2_adds(53, k);
        assert(num / unit < pow2(53)) by (nonlinear_arith)
            requires
                num < 1 * pow2(53 + k),
                pow2(53 + k) == pow2(53) * pow2(k),
                unit == 1 * pow2(k),
                num == unit * (num / unit) + num % unit,
                0 <= num % unit,
                unit > 0,
        ;
        assert(q <= 2 * BINADE);
        assert(k * BINADE + q <= (k + 2) * BINADE);
        assert((k + 2) * BINADE <= (s + 1) * BINADE);
        assert(x.magnitude() >= s * BINADE + BINADE);
    } else {
        lemma2_to64();
        assert(pow2(0) == 1);
        assert(q <= sig) by (nonlinear_arith)
            requires
                q <= sig * rest,
                rest == 1,
        ;
    }
}

} // verus!
