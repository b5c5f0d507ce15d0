//! The square root of a number.
use vstd::arithmetic::power2::*;
use vstd::prelude::*;

use crate::num::rounding::round_parts;
use crate::num::{normalized, Num, NOT_A_NUMBER};

verus! {

/// `s` is the integer part of the square root of `v`.
pub open spec fn is_floor_root(v: nat, s: nat) -> bool {
    s * s <= v < (s + 1) * (s + 1)
}

/// The integer part of the square root of `v`.
pub open spec fn floor_root(v: nat) -> nat {
    choose|s: nat| is_floor_root(v, s)
}

impl Num {
    /// The square root, rounded once.
    ///
    /// In units the root of `u` is the root of `u * 2^1074`. What follows its
    /// integer part is kept as half a unit, which lies on no rounding boundary.
    #[verifier::opaque]
    pub open spec fn spec_sqrt(self) -> Num {
        if self.spec_is_nan() {
            Num::nan()
        } else if self.magnitude() == 0 {
            self
        } else if self.spec_is_negative() {
            Num::nan()
        } else if self.spec_is_infinite() {
            self
        } else {
            let v = self.units() * Num::one_in_units();
            let s = floor_root(v);
            Num::rounded(
                false,
                if s * s == v {
                    2 * s
                } else {
                    2 * s + 1
                },
                2,
            )
        }
    }

    #[verifier::when_used_as_spec(spec_sqrt)]
    pub fn sqrt(self) -> (r: Num)
        ensures
            r == self.spec_sqrt(),
    {
        reveal(Num::spec_sqrt);
        if self.is_nan() {
            return Num { bits: NOT_A_NUMBER };
        }
        if self.magnitude_bits() == 0 {
            return self;
        }
        if self.is_negative() {
            return Num { bits: NOT_A_NUMBER };
        }
        if self.is_infinite() {
            return self;
        }
        let (m, k): (u64, u32) = self.parts();
        proof {
            crate::num::lemma_zero_significand(self);
        }
        let (mn, z): (u64, u32) = normalized(m);
        // An even power of two is left over: mn * 2^(k - z + 1074) = w * 4^e.
        let shift: u32 = if (k + z) % 2 == 0 {
            58
        } else {
            57
        };
        let w: u128 = crate::num::shift_up(mn, shift);
        proof {
            lemma2_to64_rest();
            assert(w < 0x1_0000_0000_0000_0000_0000_0000_0000) by (nonlinear_arith)
                requires
                    w == mn * pow2(shift as nat),
                    mn < 0x20_0000_0000_0000,
                    pow2(shift as nat) <= 0x400_0000_0000_0000,
            ;
        }
        let s: u128 = floor_sqrt(w);
        assert(s * s <= w);
        let sticky: bool = s * s != w;
        let e: i32 = (k as i32 + 1074 - z as i32 - shift as i32) / 2;
        proof {
            lemma2_to64();
            lemma2_to64_rest();
            assert(w >= 0x2000_0000_0000_0000_0000_0000_0000) by (nonlinear_arith)
                requires
                    w == mn * pow2(shift as nat),
                    mn >= 0x10_0000_0000_0000,
                    pow2(shift as nat) >= 0x200_0000_0000_0000,
            ;
            assert(s >= 0x20_0000_0000_0000) by (nonlinear_arith)
                requires
                    s >= 0,
                    w < (s + 1) * (s + 1),
                    w >= 0x2000_0000_0000_0000_0000_0000_0000,
            ;
            let v = self.units() * Num::one_in_units();
            assert(2 * e == k + 1074 - z - shift);
            lemma_pow2_adds(k as nat, 1074);
            lemma_pow2_adds(z as nat, shift as nat);
            lemma_pow2_adds((z + shift) as nat, (2 * e) as nat);
            assert(v == w * pow2((2 * e) as nat)) by (nonlinear_arith)
                requires
                    v == (m * pow2(k as nat)) * pow2(1074),
                    w == mn * pow2(shift as nat),
                    mn == m * pow2(z as nat),
                    pow2(k as nat) * pow2(1074) == pow2(z as nat) * pow2(shift as nat) * pow2(
                        (2 * e) as nat,
                    ),
            ;
            lemma_root_represented(v, w as nat, s as nat, e as nat);
        }
        Num::signed(false, round_parts(s, e, sticky))
    }
}

proof fn lemma_floor_root_unique(v: nat, s: nat)
    requires
        s * s <= v < (s + 1) * (s + 1),
    ensures
        floor_root(v) == s,
{
    let t = floor_root(v);
    assert(is_floor_root(v, s));
    assert(is_floor_root(v, t));
    if t < s {
        assert((t + 1) * (t + 1) <= s * s) by (nonlinear_arith)
            requires
                t + 1 <= s,
        ;
    } else if s < t {
        assert((s + 1) * (s + 1) <= t * t) by (nonlinear_arith)
            requires
                s + 1 <= t,
        ;
    }
}

proof fn lemma_floor_root_exists(v: nat) -> (s: nat)
    ensures
        s * s <= v < (s + 1) * (s + 1),
    decreases v,
{
    if v == 0 {
        assert((0nat + 1) * (0nat + 1) == 1) by (nonlinear_arith);
        0
    } else {
        let t = lemma_floor_root_exists((v - 1) as nat);
        if v < (t + 1) * (t + 1) {
            t
        } else {
            assert((t + 2) * (t + 2) > (t + 1) * (t + 1)) by (nonlinear_arith);
            t + 1
        }
    }
}

proof fn lemma_root_represented(v: nat, w: nat, s: nat, e: nat)
    requires
        v == w * pow2(2 * e),
        s * s <= w < (s + 1) * (s + 1),
    ensures
        ({
            let t = floor_root(v);
            crate::num::rounding::represents(
                if t * t == v {
                    2 * t
                } else {
                    2 * t + 1
                },
                2,
                s,
                e as int,
                s * s != w,
            )
        }),
{
    let t = lemma_floor_root_exists(v);
    lemma_floor_root_unique(v, t);
    let p = pow2(e);
    lemma_pow2_pos(e);
    lemma_pow2_adds(e, e);
    assert(2 * e == e + e);
    let lo = s * p;
    let hi = (s + 1) * p;
    assert(lo * lo == (s * s) * (p * p)) by (nonlinear_arith)
        requires
            lo == s * p,
    ;
    assert(hi * hi == ((s + 1) * (s + 1)) * (p * p)) by (nonlinear_arith)
        requires
            hi == (s + 1) * p,
    ;
    assert(p * p > 0) by (nonlinear_arith)
        requires
            p > 0,
    ;
    assert((s * s) * (p * p) <= w * (p * p)) by (nonlinear_arith)
        requires
            s * s <= w,
            p * p > 0,
    ;
    assert(s * s < w ==> (s * s) * (p * p) < w * (p * p)) by (nonlinear_arith)
        requires
            p * p > 0,
    ;
    assert(w * (p * p) < ((s + 1) * (s + 1)) * (p * p)) by (nonlinear_arith)
        requires
            w < (s + 1) * (s + 1),
            p * p > 0,
    ;
    if t < lo {
        assert((t + 1) * (t + 1) <= lo * lo) by (nonlinear_arith)
            requires
                t + 1 <= lo,
        ;
    }
    if t >= hi {
        assert(t * t >= hi * hi) by (nonlinear_arith)
            requires
                t >= hi,
        ;
    }
    assert(lo <= t < hi);
    let num = if t * t == v {
        2 * t
    } else {
        2 * t + 1
    };
    lemma2_to64();
    assert(num * pow2(0) == num) by (nonlinear_arith)
        requires
            pow2(0) == 1,
    ;
    assert(s * (2 * p) == 2 * lo) by (nonlinear_arith)
        requires
            lo == s * p,
    ;
    assert((s + 1) * (2 * p) == 2 * hi) by (nonlinear_arith)
        requires
            hi == (s + 1) * p,
    ;
    assert(s * s != w <==> num != 2 * lo) by {
        if s * s == w {
            assert(t == lo) by {
                if t > lo {
                    assert(t * t > lo * lo) by (nonlinear_arith)
                        requires
                            t > lo,
                    ;
                }
            }
        }
    }
}

/// The integer part of the square root.
fn floor_sqrt(w: u128) -> (s: u128)
    requires
        w < 0x1_0000_0000_0000_0000_0000_0000_0000,
    ensures
        s * s <= w < (s + 1) * (s + 1),
        s < 0x100_0000_0000_0000,
{
    let mut s: u128 = 0;
    let mut bit: u128 = 0x80_0000_0000_0000;
    let ghost mut j: int = 55;
    proof {
        lemma2_to64_rest();
    }
    while bit > 0
        invariant
            w < 0x1_0000_0000_0000_0000_0000_0000_0000,
            s * s <= w,
            s + 2 * bit <= 0x100_0000_0000_0000,
            bit > 0 ==> j >= 0 && bit == pow2(j as nat) && w < (s + 2 * bit) * (s + 2 * bit),
            bit == 0 ==> w < (s + 1) * (s + 1),
        decreases bit,
    {
        let c: u128 = s + bit;
        assert(c * c <= 0x1_0000_0000_0000_0000_0000_0000_0000) by (nonlinear_arith)
            requires
                c <= 0x100_0000_0000_0000,
        ;
        if c * c <= w {
            s = c;
        }
        proof {
            if j > 0 {
                lemma_pow2_unfold(j as nat);
                lemma_pow2_pos((j - 1) as nat);
            } else {
                lemma2_to64();
            }
            j = j - 1;
        }
        bit = bit / 2;
    }
    s
}

/// The root of a finite number that is not negative, in units: its square differs from the number by
/// at most what one step of the root makes up.
pub proof fn lemma_root_in_units(x: Num)
    requires
        x.sqrt().is_finite(),
    ensures
        x.is_finite(),
        x.value() >= 0,
        x.value() == x.units(),
        x.sqrt().value() == x.sqrt().units(),
        ({
            let (r, t) = (x.sqrt().units() as int, crate::num::accuracy::step(x.sqrt()) as int);
            let v = x.units() * Num::one_in_units();
            &&& r * r - v <= t * (2 * r + t)
            &&& v - r * r <= t * (2 * r + t)
        }),
{
    reveal(Num::spec_sqrt);
    let root = x.sqrt();
    let (r, t) = (root.units() as int, crate::num::accuracy::step(root) as int);
    lemma_pow2_pos(root.scale());
    if x.magnitude() == 0 {
        crate::num::lemma_zero_significand(x);
        assert(r == 0);
        assert(r * r == 0);
        assert(t * (2 * r + t) >= 0) by (nonlinear_arith)
            requires
                t > 0,
                r == 0,
        ;
        assert(0nat * Num::one_in_units() == 0);
    } else {
        let v = x.units() * Num::one_in_units();
        let witness = lemma_floor_root_exists(v);
        assert(is_floor_root(v, witness));
        assert(is_floor_root(v, floor_root(v)));
        let s = floor_root(v) as int;
        let num = if s * s == v {
            2 * s
        } else {
            2 * s + 1
        };
        crate::num::laws::rounded_numbers_are_numbers(num as nat, 2);
        crate::num::accuracy::rounding_errs_by_half_a_step(num as nat, 2);
        let m = Num { bits: crate::num::rounding::rounded_magnitude(num as nat, 2) };
        assert(root == m);
        assert(-t <= 2 * r - num <= t);
        let d = r - s;
        // The root lies between `s` and `s + 1`.
        if s * s == v {
            assert(-t <= d <= t);
            assert(r * r - s * s == d * (2 * r - d)) by (nonlinear_arith)
                requires
                    d == r - s,
            ;
            lemma_root_bound(d, r, t);
        } else {
            assert((s + 1) * (s + 1) == s * s + 2 * s + 1) by (nonlinear_arith);
            assert(-t <= d <= t);
            assert(-t <= d - 1 <= t);
            assert(r * r - s * s == d * (2 * r - d)) by (nonlinear_arith)
                requires
                    d == r - s,
            ;
            let e = d - 1;
            assert(r * r - (s + 1) * (s + 1) == e * (2 * r - e)) by (nonlinear_arith)
                requires
                    e == r - s - 1,
            ;
            lemma_root_bound(d, r, t);
            lemma_root_bound(e, r, t);
        }
    }
}

/// The root of a positive number is positive.
pub proof fn lemma_positive_root(x: Num)
    requires
        x.sqrt().is_finite(),
        x.value() > 0,
    ensures
        x.sqrt().value() > 0,
{
    lemma_root_in_units(x);
    let root = x.sqrt();
    if root.units() == 0 {
        let (m, p) = (root.significand() as int, pow2(root.scale()) as int);
        lemma_pow2_pos(root.scale());
        assert(m == 0) by (nonlinear_arith)
            requires
                m * p == 0,
                p > 0,
        ;
        assert(root.scale() == 0);
        lemma2_to64();
        let (r, t) = (root.units() as int, crate::num::accuracy::step(root) as int);
        assert(t * (2 * r + t) == 1 && r * r == 0) by (nonlinear_arith)
            requires
                r == 0,
                t == 1,
        ;
        let (u, one) = (x.units() as int, Num::one_in_units() as int);
        lemma_pow2_pos(1073);
        lemma_pow2_unfold(1074);
        assert(u * one >= 2) by (nonlinear_arith)
            requires
                u >= 1,
                one >= 2,
        ;
    }
}

proof fn lemma_root_bound(d: int, r: int, t: int)
    requires
        -t <= d <= t,
        r >= 0,
    ensures
        -(t * (2 * r + t)) <= d * (2 * r - d) <= t * (2 * r + t),
{
    assert(d * (2 * r - d) == 2 * (d * r) - d * d) by (nonlinear_arith);
    assert(t * (2 * r + t) == 2 * (t * r) + t * t) by (nonlinear_arith);
    assert(-(t * r) <= d * r <= t * r) by (nonlinear_arith)
        requires
            -t <= d <= t,
            r >= 0,
    ;
    assert(0 <= d * d <= t * t) by (nonlinear_arith)
        requires
            -t <= d <= t,
    ;
}

} // verus!
