//! Conversions between numbers and machine integers.
use vstd::arithmetic::power2::*;
use vstd::prelude::*;

use crate::num::rounding::round_parts;
use crate::num::Num;

verus! {

impl Num {
    /// The number nearest to an integer.
    pub open spec fn spec_from_usize(n: usize) -> Num {
        Num::rounded(false, n as nat * Num::one_in_units(), 1)
    }

    #[verifier::when_used_as_spec(spec_from_usize)]
    pub fn from_usize(n: usize) -> (r: Num)
        ensures
            r == Num::spec_from_usize(n),
    {
        proof {
            let p = Num::one_in_units();
            lemma_pow2_pos(1074);
            lemma2_to64();
            let num = n as nat * p;
            assert(num * pow2(0) == n * (1 * p)) by (nonlinear_arith)
                requires
                    num == n * p,
                    pow2(0) == 1,
            ;
            assert((n + 1) * (1 * p) > n * (1 * p)) by (nonlinear_arith)
                requires
                    p > 0,
            ;
            assert(crate::num::rounding::represents(num, 1, n as nat, 1074, false));
        }
        Num::signed(false, round_parts(n as u128, 1074, false))
    }

    /// The least integer not below the number, or the nearest machine integer to it; 0 for a NaN.
    #[verifier::opaque]
    pub open spec fn spec_ceil_to_usize(self) -> usize {
        if self.spec_is_nan() || self.spec_is_negative() {
            0
        } else if self.spec_is_infinite() {
            usize::MAX
        } else {
            let one = Num::one_in_units();
            let c = (self.units() + one - 1) / one as int;
            if c > usize::MAX {
                usize::MAX
            } else {
                c as usize
            }
        }
    }

    #[verifier::when_used_as_spec(spec_ceil_to_usize)]
    pub fn ceil_to_usize(self) -> (r: usize)
        ensures
            r == self.spec_ceil_to_usize(),
    {
        reveal(Num::spec_ceil_to_usize);
        if self.is_nan() || self.is_negative() {
            return 0;
        }
        if self.is_infinite() {
            return usize::MAX;
        }
        let (m, k): (u64, u32) = self.parts();
        if k >= 1074 {
            let d: u32 = k - 1074;
            let mut x: u64 = m;
            let mut i: u32 = 0;
            proof {
                lemma2_to64();
                lemma_pow2_adds(d as nat, 1074);
                lemma_pow2_pos(1074);
                let one = pow2(1074);
                let x = (m * pow2(d as nat)) as nat;
                assert(self.units() == x * one) by (nonlinear_arith)
                    requires
                        self.units() == m * pow2(k as nat),
                        pow2(k as nat) == pow2(d as nat) * one,
                        x == m * pow2(d as nat),
                ;
                assert((x - 1) * one < x * one) by (nonlinear_arith)
                    requires
                        one > 0,
                ;
                lemma_ceil(x, x * one, one);
                assert(m * pow2(0) == m) by (nonlinear_arith)
                    requires
                        pow2(0) == 1,
                ;
            }
            while i < d
                invariant
                    i <= d,
                    m > 0,
                    x == m * pow2(i as nat),
                    self.spec_ceil_to_usize() == if m * pow2(d as nat) > usize::MAX {
                        usize::MAX
                    } else {
                        (m * pow2(d as nat)) as usize
                    },
                decreases d - i,
            {
                proof {
                    lemma_pow2_unfold((i + 1) as nat);
                    assert(m * (2 * pow2(i as nat)) == 2 * (m * pow2(i as nat)))
                        by (nonlinear_arith);
                }
                if x > 0x7fff_ffff_ffff_ffff {
                    proof {
                        lemma_pow2_adds((i + 1) as nat, (d - i - 1) as nat);
                        lemma_pow2_pos((d - i - 1) as nat);
                        assert(m * pow2(d as nat) >= 2 * x) by (nonlinear_arith)
                            requires
                                2 * x == m * pow2((i + 1) as nat),
                                pow2(d as nat) == pow2((i + 1) as nat) * pow2((d - i - 1) as nat),
                                pow2((d - i - 1) as nat) >= 1,
                        ;
                    }
                    return usize::MAX;
                }
                x = 2 * x;
                i = i + 1;
            }
            if x > usize::MAX as u64 {
                usize::MAX
            } else {
                x as usize
            }
        } else {
            let d: u32 = 1074 - k;
            let mut x: u64 = m;
            let mut i: u32 = 0;
            proof {
                lemma2_to64();
                lemma_pow2_adds(k as nat, d as nat);
                lemma_pow2_pos(k as nat);
                lemma_pow2_pos(d as nat);
            }
            let ghost p = pow2(k as nat);
            while i < d
                invariant
                    i <= d,
                    x < 0x20_0000_0000_0000,
                    m == 0 ==> x == 0,
                    m > 0 ==> x > 0,
                    x > 0 ==> (x - 1) * pow2(i as nat) < m,
                    m <= x * pow2(i as nat),
                decreases d - i,
            {
                proof {
                    let y = pow2(i as nat);
                    lemma_pow2_unfold((i + 1) as nat);
                    let h = (x / 2 + x % 2) as int;
                    assert(h * (2 * y) >= x * y) by (nonlinear_arith)
                        requires
                            2 * h >= x,
                            y >= 0,
                    ;
                    if x > 0 {
                        assert((h - 1) * (2 * y) <= (x - 1) * y) by (nonlinear_arith)
                            requires
                                2 * (h - 1) <= x - 1,
                                y >= 0,
                        ;
                    }
                }
                x = x / 2 + x % 2;
                i = i + 1;
            }
            proof {
                let one = pow2(1074);
                let q = pow2(d as nat);
                assert(self.units() == m * p);
                if x > 0 {
                    assert((x - 1) * one < self.units() <= x * one) by (nonlinear_arith)
                        requires
                            one == p * q,
                            self.units() == m * p,
                            (x - 1) * q < m,
                            m <= x * q,
                            p > 0,
                    ;
                } else {
                    assert(self.units() == 0) by (nonlinear_arith)
                        requires
                            self.units() == m * p,
                            m == 0,
                    ;
                }
                lemma_pow2_pos(1074);
                lemma_ceil(x as nat, self.units(), one);
            }
            if x > usize::MAX as u64 {
                usize::MAX
            } else {
                x as usize
            }
        }
    }
}

proof fn lemma_ceil(c: nat, num: nat, den: nat)
    requires
        den > 0,
        num <= c * den,
        c > 0 ==> (c - 1) * den < num,
    ensures
        (num + den - 1) / den as int == c,
{
    if c == 0 {
        assert(num == 0) by (nonlinear_arith)
            requires
                num <= 0 * den,
        ;
        vstd::arithmetic::div_mod::lemma_basic_div(den - 1, den as int);
    } else {
        let r = num + den - 1 - c * den;
        assert((c - 1) * den == c * den - den) by (nonlinear_arith);
        vstd::arithmetic::div_mod::lemma_fundamental_div_mod_converse(
            num + den - 1,
            den as int,
            c as int,
            r,
        );
    }
}

} // verus!
