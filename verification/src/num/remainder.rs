//! The remainder of a division that is truncated towards zero.
use vstd::arithmetic::div_mod::*;
use vstd::arithmetic::power2::*;
use vstd::prelude::*;

use crate::num::rounding::round_parts;
use crate::num::{Num, NOT_A_NUMBER};

verus! {

impl Num {
    /// The remainder, with the sign of the dividend; it is exact.
    #[verifier::opaque]
    pub open spec fn spec_rem(self, other: Num) -> Num {
        if self.spec_is_nan() || other.spec_is_nan() || self.spec_is_infinite()
            || other.magnitude() == 0 {
            Num::nan()
        } else if other.spec_is_infinite() {
            self
        } else {
            Num::rounded(self.spec_is_negative(), self.units() % other.units(), 1)
        }
    }

    #[verifier::when_used_as_spec(spec_rem)]
    pub fn rem(self, other: Num) -> (r: Num)
        ensures
            r == self.spec_rem(other),
    {
        reveal(Num::spec_rem);
        if self.is_nan() || other.is_nan() || self.is_infinite() || other.magnitude_bits() == 0 {
            return Num { bits: NOT_A_NUMBER };
        }
        if other.is_infinite() {
            return self;
        }
        let (ms, ks): (u64, u32) = self.parts();
        let (mo, ko): (u64, u32) = other.parts();
        proof {
            crate::num::lemma_zero_significand(other);
        }
        // The significands are brought to the smaller scale: the dividend by
        // doubling it modulo the divisor, the divisor by doubling it while it
        // does not exceed the dividend.
        let k: u32 = if ks < ko {
            ks
        } else {
            ko
        };
        let m: u64 = if ks >= ko {
            doubled_modulo(ms, mo, ks - ko)
        } else {
            modulo_doubled(ms, mo, ko - ks)
        };
        proof {
            let p = pow2(k as nat);
            lemma_pow2_pos(k as nat);
            lemma_pow2_adds((ks - k) as nat, k as nat);
            lemma_pow2_adds((ko - k) as nat, k as nat);
            let x = ms as nat * pow2((ks - k) as nat);
            let y = mo as nat * pow2((ko - k) as nat);
            lemma_pow2_pos((ko - k) as nat);
            lemma2_to64();
            assert(y > 0) by (nonlinear_arith)
                requires
                    y == mo * pow2((ko - k) as nat),
                    mo > 0,
                    pow2((ko - k) as nat) > 0,
            ;
            assert(self.units() == x * p) by (nonlinear_arith)
                requires
                    self.units() == ms * pow2(ks as nat),
                    pow2(ks as nat) == pow2((ks - k) as nat) * p,
                    x == ms * pow2((ks - k) as nat),
            ;
            assert(other.units() == y * p) by (nonlinear_arith)
                requires
                    other.units() == mo * pow2(ko as nat),
                    pow2(ko as nat) == pow2((ko - k) as nat) * p,
                    y == mo * pow2((ko - k) as nat),
            ;
            assert(m == x % y) by {
                if ks >= ko {
                    assert(y == mo) by (nonlinear_arith)
                        requires
                            y == mo * pow2(0),
                            pow2(0) == 1,
                    ;
                } else {
                    assert(x == ms) by (nonlinear_arith)
                        requires
                            x == ms * pow2(0),
                            pow2(0) == 1,
                    ;
                }
            }
            lemma_modulo_scaled(x, y, p);
            let num = self.units() % other.units();
            assert(num * pow2(0) == m * (1 * p)) by (nonlinear_arith)
                requires
                    num == m * p,
                    pow2(0) == 1,
            ;
            assert((m + 1) * (1 * p) > m * (1 * p)) by (nonlinear_arith)
                requires
                    p > 0,
            ;
            assert(crate::num::rounding::represents(num, 1, m as nat, k as int, false));
        }
        Num::signed(self.is_negative(), round_parts(m as u128, k as i32, false))
    }
}

proof fn lemma_modulo_scaled(x: nat, y: nat, p: nat)
    requires
        y > 0,
        p > 0,
    ensures
        (x * p) % (y * p) == (x % y) * p,
{
    let q = x / y;
    let r = x % y;
    lemma_fundamental_div_mod(x as int, y as int);
    assert(x * p == q * (y * p) + r * p) by (nonlinear_arith)
        requires
            x == y * q + r,
    ;
    assert(0 <= r * p < y * p) by (nonlinear_arith)
        requires
            r < y,
            p > 0,
    ;
    lemma_fundamental_div_mod_converse(
        (x * p) as int,
        (y * p) as int,
        q as int,
        (r * p) as int,
    );
}

/// `m * 2^d` modulo `divisor`.
fn doubled_modulo(m: u64, divisor: u64, d: u32) -> (r: u64)
    requires
        0 < divisor < 0x20_0000_0000_0000,
    ensures
        r == (m * pow2(d as nat)) % divisor as int,
        r < divisor,
{
    let mut r: u64 = m % divisor;
    let mut i: u32 = 0;
    proof {
        lemma2_to64();
        assert(m * pow2(0) == m) by (nonlinear_arith)
            requires
                pow2(0) == 1,
        ;
    }
    while i < d
        invariant
            i <= d,
            0 < divisor < 0x20_0000_0000_0000,
            r < divisor,
            r == (m * pow2(i as nat)) % divisor as int,
        decreases d - i,
    {
        proof {
            let x = m * pow2(i as nat);
            lemma_pow2_unfold((i + 1) as nat);
            assert(m * (2 * pow2(i as nat)) == 2 * x) by (nonlinear_arith)
                requires
                    x == m * pow2(i as nat),
            ;
            lemma_mul_mod_noop_right(2, x as int, divisor as int);
        }
        r = (2 * r) % divisor;
        i = i + 1;
    }
    r
}

/// `m` modulo `divisor * 2^d`.
fn modulo_doubled(m: u64, divisor: u64, d: u32) -> (r: u64)
    requires
        0 < divisor < 0x20_0000_0000_0000,
        m < 0x20_0000_0000_0000,
    ensures
        r == m as int % (divisor * pow2(d as nat)),
        r <= m,
{
    let mut y: u64 = divisor;
    let mut i: u32 = 0;
    proof {
        lemma2_to64();
        assert(divisor * pow2(0) == divisor) by (nonlinear_arith)
            requires
                pow2(0) == 1,
        ;
    }
    while i < d
        invariant
            i <= d,
            0 < divisor,
            m < 0x20_0000_0000_0000,
            0 < y < 0x40_0000_0000_0000,
            y == divisor * pow2(i as nat),
        decreases d - i,
    {
        if y > m {
            proof {
                lemma_pow2_adds(i as nat, (d - i) as nat);
                lemma_pow2_pos((d - i) as nat);
                assert(divisor * pow2(d as nat) >= y) by (nonlinear_arith)
                    requires
                        y == divisor * pow2(i as nat),
                        pow2(d as nat) == pow2(i as nat) * pow2((d - i) as nat),
                        pow2((d - i) as nat) >= 1,
                ;
                lemma_small_mod(m as nat, (divisor * pow2(d as nat)) as nat);
            }
            return m;
        }
        proof {
            lemma_pow2_unfold((i + 1) as nat);
            assert(divisor * (2 * pow2(i as nat)) == 2 * (divisor * pow2(i as nat)))
                by (nonlinear_arith);
        }
        y = 2 * y;
        i = i + 1;
    }
    proof {
        lemma_mod_decreases(m as nat, y as nat);
    }
    m % y
}

} // verus!
