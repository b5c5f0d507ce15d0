//! Numbers that have a name.
use vstd::prelude::*;

use crate::num::Num;

verus! {

impl Num {
    /// 0.
    #[verifier::allow_in_spec]
    pub fn zero() -> Num
        returns
            (Num { bits: 0x0000_0000_0000_0000 }),
    {
        Num { bits: 0x0000_0000_0000_0000 }
    }

    /// 1.
    #[verifier::allow_in_spec]
    pub fn one() -> Num
        returns
            (Num { bits: 0x3ff0_0000_0000_0000 }),
    {
        Num { bits: 0x3ff0_0000_0000_0000 }
    }

    /// 2.
    #[verifier::allow_in_spec]
    pub fn two() -> Num
        returns
            (Num { bits: 0x4000_0000_0000_0000 }),
    {
        Num { bits: 0x4000_0000_0000_0000 }
    }

    /// 3.
    #[verifier::allow_in_spec]
    pub fn three() -> Num
        returns
            (Num { bits: 0x4008_0000_0000_0000 }),
    {
        Num { bits: 0x4008_0000_0000_0000 }
    }

    /// 4.
    #[verifier::allow_in_spec]
    pub fn four() -> Num
        returns
            (Num { bits: 0x4010_0000_0000_0000 }),
    {
        Num { bits: 0x4010_0000_0000_0000 }
    }

    /// 6.
    #[verifier::allow_in_spec]
    pub fn six() -> Num
        returns
            (Num { bits: 0x4018_0000_0000_0000 }),
    {
        Num { bits: 0x4018_0000_0000_0000 }
    }

    /// 0.5.
    #[verifier::allow_in_spec]
    pub fn half() -> Num
        returns
            (Num { bits: 0x3fe0_0000_0000_0000 }),
    {
        Num { bits: 0x3fe0_0000_0000_0000 }
    }

    /// The circle constant.
    #[verifier::allow_in_spec]
    pub fn pi() -> Num
        returns
            (Num { bits: 0x4009_21fb_5444_2d18 }),
    {
        Num { bits: 0x4009_21fb_5444_2d18 }
    }

    /// A full turn.
    #[verifier::allow_in_spec]
    pub fn tau() -> Num
        returns
            (Num { bits: 0x4019_21fb_5444_2d18 }),
    {
        Num { bits: 0x4019_21fb_5444_2d18 }
    }

    /// A quarter of a turn.
    #[verifier::allow_in_spec]
    pub fn frac_pi_2() -> Num
        returns
            (Num { bits: 0x3ff9_21fb_5444_2d18 }),
    {
        Num { bits: 0x3ff9_21fb_5444_2d18 }
    }

    /// Positive infinity.
    #[verifier::allow_in_spec]
    pub fn infinity() -> Num
        returns
            (Num { bits: 0x7ff0_0000_0000_0000 }),
    {
        Num { bits: 0x7ff0_0000_0000_0000 }
    }

    /// The largest finite number.
    #[verifier::allow_in_spec]
    pub fn max_value() -> Num
        returns
            (Num { bits: 0x7fef_ffff_ffff_ffff }),
    {
        Num { bits: 0x7fef_ffff_ffff_ffff }
    }

    /// The distance from 1 to the next larger number.
    #[verifier::allow_in_spec]
    pub fn epsilon() -> Num
        returns
            (Num { bits: 0x3cb0_0000_0000_0000 }),
    {
        Num { bits: 0x3cb0_0000_0000_0000 }
    }

    /// 0.9999.
    #[verifier::allow_in_spec]
    pub fn almost_one() -> Num
        returns
            (Num { bits: 0x3fef_ff2e_48e8_a71e }),
    {
        Num { bits: 0x3fef_ff2e_48e8_a71e }
    }

    /// 0.0001.
    #[verifier::allow_in_spec]
    pub fn e_minus_4() -> Num
        returns
            (Num { bits: 0x3f1a_36e2_eb1c_432d }),
    {
        Num { bits: 0x3f1a_36e2_eb1c_432d }
    }

    /// 0.00001.
    #[verifier::allow_in_spec]
    pub fn e_minus_5() -> Num
        returns
            (Num { bits: 0x3ee4_f8b5_88e3_68f1 }),
    {
        Num { bits: 0x3ee4_f8b5_88e3_68f1 }
    }

    /// 0.000001.
    #[verifier::allow_in_spec]
    pub fn e_minus_6() -> Num
        returns
            (Num { bits: 0x3eb0_c6f7_a0b5_ed8d }),
    {
        Num { bits: 0x3eb0_c6f7_a0b5_ed8d }
    }
}

} // verus!
