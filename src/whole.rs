//! Whole-number stat values: `i64` with arithmetic that saturates at the
//! bounds of the type.
use crate::models::StatValue;
use vstd::prelude::*;

verus! {

/// `x` held to the range of `i64`.
pub open spec fn clamp_i64(x: int) -> i64 {
    if x > i64::MAX {
        i64::MAX
    } else if x < i64::MIN {
        i64::MIN
    } else {
        x as i64
    }
}

/// `base` multiplied by itself `n` times, saturating at each step; one when
/// `n` is not positive.
pub open spec fn saturating_power(base: i64, n: int) -> i64
    decreases n,
{
    if n <= 0 {
        1
    } else {
        clamp_i64(saturating_power(base, n - 1) * base)
    }
}

fn clamp_wide(x: i128) -> (r: i64)
    ensures
        r == clamp_i64(x as int),
{
    if x > i64::MAX as i128 {
        i64::MAX
    } else if x < i64::MIN as i128 {
        i64::MIN
    } else {
        x as i64
    }
}

impl StatValue for i64 {
    open spec fn zero_spec() -> i64 {
        0
    }

    open spec fn one_spec() -> i64 {
        1
    }

    open spec fn from_level_spec(level: i32) -> i64 {
        level as i64
    }

    /// The quotient, truncated toward zero; zero for a denominator that is
    /// not positive.
    open spec fn ratio_spec(numerator: i32, denominator: i32) -> i64 {
        if denominator <= 0 {
            0
        } else if numerator >= 0 {
            (numerator as int / denominator as int) as i64
        } else {
            (-((-numerator as int) / denominator as int)) as i64
        }
    }

    open spec fn plus_spec(self, other: i64) -> i64 {
        clamp_i64(self + other)
    }

    open spec fn minus_spec(self, other: i64) -> i64 {
        clamp_i64(self - other)
    }

    open spec fn times_spec(self, other: i64) -> i64 {
        clamp_i64(self * other)
    }

    open spec fn power_spec(self, exponent: i64) -> i64 {
        saturating_power(self, exponent as int)
    }

    open spec fn is_zero_spec(self) -> bool {
        self == 0
    }

    open spec fn is_negative_spec(self) -> bool {
        self < 0
    }

    open spec fn to_level_spec(self) -> i32 {
        if self > i32::MAX {
            i32::MAX
        } else if self < i32::MIN {
            i32::MIN
        } else {
            self as i32
        }
    }

    fn zero() -> (r: i64) {
        0
    }

    fn one() -> (r: i64) {
        1
    }

    fn from_level(level: i32) -> (r: i64) {
        level as i64
    }

    fn ratio(numerator: i32, denominator: i32) -> (r: i64) {
        let n = numerator as i64;
        let d = denominator as u64;
        if n >= 0 {
            ((n as u64) / d) as i64
        } else {
            let magnitude = (-n) as u64;
            -((magnitude / d) as i64)
        }
    }

    fn plus(self, other: i64) -> (r: i64) {
        clamp_wide(self as i128 + other as i128)
    }

    fn minus(self, other: i64) -> (r: i64) {
        clamp_wide(self as i128 - other as i128)
    }

    fn times(self, other: i64) -> (r: i64) {
        let a = self as i128;
        let b = other as i128;
        assert(-0x4000_0000_0000_0000_0000_0000_0000_0000 <= a * b <= 0x4000_0000_0000_0000_0000_0000_0000_0000)
            by (nonlinear_arith)
            requires
                -0x8000_0000_0000_0000 <= a <= 0x7fff_ffff_ffff_ffff,
                -0x8000_0000_0000_0000 <= b <= 0x7fff_ffff_ffff_ffff,
        ;
        clamp_wide(a * b)
    }

    fn power(self, exponent: i64) -> (r: i64) {
        let mut r: i64 = 1;
        let mut i: i64 = 0;
        while i < exponent
            invariant
                0 <= i,
                i <= exponent || i == 0,
                r == saturating_power(self, i as int),
            decreases exponent - i,
        {
            r = r.times(self);
            i = i + 1;
        }
        r
    }

    fn is_zero(self) -> (r: bool) {
        self == 0
    }

    fn is_negative(self) -> (r: bool) {
        self < 0
    }

    fn to_level(self) -> (r: i32) {
        if self > i32::MAX as i64 {
            i32::MAX
        } else if self < i32::MIN as i64 {
            i32::MIN
        } else {
            self as i32
        }
    }

    /// A fraction in [0, 1) lies below a whole number exactly when the
    /// number is at least one.
    fn roll(self) -> bool {
        self >= 1
    }
}

} // verus!
