//! Fixed-point relevance scores.

use vstd::prelude::*;

verus! {

/// The number of units that make up the score 1.
pub const SCORE_ONE: u64 = 1_000_000;

/// The largest number of units a score can hold.
pub const SCORE_MAX: u64 = 0xffff_ffff_ffff_ffff;

/// A non-negative score counted in millionths.
///
/// Arithmetic on scores rounds down to the unit and saturates at
/// [`SCORE_MAX`] units, so it is total and never wraps.
#[derive(Clone, Copy, Debug, PartialEq, Eq, PartialOrd, Ord, Hash, Structural)]
pub struct Score {
    pub micros: u64,
}

/// The score of `units` millionths, saturated to the representable range.
pub open spec fn score_of(units: int) -> Score {
    if units < 0 {
        Score { micros: 0 }
    } else if units > SCORE_MAX {
        Score { micros: SCORE_MAX }
    } else {
        Score { micros: units as u64 }
    }
}

impl Score {
    /// The score as a number of millionths.
    pub open spec fn units(self) -> int {
        self.micros as int
    }

    /// Sum of two scores, saturated.
    pub open spec fn spec_plus(self, other: Score) -> Score {
        score_of(self.units() + other.units())
    }

    /// Difference of two scores, zero where `other` is the larger.
    pub open spec fn spec_minus(self, other: Score) -> Score {
        score_of(self.units() - other.units())
    }

    /// Product of two scores, rounded down and saturated.
    pub open spec fn spec_times(self, other: Score) -> Score {
        score_of(self.units() * other.units() / 1_000_000int)
    }

    /// The score multiplied by a whole number, saturated.
    pub open spec fn spec_scaled(self, factor: nat) -> Score {
        score_of(self.units() * factor)
    }

    /// Quotient of two scores, rounded down and saturated; zero where
    /// `other` is zero.
    pub open spec fn spec_over(self, other: Score) -> Score {
        if other.micros == 0 {
            Score { micros: 0 }
        } else {
            score_of(self.units() * 1_000_000int / other.units())
        }
    }

    /// The score divided into `count` equal shares, rounded down; zero
    /// where `count` is zero.
    pub open spec fn spec_shared(self, count: nat) -> Score {
        if count == 0 {
            Score { micros: 0 }
        } else {
            score_of(self.units() / (count as int))
        }
    }

    /// The larger of two scores.
    pub open spec fn spec_larger(self, other: Score) -> Score {
        if self.micros >= other.micros {
            self
        } else {
            other
        }
    }

    /// The score of the given number of millionths.
    pub fn from_micros(micros: u64) -> (s: Score)
        ensures
            s.micros == micros,
    {
        Score { micros }
    }

    /// The score 0.
    pub fn zero() -> (s: Score)
        ensures
            s.micros == 0,
    {
        Score { micros: 0 }
    }

    /// The score 1.
    pub fn one() -> (s: Score)
        ensures
            s.micros == SCORE_ONE,
    {
        Score { micros: SCORE_ONE }
    }

    /// The score `count / total`, rounded down; zero where `total` is zero.
    pub fn from_ratio(count: usize, total: usize) -> (s: Score)
        ensures
            s == spec_ratio(count as nat, total as nat),
            total > 0 && s.micros < SCORE_MAX ==> s.micros * total <= count * 1_000_000 < (s.micros
                + 1) * total,
    {
        if total == 0 {
            Score { micros: 0 }
        } else {
            let wide: u128 = (count as u128) * 1_000_000u128 / (total as u128);
            assert(wide * total <= count * 1_000_000 < (wide + 1) * total) by (nonlinear_arith)
                requires
                    wide == (count * 1_000_000) / (total as int),
                    total > 0,
                    count >= 0,
            ;
            if wide > SCORE_MAX as u128 {
                Score { micros: SCORE_MAX }
            } else {
                Score { micros: wide as u64 }
            }
        }
    }

    /// The score that stands for a whole number.
    pub fn from_count(count: usize) -> (s: Score)
        ensures
            s == score_of(count as int * 1_000_000int),
    {
        let wide: u128 = (count as u128) * 1_000_000u128;
        if wide > SCORE_MAX as u128 {
            Score { micros: SCORE_MAX }
        } else {
            Score { micros: wide as u64 }
        }
    }

    /// The sum of two scores, saturated.
    pub fn plus(self, other: Score) -> (s: Score)
        ensures
            s == self.spec_plus(other),
    {
        let wide: u128 = self.micros as u128 + other.micros as u128;
        if wide > SCORE_MAX as u128 {
            Score { micros: SCORE_MAX }
        } else {
            Score { micros: wide as u64 }
        }
    }

    /// The difference of two scores, zero where `other` is the larger.
    pub fn minus(self, other: Score) -> (s: Score)
        ensures
            s == self.spec_minus(other),
    {
        if self.micros >= other.micros {
            Score { micros: self.micros - other.micros }
        } else {
            Score { micros: 0 }
        }
    }

    /// The product of two scores, rounded down and saturated.
    pub fn times(self, other: Score) -> (s: Score)
        ensures
            s == self.spec_times(other),
    {
        assert(self.micros as u128 * other.micros as u128 <= 0xffff_ffff_ffff_ffff_u128
            * 0xffff_ffff_ffff_ffff_u128) by (nonlinear_arith)
            requires
                self.micros <= 0xffff_ffff_ffff_ffff_u64,
                other.micros <= 0xffff_ffff_ffff_ffff_u64,
        ;
        let wide: u128 = (self.micros as u128) * (other.micros as u128) / 1_000_000u128;
        if wide > SCORE_MAX as u128 {
            Score { micros: SCORE_MAX }
        } else {
            Score { micros: wide as u64 }
        }
    }

    /// The score multiplied by a whole number, saturated.
    pub fn scaled(self, factor: u32) -> (s: Score)
        ensures
            s == self.spec_scaled(factor as nat),
    {
        assert(self.micros as u128 * factor as u128 <= 0xffff_ffff_ffff_ffff_u128
            * 0xffff_ffff_u128) by (nonlinear_arith)
            requires
                self.micros <= 0xffff_ffff_ffff_ffff_u64,
                factor <= 0xffff_ffff_u32,
        ;
        let wide: u128 = (self.micros as u128) * (factor as u128);
        if wide > SCORE_MAX as u128 {
            Score { micros: SCORE_MAX }
        } else {
            Score { micros: wide as u64 }
        }
    }

    /// The quotient of two scores, rounded down and saturated; zero where
    /// `other` is zero.
    pub fn over(self, other: Score) -> (s: Score)
        ensures
            s == self.spec_over(other),
            other.micros > 0 && s.micros < SCORE_MAX ==> s.micros * other.micros <= self.micros
                * 1_000_000 < (s.micros + 1) * other.micros,
    {
        if other.micros == 0 {
            Score { micros: 0 }
        } else {
            let wide: u128 = (self.micros as u128) * 1_000_000u128 / (other.micros as u128);
            assert(wide * other.micros <= self.micros * 1_000_000 < (wide + 1) * other.micros)
                by (nonlinear_arith)
                requires
                    wide == (self.micros * 1_000_000) / (other.micros as int),
                    other.micros > 0,
                    self.micros >= 0,
            ;
            if wide > SCORE_MAX as u128 {
                Score { micros: SCORE_MAX }
            } else {
                Score { micros: wide as u64 }
            }
        }
    }

    /// The score divided into `count` equal shares, rounded down; zero where
    /// `count` is zero.
    pub fn shared(self, count: usize) -> (s: Score)
        ensures
            s == self.spec_shared(count as nat),
            count > 0 ==> s.micros * count <= self.micros < (s.micros + 1) * count,
    {
        if count == 0 {
            Score { micros: 0 }
        } else {
            let wide: u128 = (self.micros as u128) / (count as u128);
            assert(wide <= self.micros && wide * count <= self.micros < (wide + 1) * count)
                by (nonlinear_arith)
                requires
                    wide == (self.micros as int) / (count as int),
                    count > 0,
                    self.micros >= 0,
            ;
            Score { micros: wide as u64 }
        }
    }

    /// The larger of two scores.
    pub fn larger(self, other: Score) -> (s: Score)
        ensures
            s == self.spec_larger(other),
    {
        if self.micros >= other.micros {
            self
        } else {
            other
        }
    }
}

/// The score `count / total`, rounded down; zero where `total` is zero.
pub open spec fn spec_ratio(count: nat, total: nat) -> Score {
    if total == 0 {
        Score { micros: 0 }
    } else {
        score_of(count * 1_000_000int / (total as int))
    }
}

/// `x` halved `times` times, each time rounded down: `x / 2^times`, rounded
/// down.
pub open spec fn halved(x: int, times: nat) -> int
    decreases times,
{
    if times == 0 {
        x
    } else {
        halved(x / 2, (times - 1) as nat)
    }
}

/// Zero stays zero however often it is halved.
pub proof fn lemma_halved_zero(times: nat)
    ensures
        halved(0, times) == 0,
    decreases times,
{
    if times > 0 {
        lemma_halved_zero((times - 1) as nat);
    }
}

/// The score that stands for the number with the given IEEE 754 binary64
/// bit pattern: the number in millionths, rounded down and saturated. A
/// negative number and a NaN give zero.
///
/// A finite number with exponent field `e` and fraction field `f` is
/// `m 2^(e - 1075)` with `m = 2^52 + f`, or `f 2^-1074` where `e` is 0. From
/// `e = 1075` on it is beyond the largest score.
pub open spec fn binary64_score(bits: u64) -> Score {
    let exponent = (bits / 0x10_0000_0000_0000) % 2048;
    let fraction = bits % 0x10_0000_0000_0000;
    if bits >= 0x8000_0000_0000_0000 || (exponent == 2047 && fraction != 0) {
        Score { micros: 0 }
    } else if exponent >= 1075 {
        Score { micros: SCORE_MAX }
    } else if exponent == 0 {
        score_of(halved(fraction * 1_000_000, 1074))
    } else {
        score_of(halved((0x10_0000_0000_0000 + fraction) * 1_000_000, (1075 - exponent) as nat))
    }
}

impl Score {
    /// The score that stands for the number with the given IEEE 754
    /// binary64 bit pattern.
    pub fn from_binary64_bits(bits: u64) -> (s: Score)
        ensures
            s == binary64_score(bits),
    {
        let exponent: u64 = (bits / 0x10_0000_0000_0000) % 2048;
        let fraction: u64 = bits % 0x10_0000_0000_0000;
        if bits >= 0x8000_0000_0000_0000 || (exponent == 2047 && fraction != 0) {
            return Score { micros: 0 };
        }
        if exponent >= 1075 {
            return Score { micros: SCORE_MAX };
        }
        let mantissa: u128 = if exponent == 0 {
            fraction as u128
        } else {
            0x10_0000_0000_0000u128 + fraction as u128
        };
        let mut left: u64 = if exponent == 0 {
            1074
        } else {
            1075 - exponent
        };
        let mut x: u128 = mantissa * 1_000_000;
        let ghost goal = halved(x as int, left as nat);
        while left > 0 && x > 0
            invariant
                goal == halved(x as int, left as nat),
            decreases left,
        {
            x = x / 2;
            left = left - 1;
        }
        proof {
            if x == 0 {
                lemma_halved_zero(left as nat);
            }
        }
        if x > SCORE_MAX as u128 {
            Score { micros: SCORE_MAX }
        } else {
            Score { micros: x as u64 }
        }
    }
}

} // verus!
