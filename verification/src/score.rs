//! Per-move scores.
//!
//! A score is carried as the bit pattern of an IEEE 754 binary64 number: one
//! sign bit, eleven exponent bits, fifty-two fraction bits. Everything the
//! selection needs (whether a score is orderable, and which of two scores is
//! the higher) is decided on that pattern with integer arithmetic.

use vstd::prelude::*;

verus! {

/// The sign bit of a binary64 pattern.
pub const SIGN_BIT: u64 = 0x8000_0000_0000_0000;

/// The pattern of positive infinity: every larger magnitude is a NaN.
pub const INFINITY_BITS: u64 = 0x7FF0_0000_0000_0000;

/// One score, as its binary64 bit pattern.
#[derive(Clone, Copy, Debug)]
pub struct Score {
    pub bits: u64,
}

impl Score {
    /// The pattern without its sign bit.
    pub open spec fn magnitude(self) -> int {
        if self.bits >= SIGN_BIT {
            self.bits - SIGN_BIT
        } else {
            self.bits as int
        }
    }

    /// Whether the sign bit is set.
    pub open spec fn negative(self) -> bool {
        self.bits >= SIGN_BIT
    }

    /// A score is not a number when its exponent bits are all set and its
    /// fraction is not zero, whatever its sign.
    pub open spec fn is_nan_spec(self) -> bool {
        self.magnitude() > INFINITY_BITS
    }

    /// The integer by which scores are ordered: the magnitude, negated under
    /// the sign bit. For two scores that are numbers, the higher number has
    /// the higher rank, and equal numbers (the two zeros among them) have
    /// equal ranks.
    pub open spec fn rank(self) -> int {
        if self.negative() {
            -self.magnitude()
        } else {
            self.magnitude()
        }
    }

    /// Wraps a binary64 bit pattern.
    pub fn from_bits(bits: u64) -> (score: Score)
        ensures
            score.bits == bits,
    {
        Score { bits }
    }

    /// The bit pattern.
    pub fn to_bits(self) -> (bits: u64)
        ensures
            bits == self.bits,
    {
        self.bits
    }

    /// Whether the score is not a number, and so cannot be ordered.
    #[verifier::when_used_as_spec(is_nan_spec)]
    pub fn is_nan(self) -> (nan: bool)
        ensures
            nan == self.is_nan_spec(),
    {
        if self.bits >= SIGN_BIT {
            self.bits - SIGN_BIT > INFINITY_BITS
        } else {
            self.bits > INFINITY_BITS
        }
    }

    /// The rank as a machine integer.
    pub fn key(self) -> (key: i64)
        ensures
            key == self.rank(),
    {
        if self.bits >= SIGN_BIT {
            let magnitude: u64 = self.bits - SIGN_BIT;
            -(magnitude as i64)
        } else {
            self.bits as i64
        }
    }
}

/// The rank is zero for both zeros, and only for them.
pub proof fn lemma_zero_rank(score: Score)
    ensures
        score.rank() == 0 <==> (score.bits == 0 || score.bits == SIGN_BIT),
{
}

/// A score that is a number has a rank between those of the two infinities,
/// which are numbers themselves.
pub proof fn lemma_rank_bounds(score: Score)
    ensures
        !score.is_nan_spec() <==> -(INFINITY_BITS as int) <= score.rank() <= INFINITY_BITS as int,
{
}

} // verus!
