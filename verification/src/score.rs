//! Confidences and match scores.

use vstd::prelude::*;

verus! {

/// A score: a floating-point number of double precision, held by its 64 bits.
#[derive(Clone, Copy, Debug)]
pub struct Score {
    pub bits: u64,
}

/// The bits of zero.
pub const ZERO_BITS: u64 = 0;

/// The bits of 0.6.
pub const SIX_TENTHS_BITS: u64 = 0x3fe3_3333_3333_3333;

/// The bits of 0.85.
pub const CLOSE_BITS: u64 = 0x3feb_3333_3333_3333;

/// The bits of one.
pub const ONE_BITS: u64 = 0x3ff0_0000_0000_0000;

/// The bit of the sign; the bits below it are the magnitude.
pub const SIGN_BIT: u64 = 0x8000_0000_0000_0000;

/// The magnitude of infinity; a greater one is no number.
pub const INFINITE: u64 = 0x7ff0_0000_0000_0000;

impl Score {
    /// The exponent and the fraction, read as one number.
    pub open spec fn magnitude(self) -> int {
        self.bits as int % SIGN_BIT as int
    }

    /// Whether the score is a number at all.
    pub open spec fn is_number(self) -> bool {
        self.magnitude() <= INFINITE
    }

    /// A rank that orders scores as their values do; both zeros have the same.
    pub open spec fn rank(self) -> int {
        if self.bits < SIGN_BIT {
            self.magnitude()
        } else {
            -self.magnitude()
        }
    }

    /// Whether the score is no lower than `bound`. What is no number reaches nothing
    /// and is never reached.
    pub open spec fn reaches(self, bound: Score) -> bool {
        self.is_number() && bound.is_number() && self.rank() >= bound.rank()
    }

    /// Whether the score is no lower than `bound`.
    pub fn at_least(&self, bound: Score) -> (r: bool)
        ensures
            r == self.reaches(bound),
    {
        let a: u64 = self.bits % SIGN_BIT;
        let b: u64 = bound.bits % SIGN_BIT;
        if a > INFINITE || b > INFINITE {
            return false;
        }
        if self.bits < SIGN_BIT {
            bound.bits >= SIGN_BIT || a >= b
        } else {
            if bound.bits < SIGN_BIT {
                a == 0 && b == 0
            } else {
                a <= b
            }
        }
    }
}

/// A score that reaches a bound reaches every bound that the first one reaches.
pub proof fn law_reaching_is_transitive(a: Score, b: Score, c: Score)
    requires
        a.reaches(b),
        b.reaches(c),
    ensures
        a.reaches(c),
{
}

/// Scores are ordered as the numbers are whose bits they hold: what lies above infinity is
/// no number and reaches nothing, every number without the sign reaches every one with it,
/// without the sign more bits reach fewer, with it fewer reach more, and the two zeros
/// reach each other.
pub proof fn law_scores_are_ordered_as_numbers(a: Score, b: Score)
    ensures
        0x7ff0_0000_0000_0000 < a.bits < 0x8000_0000_0000_0000 || a.bits > 0xfff0_0000_0000_0000
            ==> !a.reaches(b) && !b.reaches(a),
        a.bits <= 0x7ff0_0000_0000_0000 && b.bits <= 0x7ff0_0000_0000_0000 ==> (a.reaches(b)
            <==> a.bits >= b.bits),
        0x8000_0000_0000_0000 <= a.bits <= 0xfff0_0000_0000_0000 && 0x8000_0000_0000_0000 <= b.bits
            <= 0xfff0_0000_0000_0000 ==> (a.reaches(b) <==> a.bits <= b.bits),
        a.bits <= 0x7ff0_0000_0000_0000 && 0x8000_0000_0000_0000 <= b.bits <= 0xfff0_0000_0000_0000
            ==> a.reaches(b) && (b.reaches(a) <==> a.bits == 0 && b.bits == 0x8000_0000_0000_0000),
{
}

} // verus!
