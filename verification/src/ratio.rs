//! Figures of a snapshot.

use vstd::prelude::*;

verus! {

/// The quotient of two counters, kept exact.
#[derive(Clone, Copy, Debug, PartialEq, Eq, Structural)]
pub struct Ratio {
    pub numerator: u64,
    pub denominator: u64,
}

/// A floating-point number of double precision, by its bits.
#[derive(Clone, Copy, Debug, PartialEq, Eq, Structural)]
pub struct Figure {
    pub bits: u64,
}

/// So many bytes in so many nanoseconds.
#[derive(Clone, Copy, Debug, PartialEq, Eq, Structural)]
pub struct ByteRate {
    pub bytes: u64,
    pub nanos: u128,
}

/// Bits of one hundred.
pub const HUNDRED_BITS: u64 = 0x4059_0000_0000_0000;

/// Bits of infinity. Above them lie those of what is not a number.
pub const INFINITY_BITS: u64 = 0x7ff0_0000_0000_0000;

/// Bits of negative zero. From there on numbers are negative.
pub const SIGN_BITS: u64 = 0x8000_0000_0000_0000;

impl Figure {
    /// Whether this is not a number.
    pub open spec fn is_nan(self) -> bool {
        INFINITY_BITS < self.bits < SIGN_BITS || self.bits > SIGN_BITS + INFINITY_BITS
    }

    /// A number that orders figures as the numbers they stand for are ordered.
    pub open spec fn rank(self) -> int {
        if self.bits < SIGN_BITS {
            self.bits as int
        } else {
            SIGN_BITS - self.bits
        }
    }

    /// Whether this is a number from zero to one hundred.
    pub open spec fn is_percent(self) -> bool {
        !self.is_nan() && 0 <= self.rank() <= HUNDRED_BITS
    }
}

/// A figure brought between zero and one hundred; what is not a number stays.
pub open spec fn percent_of(figure: Figure) -> Figure {
    if figure.is_nan() {
        figure
    } else if figure.rank() < 0 {
        Figure { bits: 0 }
    } else if figure.rank() > HUNDRED_BITS {
        Figure { bits: HUNDRED_BITS }
    } else {
        figure
    }
}

/// Brings a figure between zero and one hundred.
pub fn clamp_percent(figure: Figure) -> (percent: Figure)
    ensures
        percent == percent_of(figure),
{
    let bits: u64 = figure.bits;
    if bits > SIGN_BITS + INFINITY_BITS {
        figure
    } else if bits > SIGN_BITS {
        Figure { bits: 0 }
    } else if bits == SIGN_BITS || bits > INFINITY_BITS {
        figure
    } else if bits > HUNDRED_BITS {
        Figure { bits: HUNDRED_BITS }
    } else {
        figure
    }
}

/// Every number is brought between zero and one hundred, and one that is there
/// already is kept.
pub proof fn law_percents_are_bounded(figure: Figure)
    requires
        !figure.is_nan(),
    ensures
        percent_of(figure).is_percent(),
        figure.is_percent() ==> percent_of(figure) == figure,
{
}

} // verus!
