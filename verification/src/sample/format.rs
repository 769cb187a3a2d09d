//! Fixed-point format descriptor.

use vstd::prelude::*;

use crate::interpret::signal::{BitWidth, FractionalBits};
use crate::text::{decimal, framed_decimal, join, usize_to_decimal};

verus! {

/// Describes the fixed-point interpretation of samples at a pipeline
/// boundary: total bit width and number of fractional bits.
#[derive(Debug, Clone, Copy, PartialEq, Eq, Structural)]
pub struct SampleFormat {
    pub total_bits: BitWidth,
    pub fractional_bits: FractionalBits,
}

/// Integer bits of a format: total minus fractional minus the sign bit,
/// floored at zero.
pub open spec fn spec_integer_bits(total: usize, fractional: usize) -> usize {
    if total - fractional - 1 < 0 {
        0
    } else {
        (total - fractional - 1) as usize
    }
}

impl SampleFormat {
    /// Create a new sample format.
    pub fn new(total_bits: BitWidth, fractional_bits: FractionalBits) -> (r: Self)
        ensures
            r == (SampleFormat { total_bits, fractional_bits }),
    {
        SampleFormat { total_bits, fractional_bits }
    }

    /// Total bit width.
    pub fn total_bits(self) -> (r: BitWidth)
        ensures
            r == self.total_bits,
    {
        self.total_bits
    }

    /// Number of fractional bits.
    pub fn fractional_bits(self) -> (r: FractionalBits)
        ensures
            r == self.fractional_bits,
    {
        self.fractional_bits
    }

    /// Integer bits (total minus fractional minus sign bit, saturating at zero).
    pub fn integer_bits(self) -> (r: usize)
        ensures
            r == spec_integer_bits(self.total_bits.0, self.fractional_bits.0),
    {
        self.total_bits.value().saturating_sub(self.fractional_bits.value()).saturating_sub(1)
    }

    /// Widen the format by additional bits (e.g., CIC bit growth).
    pub fn widen(self, extra_bits: usize) -> (r: Self)
        requires
            self.total_bits.0 + extra_bits <= usize::MAX,
        ensures
            r.total_bits.0 == self.total_bits.0 + extra_bits,
            r.fractional_bits == self.fractional_bits,
    {
        SampleFormat {
            total_bits: BitWidth::new(self.total_bits.value() + extra_bits),
            fractional_bits: self.fractional_bits,
        }
    }
}

/// The text form of a format in Q notation: `Q<integer bits>.<fractional bits>`.
pub open spec fn format_text(f: SampleFormat) -> Seq<char> {
    "Q"@ + decimal(spec_integer_bits(f.total_bits.0, f.fractional_bits.0) as nat) + "."@ + decimal(
        f.fractional_bits.0 as nat,
    )
}

impl SampleFormat {
    /// The text form of this format, in Q notation (`Q16.15`).
    pub fn to_string(&self) -> (s: String)
        ensures
            s@ == format_text(*self),
    {
        let s = framed_decimal("Q", self.integer_bits(), ".");
        join(s, usize_to_decimal(self.fractional_bits.value()).as_str())
    }
}

} // verus!
