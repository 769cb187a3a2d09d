//! Newtypes for pipeline parameters and signal metadata.
//!
//! Every domain quantity gets its own newtype to prevent confusion
//! at function boundaries.

use vstd::prelude::*;

use crate::sample::format::{format_text, SampleFormat};
use crate::text::{decimal, framed_decimal, framed_signed, join, signed_decimal};

verus! {

/// Saturating `usize` addition.
pub open spec fn sat_usize_add(a: usize, b: usize) -> usize {
    if a + b > usize::MAX {
        usize::MAX
    } else {
        (a + b) as usize
    }
}

/// Index of a DSP block in the pipeline (0-based).
#[derive(Debug, Clone, Copy, PartialEq, Eq, Hash, Structural)]
pub struct BlockIndex(pub usize);

impl BlockIndex {
    /// Create a new block index.
    pub fn new(index: usize) -> (r: Self)
        ensures
            r.0 == index,
    {
        BlockIndex(index)
    }

    /// The underlying index.
    pub fn value(self) -> (v: usize)
        ensures
            v == self.0,
    {
        self.0
    }
}

/// Index of an inter-block boundary (vertex) in the pipeline graph.
#[derive(Debug, Clone, Copy, PartialEq, Eq, Hash, Structural)]
pub struct BoundaryIndex(pub usize);

impl BoundaryIndex {
    /// Create a new boundary index.
    pub fn new(index: usize) -> (r: Self)
        ensures
            r.0 == index,
    {
        BoundaryIndex(index)
    }

    /// The underlying index.
    pub fn value(self) -> (v: usize)
        ensures
            v == self.0,
    {
        self.0
    }
}

/// Number of FIR filter taps (coefficients).
#[derive(Debug, Clone, Copy, PartialEq, Eq, Hash, Structural)]
pub struct TapCount(pub usize);

impl TapCount {
    /// Create a new tap count.
    pub fn new(count: usize) -> (r: Self)
        ensures
            r.0 == count,
    {
        TapCount(count)
    }

    /// The underlying count.
    pub fn value(self) -> (v: usize)
        ensures
            v == self.0,
    {
        self.0
    }
}

/// Decimation or interpolation factor.
#[derive(Debug, Clone, Copy, PartialEq, Eq, Hash, Structural)]
pub struct RateFactor(pub usize);

impl RateFactor {
    /// Create a new rate factor.
    pub fn new(factor: usize) -> (r: Self)
        ensures
            r.0 == factor,
    {
        RateFactor(factor)
    }

    /// The underlying factor.
    pub fn value(self) -> (v: usize)
        ensures
            v == self.0,
    {
        self.0
    }
}

/// Number of CIC integrator/comb stages.
#[derive(Debug, Clone, Copy, PartialEq, Eq, Hash, Structural)]
pub struct CicOrder(pub usize);

impl CicOrder {
    /// Create a new CIC order.
    pub fn new(order: usize) -> (r: Self)
        ensures
            r.0 == order,
    {
        CicOrder(order)
    }

    /// The underlying order.
    pub fn value(self) -> (v: usize)
        ensures
            v == self.0,
    {
        self.0
    }
}

/// Delay depth in sample periods.
#[derive(Debug, Clone, Copy, PartialEq, Eq, Hash, Structural)]
pub struct DelayDepth(pub usize);

impl DelayDepth {
    /// Create a new delay depth.
    pub fn new(depth: usize) -> (r: Self)
        ensures
            r.0 == depth,
    {
        DelayDepth(depth)
    }

    /// The underlying depth.
    pub fn value(self) -> (v: usize)
        ensures
            v == self.0,
    {
        self.0
    }
}

/// Pipeline latency in clock cycles.
#[derive(Debug, Clone, Copy, PartialEq, Eq, Hash, Structural)]
pub struct PipelineLatency(pub usize);

impl PipelineLatency {
    /// Create a new latency value.
    pub fn new(cycles: usize) -> (r: Self)
        ensures
            r.0 == cycles,
    {
        PipelineLatency(cycles)
    }

    /// The underlying cycle count.
    pub fn value(self) -> (v: usize)
        ensures
            v == self.0,
    {
        self.0
    }

    /// Zero latency (passthrough).
    pub fn zero() -> (r: Self)
        ensures
            r.0 == 0,
    {
        PipelineLatency(0)
    }

    /// Sum two latencies (for sequential composition), saturating at `usize::MAX`.
    pub fn sum(self, other: Self) -> (r: Self)
        ensures
            r.0 == sat_usize_add(self.0, other.0),
    {
        PipelineLatency(self.0.saturating_add(other.0))
    }
}

/// Bit width of a sample.
#[derive(Debug, Clone, Copy, PartialEq, Eq, Hash, Structural)]
pub struct BitWidth(pub usize);

impl BitWidth {
    /// Create a new bit width.
    pub fn new(bits: usize) -> (r: Self)
        ensures
            r.0 == bits,
    {
        BitWidth(bits)
    }

    /// The underlying width.
    pub fn value(self) -> (v: usize)
        ensures
            v == self.0,
    {
        self.0
    }
}

/// Number of fractional bits in fixed-point representation.
#[derive(Debug, Clone, Copy, PartialEq, Eq, Hash, Structural)]
pub struct FractionalBits(pub usize);

impl FractionalBits {
    /// Create a new fractional-bits count.
    pub fn new(bits: usize) -> (r: Self)
        ensures
            r.0 == bits,
    {
        FractionalBits(bits)
    }

    /// The underlying count.
    pub fn value(self) -> (v: usize)
        ensures
            v == self.0,
    {
        self.0
    }
}

/// Gain coefficient as a raw fixed-point value.
#[derive(Debug, Clone, Copy, PartialEq, Eq, Hash, Structural)]
pub struct GainCoefficient(pub i32);

impl GainCoefficient {
    /// Create a new gain coefficient.
    pub fn new(value: i32) -> (r: Self)
        ensures
            r.0 == value,
    {
        GainCoefficient(value)
    }

    /// The underlying value.
    pub fn value(self) -> (v: i32)
        ensures
            v == self.0,
    {
        self.0
    }
}

/// Signal type at an inter-block pipeline boundary.
#[derive(Debug, Clone, PartialEq, Eq, Structural)]
pub struct BoundarySignal {
    pub boundary: BoundaryIndex,
    pub format: SampleFormat,
    pub sample_rate_divisor: RateFactor,
}

impl BoundarySignal {
    /// Create a boundary signal descriptor.
    ///
    /// `sample_rate_divisor` of 1 means the original input rate;
    /// N means the rate has been decimated by a total factor of N.
    pub fn new(
        boundary: BoundaryIndex,
        format: SampleFormat,
        sample_rate_divisor: RateFactor,
    ) -> (r: Self)
        ensures
            r == (BoundarySignal { boundary, format, sample_rate_divisor }),
    {
        BoundarySignal { boundary, format, sample_rate_divisor }
    }

    /// The boundary index in the pipeline graph.
    pub fn boundary(&self) -> (r: BoundaryIndex)
        ensures
            r == self.boundary,
    {
        self.boundary
    }

    /// The fixed-point format at this boundary.
    pub fn format(&self) -> (r: SampleFormat)
        ensures
            r == self.format,
    {
        self.format
    }

    /// The cumulative sample-rate divisor at this boundary.
    pub fn sample_rate_divisor(&self) -> (r: RateFactor)
        ensures
            r == self.sample_rate_divisor,
    {
        self.sample_rate_divisor
    }
}

/// The text form of a `BlockIndex`: "block[" followed by the index and "]".
pub open spec fn block_index_text(x: BlockIndex) -> Seq<char> {
    "block["@ + decimal(x.0 as nat) + "]"@
}

impl BlockIndex {
    /// The text form of this value.
    pub fn to_string(&self) -> (s: String)
        ensures
            s@ == block_index_text(*self),
    {
        framed_decimal("block[", self.0, "]")
    }
}

/// The text form of a `BoundaryIndex`: "boundary[" followed by the index and "]".
pub open spec fn boundary_index_text(x: BoundaryIndex) -> Seq<char> {
    "boundary["@ + decimal(x.0 as nat) + "]"@
}

impl BoundaryIndex {
    /// The text form of this value.
    pub fn to_string(&self) -> (s: String)
        ensures
            s@ == boundary_index_text(*self),
    {
        framed_decimal("boundary[", self.0, "]")
    }
}

/// The text form of a `TapCount`: the count followed by " taps".
pub open spec fn tap_count_text(x: TapCount) -> Seq<char> {
    decimal(x.0 as nat) + " taps"@
}

impl TapCount {
    /// The text form of this value.
    pub fn to_string(&self) -> (s: String)
        ensures
            s@ == tap_count_text(*self),
    {
        proof {
            reveal_strlit("");
        }
        framed_decimal("", self.0, " taps")
    }
}

/// The text form of a `RateFactor`: "x" followed by the factor.
pub open spec fn rate_factor_text(x: RateFactor) -> Seq<char> {
    "x"@ + decimal(x.0 as nat)
}

impl RateFactor {
    /// The text form of this value.
    pub fn to_string(&self) -> (s: String)
        ensures
            s@ == rate_factor_text(*self),
    {
        proof {
            reveal_strlit("");
        }
        framed_decimal("x", self.0, "")
    }
}

/// The text form of a `CicOrder`: "order " followed by the order.
pub open spec fn cic_order_text(x: CicOrder) -> Seq<char> {
    "order "@ + decimal(x.0 as nat)
}

impl CicOrder {
    /// The text form of this value.
    pub fn to_string(&self) -> (s: String)
        ensures
            s@ == cic_order_text(*self),
    {
        proof {
            reveal_strlit("");
        }
        framed_decimal("order ", self.0, "")
    }
}

/// The text form of a `DelayDepth`: the depth followed by " samples".
pub open spec fn delay_depth_text(x: DelayDepth) -> Seq<char> {
    decimal(x.0 as nat) + " samples"@
}

impl DelayDepth {
    /// The text form of this value.
    pub fn to_string(&self) -> (s: String)
        ensures
            s@ == delay_depth_text(*self),
    {
        proof {
            reveal_strlit("");
        }
        framed_decimal("", self.0, " samples")
    }
}

/// The text form of a `PipelineLatency`: the cycle count followed by " cycles".
pub open spec fn latency_text(x: PipelineLatency) -> Seq<char> {
    decimal(x.0 as nat) + " cycles"@
}

impl PipelineLatency {
    /// The text form of this value.
    pub fn to_string(&self) -> (s: String)
        ensures
            s@ == latency_text(*self),
    {
        proof {
            reveal_strlit("");
        }
        framed_decimal("", self.0, " cycles")
    }
}

/// The text form of a `BitWidth`: the width followed by "-bit".
pub open spec fn bit_width_text(x: BitWidth) -> Seq<char> {
    decimal(x.0 as nat) + "-bit"@
}

impl BitWidth {
    /// The text form of this value.
    pub fn to_string(&self) -> (s: String)
        ensures
            s@ == bit_width_text(*self),
    {
        proof {
            reveal_strlit("");
        }
        framed_decimal("", self.0, "-bit")
    }
}

/// The text form of a `FractionalBits`: "frac " followed by the count.
pub open spec fn fractional_bits_text(x: FractionalBits) -> Seq<char> {
    "frac "@ + decimal(x.0 as nat)
}

impl FractionalBits {
    /// The text form of this value.
    pub fn to_string(&self) -> (s: String)
        ensures
            s@ == fractional_bits_text(*self),
    {
        proof {
            reveal_strlit("");
        }
        framed_decimal("frac ", self.0, "")
    }
}

/// The text form of a `GainCoefficient`: "gain(" followed by the signed
/// coefficient and ")".
pub open spec fn gain_text(x: GainCoefficient) -> Seq<char> {
    "gain("@ + signed_decimal(x.0 as int) + ")"@
}

impl GainCoefficient {
    /// The text form of this value.
    pub fn to_string(&self) -> (s: String)
        ensures
            s@ == gain_text(*self),
    {
        framed_signed("gain(", self.0, ")")
    }
}

/// The text form of a `BoundarySignal`: the boundary, the format and the
/// rate divisor, as in `boundary[2]: Q16.15 @ /x4`.
pub open spec fn boundary_signal_text(x: BoundarySignal) -> Seq<char> {
    boundary_index_text(x.boundary) + ": "@ + format_text(x.format) + " @ /"@ + rate_factor_text(
        x.sample_rate_divisor,
    )
}

impl BoundarySignal {
    /// The text form of this value.
    pub fn to_string(&self) -> (s: String)
        ensures
            s@ == boundary_signal_text(*self),
    {
        let s = join(self.boundary.to_string(), ": ");
        let s = join(s, self.format.to_string().as_str());
        let s = join(s, " @ /");
        join(s, self.sample_rate_divisor.to_string().as_str())
    }
}

} // verus!
