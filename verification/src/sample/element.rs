//! Fixed-point sample newtype with saturating arithmetic.

use vstd::prelude::*;
use vstd::std_specs::ops::{AddSpec, NegSpec, SubSpec};

use crate::text::{framed_signed, signed_decimal};

verus! {

/// Clamp a mathematical integer into the `i32` range.
pub open spec fn saturate_i32(x: int) -> i32 {
    if x > i32::MAX {
        i32::MAX
    } else if x < i32::MIN {
        i32::MIN
    } else {
        x as i32
    }
}

/// Saturating `i32` addition.
pub open spec fn sat_add(a: i32, b: i32) -> i32 {
    saturate_i32(a + b)
}

/// Saturating `i32` subtraction.
pub open spec fn sat_sub(a: i32, b: i32) -> i32 {
    saturate_i32(a - b)
}

/// Saturating `i32` negation.
pub open spec fn sat_neg(a: i32) -> i32 {
    saturate_i32(-a)
}

/// Clamp an `i64` into the `i32` range.
pub fn clamp_to_i32(x: i64) -> (r: i32)
    ensures
        r == saturate_i32(x as int),
{
    if x > i32::MAX as i64 {
        i32::MAX
    } else if x < i32::MIN as i64 {
        i32::MIN
    } else {
        x as i32
    }
}

/// A fixed-point DSP sample stored as `i32`.
///
/// All arithmetic saturates rather than wrapping.
#[derive(Debug, Clone, Copy, PartialEq, Eq, Hash, Structural)]
pub struct Sample(pub i32);

impl View for Sample {
    type V = i32;

    open spec fn view(&self) -> i32 {
        self.0
    }
}

impl Sample {
    /// The zero sample (additive identity).
    pub fn zero() -> (s: Self)
        ensures
            s@ == 0,
    {
        Sample(0)
    }

    /// The unit sample (multiplicative identity in Q0 format).
    pub fn one() -> (s: Self)
        ensures
            s@ == 1,
    {
        Sample(1)
    }

    /// Create a sample from a raw `i32` value.
    pub fn new(value: i32) -> (s: Self)
        ensures
            s@ == value,
    {
        Sample(value)
    }

    /// The underlying `i32` value.
    pub fn value(self) -> (v: i32)
        ensures
            v == self@,
    {
        self.0
    }

    /// Saturating addition.
    pub fn saturating_add(self, rhs: Self) -> (s: Self)
        ensures
            s@ == sat_add(self@, rhs@),
    {
        Sample(clamp_to_i32(self.0 as i64 + rhs.0 as i64))
    }

    /// Saturating subtraction.
    pub fn saturating_sub(self, rhs: Self) -> (s: Self)
        ensures
            s@ == sat_sub(self@, rhs@),
    {
        Sample(clamp_to_i32(self.0 as i64 - rhs.0 as i64))
    }

    /// Saturating negation.
    pub fn saturating_neg(self) -> (s: Self)
        ensures
            s@ == sat_neg(self@),
    {
        Sample(clamp_to_i32(-(self.0 as i64)))
    }

    /// Widening multiply returning `i64`; the full product is kept.
    pub fn widening_mul(self, rhs: Self) -> (p: i64)
        ensures
            p == self@ * rhs@,
    {
        proof {
            lemma_i32_product_fits(self@, rhs@);
        }
        (self.0 as i64) * (rhs.0 as i64)
    }
}

/// The product of two `i32` values fits in an `i64`.
pub proof fn lemma_i32_product_fits(a: i32, b: i32)
    ensures
        i64::MIN <= a * b <= i64::MAX,
        -0x4000_0000_0000_0000 <= a * b <= 0x4000_0000_0000_0000,
{
    assert(-0x4000_0000_0000_0000 <= a * b <= 0x4000_0000_0000_0000) by (nonlinear_arith)
        requires
            i32::MIN <= a <= i32::MAX,
            i32::MIN <= b <= i32::MAX,
    ;
}

impl core::ops::Add for Sample {
    type Output = Sample;

    fn add(self, rhs: Sample) -> (s: Sample) {
        self.saturating_add(rhs)
    }
}

impl vstd::std_specs::ops::AddSpecImpl for Sample {
    open spec fn obeys_add_spec() -> bool {
        true
    }

    open spec fn add_req(self, rhs: Sample) -> bool {
        true
    }

    open spec fn add_spec(self, rhs: Sample) -> Sample {
        Sample(sat_add(self.0, rhs.0))
    }
}

impl core::ops::Sub for Sample {
    type Output = Sample;

    fn sub(self, rhs: Sample) -> (s: Sample) {
        self.saturating_sub(rhs)
    }
}

impl vstd::std_specs::ops::SubSpecImpl for Sample {
    open spec fn obeys_sub_spec() -> bool {
        true
    }

    open spec fn sub_req(self, rhs: Sample) -> bool {
        true
    }

    open spec fn sub_spec(self, rhs: Sample) -> Sample {
        Sample(sat_sub(self.0, rhs.0))
    }
}

impl core::ops::Neg for Sample {
    type Output = Sample;

    fn neg(self) -> (s: Sample) {
        self.saturating_neg()
    }
}

impl vstd::std_specs::ops::NegSpecImpl for Sample {
    open spec fn obeys_neg_spec() -> bool {
        true
    }

    open spec fn neg_req(self) -> bool {
        true
    }

    open spec fn neg_spec(self) -> Sample {
        Sample(sat_neg(self.0))
    }
}

impl From<i32> for Sample {
    fn from(value: i32) -> (s: Sample) {
        Sample::new(value)
    }
}

impl vstd::std_specs::convert::FromSpecImpl<i32> for Sample {
    open spec fn obeys_from_spec() -> bool {
        true
    }

    open spec fn from_spec(v: i32) -> Sample {
        Sample(v)
    }
}

/// The values carried by a sequence of samples.
pub open spec fn values(s: Seq<Sample>) -> Seq<i32> {
    s.map_values(|x: Sample| x.0)
}

/// Zero is the identity of saturating addition on both sides.
pub proof fn lemma_zero_is_additive_identity(s: Sample)
    ensures
        s.add_spec(Sample(0)) == s,
        Sample(0).add_spec(s) == s,
{
}

/// Saturating addition is commutative.
pub proof fn lemma_add_commutative(a: Sample, b: Sample)
    ensures
        a.add_spec(b) == b.add_spec(a),
{
}

/// Negating twice gives back the sample, except at `i32::MIN`, whose
/// negation saturates to `i32::MAX`.
pub proof fn lemma_negation_round_trip(s: Sample)
    requires
        s.0 != i32::MIN,
    ensures
        s.neg_spec().neg_spec() == s,
{
}

/// Saturating subtraction undoes saturating addition when no saturation occurs.
pub proof fn lemma_sub_undoes_add(a: Sample, b: Sample)
    requires
        i32::MIN <= a.0 + b.0 <= i32::MAX,
    ensures
        a.add_spec(b).sub_spec(b) == a,
{
}

/// The text form of a sample: `Sample(<value>)`.
pub open spec fn sample_text(s: Sample) -> Seq<char> {
    "Sample("@ + signed_decimal(s.0 as int) + ")"@
}

impl Sample {
    /// The text form of this sample, as in `Sample(-7)`.
    pub fn to_string(&self) -> (s: String)
        ensures
            s@ == sample_text(*self),
    {
        framed_signed("Sample(", self.0, ")")
    }
}

} // verus!
