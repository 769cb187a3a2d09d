//! Pure gain (scale) golden model.

use vstd::prelude::*;

use crate::interpret::signal::GainCoefficient;
use crate::sample::element::{clamp_to_i32, lemma_i32_product_fits, saturate_i32, values, Sample};

verus! {

/// One gained sample: the full `i64` product shifted right by `shift`,
/// clamped to `i32`.
pub open spec fn gain_sample(v: i32, coefficient: i32, shift: u32) -> i32 {
    saturate_i32((((v * coefficient) as i64) >> shift) as int)
}

/// Gain applied to every sample.
pub open spec fn spec_gain(x: Seq<i32>, coefficient: i32, shift: u32) -> Seq<i32> {
    Seq::new(x.len(), |i: int| gain_sample(x[i], coefficient, shift))
}

/// Multiply each sample by a gain coefficient.
///
/// Uses widening multiply to `i64`, then right-shifts by `shift`
/// fractional bits and clamps to `i32`.
pub fn apply_gain(input: &[Sample], coefficient: GainCoefficient, shift: u32) -> (r: Vec<Sample>)
    requires
        input.len() == 0 || shift < 64,
    ensures
        values(r@) == spec_gain(values(input@), coefficient.0, shift),
{
    let coeff = coefficient.value() as i64;
    let ghost x = values(input@);
    let mut out: Vec<Sample> = Vec::new();
    let mut i: usize = 0;
    while i < input.len()
        invariant
            x == values(input@),
            coeff == coefficient.0,
            input.len() == 0 || shift < 64,
            i <= input.len(),
            out.len() == i,
            forall|j: int| 0 <= j < i ==> #[trigger] out@[j].0 == gain_sample(x[j], coefficient.0, shift),
        decreases input.len() - i,
    {
        proof {
            lemma_i32_product_fits(input[i as int].0, coefficient.0);
        }
        let product = (input[i].value() as i64) * coeff;
        let shifted = product >> shift;
        out.push(Sample::new(clamp_to_i32(shifted)));
        i = i + 1;
    }
    assert(values(out@) =~= spec_gain(x, coefficient.0, shift));
    out
}

} // verus!
