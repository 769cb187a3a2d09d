//! Pure accumulator (running sum) golden model.

use vstd::prelude::*;

use crate::sample::element::{sat_add, values, Sample};

verus! {

/// Saturating sum of the first `n` values, accumulated left to right.
pub open spec fn running_sum(s: Seq<i32>, n: int) -> i32
    decreases n,
{
    if n <= 0 {
        0
    } else {
        sat_add(running_sum(s, n - 1), s[n - 1])
    }
}

/// Running sum: `output[n] = input[0] + ... + input[n]`, each step saturating.
pub open spec fn spec_accumulate(s: Seq<i32>) -> Seq<i32> {
    Seq::new(s.len(), |i: int| running_sum(s, i + 1))
}

/// Running sum: `output[n] = sum(input[0..=n])`, saturating at each step.
///
/// This is a single integrator stage, the building block of CIC filters.
pub fn accumulate(input: &[Sample]) -> (r: Vec<Sample>)
    ensures
        values(r@) == spec_accumulate(values(input@)),
{
    let ghost x = values(input@);
    let mut out: Vec<Sample> = Vec::new();
    let mut acc = Sample::zero();
    let mut i: usize = 0;
    while i < input.len()
        invariant
            x == values(input@),
            i <= input.len(),
            out.len() == i,
            acc@ == running_sum(x, i as int),
            forall|j: int| 0 <= j < i ==> #[trigger] out@[j].0 == running_sum(x, j + 1),
        decreases input.len() - i,
    {
        acc = acc.saturating_add(input[i]);
        out.push(acc);
        i = i + 1;
    }
    assert(values(out@) =~= spec_accumulate(x));
    out
}

} // verus!
