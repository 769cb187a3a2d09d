//! Pure delay line golden model.

use vstd::prelude::*;

use crate::interpret::signal::DelayDepth;
use crate::sample::element::{values, Sample};

verus! {

/// `depth` zeros followed by the input.
pub open spec fn spec_delay(s: Seq<i32>, depth: nat) -> Seq<i32> {
    Seq::new(depth, |i: int| 0i32) + s
}

/// Delay the input by `depth` samples, prepending zeros.
///
/// Output length equals `input.len() + depth`.
pub fn delay_line(input: &[Sample], depth: DelayDepth) -> (r: Vec<Sample>)
    ensures
        values(r@) == spec_delay(values(input@), depth.0 as nat),
{
    let ghost x = values(input@);
    let mut out: Vec<Sample> = Vec::new();
    let mut i: usize = 0;
    while i < depth.value()
        invariant
            i <= depth.0,
            out.len() == i,
            forall|j: int| 0 <= j < i ==> #[trigger] out@[j].0 == 0,
        decreases depth.0 - i,
    {
        out.push(Sample::zero());
        i = i + 1;
    }
    let mut k: usize = 0;
    while k < input.len()
        invariant
            x == values(input@),
            k <= input.len(),
            out.len() == depth.0 + k,
            forall|j: int| 0 <= j < depth.0 ==> #[trigger] out@[j].0 == 0,
            forall|j: int| depth.0 <= j < depth.0 + k ==> #[trigger] out@[j].0 == x[j - depth.0],
        decreases input.len() - k,
    {
        out.push(input[k]);
        k = k + 1;
    }
    assert(values(out@) =~= spec_delay(x, depth.0 as nat));
    out
}

} // verus!
