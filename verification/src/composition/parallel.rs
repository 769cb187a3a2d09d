//! Parallel (tensor product) composition for independent channels.

use vstd::prelude::*;

use crate::error::{raises, Error, Fault};
use crate::golden::pipeline::{golden_clean, pipeline_golden, spec_pipeline};
use crate::interpret::descriptor::DspBlockDescriptor;
use crate::sample::element::{values, Sample};

verus! {

/// Two independent channels run side by side; the left channel's fault
/// is reported first.
pub open spec fn spec_parallel(
    left: Seq<i32>,
    left_desc: DspBlockDescriptor,
    right: Seq<i32>,
    right_desc: DspBlockDescriptor,
) -> Result<(Seq<i32>, Seq<i32>), Fault> {
    match spec_pipeline(left, left_desc) {
        Err(f) => Err(f),
        Ok(a) => match spec_pipeline(right, right_desc) {
            Err(f) => Err(f),
            Ok(b) => Ok((a, b)),
        },
    }
}

/// Process two independent channels in parallel.
///
/// This is the monoidal tensor product: given two pipelines and two
/// inputs, produce two outputs with no interaction.
pub fn parallel(
    left_input: &[Sample],
    left_desc: &DspBlockDescriptor,
    right_input: &[Sample],
    right_desc: &DspBlockDescriptor,
) -> (r: Result<(Vec<Sample>, Vec<Sample>), Error>)
    requires
        golden_clean(values(left_input@), *left_desc),
        spec_pipeline(values(left_input@), *left_desc) is Ok ==> golden_clean(
            values(right_input@),
            *right_desc,
        ),
    ensures
        match (r, spec_parallel(values(left_input@), *left_desc, values(right_input@), *right_desc)) {
            (Ok((a, b)), Ok((sa, sb))) => values(a@) == sa && values(b@) == sb,
            (Err(e), Err(f)) => raises(e, f),
            _ => false,
        },
{
    let left = match pipeline_golden(left_input, left_desc) {
        Ok(v) => v,
        Err(e) => {
            return Err(e);
        },
    };
    let right = match pipeline_golden(right_input, right_desc) {
        Ok(v) => v,
        Err(e) => {
            return Err(e);
        },
    };
    Ok((left, right))
}

/// The two channels do not interact: the parallel run succeeds exactly
/// when both channels do, each output is its own channel's, and a failing
/// left channel's fault is reported before the right one's.
pub proof fn lemma_parallel_channels_independent(
    left: Seq<i32>,
    left_desc: DspBlockDescriptor,
    right: Seq<i32>,
    right_desc: DspBlockDescriptor,
)
    ensures
        spec_parallel(left, left_desc, right, right_desc) is Ok <==> (spec_pipeline(left, left_desc) is Ok
            && spec_pipeline(right, right_desc) is Ok),
        spec_parallel(left, left_desc, right, right_desc) matches Ok((a, b)) ==> spec_pipeline(left, left_desc)
            == Ok::<Seq<i32>, Fault>(a) && spec_pipeline(right, right_desc) == Ok::<Seq<i32>, Fault>(b),
        spec_pipeline(left, left_desc) matches Err(f) ==> spec_parallel(left, left_desc, right, right_desc) == Err::<
            (Seq<i32>, Seq<i32>),
            Fault,
        >(f),
        spec_pipeline(left, left_desc) is Ok ==> (spec_pipeline(right, right_desc) matches Err(f)
            ==> spec_parallel(left, left_desc, right, right_desc) == Err::<(Seq<i32>, Seq<i32>), Fault>(f)),
{
}

} // verus!
