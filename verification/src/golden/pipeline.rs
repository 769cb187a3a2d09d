//! Composed pipeline golden model.
//!
//! Executes a chain of DSP blocks described by a `DspBlockDescriptor`
//! by dispatching to the appropriate per-block golden model.

use vstd::prelude::*;

use crate::error::{result_matches, values_result, Error, Fault};
use crate::golden::accumulator::{accumulate, spec_accumulate};
use crate::golden::cic::{cic_decimate, spec_cic_decimate};
use crate::golden::cic::{integrate_n, lemma_comb_n_len, lemma_integrate_n_len};
use crate::golden::decimator::{ceil_div, decimate, spec_decimate, spec_decimate_result};
use crate::golden::delay::{delay_line, spec_delay};
use crate::golden::fir::{fir_convolve, spec_fir};
use crate::golden::gain::{apply_gain, spec_gain};
use crate::golden::interpolator::{interpolate, spec_interpolate, spec_interpolate_result};
use crate::interpret::descriptor::{composes_to, flat, DspBlockDescriptor};
use crate::sample::element::{values, Sample};

verus! {

/// Output of one leaf block on input `x`.
pub open spec fn spec_leaf(x: Seq<i32>, d: DspBlockDescriptor) -> Result<Seq<i32>, Fault> {
    match d {
        DspBlockDescriptor::Fir { coefficients, frac_bits, .. } => spec_fir(
            x,
            values(coefficients@),
            frac_bits.0,
        ),
        DspBlockDescriptor::Cic { order, rate_factor, .. } => spec_cic_decimate(
            x,
            order.0,
            rate_factor.0,
        ),
        DspBlockDescriptor::Delay { depth, .. } => Ok(spec_delay(x, depth.0 as nat)),
        DspBlockDescriptor::Gain { coefficient, shift, .. } => Ok(spec_gain(x, coefficient.0, shift)),
        DspBlockDescriptor::Decimator { factor, .. } => spec_decimate_result(x, factor.0),
        DspBlockDescriptor::Interpolator { factor, .. } => spec_interpolate_result(x, factor.0),
        DspBlockDescriptor::Accumulator { .. } => Ok(spec_accumulate(x)),
        _ => Ok(x),
    }
}

/// The composed golden model: each block is fed the output of the
/// previous one; the first refused block's fault is the result.
pub open spec fn spec_pipeline(x: Seq<i32>, d: DspBlockDescriptor) -> Result<Seq<i32>, Fault>
    decreases d, 0nat,
{
    match d {
        DspBlockDescriptor::Identity => Ok(x),
        DspBlockDescriptor::Composed(v) => pipeline_seq(x, v@),
        _ => spec_leaf(x, d),
    }
}

/// Run a sequence of descriptors one after the other.
pub open spec fn pipeline_seq(x: Seq<i32>, s: Seq<DspBlockDescriptor>) -> Result<Seq<i32>, Fault>
    decreases s, s.len(),
{
    if s.len() == 0 {
        Ok(x)
    } else {
        match pipeline_seq(x, s.subrange(0, s.len() - 1)) {
            Ok(y) => spec_pipeline(y, s[s.len() - 1]),
            Err(f) => Err(f),
        }
    }
}

/// Feed a result into a further descriptor; a fault passes through.
pub open spec fn then_run(r: Result<Seq<i32>, Fault>, d: DspBlockDescriptor) -> Result<Seq<i32>, Fault> {
    match r {
        Ok(y) => spec_pipeline(y, d),
        Err(f) => Err(f),
    }
}

/// A leaf block runs on `x` without an arithmetic panic: a right shift of
/// 64 or more bits is only reached when there is data to shift.
pub open spec fn leaf_clean(x: Seq<i32>, d: DspBlockDescriptor) -> bool {
    match d {
        DspBlockDescriptor::Fir { coefficients, frac_bits, .. } => coefficients.len() == 0
            || x.len() == 0 || frac_bits.0 < 64,
        DspBlockDescriptor::Gain { shift, .. } => x.len() == 0 || shift < 64,
        _ => true,
    }
}

/// The composed golden model runs on `x` without an arithmetic panic.
pub open spec fn golden_clean(x: Seq<i32>, d: DspBlockDescriptor) -> bool
    decreases d, 0nat,
{
    match d {
        DspBlockDescriptor::Identity => true,
        DspBlockDescriptor::Composed(v) => clean_seq(x, v@),
        _ => leaf_clean(x, d),
    }
}

/// A sequence of descriptors runs on `x` without an arithmetic panic.
pub open spec fn clean_seq(x: Seq<i32>, s: Seq<DspBlockDescriptor>) -> bool
    decreases s, s.len(),
{
    if s.len() == 0 {
        true
    } else {
        &&& clean_seq(x, s.subrange(0, s.len() - 1))
        &&& (pipeline_seq(x, s.subrange(0, s.len() - 1)) matches Ok(y) ==> golden_clean(
            y,
            s[s.len() - 1],
        ))
    }
}

/// Every shift in the descriptor is below 64 bits.
pub open spec fn shifts_in_range(d: DspBlockDescriptor) -> bool
    decreases d, 0nat,
{
    match d {
        DspBlockDescriptor::Composed(v) => shifts_in_range_seq(v@),
        DspBlockDescriptor::Fir { frac_bits, .. } => frac_bits.0 < 64,
        DspBlockDescriptor::Gain { shift, .. } => shift < 64,
        _ => true,
    }
}

/// Every shift in every descriptor of the sequence is below 64 bits.
pub open spec fn shifts_in_range_seq(s: Seq<DspBlockDescriptor>) -> bool
    decreases s, s.len(),
{
    if s.len() == 0 {
        true
    } else {
        shifts_in_range_seq(s.subrange(0, s.len() - 1)) && shifts_in_range(s[s.len() - 1])
    }
}

/// A fault in a prefix of the sequence is the fault of the whole sequence.
pub proof fn lemma_pipeline_seq_fault_propagates(x: Seq<i32>, s: Seq<DspBlockDescriptor>, k: int, f: Fault)
    requires
        0 <= k <= s.len(),
        pipeline_seq(x, s.subrange(0, k)) == Err::<Seq<i32>, Fault>(f),
    ensures
        pipeline_seq(x, s) == Err::<Seq<i32>, Fault>(f),
    decreases s.len() - k,
{
    if k == s.len() {
        assert(s.subrange(0, k) =~= s);
    } else {
        let t = s.subrange(0, k + 1);
        assert(t.subrange(0, k) =~= s.subrange(0, k));
        lemma_pipeline_seq_fault_propagates(x, s, k + 1, f);
    }
}

/// A clean sequence has clean prefixes.
pub proof fn lemma_clean_seq_prefix(x: Seq<i32>, s: Seq<DspBlockDescriptor>, k: int)
    requires
        0 <= k <= s.len(),
        clean_seq(x, s),
    ensures
        clean_seq(x, s.subrange(0, k)),
    decreases s.len() - k,
{
    if k == s.len() {
        assert(s.subrange(0, k) =~= s);
    } else {
        lemma_clean_seq_prefix(x, s, k + 1);
        let t = s.subrange(0, k + 1);
        assert(t.subrange(0, k) =~= s.subrange(0, k));
    }
}

/// Execute a composed pipeline golden model.
///
/// Walks the descriptor tree, feeding the output of each block into the
/// input of the next; the first block that refuses its configuration
/// gives the error.
pub fn pipeline_golden(input: &[Sample], descriptor: &DspBlockDescriptor) -> (r: Result<
    Vec<Sample>,
    Error,
>)
    requires
        golden_clean(values(input@), *descriptor),
    ensures
        result_matches(values_result(r), spec_pipeline(values(input@), *descriptor)),
    decreases descriptor,
{
    match descriptor {
        DspBlockDescriptor::Identity => Ok(vstd::slice::slice_to_vec(input)),
        DspBlockDescriptor::Fir { coefficients, frac_bits, .. } => fir_convolve(
            input,
            coefficients.as_slice(),
            *frac_bits,
        ),
        DspBlockDescriptor::Cic { order, rate_factor, .. } => cic_decimate(input, *order, *rate_factor),
        DspBlockDescriptor::Delay { depth, .. } => Ok(delay_line(input, *depth)),
        DspBlockDescriptor::Gain { coefficient, shift, .. } => Ok(apply_gain(input, *coefficient, *shift)),
        DspBlockDescriptor::Decimator { factor, .. } => decimate(input, *factor),
        DspBlockDescriptor::Interpolator { factor, .. } => interpolate(input, *factor),
        DspBlockDescriptor::Accumulator { .. } => Ok(accumulate(input)),
        DspBlockDescriptor::Composed(blocks) => {
            let ghost x = values(input@);
            let mut data = vstd::slice::slice_to_vec(input);
            let mut i: usize = 0;
            assert(blocks@.subrange(0, 0) =~= Seq::<DspBlockDescriptor>::empty());
            while i < blocks.len()
                invariant
                    x == values(input@),
                    *descriptor == DspBlockDescriptor::Composed(*blocks),
                    clean_seq(x, blocks@),
                    i <= blocks.len(),
                    pipeline_seq(x, blocks@.subrange(0, i as int)) == Ok::<Seq<i32>, Fault>(values(data@)),
                decreases blocks.len() - i,
            {
                proof {
                    let t = blocks@.subrange(0, i + 1);
                    assert(t.subrange(0, i as int) =~= blocks@.subrange(0, i as int));
                    lemma_clean_seq_prefix(x, blocks@, i + 1);
                    assert(decreases_to!(*blocks => blocks[i as int]));
                    assert(decreases_to!(*descriptor => descriptor->Composed_0));
                }
                match pipeline_golden(data.as_slice(), &blocks[i]) {
                    Ok(next) => {
                        data = next;
                    },
                    Err(e) => {
                        proof {
                            let f = spec_pipeline(values(data@), blocks@[i as int])->Err_0;
                            lemma_pipeline_seq_fault_propagates(x, blocks@, i + 1, f);
                        }
                        return Err(e);
                    },
                }
                i = i + 1;
            }
            assert(blocks@.subrange(0, blocks@.len() as int) =~= blocks@);
            Ok(data)
        },
    }
}

/// Feed a result into a further sequence of descriptors; a fault passes through.
pub open spec fn then_run_seq(r: Result<Seq<i32>, Fault>, s: Seq<DspBlockDescriptor>) -> Result<Seq<i32>, Fault> {
    match r {
        Ok(y) => pipeline_seq(y, s),
        Err(f) => Err(f),
    }
}

/// Running a concatenation runs the first part, then the second.
pub proof fn lemma_pipeline_seq_append(x: Seq<i32>, s1: Seq<DspBlockDescriptor>, s2: Seq<DspBlockDescriptor>)
    ensures
        pipeline_seq(x, s1 + s2) == then_run_seq(pipeline_seq(x, s1), s2),
    decreases s2.len(),
{
    if s2.len() == 0 {
        assert(s1 + s2 =~= s1);
    } else {
        let s2p = s2.subrange(0, s2.len() - 1);
        lemma_pipeline_seq_append(x, s1, s2p);
        assert((s1 + s2).subrange(0, (s1 + s2).len() - 1) =~= s1 + s2p);
    }
}

/// A descriptor runs as the sequence it stands for.
pub proof fn lemma_pipeline_flat(x: Seq<i32>, d: DspBlockDescriptor)
    ensures
        spec_pipeline(x, d) == pipeline_seq(x, flat(d)),
{
    let e = Seq::<DspBlockDescriptor>::empty();
    assert(pipeline_seq(x, e) == Ok::<Seq<i32>, Fault>(x));
    match d {
        DspBlockDescriptor::Identity => {
            assert(flat(d) =~= e);
        },
        DspBlockDescriptor::Composed(v) => {},
        _ => {
            assert(flat(d).subrange(0, 0) =~= e);
        },
    }
}

/// Running a composition of descriptors is running the first, then feeding
/// its output to the second: the golden model of `a.compose(b)` is the
/// golden model of `a` followed by that of `b`.
pub proof fn lemma_compose_runs_in_sequence(
    x: Seq<i32>,
    a: DspBlockDescriptor,
    b: DspBlockDescriptor,
    r: DspBlockDescriptor,
)
    requires
        composes_to(a, b, r),
    ensures
        spec_pipeline(x, r) == then_run(spec_pipeline(x, a), b),
{
    lemma_pipeline_flat(x, a);
    lemma_pipeline_flat(x, r);
    lemma_pipeline_seq_append(x, flat(a), flat(b));
    match pipeline_seq(x, flat(a)) {
        Ok(y) => {
            lemma_pipeline_flat(y, b);
        },
        Err(f) => {},
    }
}

/// A descriptor whose shifts are all below 64 bits runs cleanly on every input.
pub proof fn lemma_shifts_in_range_clean(x: Seq<i32>, d: DspBlockDescriptor)
    requires
        shifts_in_range(d),
    ensures
        golden_clean(x, d),
    decreases d, 0nat,
{
    match d {
        DspBlockDescriptor::Composed(v) => {
            lemma_shifts_in_range_seq_clean(x, v@);
        },
        _ => {},
    }
}

/// A sequence whose shifts are all below 64 bits runs cleanly on every input.
pub proof fn lemma_shifts_in_range_seq_clean(x: Seq<i32>, s: Seq<DspBlockDescriptor>)
    requires
        shifts_in_range_seq(s),
    ensures
        clean_seq(x, s),
    decreases s, s.len(),
{
    if s.len() > 0 {
        let p = s.subrange(0, s.len() - 1);
        lemma_shifts_in_range_seq_clean(x, p);
        match pipeline_seq(x, p) {
            Ok(y) => {
                lemma_shifts_in_range_clean(y, s[s.len() - 1]);
            },
            Err(_) => {},
        }
    }
}

/// Once a clean prefix of a sequence has failed, the whole sequence runs
/// cleanly: no later block is reached.
pub proof fn lemma_clean_after_fault(x: Seq<i32>, s: Seq<DspBlockDescriptor>, k: int, f: Fault)
    requires
        0 <= k <= s.len(),
        clean_seq(x, s.subrange(0, k)),
        pipeline_seq(x, s.subrange(0, k)) == Err::<Seq<i32>, Fault>(f),
    ensures
        clean_seq(x, s),
    decreases s.len() - k,
{
    if k == s.len() {
        assert(s.subrange(0, k) =~= s);
    } else {
        let t = s.subrange(0, k + 1);
        assert(t.subrange(0, k) =~= s.subrange(0, k));
        assert(t.subrange(0, t.len() - 1) =~= s.subrange(0, k));
        lemma_pipeline_seq_fault_propagates(x, t, k, f);
        assert(clean_seq(x, t));
        lemma_clean_after_fault(x, s, k + 1, f);
    }
}

/// Whether `pipeline_golden` can run the descriptor on `input` without an
/// arithmetic panic: no block reached with data shifts right by 64 bits
/// or more.
pub fn golden_runs_clean(input: &[Sample], descriptor: &DspBlockDescriptor) -> (b: bool)
    ensures
        b == golden_clean(values(input@), *descriptor),
    decreases descriptor,
{
    match descriptor {
        DspBlockDescriptor::Fir { coefficients, frac_bits, .. } => coefficients.len() == 0
            || input.len() == 0 || frac_bits.value() < 64,
        DspBlockDescriptor::Gain { shift, .. } => input.len() == 0 || *shift < 64,
        DspBlockDescriptor::Composed(blocks) => {
            let ghost x = values(input@);
            let mut data = vstd::slice::slice_to_vec(input);
            let mut i: usize = 0;
            assert(blocks@.subrange(0, 0) =~= Seq::<DspBlockDescriptor>::empty());
            while i < blocks.len()
                invariant
                    x == values(input@),
                    *descriptor == DspBlockDescriptor::Composed(*blocks),
                    i <= blocks.len(),
                    clean_seq(x, blocks@.subrange(0, i as int)),
                    pipeline_seq(x, blocks@.subrange(0, i as int)) == Ok::<Seq<i32>, Fault>(values(data@)),
                decreases blocks.len() - i,
            {
                let ghost t = blocks@.subrange(0, i + 1);
                proof {
                    assert(t.subrange(0, i as int) =~= blocks@.subrange(0, i as int));
                    assert(t.subrange(0, t.len() - 1) =~= blocks@.subrange(0, i as int));
                    assert(t[t.len() - 1] == blocks@[i as int]);
                    assert(decreases_to!(*blocks => blocks[i as int]));
                    assert(decreases_to!(*descriptor => descriptor->Composed_0));
                }
                let c = golden_runs_clean(data.as_slice(), &blocks[i]);
                if !c {
                    proof {
                        if clean_seq(x, blocks@) {
                            lemma_clean_seq_prefix(x, blocks@, i + 1);
                        }
                    }
                    return false;
                }
                match pipeline_golden(data.as_slice(), &blocks[i]) {
                    Ok(next) => {
                        data = next;
                    },
                    Err(e) => {
                        proof {
                            let f = spec_pipeline(values(data@), blocks@[i as int])->Err_0;
                            assert(clean_seq(x, t));
                            assert(pipeline_seq(x, t) == Err::<Seq<i32>, Fault>(f));
                            lemma_clean_after_fault(x, blocks@, i + 1, f);
                        }
                        return true;
                    },
                }
                i = i + 1;
            }
            assert(blocks@.subrange(0, blocks@.len() as int) =~= blocks@);
            true
        },
        _ => true,
    }
}

/// Whether every shift of the descriptor is below 64 bits; such a
/// descriptor can be run by `pipeline_golden` on any input.
pub fn descriptor_shifts_in_range(d: &DspBlockDescriptor) -> (b: bool)
    ensures
        b == shifts_in_range(*d),
    decreases d,
{
    match d {
        DspBlockDescriptor::Fir { frac_bits, .. } => frac_bits.value() < 64,
        DspBlockDescriptor::Gain { shift, .. } => *shift < 64,
        DspBlockDescriptor::Composed(blocks) => {
            let mut ok = true;
            let mut i: usize = 0;
            assert(blocks@.subrange(0, 0) =~= Seq::<DspBlockDescriptor>::empty());
            while i < blocks.len()
                invariant
                    *d == DspBlockDescriptor::Composed(*blocks),
                    i <= blocks.len(),
                    ok == shifts_in_range_seq(blocks@.subrange(0, i as int)),
                decreases blocks.len() - i,
            {
                proof {
                    let t = blocks@.subrange(0, i + 1);
                    assert(t.subrange(0, i as int) =~= blocks@.subrange(0, i as int));
                    assert(decreases_to!(*blocks => blocks[i as int]));
                    assert(decreases_to!(*d => d->Composed_0));
                }
                let b = descriptor_shifts_in_range(&blocks[i]);
                ok = ok && b;
                i = i + 1;
            }
            assert(blocks@.subrange(0, blocks@.len() as int) =~= blocks@);
            ok
        },
        _ => true,
    }
}

/// An identity descriptor, or a composition of no blocks, passes its
/// input through unchanged.
pub proof fn lemma_empty_pipelines_pass_through(x: Seq<i32>, blocks: Vec<DspBlockDescriptor>)
    requires
        blocks@.len() == 0,
    ensures
        spec_pipeline(x, DspBlockDescriptor::Identity) == Ok::<Seq<i32>, Fault>(x),
        spec_pipeline(x, DspBlockDescriptor::Composed(blocks)) == Ok::<Seq<i32>, Fault>(x),
{
}

/// A single block run as a pipeline is that block's own golden model: a
/// FIR block convolves, a CIC block decimates (integrate, keep every
/// `rate`-th sample, comb), a delay prepends zeros, a gain scales, a
/// decimator keeps every `factor`-th sample, an interpolator stuffs zeros,
/// an accumulator keeps a running sum.
pub proof fn lemma_pipeline_runs_leaf_models(x: Seq<i32>, d: DspBlockDescriptor)
    ensures
        d matches DspBlockDescriptor::Fir { coefficients, frac_bits, .. } ==> spec_pipeline(x, d) == spec_fir(
            x,
            values(coefficients@),
            frac_bits.0,
        ),
        d matches DspBlockDescriptor::Cic { order, rate_factor, .. } ==> spec_pipeline(x, d) == spec_cic_decimate(
            x,
            order.0,
            rate_factor.0,
        ),
        d matches DspBlockDescriptor::Delay { depth, .. } ==> spec_pipeline(x, d) == Ok::<Seq<i32>, Fault>(
            spec_delay(x, depth.0 as nat),
        ),
        d matches DspBlockDescriptor::Gain { coefficient, shift, .. } ==> spec_pipeline(x, d) == Ok::<
            Seq<i32>,
            Fault,
        >(spec_gain(x, coefficient.0, shift)),
        d matches DspBlockDescriptor::Decimator { factor, .. } ==> spec_pipeline(x, d) == spec_decimate_result(
            x,
            factor.0,
        ),
        d matches DspBlockDescriptor::Interpolator { factor, .. } ==> spec_pipeline(x, d)
            == spec_interpolate_result(x, factor.0),
        d matches DspBlockDescriptor::Accumulator { .. } ==> spec_pipeline(x, d) == Ok::<Seq<i32>, Fault>(
            spec_accumulate(x),
        ),
{
}

/// A CIC block in a pipeline decimates: with a positive order and rate it
/// succeeds, and its output has one sample for every `rate` input samples
/// (rounding up), never more samples than it was given.
pub proof fn lemma_pipeline_cic_shortens(x: Seq<i32>, d: DspBlockDescriptor)
    requires
        d matches DspBlockDescriptor::Cic { order, rate_factor, .. } && order.0 >= 1 && rate_factor.0 >= 1,
    ensures
        spec_pipeline(x, d) matches Ok(y) && y.len() == ceil_div(x.len(), d->rate_factor.0 as nat)
            && y.len() <= x.len(),
{
    let m = d->order.0 as nat;
    let r = d->rate_factor.0 as nat;
    let i = integrate_n(x, m);
    lemma_integrate_n_len(x, m);
    let dec = spec_decimate(i, r);
    lemma_comb_n_len(dec, m);
    assert(ceil_div(x.len(), r) <= x.len()) by {
        let n = x.len() as int;
        let rr = r as int;
        assert(ceil_div(x.len(), r) == (n + rr - 1) / rr);
        if n == 0 {
            vstd::arithmetic::div_mod::lemma_basic_div(rr - 1, rr);
        } else {
            assert(n + rr - 1 <= rr * n) by (nonlinear_arith)
                requires
                    n >= 1,
                    rr >= 1,
            ;
            vstd::arithmetic::div_mod::lemma_div_is_ordered(n + rr - 1, rr * n, rr);
            vstd::arithmetic::div_mod::lemma_div_multiples_vanish(n, rr);
        }
    }
}

/// An interpolator block in a pipeline stuffs zeros: with a positive factor
/// `f` its output is `f` times as long, sample `i` of the input sits at
/// position `i * f`, and every other position holds zero.
pub proof fn lemma_pipeline_interpolator_stuffs_zeros(x: Seq<i32>, d: DspBlockDescriptor)
    requires
        d matches DspBlockDescriptor::Interpolator { factor, .. } && factor.0 >= 1,
    ensures
        spec_pipeline(x, d) matches Ok(y) && y.len() == x.len() * d->Interpolator_factor.0 && forall|i: int, j: int|
            0 <= i < x.len() && 0 <= j < d->Interpolator_factor.0 ==> #[trigger] y[i * d->Interpolator_factor.0 + j]
                == if j == 0 {
                x[i]
            } else {
                0i32
            },
{
    let f = d->Interpolator_factor.0 as int;
    let y = spec_interpolate(x, f as nat);
    assert forall|i: int, j: int| 0 <= i < x.len() && 0 <= j < f implies #[trigger] y[i * f + j] == if j == 0 {
        x[i]
    } else {
        0i32
    } by {
        vstd::arithmetic::div_mod::lemma_fundamental_div_mod_converse(i * f + j, f, i, j);
        assert(i * f + j < x.len() * f) by (nonlinear_arith)
            requires
                0 <= i < x.len(),
                0 <= j < f,
        ;
    }
}

/// A decimator block in a pipeline keeps every `f`-th sample, starting
/// from the first: its output has one sample per `f` inputs (rounding up)
/// and sample `i` of the output is input sample `i * f`.
pub proof fn lemma_pipeline_decimator_keeps(x: Seq<i32>, d: DspBlockDescriptor)
    requires
        d matches DspBlockDescriptor::Decimator { factor, .. } && factor.0 >= 1,
    ensures
        spec_pipeline(x, d) matches Ok(y) && y.len() == ceil_div(x.len(), d->Decimator_factor.0 as nat) && forall|i: int|
            0 <= i < y.len() ==> #[trigger] y[i] == x[i * d->Decimator_factor.0],
{
}

} // verus!
