//! Build a composed hardware pipeline from a `DspBlockDescriptor`.
//!
//! Each leaf block is built by its own builder; a composed descriptor is
//! folded from the identity block with `compose_raw`.

use vstd::prelude::*;

use crate::error::{raises, Error, Fault};
use crate::hdl::accumulator::{accumulator_block, build_accumulator};
use crate::hdl::cic::{build_cic, cic_block};
use crate::hdl::common::{spec_bits_for_value, zero_bits};
use crate::hdl::decimator::{build_decimator, decimator_block};
use crate::hdl::delay::{build_delay, delay_block, effective_depth};
use crate::hdl::fir::{build_fir, fir_block, fir_empty_message};
use crate::hdl::gain::{build_gain, gain_block};
use crate::hdl::interpolator::{build_interpolator, interpolator_block};
use crate::hdl::raw::{
    compose_raw, composes_raw, dsp_interface, identity_block, identity_raw,
    lemma_compose_keeps_interface, lemma_interfaces_composable, RawDspBlock,
};
use crate::interpret::descriptor::DspBlockDescriptor;
use crate::sample::element::{values, Sample};
use crate::hdl::gain::{gain_inputs, lemma_gain_scales_with_latency};
use crate::hdl::interpolator::{interpolator_idle, interpolator_inputs_ok, lemma_interpolator_stuffs_zeros};
use crate::hdl::accumulator::{lemma_accumulator_running_sum, sample32_inputs, valid_sum};
use crate::hdl::decimator::{count_set, lemma_decimator_keeps_every_factor_th, sample_valid_inputs, valid_flags};
use crate::hdl::delay::{delay_inputs_ok, lemma_delay_delays_valid_samples, valid_samples};
use crate::hdl::fir::{fir_inputs_ok, fir_tap_samples, fir_value, fir_window, lemma_fir_convolves};
use crate::hdl::cic::lemma_cic_keeps_every_rate_th;
use crate::hdl::clocked::block_stream;
use crate::hdl::eval::{signed_value, wrap_signed};
use crate::hdl::common::i32_bits;

verus! {

/// The configuration fault the hardware build of a leaf block reports, if any.
pub open spec fn leaf_build_fault(d: DspBlockDescriptor) -> Option<Fault> {
    match d {
        DspBlockDescriptor::Fir { coefficients, .. } => if coefficients@.len() == 0 {
            Some(Fault::EmptyCoefficients)
        } else {
            None
        },
        DspBlockDescriptor::Cic { order, rate_factor, .. } => if order.0 == 0 {
            Some(Fault::ZeroOrder)
        } else if rate_factor.0 == 0 {
            Some(Fault::InvalidRateFactor { factor: 0 })
        } else {
            None
        },
        DspBlockDescriptor::Decimator { factor, .. } => if factor.0 == 0 {
            Some(Fault::InvalidRateFactor { factor: 0 })
        } else {
            None
        },
        DspBlockDescriptor::Interpolator { factor, .. } => if factor.0 == 0 {
            Some(Fault::InvalidRateFactor { factor: 0 })
        } else {
            None
        },
        _ => None,
    }
}

/// The first configuration fault of the hardware build, in pipeline order.
pub open spec fn build_fault(d: DspBlockDescriptor) -> Option<Fault>
    decreases d, 0nat,
{
    match d {
        DspBlockDescriptor::Composed(v) => build_fault_seq(v@),
        _ => leaf_build_fault(d),
    }
}

/// The first configuration fault of a sequence of descriptors.
pub open spec fn build_fault_seq(s: Seq<DspBlockDescriptor>) -> Option<Fault>
    decreases s, s.len(),
{
    if s.len() == 0 {
        None
    } else {
        match build_fault_seq(s.subrange(0, s.len() - 1)) {
            Some(f) => Some(f),
            None => build_fault(s[s.len() - 1]),
        }
    }
}

/// `e` is the error the hardware build reports for fault `f`.
pub open spec fn build_raises(e: Error, f: Fault) -> bool {
    match f {
        Fault::EmptyCoefficients => e matches Error::Fir(m) && m@ == fir_empty_message(),
        _ => raises(e, f),
    }
}

/// The number of state wires of a leaf block's hardware.
pub open spec fn leaf_state_wires(d: DspBlockDescriptor) -> nat {
    match d {
        DspBlockDescriptor::Fir { coefficients, .. } => coefficients@.len(),
        DspBlockDescriptor::Cic { order, .. } => (2 * order.0 + 1) as nat,
        DspBlockDescriptor::Delay { depth, .. } => effective_depth(depth.0) + 1,
        DspBlockDescriptor::Gain { .. } => 2,
        DspBlockDescriptor::Decimator { .. } => 1,
        DspBlockDescriptor::Interpolator { .. } => 3,
        DspBlockDescriptor::Accumulator { .. } => 2,
        _ => 0,
    }
}

/// The number of state wires of a descriptor's hardware: the sum over its
/// blocks.
pub open spec fn spec_state_wires(d: DspBlockDescriptor) -> nat
    decreases d, 0nat,
{
    match d {
        DspBlockDescriptor::Composed(v) => state_wires_seq(v@),
        _ => leaf_state_wires(d),
    }
}

/// The number of state wires of a sequence of descriptors.
pub open spec fn state_wires_seq(s: Seq<DspBlockDescriptor>) -> nat
    decreases s, s.len(),
{
    if s.len() == 0 {
        0
    } else {
        state_wires_seq(s.subrange(0, s.len() - 1)) + spec_state_wires(s[s.len() - 1])
    }
}

/// The number of initial-state bits of a leaf block's hardware.
pub open spec fn leaf_state_len(d: DspBlockDescriptor) -> nat {
    match d {
        DspBlockDescriptor::Fir { coefficients, .. } => 32 * coefficients@.len(),
        DspBlockDescriptor::Cic { order, rate_factor, .. } => (64 * order.0 + spec_bits_for_value(
            rate_factor.0 as nat,
        )) as nat,
        DspBlockDescriptor::Delay { depth, .. } => 32 * effective_depth(depth.0) + spec_bits_for_value(
            effective_depth(depth.0),
        ),
        DspBlockDescriptor::Gain { .. } => 33,
        DspBlockDescriptor::Decimator { factor, .. } => spec_bits_for_value(factor.0 as nat),
        DspBlockDescriptor::Interpolator { factor, .. } => spec_bits_for_value(factor.0 as nat) + 33,
        DspBlockDescriptor::Accumulator { .. } => 33,
        _ => 0,
    }
}

/// The number of initial-state bits of a descriptor's hardware: the sum
/// over its blocks.
pub open spec fn spec_state_len(d: DspBlockDescriptor) -> nat
    decreases d, 0nat,
{
    match d {
        DspBlockDescriptor::Composed(v) => state_len_seq(v@),
        _ => leaf_state_len(d),
    }
}

/// The number of initial-state bits of a sequence of descriptors.
pub open spec fn state_len_seq(s: Seq<DspBlockDescriptor>) -> nat
    decreases s, s.len(),
{
    if s.len() == 0 {
        0
    } else {
        state_len_seq(s.subrange(0, s.len() - 1)) + spec_state_len(s[s.len() - 1])
    }
}

/// `b` is what the leaf builder makes for descriptor `d`.
pub open spec fn leaf_block(d: DspBlockDescriptor, b: RawDspBlock) -> bool {
    match d {
        DspBlockDescriptor::Fir { coefficients, frac_bits, .. } => fir_block(
            b,
            values(coefficients@),
            frac_bits.0 as u32,
        ),
        DspBlockDescriptor::Cic { order, rate_factor, .. } => cic_block(b, order.0, rate_factor.0),
        DspBlockDescriptor::Delay { depth, .. } => delay_block(b, depth.0),
        DspBlockDescriptor::Gain { coefficient, shift, .. } => gain_block(b, coefficient.0, shift),
        DspBlockDescriptor::Decimator { factor, .. } => decimator_block(b, factor.0),
        DspBlockDescriptor::Interpolator { factor, .. } => interpolator_block(b, factor.0),
        DspBlockDescriptor::Accumulator { .. } => accumulator_block(b),
        _ => true,
    }
}

/// `b` is the hardware of descriptor `d`: the identity block, the leaf
/// builder's block, or, for a composed descriptor, its blocks folded from
/// the identity block with `compose_raw`.
pub open spec fn pipeline_block(d: DspBlockDescriptor, b: RawDspBlock) -> bool
    decreases d, 0nat,
{
    match d {
        DspBlockDescriptor::Identity => identity_block(b),
        DspBlockDescriptor::Composed(v) => folded_block(v@, b),
        _ => leaf_block(d, b),
    }
}

/// `b` is the fold of the hardware of the descriptors `s`, from the
/// identity block, with `compose_raw`.
pub open spec fn folded_block(s: Seq<DspBlockDescriptor>, b: RawDspBlock) -> bool
    decreases s, s.len(),
{
    if s.len() == 0 {
        identity_block(b)
    } else {
        exists|a: RawDspBlock, c: RawDspBlock|
            #![trigger composes_raw(a, c, b)]
            folded_block(s.subrange(0, s.len() - 1), a) && pipeline_block(s[s.len() - 1], c)
                && composes_raw(a, c, b)
    }
}

/// A fault in a prefix, or the first fault after a clean prefix, is the
/// fault of the whole sequence.
proof fn lemma_build_fault_extends(s: Seq<DspBlockDescriptor>, i: int, f: Fault)
    requires
        0 <= i < s.len(),
        build_fault_seq(s.subrange(0, i)) is None,
        build_fault(s[i]) == Some(f),
    ensures
        build_fault_seq(s) == Some(f),
    decreases s.len() - i,
{
    let t = s.subrange(0, i + 1);
    assert(t.subrange(0, i) =~= s.subrange(0, i));
    assert(build_fault_seq(t) == Some(f));
    lemma_fault_prefix_stays(s, i + 1, f);
}

/// Once a prefix has a fault, every longer prefix has the same fault.
proof fn lemma_fault_prefix_stays(s: Seq<DspBlockDescriptor>, j: int, f: Fault)
    requires
        0 <= j <= s.len(),
        build_fault_seq(s.subrange(0, j)) == Some(f),
    ensures
        build_fault_seq(s) == Some(f),
    decreases s.len() - j,
{
    if j < s.len() {
        let t = s.subrange(0, j + 1);
        assert(t.subrange(0, j) =~= s.subrange(0, j));
        lemma_fault_prefix_stays(s, j + 1, f);
    } else {
        assert(s.subrange(0, j) =~= s);
    }
}

/// The sample values of a coefficient list.
fn coefficient_values(coefficients: &Vec<Sample>) -> (r: Vec<i32>)
    ensures
        r@ == values(coefficients@),
{
    let mut out: Vec<i32> = Vec::new();
    let mut k: usize = 0;
    while k < coefficients.len()
        invariant
            k <= coefficients@.len(),
            out@ == values(coefficients@.subrange(0, k as int)),
        decreases coefficients@.len() - k,
    {
        out.push(coefficients[k].value());
        k = k + 1;
        assert(out@ =~= values(coefficients@.subrange(0, k as int)));
    }
    assert(coefficients@.subrange(0, k as int) =~= coefficients@);
    out
}

/// Build a [`RawDspBlock`] pipeline from a descriptor.
///
/// Leaves dispatch to their block builders; a composed descriptor folds
/// its blocks from the identity block with [`compose_raw`].  The first
/// block (in pipeline order) whose configuration is refused gives the
/// error.  A FIR block's shift is its fractional bit count truncated to
/// 32 bits.
pub fn build_pipeline(desc: &DspBlockDescriptor) -> (r: Result<RawDspBlock, Error>)
    ensures
        build_fault(*desc) is None ==> (r matches Ok(b) && pipeline_block(*desc, b)
            && dsp_interface(b) && b.state_wire_count == spec_state_wires(*desc)
            && b.initial_state.0@ == zero_bits(spec_state_len(*desc))),
        build_fault(*desc) matches Some(f) ==> (r matches Err(e) && build_raises(e, f)),
    decreases desc,
{
    match desc {
        DspBlockDescriptor::Identity => identity_raw(),
        DspBlockDescriptor::Delay { depth, .. } => build_delay(depth.value()),
        DspBlockDescriptor::Gain { coefficient, shift, .. } => build_gain(coefficient.value(), *shift),
        DspBlockDescriptor::Decimator { factor, .. } => build_decimator(factor.value()),
        DspBlockDescriptor::Interpolator { factor, .. } => build_interpolator(factor.value()),
        DspBlockDescriptor::Accumulator { .. } => build_accumulator(),
        DspBlockDescriptor::Fir { coefficients, frac_bits, .. } => {
            #[verifier::truncate]
            let shift = frac_bits.value() as u32;
            let coeff_values = coefficient_values(coefficients);
            build_fir(coeff_values.as_slice(), shift)
        },
        DspBlockDescriptor::Cic { order, rate_factor, .. } => build_cic(order.value(), rate_factor.value()),
        DspBlockDescriptor::Composed(blocks) => {
            let mut acc = identity_raw()?;
            let mut i: usize = 0;
            assert(blocks@.subrange(0, 0) =~= Seq::<DspBlockDescriptor>::empty());
            while i < blocks.len()
                invariant
                    *desc == DspBlockDescriptor::Composed(*blocks),
                    i <= blocks@.len(),
                    build_fault_seq(blocks@.subrange(0, i as int)) is None,
                    dsp_interface(acc),
                    acc.state_wire_count == state_wires_seq(blocks@.subrange(0, i as int)),
                    acc.initial_state.0@ == zero_bits(state_len_seq(blocks@.subrange(0, i as int))),
                    folded_block(blocks@.subrange(0, i as int), acc),
                decreases blocks@.len() - i,
            {
                proof {
                    let t = blocks@.subrange(0, i + 1);
                    assert(t.subrange(0, i as int) =~= blocks@.subrange(0, i as int));
                    assert(decreases_to!(*blocks => blocks[i as int]));
                    assert(decreases_to!(*desc => desc->Composed_0));
                }
                let block = match build_pipeline(&blocks[i]) {
                    Ok(b) => b,
                    Err(e) => {
                        proof {
                            let f = build_fault(blocks@[i as int])->Some_0;
                            lemma_build_fault_extends(blocks@, i as int, f);
                        }
                        return Err(e);
                    },
                };
                let ghost f0 = acc;
                let ghost g0 = block;
                proof {
                    lemma_interfaces_composable(acc, block);
                }
                let composed = match compose_raw(acc, block) {
                    Ok(c) => c,
                    Err(e) => {
                        return Err(e);
                    },
                };
                proof {
                    lemma_compose_keeps_interface(f0, g0, composed);
                    assert(composed.initial_state.0@ =~= zero_bits(
                        state_len_seq(blocks@.subrange(0, i + 1)),
                    ));
                    let t = blocks@.subrange(0, i + 1);
                    assert(t.subrange(0, i as int) =~= blocks@.subrange(0, i as int));
                    assert(t[i as int] == blocks@[i as int]);
                    assert(folded_block(t.subrange(0, t.len() - 1), f0) && pipeline_block(
                        t[t.len() - 1],
                        g0,
                    ) && composes_raw(f0, g0, composed));
                    assert(folded_block(t, composed));
                }
                acc = composed;
                i = i + 1;
            }
            assert(blocks@.subrange(0, blocks@.len() as int) =~= blocks@);
            Ok(acc)
        },
    }
}

/// The hardware of a single block is that block's builder applied to the
/// descriptor's own parameters: a gain's coefficient and shift, a delay's
/// depth, a decimator's or interpolator's factor, a FIR block's
/// coefficients and fractional bits, a CIC block's order and rate factor.
pub proof fn lemma_pipeline_block_is_leaf_builder(d: DspBlockDescriptor, b: RawDspBlock)
    requires
        pipeline_block(d, b),
    ensures
        d matches DspBlockDescriptor::Gain { coefficient, shift, .. } ==> gain_block(b, coefficient.0, shift),
        d matches DspBlockDescriptor::Delay { depth, .. } ==> delay_block(b, depth.0),
        d matches DspBlockDescriptor::Decimator { factor, .. } ==> decimator_block(b, factor.0),
        d matches DspBlockDescriptor::Interpolator { factor, .. } ==> interpolator_block(b, factor.0),
        d is Accumulator ==> accumulator_block(b),
        d matches DspBlockDescriptor::Fir { coefficients, frac_bits, .. } ==> fir_block(
            b,
            values(coefficients@),
            frac_bits.0 as u32,
        ),
        d matches DspBlockDescriptor::Cic { order, rate_factor, .. } ==> cic_block(b, order.0, rate_factor.0),
{
}

/// The hardware of a gain descriptor with coefficient `c` and shift `s`
/// outputs, one cycle late, each sample times `c` divided by `2^s`
/// (rounding down, wrapped to 32 bits) with its valid flag; the first
/// output is zero, not valid.
pub proof fn lemma_pipeline_gain_hardware(d: DspBlockDescriptor, b: RawDspBlock, inputs: Seq<Seq<Seq<bool>>>)
    requires
        d is Gain,
        pipeline_block(d, b),
        gain_inputs(inputs),
    ensures
        block_stream(
            b,
            seq![b.initial_state.0@.subrange(0, 32), b.initial_state.0@.subrange(32, 33)],
            inputs,
        ) matches Some(outs) && outs.len() == inputs.len() && forall|i: int|
            0 <= i < inputs.len() ==> (#[trigger] outs[i]).len() == 2 && if i == 0 {
                signed_value(outs[i][0]) == 0 && outs[i][1] == seq![false]
            } else {
                signed_value(outs[i][0]) == wrap_signed(
                    (signed_value(inputs[i - 1][0]) * d->Gain_coefficient.0) / (vstd::arithmetic::power2::pow2(
                        d->Gain_shift as nat,
                    ) as int),
                    32,
                ) && outs[i][1] == seq![inputs[i - 1][1][0]]
            },
{
    lemma_gain_scales_with_latency(b, d->Gain_coefficient.0, d->Gain_shift, inputs);
}

/// The hardware of an accumulator descriptor outputs the wrapped running
/// sum of the valid samples before each cycle plus that cycle's sample,
/// with the previous cycle's valid flag.
pub proof fn lemma_pipeline_accumulator_hardware(d: DspBlockDescriptor, b: RawDspBlock, inputs: Seq<Seq<Seq<bool>>>)
    requires
        d is Accumulator,
        pipeline_block(d, b),
        sample32_inputs(inputs),
    ensures
        block_stream(
            b,
            seq![b.initial_state.0@.subrange(0, 32), b.initial_state.0@.subrange(32, 33)],
            inputs,
        ) matches Some(outs) && outs.len() == inputs.len() && forall|i: int|
            0 <= i < inputs.len() ==> (#[trigger] outs[i]).len() == 2 && signed_value(outs[i][0])
                == wrap_signed(valid_sum(inputs.subrange(0, i)) + signed_value(inputs[i][0]), 32)
                && outs[i][1] == (if i == 0 {
                seq![false]
            } else {
                seq![inputs[i - 1][1][0]]
            }),
{
    lemma_accumulator_running_sum(b, inputs);
}

/// The hardware of a decimator descriptor with factor `f` passes every
/// sample through and flags valid exactly the valid inputs with a multiple
/// of `f` valid inputs before them.
pub proof fn lemma_pipeline_decimator_hardware(d: DspBlockDescriptor, b: RawDspBlock, inputs: Seq<Seq<Seq<bool>>>)
    requires
        d matches DspBlockDescriptor::Decimator { factor, .. } && factor.0 > 0,
        pipeline_block(d, b),
        sample_valid_inputs(inputs),
    ensures
        block_stream(b, seq![b.initial_state.0@], inputs) matches Some(outs) && outs.len() == inputs.len()
            && forall|i: int|
            0 <= i < inputs.len() ==> #[trigger] outs[i] == seq![
                inputs[i][0],
                seq![
                    inputs[i][1][0] && (count_set(valid_flags(inputs).subrange(0, i)) as int) % (
                    d->Decimator_factor.0 as int) == 0,
                ],
            ],
{
    lemma_decimator_keeps_every_factor_th(b, d->Decimator_factor.0, inputs);
}

/// The hardware of a delay descriptor of depth `d` (at least one) outputs,
/// on each valid cycle, the valid sample `d` places back (zero before the
/// line fills), valid once `d` valid samples have entered.
pub proof fn lemma_pipeline_delay_hardware(d: DspBlockDescriptor, b: RawDspBlock, inputs: Seq<Seq<Seq<bool>>>)
    requires
        d is Delay,
        pipeline_block(d, b),
        delay_inputs_ok(inputs),
    ensures
        ({
            let dd = effective_depth(d->Delay_depth.0);
            let init = b.initial_state.0@;
            block_stream(
                b,
                Seq::new(dd, |k: int| init.subrange(32 * k, 32 * k + 32)) + seq![init.subrange(32 * dd as int, init.len() as int)],
                inputs,
            ) matches Some(outs) && outs.len() == inputs.len() && forall|i: int|
                0 <= i < inputs.len() ==> #[trigger] outs[i] == if inputs[i][1][0] {
                    let s = valid_samples(inputs.subrange(0, i));
                    seq![
                        if s.len() >= dd {
                            s[s.len() - dd]
                        } else {
                            zero_bits(32)
                        },
                        seq![s.len() >= dd],
                    ]
                } else {
                    seq![i32_bits(0), seq![false]]
                }
        }),
{
    lemma_delay_delays_valid_samples(b, d->Delay_depth.0, inputs);
}

/// The hardware of a FIR descriptor convolves with its coefficients,
/// shifted right by its fractional bits.
pub proof fn lemma_pipeline_fir_hardware(d: DspBlockDescriptor, b: RawDspBlock, inputs: Seq<Seq<Seq<bool>>>)
    requires
        d matches DspBlockDescriptor::Fir { coefficients, .. } && coefficients@.len() >= 1,
        pipeline_block(d, b),
        fir_inputs_ok(inputs),
    ensures
        ({
            let coefs = values(d->Fir_coefficients@);
            let n = coefs.len();
            let init = b.initial_state.0@;
            let zeros = Seq::new(n, |k: int| zero_bits(32));
            block_stream(b, Seq::new(n, |k: int| init.subrange(32 * k, 32 * k + 32)), inputs) matches Some(outs)
                && outs.len() == inputs.len() && forall|i: int|
                0 <= i < inputs.len() ==> (#[trigger] outs[i]).len() == 2 && outs[i][1] == seq![inputs[i][1][0]] && if inputs[i][1][0] {
                    signed_value(outs[i][0]) == fir_value(
                        fir_tap_samples(inputs[i][0], fir_window(valid_samples(inputs.subrange(0, i)), zeros)),
                        coefs,
                        d->Fir_frac_bits.0 as u32,
                    )
                } else {
                    outs[i][0] == i32_bits(0)
                }
        }),
{
    lemma_fir_convolves(b, values(d->Fir_coefficients@), d->Fir_frac_bits.0 as u32, inputs);
}

/// The hardware of a CIC descriptor with rate factor `r` flags its output
/// valid exactly on the valid cycles with a multiple of `r` valid inputs
/// before them, and outputs zero on every other cycle.
pub proof fn lemma_pipeline_cic_hardware(d: DspBlockDescriptor, b: RawDspBlock, inputs: Seq<Seq<Seq<bool>>>)
    requires
        d matches DspBlockDescriptor::Cic { order, rate_factor, .. } && order.0 >= 1 && rate_factor.0 >= 1,
        pipeline_block(d, b),
        sample32_inputs(inputs),
    ensures
        ({
            let m = d->order.0 as int;
            let cwn = spec_bits_for_value(d->rate_factor.0 as nat) as int;
            let init = b.initial_state.0@;
            let state = Seq::new(d->order.0 as nat, |k: int| init.subrange(32 * k, 32 * k + 32)) + seq![
                init.subrange(32 * m, 32 * m + cwn),
            ] + Seq::new(d->order.0 as nat, |k: int| init.subrange(32 * m + cwn + 32 * k, 32 * m + cwn + 32 * k + 32));
            block_stream(b, state, inputs) matches Some(outs) && outs.len() == inputs.len() && forall|i: int|
                0 <= i < inputs.len() ==> (#[trigger] outs[i]).len() == 2 && outs[i][1] == seq![
                    inputs[i][1][0] && (count_set(valid_flags(inputs).subrange(0, i)) as int) % (d->rate_factor.0 as int) == 0,
                ] && (!outs[i][1][0] ==> outs[i][0] == i32_bits(0))
        }),
{
    lemma_cic_keeps_every_rate_th(b, d->order.0, d->rate_factor.0, inputs);
}

/// The hardware of an interpolator descriptor with factor `f` stuffs
/// zeros: from an idle state holding `h`, a valid sample `x` is output at
/// once and followed by `f - 1` zeros, all valid, after which the block is
/// idle again holding `x`; an invalid input outputs zero, not valid, and
/// leaves it idle.
pub proof fn lemma_pipeline_interpolator_hardware(
    d: DspBlockDescriptor,
    b: RawDspBlock,
    h: Seq<bool>,
    inputs: Seq<Seq<Seq<bool>>>,
)
    requires
        d matches DspBlockDescriptor::Interpolator { factor, .. } && factor.0 > 0,
        pipeline_block(d, b),
        interpolator_inputs_ok(inputs),
        inputs.len() > 0,
    ensures
        ({
            let f = d->Interpolator_factor.0;
            block_stream(b, interpolator_idle(h, f), inputs) matches Some(outs) && outs.len() == inputs.len() && if inputs[0][1][0] {
                let x = inputs[0][0];
                &&& outs[0] == seq![x, seq![true]]
                &&& forall|k: int| 1 <= k < f && k < inputs.len() ==> #[trigger] outs[k] == seq![i32_bits(0), seq![true]]
                &&& f < inputs.len() ==> block_stream(b, interpolator_idle(x, f), inputs.subrange(f as int, inputs.len() as int))
                    == Some(outs.subrange(f as int, outs.len() as int))
            } else {
                &&& outs[0] == seq![i32_bits(0), seq![false]]
                &&& block_stream(b, interpolator_idle(h, f), inputs.subrange(1, inputs.len() as int)) == Some(
                    outs.subrange(1, outs.len() as int),
                )
            }
        }),
{
    lemma_interpolator_stuffs_zeros(b, d->Interpolator_factor.0, h, inputs);
}

} // verus!
