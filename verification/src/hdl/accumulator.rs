//! Accumulator (running sum) as an IR graph.
//!
//! Registered state: the running sum and the previous valid flag.  When
//! `valid_in` is set the sum advances by `data_in`; the output is the new
//! sum.

use vstd::prelude::*;

use crate::error::Error;
use crate::hdl::common::{
    bin_op, mux, sample_wire, valid_wire, wire_at, zero_bits, zero_sample_init, zero_valid_init,
};
use crate::hdl::ir::{
    builder_wf, instrs_view, BinOp, HdlGraphBuilder, InstrView, OpView, WireTy,
};
use crate::hdl::clocked::{block_cycle, block_stream, input_env, input_value};
use crate::hdl::eval::{
    eval_bin, lemma_signed_wraps_unsigned, lemma_wrap_congruent, lemma_wrap_range,
    lemma_wrapping_add, read_wires, run, signed_value, wrap_signed,
};
use crate::hdl::raw::{dsp_interface, state_bits, RawDspBlock};
use vstd::arithmetic::power2::pow2;

verus! {

/// The wire types of the accumulator graph.
pub open spec fn accumulator_wires() -> Seq<WireTy> {
    seq![WireTy::Signed(32), WireTy::Bit, WireTy::Signed(32), WireTy::Bit, WireTy::Signed(32), WireTy::Signed(32)]
}

/// The gates of the accumulator graph: `sum = accum + data_in` and
/// `next_accum = valid_in ? sum : accum`.
pub open spec fn accumulator_instrs() -> Seq<InstrView> {
    seq![
        InstrView { op: OpView::Bin(BinOp::Add), inputs: seq![wire_at(0), wire_at(2)], output: wire_at(4) },
        InstrView { op: OpView::Mux, inputs: seq![wire_at(3), wire_at(0), wire_at(4)], output: wire_at(5) },
    ]
}

/// `b` is the accumulator block: its graph, wire layout and zero initial state.
pub open spec fn accumulator_block(b: RawDspBlock) -> bool {
    &&& b.graph.wires@ == accumulator_wires()
    &&& instrs_view(b.graph.instructions@) == accumulator_instrs()
    &&& b.input_wires@ == seq![wire_at(0), wire_at(1), wire_at(2), wire_at(3)]
    &&& b.output_wires@ == seq![wire_at(5), wire_at(3), wire_at(4), wire_at(1)]
    &&& b.initial_state.0@ == zero_bits(33)
    &&& b.state_wire_count == 2
    &&& dsp_interface(b)
}

/// Build an accumulator as a [`RawDspBlock`].
///
/// State wires: `[accum, prev_valid]`.  Data: `data_in`, `valid_in`.
/// Outputs: `[next_accum, valid_in, sum, prev_valid]`.
pub fn build_accumulator() -> (r: Result<RawDspBlock, Error>)
    ensures
        r matches Ok(b) && accumulator_block(b),
{
    // State wires.
    let (builder, accum) = HdlGraphBuilder::new().with_wire(sample_wire());
    let (builder, prev_valid) = builder.with_wire(valid_wire());
    // Input wires.
    let (builder, data_in) = builder.with_wire(sample_wire());
    let (builder, valid_in) = builder.with_wire(valid_wire());
    let ghost b4 = builder;
    // sum = accum + data_in (wrapping).
    let (builder, sum) = bin_op(builder, BinOp::Add, accum, data_in, sample_wire())?;
    let ghost b5 = builder;
    // next_accum = Mux(valid_in, accum, sum).
    let (builder, next_accum) = mux(builder, valid_in, accum, sum, sample_wire())?;
    let graph = builder.build();
    // State wires first, then data I/O.
    let input_wires = vec![accum, prev_valid, data_in, valid_in];
    let output_wires = vec![next_accum, valid_in, sum, prev_valid];
    let initial_state = zero_sample_init().concat(zero_valid_init());
    let b = RawDspBlock::new(graph, input_wires, output_wires, initial_state, 2);
    proof {
        assert(b4.wires@ =~= seq![WireTy::Signed(32), WireTy::Bit, WireTy::Signed(32), WireTy::Bit]);
        assert(b.graph.wires@ =~= accumulator_wires());
        assert(instrs_view(b4.instructions@) =~= Seq::<InstrView>::empty());
        assert(instrs_view(b.graph.instructions@) =~= accumulator_instrs());
        assert(builder_wf(b5));
        assert(b.input_wires@ =~= seq![wire_at(0), wire_at(1), wire_at(2), wire_at(3)]);
        assert(b.output_wires@ =~= seq![wire_at(5), wire_at(3), wire_at(4), wire_at(1)]);
        assert(b.initial_state.0@ =~= zero_bits(33));
        assert(b.input_wires@.subrange(0, 2) =~= seq![wire_at(0), wire_at(1)]);
        reveal_with_fuel(state_bits, 3);
    }
    Ok(b)
}

/// One cycle of the accumulator graph: the sum wire holds the wrapped sum
/// of the running total `a` and the sample `x`; the next total is that sum
/// when the input is valid, and `a` otherwise.
pub proof fn lemma_accumulator_cycle(
    env: Seq<Option<Seq<bool>>>,
    a: Seq<bool>,
    prev: Seq<bool>,
    x: Seq<bool>,
    valid: bool,
)
    requires
        env.len() >= 6,
        a.len() == 32,
        x.len() == 32,
        env[0] == Some(a),
        env[1] == Some(prev),
        env[2] == Some(x),
        env[3] == Some(seq![valid]),
    ensures
        run(env, accumulator_instrs()) matches Some(e) && e[4] matches Some(sum) && sum.len() == 32
            && signed_value(sum) == wrap_signed(signed_value(a) + signed_value(x), 32) && e[5] == Some(
            if valid {
                sum
            } else {
                a
            },
        ) && e[1] == Some(prev) && e[3] == Some(seq![valid]) && e.len() == env.len(),
{
    let s = accumulator_instrs();
    lemma_wrapping_add(a, x);
    let sum = eval_bin(BinOp::Add, a, x)->Some_0;
    let e4 = env.update(4, Some(sum));
    let e5 = e4.update(5, Some(if valid { sum } else { a }));
    assert(s.subrange(0, 0) =~= Seq::<InstrView>::empty());
    assert(run(env, s.subrange(0, 0)) == Some(env));
    assert(run(env, s.subrange(0, 1)) == Some(e4)) by {
        assert(s.subrange(0, 1).drop_last() =~= s.subrange(0, 0));
        assert(s.subrange(0, 1).last() == s[0]);
        assert(read_wires(env, s[0].inputs) == Some(seq![a, x]));
    }
    assert(run(env, s.subrange(0, 2)) == Some(e5)) by {
        assert(s.subrange(0, 2).drop_last() =~= s.subrange(0, 1));
        assert(s.subrange(0, 2).last() == s[1]);
        assert(read_wires(e4, s[1].inputs) == Some(seq![seq![valid], a, sum]));
    }
    assert(s.subrange(0, 2) =~= s);
}

/// The sample's contribution to the running sum: its signed value when
/// valid, nothing otherwise.
pub open spec fn valid_sample_value(input: Seq<Seq<bool>>) -> int {
    if input[1][0] {
        signed_value(input[0])
    } else {
        0
    }
}

/// The sum of the valid samples of a stream of `[sample, [valid]]` inputs.
pub open spec fn valid_sum(inputs: Seq<Seq<Seq<bool>>>) -> int
    decreases inputs.len(),
{
    if inputs.len() == 0 {
        0
    } else {
        valid_sample_value(inputs[0]) + valid_sum(inputs.drop_first())
    }
}

/// Every cycle input is a 32-bit sample followed by a one-bit valid flag.
pub open spec fn sample32_inputs(inputs: Seq<Seq<Seq<bool>>>) -> bool {
    forall|i: int|
        0 <= i < inputs.len() ==> (#[trigger] inputs[i]).len() == 2 && inputs[i][0].len() == 32
            && inputs[i][1].len() == 1
}

/// One clock cycle of the accumulator block: the data output is the
/// wrapped sum of the total and the sample, the output valid flag is the
/// previous cycle's; the total advances only on valid input.
pub proof fn lemma_accumulator_block_cycle(b: RawDspBlock, a: Seq<bool>, prev: Seq<bool>, x: Seq<bool>, valid: bool)
    requires
        accumulator_block(b),
        a.len() == 32,
        x.len() == 32,
    ensures
        block_cycle(b, seq![a, prev], seq![x, seq![valid]]) matches Some((next, out)) && out.len() == 2
            && out[0].len() == 32 && signed_value(out[0]) == wrap_signed(signed_value(a) + signed_value(x), 32)
            && out[1] == prev && next == seq![
            if valid {
                out[0]
            } else {
                a
            },
            seq![valid],
        ],
{
    let ins = seq![a, prev] + seq![x, seq![valid]];
    assert(ins =~= seq![a, prev, x, seq![valid]]);
    let env = input_env(6, b.input_wires@, ins);
    reveal_with_fuel(input_value, 5);
    assert(env[0] == Some(a));
    assert(env[1] == Some(prev));
    assert(env[2] == Some(x));
    assert(env[3] == Some(seq![valid]));
    lemma_accumulator_cycle(env, a, prev, x, valid);
    let e = run(env, accumulator_instrs())->Some_0;
    let sum = e[4]->Some_0;
    let outs = seq![if valid { sum } else { a }, seq![valid], sum, prev];
    assert(read_wires(e, b.output_wires@) == Some(outs));
    assert(outs.subrange(0, 2) =~= seq![if valid { sum } else { a }, seq![valid]]);
    assert(outs.subrange(2, 4) =~= seq![sum, prev]);
}

/// The accumulator block clocked over a stream from total `a`: the data
/// output of each cycle is the wrapped sum of `a`, the valid samples
/// before it and its own sample; the output valid flag is the input valid
/// flag of the cycle before (`prev` on the first).
pub proof fn lemma_accumulator_stream(b: RawDspBlock, a: Seq<bool>, prev: Seq<bool>, inputs: Seq<Seq<Seq<bool>>>)
    requires
        accumulator_block(b),
        a.len() == 32,
        sample32_inputs(inputs),
    ensures
        block_stream(b, seq![a, prev], inputs) matches Some(outs) && outs.len() == inputs.len() && forall|i: int|
            0 <= i < inputs.len() ==> (#[trigger] outs[i]).len() == 2 && outs[i][0].len() == 32
                && signed_value(outs[i][0]) == wrap_signed(
                signed_value(a) + valid_sum(inputs.subrange(0, i)) + signed_value(inputs[i][0]),
                32,
            ) && outs[i][1] == (if i == 0 {
                prev
            } else {
                seq![inputs[i - 1][1][0]]
            }),
    decreases inputs.len(),
{
    if inputs.len() > 0 {
        let x = inputs[0][0];
        let v = inputs[0][1][0];
        assert(inputs[0].len() == 2 && inputs[0][0].len() == 32 && inputs[0][1].len() == 1);
        assert(inputs[0][1] =~= seq![v]);
        assert(inputs[0] =~= seq![x, seq![v]]);
        lemma_accumulator_block_cycle(b, a, prev, x, v);
        let (next, out) = block_cycle(b, seq![a, prev], seq![x, seq![v]])->Some_0;
        let a2 = next[0];
        let rest = inputs.drop_first();
        assert(sample32_inputs(rest)) by {
            assert forall|i: int| 0 <= i < rest.len() implies (#[trigger] rest[i]).len() == 2 && rest[i][0].len()
                == 32 && rest[i][1].len() == 1 by {
                assert(rest[i] == inputs[i + 1]);
            }
        }
        assert(next =~= seq![a2, seq![v]]);
        lemma_accumulator_stream(b, a2, seq![v], rest);
        let outs_rest = block_stream(b, seq![a2, seq![v]], rest)->Some_0;
        let outs = seq![out] + outs_rest;
        assert(block_stream(b, seq![a, prev], inputs) == Some(outs));
        let p = pow2(32) as int;
        vstd::arithmetic::power2::lemma2_to64();
        let sa = signed_value(a);
        let c0 = valid_sample_value(inputs[0]);
        // The new total is congruent to `a` plus the first valid sample.
        assert(signed_value(a2) % p == (sa + c0) % p) by {
            lemma_signed_wraps_unsigned(out[0]);
            lemma_wrap_range(sa + signed_value(x), 32);
            if !v {
                assert(c0 == 0);
            }
        }
        assert forall|i: int| 0 <= i < inputs.len() implies (#[trigger] outs[i]).len() == 2 && outs[i][0].len()
            == 32 && signed_value(outs[i][0]) == wrap_signed(
            sa + valid_sum(inputs.subrange(0, i)) + signed_value(inputs[i][0]),
            32,
        ) && outs[i][1] == (if i == 0 {
            prev
        } else {
            seq![inputs[i - 1][1][0]]
        }) by {
            if i == 0 {
                assert(inputs.subrange(0, 0) =~= Seq::<Seq<Seq<bool>>>::empty());
            } else {
                let j = i - 1;
                assert(outs[i] == outs_rest[j]);
                assert(rest[j] == inputs[i]);
                assert(inputs.subrange(0, i).drop_first() =~= rest.subrange(0, j));
                assert(inputs.subrange(0, i)[0] == inputs[0]);
                let k = valid_sum(rest.subrange(0, j)) + signed_value(inputs[i][0]);
                assert(valid_sum(inputs.subrange(0, i)) == c0 + valid_sum(rest.subrange(0, j)));
                vstd::arithmetic::div_mod::lemma_add_mod_noop(signed_value(a2), k, p);
                vstd::arithmetic::div_mod::lemma_add_mod_noop(sa + c0, k, p);
                lemma_wrap_congruent(signed_value(a2) + k, sa + c0 + k, 32);
                if j == 0 {
                    assert(outs_rest[0][1] == seq![v]);
                } else {
                    assert(rest[j - 1] == inputs[i - 1]);
                }
            }
        }
    }
}

/// The accumulator keeps a running sum: clocked from its zero initial
/// state, the data output of each cycle is the wrapped sum of the valid
/// samples before it and its own sample, and the output valid flag is the
/// input valid flag of the cycle before (false on the first).
pub proof fn lemma_accumulator_running_sum(b: RawDspBlock, inputs: Seq<Seq<Seq<bool>>>)
    requires
        accumulator_block(b),
        sample32_inputs(inputs),
    ensures
        block_stream(
            b,
            seq![b.initial_state.0@.subrange(0, 32), b.initial_state.0@.subrange(32, 33)],
            inputs,
        ) matches Some(outs) && outs.len() == inputs.len() && forall|i: int|
            0 <= i < inputs.len() ==> (#[trigger] outs[i]).len() == 2 && signed_value(outs[i][0])
                == wrap_signed(valid_sum(inputs.subrange(0, i)) + signed_value(inputs[i][0]), 32)
                && outs[i][1] == (if i == 0 {
                seq![false]
            } else {
                seq![inputs[i - 1][1][0]]
            }),
{
    let a = b.initial_state.0@.subrange(0, 32);
    let prev = b.initial_state.0@.subrange(32, 33);
    assert(a =~= zero_bits(32));
    assert(prev =~= seq![false]);
    assert(signed_value(a) == 0) by {
        crate::hdl::eval::lemma_unsigned_zero(32);
    }
    lemma_accumulator_stream(b, a, prev, inputs);
}

} // verus!
