//! Interpolator (zero-stuffing upsampler) as an IR graph.
//!
//! On a valid input the sample is latched and emitted; the following
//! `factor - 1` cycles emit zeros while a counter runs; the output is
//! valid whenever a sequence is active or a sample arrives.

use vstd::prelude::*;

use crate::error::Error;
use crate::hdl::common::{
    bin_at, bin_op, bits_for_value, const_at, const_bit, const_signed_32, const_unsigned, i32_bits, mux, mux_at, not_gate,
    sample_wire, spec_bits_for_value, u128_bits, valid_wire, wire_at, zero_bits, zero_sample_init,
    zero_valid_init, repeat_bit,
};
use crate::hdl::ir::{builder_wf, instrs_view, BinOp, HdlGraphBuilder, InstrView, OpView, WireTy};
use crate::hdl::clocked::{block_cycle, block_stream, input_env, lemma_input_env_in_order};
use crate::hdl::eval::{lemma_run_append, lemma_u128_bits_value, read_wires, run};
use crate::hdl::raw::{dsp_interface, state_bits, RawDspBlock};
use crate::interpret::morphism::{bit_length, lemma_bit_length_bound, lemma_bit_length_bounds};
use vstd::arithmetic::power2::{lemma_pow2_strictly_increases, pow2};

verus! {

/// The wire types of the interpolator graph, with a `cw`-bit counter.
pub open spec fn interpolator_wires(cw: u32) -> Seq<WireTy> {
    let c = WireTy::Bits(cw);
    let s = WireTy::Signed(32);
    let b = WireTy::Bit;
    seq![s, c, b, s, b, s, c, c, c, b, b, c, b, b, s, c, b, c, b, s, s, b, s, s, c, c, b, b]
}

/// The gates of the interpolator graph.
///
/// Three cases are combined by two levels of muxes: an active sequence
/// emits the held sample then zeros while the counter runs to the factor;
/// an idle block with a valid input latches it and starts a sequence (when
/// the factor exceeds 1); an idle block without input stays idle.
pub open spec fn interpolator_instrs(factor: usize, cw: u32) -> Seq<InstrView> {
    let c = WireTy::Bits(cw);
    seq![
        const_at(i32_bits(0), WireTy::Signed(32), 5),
        const_at(u128_bits(0, cw as nat), c, 6),
        const_at(u128_bits(1, cw as nat), c, 7),
        const_at(u128_bits(factor as u128, cw as nat), c, 8),
        const_at(seq![true], WireTy::Bit, 9),
        const_at(seq![false], WireTy::Bit, 10),
        const_at(u128_bits(if factor > 1 { 1 } else { 0 }, cw as nat), c, 11),
        const_at(seq![factor > 1], WireTy::Bit, 12),
        bin_at(BinOp::Eq, 1, 6, 13),
        mux_at(13, 5, 0, 14),
        bin_at(BinOp::Add, 1, 7, 15),
        bin_at(BinOp::Eq, 15, 8, 16),
        mux_at(16, 15, 6, 17),
        InstrView { op: OpView::Not, inputs: seq![wire_at(16)], output: wire_at(18) },
        mux_at(4, 5, 3, 19),
        mux_at(2, 19, 14, 20),
        bin_at(BinOp::Or, 2, 4, 21),
        mux_at(4, 0, 3, 22),
        mux_at(2, 22, 0, 23),
        mux_at(4, 1, 11, 24),
        mux_at(2, 24, 17, 25),
        mux_at(4, 10, 12, 26),
        mux_at(2, 26, 18, 27),
    ]
}

/// `b` is the interpolator block for `factor`: its graph, wire layout and
/// zero initial state.
pub open spec fn interpolator_block(b: RawDspBlock, factor: usize) -> bool {
    let cw = spec_bits_for_value(factor as nat);
    &&& b.graph.wires@ == interpolator_wires(cw as u32)
    &&& instrs_view(b.graph.instructions@) == interpolator_instrs(factor, cw as u32)
    &&& b.input_wires@ == seq![wire_at(0), wire_at(1), wire_at(2), wire_at(3), wire_at(4)]
    &&& b.output_wires@ == seq![wire_at(23), wire_at(25), wire_at(27), wire_at(20), wire_at(21)]
    &&& b.initial_state.0@ == zero_bits(cw + 33)
    &&& b.state_wire_count == 3
    &&& dsp_interface(b)
}

/// Build an interpolator as a [`RawDspBlock`].
///
/// State wires: `[held, counter, active]`.  Data: `data_in`, `valid_in`.
/// Outputs: `[next_held, next_counter, next_active, data_out, valid_out]`.
/// A factor of zero is refused with `Error::InvalidRateFactor`.
#[verifier::rlimit(50)]
pub fn build_interpolator(factor: usize) -> (r: Result<RawDspBlock, Error>)
    ensures
        factor == 0 ==> (r matches Err(Error::InvalidRateFactor { factor: k }) && k == 0),
        factor > 0 ==> (r matches Ok(b) && interpolator_block(b, factor)),
{
    if factor == 0 {
        return Err(Error::InvalidRateFactor { factor });
    }
    let cw = bits_for_value(factor);
    // ---- state wires ----
    let (builder, held) = HdlGraphBuilder::new().with_wire(sample_wire());
    let (builder, counter) = builder.with_wire(WireTy::Bits(cw));
    let (builder, active) = builder.with_wire(valid_wire());
    // ---- input wires ----
    let (builder, data_in) = builder.with_wire(sample_wire());
    let (builder, valid_in) = builder.with_wire(valid_wire());
    let ghost b5 = builder;
    // ---- constants ----
    let (builder, zero_sample) = const_signed_32(builder, 0)?;
    let (builder, zero_counter) = const_unsigned(builder, 0, cw)?;
    let (builder, one_counter) = const_unsigned(builder, 1, cw)?;
    let (builder, factor_const) = const_unsigned(builder, factor as u128, cw)?;
    let (builder, _const_true) = const_bit(builder, true)?;
    let (builder, const_false) = const_bit(builder, false)?;
    // Compile-time decision baked into the graph.
    let case2_counter_val: u128 = if factor > 1 {
        1
    } else {
        0
    };
    let case2_active_val = factor > 1;
    let (builder, case2_counter) = const_unsigned(builder, case2_counter_val, cw)?;
    let (builder, case2_active) = const_bit(builder, case2_active_val)?;
    // ---- case 1 (active): output held or zero, advance counter ----
    let ghost b13 = builder;
    proof {
        assert(b13.wires@ =~= interpolator_wires(cw).subrange(0, 13));
        assert(instrs_view(b13.instructions@) =~= interpolator_instrs(factor, cw).subrange(0, 8));
    }
    let (builder, counter_is_zero) = bin_op(builder, BinOp::Eq, counter, zero_counter, WireTy::Bit)?;
    let (builder, data_case1) = mux(builder, counter_is_zero, zero_sample, held, sample_wire())?;
    let (builder, counter_plus_one) = bin_op(builder, BinOp::Add, counter, one_counter, WireTy::Bits(cw))?;
    let (builder, at_factor) = bin_op(builder, BinOp::Eq, counter_plus_one, factor_const, WireTy::Bit)?;
    let (builder, next_counter_case1) = mux(builder, at_factor, counter_plus_one, zero_counter, WireTy::Bits(cw))?;
    let (builder, next_active_case1) = not_gate(builder, at_factor, WireTy::Bit)?;
    let ghost b19 = builder;
    proof {
        assert(b19.wires@ =~= interpolator_wires(cw).subrange(0, 19));
        assert(instrs_view(b19.instructions@) =~= interpolator_instrs(factor, cw).subrange(0, 14));
    }
    // ---- combine cases: outer selects on `active`, inner on `valid_in` ----
    let (builder, data_inner) = mux(builder, valid_in, zero_sample, data_in, sample_wire())?;
    let (builder, data_out) = mux(builder, active, data_inner, data_case1, sample_wire())?;
    let (builder, valid_out) = bin_op(builder, BinOp::Or, active, valid_in, WireTy::Bit)?;
    let (builder, held_inner) = mux(builder, valid_in, held, data_in, sample_wire())?;
    let (builder, next_held) = mux(builder, active, held_inner, held, sample_wire())?;
    let (builder, ctr_inner) = mux(builder, valid_in, counter, case2_counter, WireTy::Bits(cw))?;
    let (builder, next_counter) = mux(builder, active, ctr_inner, next_counter_case1, WireTy::Bits(cw))?;
    let (builder, act_inner) = mux(builder, valid_in, const_false, case2_active, valid_wire())?;
    let (builder, next_active) = mux(builder, active, act_inner, next_active_case1, valid_wire())?;
    let ghost b28 = builder;
    let graph = builder.build();
    // ---- wire layout ----
    let input_wires = vec![held, counter, active, data_in, valid_in];
    let output_wires = vec![next_held, next_counter, next_active, data_out, valid_out];
    let initial_state = zero_sample_init().concat(repeat_bit(cw, false)).concat(zero_valid_init());
    let b = RawDspBlock::new(graph, input_wires, output_wires, initial_state, 3);
    proof {
        assert(b5.wires@ =~= seq![WireTy::Signed(32), WireTy::Bits(cw), WireTy::Bit, WireTy::Signed(32), WireTy::Bit]);
        assert(instrs_view(b5.instructions@) =~= Seq::<InstrView>::empty());
        assert(b.graph.wires@ =~= interpolator_wires(cw));
        assert(instrs_view(b.graph.instructions@) =~= interpolator_instrs(factor, cw));
        assert(builder_wf(b28));
        assert(b.input_wires@ =~= seq![wire_at(0), wire_at(1), wire_at(2), wire_at(3), wire_at(4)]);
        assert(b.output_wires@ =~= seq![wire_at(23), wire_at(25), wire_at(27), wire_at(20), wire_at(21)]);
        assert(b.initial_state.0@ =~= zero_bits((cw + 33) as nat));
        assert(b.input_wires@.subrange(0, 3) =~= seq![wire_at(0), wire_at(1), wire_at(2)]);
        reveal_with_fuel(state_bits, 4);
    }
    Ok(b)
}

/// The constants of the interpolator graph.
pub open spec fn interpolator_consts(factor: usize) -> Seq<Seq<bool>> {
    seq![
        i32_bits(0),
        u128_bits(0, spec_bits_for_value(factor as nat)),
        u128_bits(1, spec_bits_for_value(factor as nat)),
        u128_bits(factor as u128, spec_bits_for_value(factor as nat)),
        seq![true],
        seq![false],
        u128_bits(if factor > 1 { 1 } else { 0 }, spec_bits_for_value(factor as nat)),
        seq![factor > 1],
    ]
}

/// The constant gates of the interpolator graph write their constants to
/// wires 5 to 12 and leave the others.
#[verifier::spinoff_prover]
proof fn lemma_interpolator_consts_run(env: Seq<Option<Seq<bool>>>, factor: usize)
    requires
        factor > 0,
        env.len() == 28,
    ensures
        run(env, interpolator_instrs(factor, spec_bits_for_value(factor as nat) as u32).subrange(0, 8)) matches Some(e)
            && e.len() == 28 && (forall|i: int| 0 <= i < 5 ==> #[trigger] e[i] == env[i]) && (forall|k: int|
            0 <= k < 8 ==> e[5 + k] == Some(#[trigger] interpolator_consts(factor)[k])),
{
    let cwn = spec_bits_for_value(factor as nat);
    let cw = cwn as u32;
    lemma_bit_length_bound(factor as nat);
    lemma_bit_length_bounds(factor as nat);
    assert(cwn == bit_length(factor as nat));
    assert(cw as nat == cwn);
    vstd::arithmetic::power2::lemma2_to64();
    if cwn > 1 {
        lemma_pow2_strictly_increases(1, cwn);
    }
    let p = pow2(cwn);
    assert(factor < p);
    assert(p >= 2);
    let t = interpolator_instrs(factor, cw).subrange(0, 8);
    let w5 = i32_bits(0);
    let w6 = u128_bits(0, cwn);
    let w7 = u128_bits(1, cwn);
    let w8 = u128_bits(factor as u128, cwn);
    let w9 = seq![true];
    let w10 = seq![false];
    let w11 = u128_bits(if factor > 1 { 1 } else { 0 }, cwn);
    let w12 = seq![factor > 1];
    let g5 = env.update(5, Some(w5));
    let g6 = g5.update(6, Some(w6));
    let g7 = g6.update(7, Some(w7));
    let g8 = g7.update(8, Some(w8));
    let g9 = g8.update(9, Some(w9));
    let g10 = g9.update(10, Some(w10));
    let g11 = g10.update(11, Some(w11));
    let g12 = g11.update(12, Some(w12));
    assert(t.subrange(0, 0) =~= Seq::<InstrView>::empty());
    assert(run(env, t.subrange(0, 0)) == Some(env));
    assert(run(env, t.subrange(0, 1)) == Some(g5)) by {
        assert(t.subrange(0, 1).drop_last() =~= t.subrange(0, 0));
        assert(t.subrange(0, 1).last() == t[0]);
        assert(read_wires(env, t[0].inputs) == Some(Seq::<Seq<bool>>::empty()));
    }
    assert(run(env, t.subrange(0, 2)) == Some(g6)) by {
        assert(t.subrange(0, 2).drop_last() =~= t.subrange(0, 1));
        assert(t.subrange(0, 2).last() == t[1]);
        assert(read_wires(g5, t[1].inputs) == Some(Seq::<Seq<bool>>::empty()));
    }
    assert(run(env, t.subrange(0, 3)) == Some(g7)) by {
        assert(t.subrange(0, 3).drop_last() =~= t.subrange(0, 2));
        assert(t.subrange(0, 3).last() == t[2]);
        assert(read_wires(g6, t[2].inputs) == Some(Seq::<Seq<bool>>::empty()));
    }
    assert(run(env, t.subrange(0, 4)) == Some(g8)) by {
        assert(t.subrange(0, 4).drop_last() =~= t.subrange(0, 3));
        assert(t.subrange(0, 4).last() == t[3]);
        assert(read_wires(g7, t[3].inputs) == Some(Seq::<Seq<bool>>::empty()));
    }
    assert(run(env, t.subrange(0, 5)) == Some(g9)) by {
        assert(t.subrange(0, 5).drop_last() =~= t.subrange(0, 4));
        assert(t.subrange(0, 5).last() == t[4]);
        assert(read_wires(g8, t[4].inputs) == Some(Seq::<Seq<bool>>::empty()));
    }
    assert(run(env, t.subrange(0, 6)) == Some(g10)) by {
        assert(t.subrange(0, 6).drop_last() =~= t.subrange(0, 5));
        assert(t.subrange(0, 6).last() == t[5]);
        assert(read_wires(g9, t[5].inputs) == Some(Seq::<Seq<bool>>::empty()));
    }
    assert(run(env, t.subrange(0, 7)) == Some(g11)) by {
        assert(t.subrange(0, 7).drop_last() =~= t.subrange(0, 6));
        assert(t.subrange(0, 7).last() == t[6]);
        assert(read_wires(g10, t[6].inputs) == Some(Seq::<Seq<bool>>::empty()));
    }
    assert(run(env, t.subrange(0, 8)) == Some(g12)) by {
        assert(t.subrange(0, 8).drop_last() =~= t.subrange(0, 7));
        assert(t.subrange(0, 8).last() == t[7]);
        assert(read_wires(g11, t[7].inputs) == Some(Seq::<Seq<bool>>::empty()));
    }
    assert(t.subrange(0, 8) =~= t);
    assert forall|k: int| 0 <= k < 8 implies g12[5 + k] == Some(#[trigger] interpolator_consts(factor)[k]) by {
        if k == 0 {} else if k == 1 {} else if k == 2 {} else if k == 3 {} else if k == 4 {} else if k == 5 {} else if k == 6 {} else {}
    }
}

/// Gates 8 to 12 of the interpolator graph, writing wires 13 to 17.
#[verifier::spinoff_prover]
proof fn lemma_interpolator_gates_0(
    env: Seq<Option<Seq<bool>>>,
    factor: usize,
    h: Seq<bool>,
    c: nat,
    a: bool,
    x: Seq<bool>,
    v: bool,
)
    requires
        factor > 0,
        c < factor,
        env.len() == 28,
        ({
            let cwn = spec_bits_for_value(factor as nat);
            env[0] == Some(h) && env[1] == Some(u128_bits(c as u128, cwn)) && env[5] == Some(i32_bits(0)) && env[6] == Some(u128_bits(0, cwn)) && env[7] == Some(u128_bits(1, cwn)) && env[8] == Some(u128_bits(factor as u128, cwn))
        }),
    ensures
        ({
            let cwn = spec_bits_for_value(factor as nat);
            run(env, interpolator_instrs(factor, cwn as u32).subrange(8, 13)) matches Some(e) && e.len() == 28
                && (forall|i: int| 0 <= i < 13 ==> #[trigger] e[i] == env[i]) && e[13] == Some(seq![c == 0]) && e[14] == Some(if c == 0 { h } else { i32_bits(0) }) && e[15] == Some(u128_bits((c + 1) as u128, cwn)) && e[16] == Some(seq![c + 1 == factor]) && e[17] == Some(if c + 1 == factor { u128_bits(0, cwn) } else { u128_bits((c + 1) as u128, cwn) })
        }),
{
    let cwn = spec_bits_for_value(factor as nat);
    let cw = cwn as u32;
    lemma_bit_length_bound(factor as nat);
    lemma_bit_length_bounds(factor as nat);
    assert(cwn == bit_length(factor as nat));
    assert(cw as nat == cwn);
    vstd::arithmetic::power2::lemma2_to64();
    if cwn > 1 {
        lemma_pow2_strictly_increases(1, cwn);
    }
    let p = pow2(cwn);
    assert(factor < p);
    assert(p >= 2);
    lemma_u128_bits_value(c as u128, cwn);
    lemma_u128_bits_value(0, cwn);
    lemma_u128_bits_value(1, cwn);
    lemma_u128_bits_value(factor as u128, cwn);
    lemma_u128_bits_value((c + 1) as u128, cwn);
    vstd::arithmetic::div_mod::lemma_small_mod(c, p);
    vstd::arithmetic::div_mod::lemma_small_mod(0, p);
    vstd::arithmetic::div_mod::lemma_small_mod(1, p);
    vstd::arithmetic::div_mod::lemma_small_mod(factor as nat, p);
    vstd::arithmetic::div_mod::lemma_small_mod(c + 1, p);
    assert((((c + 1) as int) % (p as int)) as u128 == (c + 1) as u128);
    let t = interpolator_instrs(factor, cw).subrange(8, 13);
    let w13 = seq![c == 0];
    let w14 = if c == 0 { h } else { i32_bits(0) };
    let w15 = u128_bits((c + 1) as u128, cwn);
    let w16 = seq![c + 1 == factor];
    let w17 = if c + 1 == factor { u128_bits(0, cwn) } else { u128_bits((c + 1) as u128, cwn) };
    let g13 = env.update(13, Some(w13));
    let g14 = g13.update(14, Some(w14));
    let g15 = g14.update(15, Some(w15));
    let g16 = g15.update(16, Some(w16));
    let g17 = g16.update(17, Some(w17));
    assert(t.subrange(0, 0) =~= Seq::<InstrView>::empty());
    assert(run(env, t.subrange(0, 0)) == Some(env));
    assert(run(env, t.subrange(0, 1)) == Some(g13)) by {
        assert(t.subrange(0, 1).drop_last() =~= t.subrange(0, 0));
        assert(t.subrange(0, 1).last() == t[0]);
        assert(read_wires(env, t[0].inputs) == Some(seq![(u128_bits(c as u128, cwn)), (u128_bits(0, cwn))]));
    }
    assert(run(env, t.subrange(0, 2)) == Some(g14)) by {
        assert(t.subrange(0, 2).drop_last() =~= t.subrange(0, 1));
        assert(t.subrange(0, 2).last() == t[1]);
        assert(read_wires(g13, t[1].inputs) == Some(seq![w13, (i32_bits(0)), (h)]));
    }
    assert(run(env, t.subrange(0, 3)) == Some(g15)) by {
        assert(t.subrange(0, 3).drop_last() =~= t.subrange(0, 2));
        assert(t.subrange(0, 3).last() == t[2]);
        assert(read_wires(g14, t[2].inputs) == Some(seq![(u128_bits(c as u128, cwn)), (u128_bits(1, cwn))]));
    }
    assert(run(env, t.subrange(0, 4)) == Some(g16)) by {
        assert(t.subrange(0, 4).drop_last() =~= t.subrange(0, 3));
        assert(t.subrange(0, 4).last() == t[3]);
        assert(read_wires(g15, t[3].inputs) == Some(seq![w15, (u128_bits(factor as u128, cwn))]));
    }
    assert(run(env, t.subrange(0, 5)) == Some(g17)) by {
        assert(t.subrange(0, 5).drop_last() =~= t.subrange(0, 4));
        assert(t.subrange(0, 5).last() == t[4]);
        assert(read_wires(g16, t[4].inputs) == Some(seq![w16, w15, (u128_bits(0, cwn))]));
    }
    assert(t.subrange(0, 5) =~= t);
}

/// Gates 13 to 17 of the interpolator graph, writing wires 18 to 22.
#[verifier::spinoff_prover]
proof fn lemma_interpolator_gates_1(
    env: Seq<Option<Seq<bool>>>,
    factor: usize,
    h: Seq<bool>,
    c: nat,
    a: bool,
    x: Seq<bool>,
    v: bool,
)
    requires
        factor > 0,
        c < factor,
        env.len() == 28,
        ({
            let cwn = spec_bits_for_value(factor as nat);
            env[0] == Some(h) && env[2] == Some(seq![a]) && env[3] == Some(x) && env[4] == Some(seq![v]) && env[5] == Some(i32_bits(0)) && env[14] == Some(if c == 0 { h } else { i32_bits(0) }) && env[16] == Some(seq![c + 1 == factor])
        }),
    ensures
        ({
            let cwn = spec_bits_for_value(factor as nat);
            run(env, interpolator_instrs(factor, cwn as u32).subrange(13, 18)) matches Some(e) && e.len() == 28
                && (forall|i: int| 0 <= i < 18 ==> #[trigger] e[i] == env[i]) && e[18] == Some(seq![!(c + 1 == factor)]) && e[19] == Some(if v { x } else { i32_bits(0) }) && e[20] == Some(if a { if c == 0 { h } else { i32_bits(0) } } else if v { x } else { i32_bits(0) }) && e[21] == Some(seq![a || v]) && e[22] == Some(if v { x } else { h })
        }),
{
    let cwn = spec_bits_for_value(factor as nat);
    let cw = cwn as u32;
    lemma_bit_length_bound(factor as nat);
    lemma_bit_length_bounds(factor as nat);
    assert(cwn == bit_length(factor as nat));
    assert(cw as nat == cwn);
    vstd::arithmetic::power2::lemma2_to64();
    if cwn > 1 {
        lemma_pow2_strictly_increases(1, cwn);
    }
    let p = pow2(cwn);
    assert(factor < p);
    assert(p >= 2);
    let t = interpolator_instrs(factor, cw).subrange(13, 18);
    let w18 = seq![!(c + 1 == factor)];
    let w19 = if v { x } else { i32_bits(0) };
    let w20 = if a { if c == 0 { h } else { i32_bits(0) } } else if v { x } else { i32_bits(0) };
    let w21 = seq![a || v];
    let w22 = if v { x } else { h };
    let g18 = env.update(18, Some(w18));
    let g19 = g18.update(19, Some(w19));
    let g20 = g19.update(20, Some(w20));
    let g21 = g20.update(21, Some(w21));
    let g22 = g21.update(22, Some(w22));
    assert(t.subrange(0, 0) =~= Seq::<InstrView>::empty());
    assert(run(env, t.subrange(0, 0)) == Some(env));
    assert(run(env, t.subrange(0, 1)) == Some(g18)) by {
        assert(t.subrange(0, 1).drop_last() =~= t.subrange(0, 0));
        assert(t.subrange(0, 1).last() == t[0]);
        assert(read_wires(env, t[0].inputs) == Some(seq![(seq![c + 1 == factor])]));
        assert(seq![c + 1 == factor].map_values(|y: bool| !y) =~= w18);
    }
    assert(run(env, t.subrange(0, 2)) == Some(g19)) by {
        assert(t.subrange(0, 2).drop_last() =~= t.subrange(0, 1));
        assert(t.subrange(0, 2).last() == t[1]);
        assert(read_wires(g18, t[1].inputs) == Some(seq![(seq![v]), (i32_bits(0)), (x)]));
    }
    assert(run(env, t.subrange(0, 3)) == Some(g20)) by {
        assert(t.subrange(0, 3).drop_last() =~= t.subrange(0, 2));
        assert(t.subrange(0, 3).last() == t[2]);
        assert(read_wires(g19, t[2].inputs) == Some(seq![(seq![a]), w19, (if c == 0 { h } else { i32_bits(0) })]));
    }
    assert(run(env, t.subrange(0, 4)) == Some(g21)) by {
        assert(t.subrange(0, 4).drop_last() =~= t.subrange(0, 3));
        assert(t.subrange(0, 4).last() == t[3]);
        assert(read_wires(g20, t[3].inputs) == Some(seq![(seq![a]), (seq![v])]));
        assert(Seq::new(1, |i: int| seq![a][i] || seq![v][i]) =~= w21);
    }
    assert(run(env, t.subrange(0, 5)) == Some(g22)) by {
        assert(t.subrange(0, 5).drop_last() =~= t.subrange(0, 4));
        assert(t.subrange(0, 5).last() == t[4]);
        assert(read_wires(g21, t[4].inputs) == Some(seq![(seq![v]), (h), (x)]));
    }
    assert(t.subrange(0, 5) =~= t);
}

/// Gates 18 to 22 of the interpolator graph, writing wires 23 to 27.
#[verifier::spinoff_prover]
proof fn lemma_interpolator_gates_2(
    env: Seq<Option<Seq<bool>>>,
    factor: usize,
    h: Seq<bool>,
    c: nat,
    a: bool,
    x: Seq<bool>,
    v: bool,
)
    requires
        factor > 0,
        c < factor,
        env.len() == 28,
        ({
            let cwn = spec_bits_for_value(factor as nat);
            env[0] == Some(h) && env[1] == Some(u128_bits(c as u128, cwn)) && env[2] == Some(seq![a]) && env[4] == Some(seq![v]) && env[10] == Some(seq![false]) && env[11] == Some(u128_bits(if factor > 1 { 1 } else { 0 }, cwn)) && env[12] == Some(seq![factor > 1]) && env[17] == Some(if c + 1 == factor { u128_bits(0, cwn) } else { u128_bits((c + 1) as u128, cwn) }) && env[18] == Some(seq![!(c + 1 == factor)]) && env[22] == Some(if v { x } else { h })
        }),
    ensures
        ({
            let cwn = spec_bits_for_value(factor as nat);
            run(env, interpolator_instrs(factor, cwn as u32).subrange(18, 23)) matches Some(e) && e.len() == 28
                && (forall|i: int| 0 <= i < 23 ==> #[trigger] e[i] == env[i]) && e[23] == Some(if !a && v { x } else { h }) && e[24] == Some(if v { u128_bits(if factor > 1 { 1 } else { 0 }, cwn) } else { u128_bits(c as u128, cwn) }) && e[25] == Some(u128_bits(interpolator_next_count(factor as nat, c, a, v) as u128, cwn)) && e[26] == Some(if v { seq![factor > 1] } else { seq![false] }) && e[27] == Some(seq![interpolator_next_active(factor as nat, c, a, v)])
        }),
{
    let cwn = spec_bits_for_value(factor as nat);
    let cw = cwn as u32;
    lemma_bit_length_bound(factor as nat);
    lemma_bit_length_bounds(factor as nat);
    assert(cwn == bit_length(factor as nat));
    assert(cw as nat == cwn);
    vstd::arithmetic::power2::lemma2_to64();
    if cwn > 1 {
        lemma_pow2_strictly_increases(1, cwn);
    }
    let p = pow2(cwn);
    assert(factor < p);
    assert(p >= 2);
    let t = interpolator_instrs(factor, cw).subrange(18, 23);
    let w23 = if !a && v { x } else { h };
    let w24 = if v { u128_bits(if factor > 1 { 1 } else { 0 }, cwn) } else { u128_bits(c as u128, cwn) };
    let w25 = u128_bits(interpolator_next_count(factor as nat, c, a, v) as u128, cwn);
    let w26 = if v { seq![factor > 1] } else { seq![false] };
    let w27 = seq![interpolator_next_active(factor as nat, c, a, v)];
    let g23 = env.update(23, Some(w23));
    let g24 = g23.update(24, Some(w24));
    let g25 = g24.update(25, Some(w25));
    let g26 = g25.update(26, Some(w26));
    let g27 = g26.update(27, Some(w27));
    assert(t.subrange(0, 0) =~= Seq::<InstrView>::empty());
    assert(run(env, t.subrange(0, 0)) == Some(env));
    assert(run(env, t.subrange(0, 1)) == Some(g23)) by {
        assert(t.subrange(0, 1).drop_last() =~= t.subrange(0, 0));
        assert(t.subrange(0, 1).last() == t[0]);
        assert(read_wires(env, t[0].inputs) == Some(seq![(seq![a]), (if v { x } else { h }), (h)]));
    }
    assert(run(env, t.subrange(0, 2)) == Some(g24)) by {
        assert(t.subrange(0, 2).drop_last() =~= t.subrange(0, 1));
        assert(t.subrange(0, 2).last() == t[1]);
        assert(read_wires(g23, t[1].inputs) == Some(seq![(seq![v]), (u128_bits(c as u128, cwn)), (u128_bits(if factor > 1 { 1 } else { 0 }, cwn))]));
    }
    assert(run(env, t.subrange(0, 3)) == Some(g25)) by {
        assert(t.subrange(0, 3).drop_last() =~= t.subrange(0, 2));
        assert(t.subrange(0, 3).last() == t[2]);
        assert(read_wires(g24, t[2].inputs) == Some(seq![(seq![a]), w24, (if c + 1 == factor { u128_bits(0, cwn) } else { u128_bits((c + 1) as u128, cwn) })]));
        if factor > 1 {
            assert(u128_bits(if factor > 1 { 1 } else { 0 }, cwn) == u128_bits(1, cwn));
        }
    }
    assert(run(env, t.subrange(0, 4)) == Some(g26)) by {
        assert(t.subrange(0, 4).drop_last() =~= t.subrange(0, 3));
        assert(t.subrange(0, 4).last() == t[3]);
        assert(read_wires(g25, t[3].inputs) == Some(seq![(seq![v]), (seq![false]), (seq![factor > 1])]));
    }
    assert(run(env, t.subrange(0, 5)) == Some(g27)) by {
        assert(t.subrange(0, 5).drop_last() =~= t.subrange(0, 4));
        assert(t.subrange(0, 5).last() == t[4]);
        assert(read_wires(g26, t[4].inputs) == Some(seq![(seq![a]), w26, (seq![!(c + 1 == factor)])]));
    }
    assert(t.subrange(0, 5) =~= t);
}


/// One pass of the interpolator graph with the held sample `h`, counter
/// `c` (below the factor), active flag `a`, sample `x` and valid flag `v`.
/// Active: the output is the held sample when the counter is zero, else
/// zero, and the counter runs to the factor, where the block goes idle.
/// Idle: a valid sample is output and latched, and a sequence starts when
/// the factor exceeds one; otherwise zero is output and nothing changes.
/// The output is valid when active or on valid input.
pub proof fn lemma_interpolator_cycle(
    env: Seq<Option<Seq<bool>>>,
    factor: usize,
    h: Seq<bool>,
    c: nat,
    a: bool,
    x: Seq<bool>,
    v: bool,
)
    requires
        factor > 0,
        c < factor,
        env.len() == 28,
        env[0] == Some(h),
        env[1] == Some(u128_bits(c as u128, spec_bits_for_value(factor as nat))),
        env[2] == Some(seq![a]),
        env[3] == Some(x),
        env[4] == Some(seq![v]),
    ensures
        ({
            let cwn = spec_bits_for_value(factor as nat);
            run(env, interpolator_instrs(factor, cwn as u32)) matches Some(e) && e.len() == 28
                && e[20] == Some(if a {
                    if c == 0 {
                        h
                    } else {
                        i32_bits(0)
                    }
                } else if v {
                    x
                } else {
                    i32_bits(0)
                }) && e[21] == Some(seq![a || v]) && e[23] == Some(if !a && v {
                    x
                } else {
                    h
                }) && e[25] == Some(u128_bits(interpolator_next_count(factor as nat, c, a, v) as u128, cwn))
                && e[27] == Some(seq![interpolator_next_active(factor as nat, c, a, v)])
        }),
{
    let cwn = spec_bits_for_value(factor as nat);
    let s = interpolator_instrs(factor, cwn as u32);
    lemma_interpolator_consts_run(env, factor);
    let e8 = run(env, s.subrange(0, 8))->Some_0;
    assert(interpolator_consts(factor)[0] == i32_bits(0));
    assert(interpolator_consts(factor)[1] == u128_bits(0, cwn));
    assert(interpolator_consts(factor)[2] == u128_bits(1, cwn));
    assert(interpolator_consts(factor)[3] == u128_bits(factor as u128, cwn));
    assert(interpolator_consts(factor)[5] == seq![false]);
    assert(interpolator_consts(factor)[6] == u128_bits(if factor > 1 { 1 } else { 0 }, cwn));
    assert(interpolator_consts(factor)[7] == seq![factor > 1]);
    lemma_interpolator_gates_0(e8, factor, h, c, a, x, v);
    let ea = run(e8, s.subrange(8, 13))->Some_0;
    lemma_interpolator_gates_1(ea, factor, h, c, a, x, v);
    let eb = run(ea, s.subrange(13, 18))->Some_0;
    lemma_interpolator_gates_2(eb, factor, h, c, a, x, v);
    lemma_run_append(env, s.subrange(0, 8), s.subrange(8, 13));
    assert(s.subrange(0, 8) + s.subrange(8, 13) =~= s.subrange(0, 13));
    lemma_run_append(env, s.subrange(0, 13), s.subrange(13, 18));
    assert(s.subrange(0, 13) + s.subrange(13, 18) =~= s.subrange(0, 18));
    lemma_run_append(env, s.subrange(0, 18), s.subrange(18, 23));
    assert(s.subrange(0, 18) + s.subrange(18, 23) =~= s);
}

/// The interpolator's counter after one cycle.
pub open spec fn interpolator_next_count(factor: nat, c: nat, a: bool, v: bool) -> nat {
    if a {
        if c + 1 == factor {
            0
        } else {
            c + 1
        }
    } else if v && factor > 1 {
        1
    } else if v {
        0
    } else {
        c
    }
}

/// The interpolator's active flag after one cycle.
pub open spec fn interpolator_next_active(factor: nat, c: nat, a: bool, v: bool) -> bool {
    if a {
        c + 1 != factor
    } else {
        v && factor > 1
    }
}

/// One clock cycle of the interpolator block.
pub proof fn lemma_interpolator_block_cycle(
    b: RawDspBlock,
    factor: usize,
    h: Seq<bool>,
    c: nat,
    a: bool,
    x: Seq<bool>,
    v: bool,
)
    requires
        interpolator_block(b, factor),
        factor > 0,
        c < factor,
    ensures
        ({
            let cwn = spec_bits_for_value(factor as nat);
            block_cycle(b, seq![h, u128_bits(c as u128, cwn), seq![a]], seq![x, seq![v]]) == Some((
                seq![
                    if !a && v {
                        x
                    } else {
                        h
                    },
                    u128_bits(interpolator_next_count(factor as nat, c, a, v) as u128, cwn),
                    seq![interpolator_next_active(factor as nat, c, a, v)],
                ],
                seq![
                    if a {
                        if c == 0 {
                            h
                        } else {
                            i32_bits(0)
                        }
                    } else if v {
                        x
                    } else {
                        i32_bits(0)
                    },
                    seq![a || v],
                ],
            ))
        }),
{
    let cwn = spec_bits_for_value(factor as nat);
    let ins = seq![h, u128_bits(c as u128, cwn), seq![a]] + seq![x, seq![v]];
    assert(ins =~= seq![h, u128_bits(c as u128, cwn), seq![a], x, seq![v]]);
    assert forall|j: int| 0 <= j < b.input_wires@.len() implies (#[trigger] b.input_wires@[j]).0 == j by {}
    lemma_input_env_in_order(28, b.input_wires@, ins);
    let env = input_env(28, b.input_wires@, ins);
    assert(env[0] == Some(h));
    assert(env[1] == Some(u128_bits(c as u128, cwn)));
    assert(env[2] == Some(seq![a]));
    assert(env[3] == Some(x));
    assert(env[4] == Some(seq![v]));
    lemma_interpolator_cycle(env, factor, h, c, a, x, v);
    let e = run(env, interpolator_instrs(factor, cwn as u32))->Some_0;
    let outs = seq![e[23]->Some_0, e[25]->Some_0, e[27]->Some_0, e[20]->Some_0, e[21]->Some_0];
    assert(read_wires(e, b.output_wires@) == Some(outs)) by {
        assert(Seq::new(5, |k: int| e[b.output_wires@[k].0 as int]->Some_0) =~= outs);
    }
    assert(outs.subrange(0, 3) =~= seq![outs[0], outs[1], outs[2]]);
    assert(outs.subrange(3, 5) =~= seq![outs[3], outs[4]]);
}

/// The idle interpolator state holding `h`.
pub open spec fn interpolator_idle(h: Seq<bool>, factor: usize) -> Seq<Seq<bool>> {
    seq![h, u128_bits(0, spec_bits_for_value(factor as nat)), seq![false]]
}

/// Every cycle input is a sample followed by a one-bit valid flag.
pub open spec fn interpolator_inputs_ok(inputs: Seq<Seq<Seq<bool>>>) -> bool {
    forall|i: int| 0 <= i < inputs.len() ==> (#[trigger] inputs[i]).len() == 2 && inputs[i][1].len() == 1
}

/// A well-formed stream stays well formed past its first `k` cycles.
proof fn lemma_inputs_ok_skip(inputs: Seq<Seq<Seq<bool>>>, k: int)
    requires
        interpolator_inputs_ok(inputs),
        0 <= k <= inputs.len(),
    ensures
        interpolator_inputs_ok(inputs.subrange(k, inputs.len() as int)),
{
    let r = inputs.subrange(k, inputs.len() as int);
    assert forall|i: int| 0 <= i < r.len() implies (#[trigger] r[i]).len() == 2 && r[i][1].len() == 1 by {
        assert(r[i] == inputs[k + i]);
    }
}

/// An active interpolator at count `c` emits valid zeros until its
/// counter reaches the factor, ignoring its input, and then is idle.
pub proof fn lemma_interpolator_active(
    b: RawDspBlock,
    factor: usize,
    h: Seq<bool>,
    c: nat,
    inputs: Seq<Seq<Seq<bool>>>,
)
    requires
        interpolator_block(b, factor),
        1 <= c < factor,
        interpolator_inputs_ok(inputs),
    ensures
        ({
            let m = factor - c;
            block_stream(b, seq![h, u128_bits(c as u128, spec_bits_for_value(factor as nat)), seq![true]], inputs)
                matches Some(outs) && outs.len() == inputs.len() && (forall|k: int|
                0 <= k < m && k < inputs.len() ==> #[trigger] outs[k] == seq![i32_bits(0), seq![true]]) && (m
                < inputs.len() ==> block_stream(b, interpolator_idle(h, factor), inputs.subrange(m, inputs.len() as int))
                == Some(outs.subrange(m, outs.len() as int)))
        }),
    decreases factor - c, inputs.len(),
{
    let cwn = spec_bits_for_value(factor as nat);
    if inputs.len() > 0 {
        let x = inputs[0][0];
        let v = inputs[0][1][0];
        assert(inputs[0].len() == 2 && inputs[0][1].len() == 1);
        assert(inputs[0][1] =~= seq![v]);
        assert(inputs[0] =~= seq![x, seq![v]]);
        lemma_interpolator_block_cycle(b, factor, h, c, true, x, v);
        let st = seq![h, u128_bits(c as u128, cwn), seq![true]];
        let out = seq![i32_bits(0), seq![true]];
        let rest = inputs.drop_first();
        lemma_inputs_ok_skip(inputs, 1);
        assert(rest =~= inputs.subrange(1, inputs.len() as int));
        if c + 1 == factor {
            let next = interpolator_idle(h, factor);
            assert(interpolator_next_count(factor as nat, c, true, v) == 0);
            lemma_interpolator_stream_total(b, factor, h, rest);
            let outs_rest = block_stream(b, next, rest)->Some_0;
            assert(block_stream(b, st, inputs) == Some(seq![out] + outs_rest));
            let outs = seq![out] + outs_rest;
            assert(outs.subrange(1, outs.len() as int) =~= outs_rest);
        } else {
            let next = seq![h, u128_bits((c + 1) as u128, cwn), seq![true]];
            lemma_interpolator_active(b, factor, h, c + 1, rest);
            let outs_rest = block_stream(b, next, rest)->Some_0;
            assert(block_stream(b, st, inputs) == Some(seq![out] + outs_rest));
            let outs = seq![out] + outs_rest;
            let m = factor - c;
            assert forall|k: int| 0 <= k < m && k < inputs.len() implies #[trigger] outs[k] == out by {
                if k > 0 {
                    assert(outs[k] == outs_rest[k - 1]);
                }
            }
            if m < inputs.len() {
                assert(rest.subrange(m - 1, rest.len() as int) =~= inputs.subrange(m, inputs.len() as int));
                assert(outs_rest.subrange(m - 1, outs_rest.len() as int) =~= outs.subrange(m, outs.len() as int));
            }
        }
    }
}

/// From an idle state the interpolator runs on every well-formed stream,
/// one output per input.
pub proof fn lemma_interpolator_stream_total(b: RawDspBlock, factor: usize, h: Seq<bool>, inputs: Seq<Seq<Seq<bool>>>)
    requires
        interpolator_block(b, factor),
        factor > 0,
        interpolator_inputs_ok(inputs),
    ensures
        block_stream(b, interpolator_idle(h, factor), inputs) matches Some(outs) && outs.len() == inputs.len(),
    decreases inputs.len(), 0nat,
{
    let cwn = spec_bits_for_value(factor as nat);
    if inputs.len() > 0 {
        let x = inputs[0][0];
        let v = inputs[0][1][0];
        assert(inputs[0].len() == 2 && inputs[0][1].len() == 1);
        assert(inputs[0][1] =~= seq![v]);
        assert(inputs[0] =~= seq![x, seq![v]]);
        lemma_interpolator_block_cycle(b, factor, h, 0, false, x, v);
        let rest = inputs.drop_first();
        lemma_inputs_ok_skip(inputs, 1);
        assert(rest =~= inputs.subrange(1, inputs.len() as int));
        if v && factor > 1 {
            lemma_interpolator_active_total(b, factor, x, 1, rest);
        } else if v {
            lemma_interpolator_stream_total(b, factor, x, rest);
            assert(interpolator_next_count(factor as nat, 0, false, v) == 0);
        } else {
            lemma_interpolator_stream_total(b, factor, h, rest);
        }
    }
}

/// From an active state the interpolator runs on every well-formed
/// stream, one output per input.
proof fn lemma_interpolator_active_total(
    b: RawDspBlock,
    factor: usize,
    h: Seq<bool>,
    c: nat,
    inputs: Seq<Seq<Seq<bool>>>,
)
    requires
        interpolator_block(b, factor),
        1 <= c < factor,
        interpolator_inputs_ok(inputs),
    ensures
        block_stream(b, seq![h, u128_bits(c as u128, spec_bits_for_value(factor as nat)), seq![true]], inputs) matches Some(
            outs,
        ) && outs.len() == inputs.len(),
    decreases inputs.len(), 1nat,
{
    let cwn = spec_bits_for_value(factor as nat);
    if inputs.len() > 0 {
        let x = inputs[0][0];
        let v = inputs[0][1][0];
        assert(inputs[0].len() == 2 && inputs[0][1].len() == 1);
        assert(inputs[0][1] =~= seq![v]);
        assert(inputs[0] =~= seq![x, seq![v]]);
        lemma_interpolator_block_cycle(b, factor, h, c, true, x, v);
        let rest = inputs.drop_first();
        lemma_inputs_ok_skip(inputs, 1);
        assert(rest =~= inputs.subrange(1, inputs.len() as int));
        if c + 1 == factor {
            lemma_interpolator_stream_total(b, factor, h, rest);
        } else {
            lemma_interpolator_active_total(b, factor, h, c + 1, rest);
        }
    }
}

/// The interpolator stuffs zeros: from an idle state, a valid sample `x`
/// is output at once, followed by `factor - 1` zeros, all flagged valid;
/// inputs arriving meanwhile are ignored, and the block is then idle again
/// holding `x`.  An invalid input on an idle block outputs zero, not
/// valid, and leaves it idle.
pub proof fn lemma_interpolator_stuffs_zeros(b: RawDspBlock, factor: usize, h: Seq<bool>, inputs: Seq<Seq<Seq<bool>>>)
    requires
        interpolator_block(b, factor),
        factor > 0,
        interpolator_inputs_ok(inputs),
        inputs.len() > 0,
    ensures
        block_stream(b, interpolator_idle(h, factor), inputs) matches Some(outs) && outs.len() == inputs.len() && if inputs[0][1][0] {
            let x = inputs[0][0];
            &&& outs[0] == seq![x, seq![true]]
            &&& forall|k: int| 1 <= k < factor && k < inputs.len() ==> #[trigger] outs[k] == seq![i32_bits(0), seq![true]]
            &&& factor < inputs.len() ==> block_stream(b, interpolator_idle(x, factor), inputs.subrange(factor as int, inputs.len() as int))
                == Some(outs.subrange(factor as int, outs.len() as int))
        } else {
            &&& outs[0] == seq![i32_bits(0), seq![false]]
            &&& block_stream(b, interpolator_idle(h, factor), inputs.subrange(1, inputs.len() as int)) == Some(outs.subrange(1, outs.len() as int))
        },
{
    let cwn = spec_bits_for_value(factor as nat);
    let x = inputs[0][0];
    let v = inputs[0][1][0];
    assert(inputs[0].len() == 2 && inputs[0][1].len() == 1);
    assert(inputs[0][1] =~= seq![v]);
    assert(inputs[0] =~= seq![x, seq![v]]);
    lemma_interpolator_block_cycle(b, factor, h, 0, false, x, v);
    let rest = inputs.drop_first();
    lemma_inputs_ok_skip(inputs, 1);
    assert(rest =~= inputs.subrange(1, inputs.len() as int));
    let st = interpolator_idle(h, factor);
    if v && factor > 1 {
        let next = seq![x, u128_bits(1, cwn), seq![true]];
        lemma_interpolator_active(b, factor, x, 1, rest);
        let outs_rest = block_stream(b, next, rest)->Some_0;
        let out = seq![x, seq![true]];
        assert(block_stream(b, st, inputs) == Some(seq![out] + outs_rest));
        let outs = seq![out] + outs_rest;
        assert forall|k: int| 1 <= k < factor && k < inputs.len() implies #[trigger] outs[k] == seq![i32_bits(0), seq![true]] by {
            assert(outs[k] == outs_rest[k - 1]);
        }
        if factor < inputs.len() {
            assert(rest.subrange(factor - 1, rest.len() as int) =~= inputs.subrange(factor as int, inputs.len() as int));
            assert(outs_rest.subrange(factor - 1, outs_rest.len() as int) =~= outs.subrange(factor as int, outs.len() as int));
        }
    } else if v {
        assert(interpolator_next_count(factor as nat, 0, false, v) == 0);
        lemma_interpolator_stream_total(b, factor, x, rest);
        let outs_rest = block_stream(b, interpolator_idle(x, factor), rest)->Some_0;
        let out = seq![x, seq![true]];
        assert(block_stream(b, st, inputs) == Some(seq![out] + outs_rest));
        let outs = seq![out] + outs_rest;
        assert(outs.subrange(1, outs.len() as int) =~= outs_rest);
    } else {
        lemma_interpolator_stream_total(b, factor, h, rest);
        let outs_rest = block_stream(b, st, rest)->Some_0;
        let out = seq![i32_bits(0), seq![false]];
        assert(block_stream(b, st, inputs) == Some(seq![out] + outs_rest));
        let outs = seq![out] + outs_rest;
        assert(outs.subrange(1, outs.len() as int) =~= outs_rest);
    }
}

/// The interpolator's initial state is idle, holding a zero sample.
pub proof fn lemma_interpolator_starts_idle(b: RawDspBlock, factor: usize)
    requires
        interpolator_block(b, factor),
    ensures
        ({
            let init = b.initial_state.0@;
            let cwn = spec_bits_for_value(factor as nat);
            seq![init.subrange(0, 32), init.subrange(32, 32 + cwn as int), init.subrange(32 + cwn as int, 33 + cwn as int)]
                == interpolator_idle(zero_bits(32), factor)
        }),
{
    let init = b.initial_state.0@;
    let cwn = spec_bits_for_value(factor as nat);
    assert(init.subrange(0, 32) =~= zero_bits(32));
    assert(init.subrange(32, 32 + cwn as int) =~= u128_bits(0, cwn)) by {
        assert forall|i: int| 0 <= i < cwn implies u128_bits(0, cwn)[i] == false by {
            let xx = i as u128;
            assert((0u128 >> xx) & 1u128 != 1u128) by (bit_vector);
        }
    }
    assert(init.subrange(32 + cwn as int, 33 + cwn as int) =~= seq![false]);
}

} // verus!
