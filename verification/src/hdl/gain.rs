//! Gain (fixed-point multiply and shift) as an IR graph.
//!
//! Registered output: one cycle of latency.  The sample is widened to 64
//! bits, multiplied by the coefficient, arithmetically shifted right and
//! truncated back to 32 bits.

use vstd::prelude::*;

use crate::error::Error;
use crate::hdl::common::{
    arith_shr, arith_shr_instrs, arith_shr_out, arith_shr_wires, bin_op, const_signed_32, i32_bits,
    sample_wire, sign_extend, sign_extend_instrs, sign_extend_wires, truncate, valid_wire, wire_at,
    zero_bits, zero_sample_init, zero_valid_init,
};
use crate::hdl::ir::{
    builder_wf, instrs_view, lemma_appends_trans, BinOp, HdlGraphBuilder, InstrView, OpView, WireTy,
};
use crate::hdl::clocked::{block_cycle, block_stream, input_env, input_value};
use crate::hdl::eval::{
    eval_bin, lemma_arith_shr_divides, lemma_i32_bits_signed, lemma_low_bits_wrap, lemma_run_append,
    lemma_run_frame, lemma_run_single, lemma_signed_bounds, lemma_sign_extend_keeps_value,
    lemma_unsigned_zero, lemma_wrap_small, lemma_wrapping_mul, read_wires, run, signed_value, wrap_signed, writes_from,
};
use crate::hdl::raw::{dsp_interface, state_bits, RawDspBlock};
use vstd::arithmetic::power2::pow2;

verus! {

/// The index of the gain's next-output wire.
pub open spec fn gain_out(shift: u32) -> int {
    16 + arith_shr_wires(shift, 64).len() as int
}

/// The wire types of the gain graph.
pub open spec fn gain_wires(shift: u32) -> Seq<WireTy> {
    seq![WireTy::Signed(32), WireTy::Bit, WireTy::Signed(32), WireTy::Bit, WireTy::Signed(32)]
        + sign_extend_wires(32, 64) + sign_extend_wires(32, 64) + seq![WireTy::Signed(64)]
        + arith_shr_wires(shift, 64) + seq![WireTy::Signed(32)]
}

/// The gates of the gain graph: the coefficient constant, both operands
/// sign-extended to 64 bits, their product, the shift and the truncation.
pub open spec fn gain_instrs(coefficient: i32, shift: u32) -> Seq<InstrView> {
    seq![InstrView { op: OpView::Const { bits: i32_bits(coefficient), ty: WireTy::Signed(32) }, inputs: seq![], output: wire_at(4) }]
        + sign_extend_instrs(wire_at(2), 32, 64, 5) + sign_extend_instrs(wire_at(4), 32, 64, 10)
        + seq![InstrView { op: OpView::Bin(BinOp::Mul), inputs: seq![wire_at(9), wire_at(14)], output: wire_at(15) }]
        + arith_shr_instrs(wire_at(15), shift, 64, 16)
        + seq![InstrView { op: OpView::Slice { lo: 0, hi: 32 }, inputs: seq![arith_shr_out(wire_at(15), shift, 64, 16)], output: wire_at(gain_out(shift)) }]
}

/// `b` is the gain block for `coefficient` and `shift`: its graph, wire
/// layout and zero initial state.
pub open spec fn gain_block(b: RawDspBlock, coefficient: i32, shift: u32) -> bool {
    &&& b.graph.wires@ == gain_wires(shift)
    &&& instrs_view(b.graph.instructions@) == gain_instrs(coefficient, shift)
    &&& b.input_wires@ == seq![wire_at(0), wire_at(1), wire_at(2), wire_at(3)]
    &&& b.output_wires@ == seq![wire_at(gain_out(shift)), wire_at(3), wire_at(0), wire_at(1)]
    &&& b.initial_state.0@ == zero_bits(33)
    &&& b.state_wire_count == 2
    &&& dsp_interface(b)
}

/// Build a gain block as a [`RawDspBlock`].
///
/// State wires: `[out_reg, valid_reg]`.  Data: `data_in`, `valid_in`.
/// Outputs: `[next_out, valid_in, out_reg, valid_reg]`.
pub fn build_gain(coefficient: i32, shift: u32) -> (r: Result<RawDspBlock, Error>)
    ensures
        r matches Ok(b) && gain_block(b, coefficient, shift),
{
    // State wires (registered output).
    let (builder, out_reg) = HdlGraphBuilder::new().with_wire(sample_wire());
    let (builder, valid_reg) = builder.with_wire(valid_wire());
    // Input wires.
    let (builder, data_in) = builder.with_wire(sample_wire());
    let (builder, valid_in) = builder.with_wire(valid_wire());
    let ghost b4 = builder;
    // Coefficient constant.
    let (builder, coeff) = const_signed_32(builder, coefficient)?;
    let ghost b5 = builder;
    // Sign-extend both operands to 64-bit for widening multiply.
    let (builder, data_ext) = sign_extend(builder, data_in, 32, 64)?;
    let ghost b6 = builder;
    let (builder, coeff_ext) = sign_extend(builder, coeff, 32, 64)?;
    let ghost b7 = builder;
    // 64-bit multiply (wrapping; no overflow since inputs are 32-bit).
    let (builder, product) = bin_op(builder, BinOp::Mul, data_ext, coeff_ext, WireTy::Signed(64))?;
    let ghost b8 = builder;
    // Arithmetic right-shift by the configured amount.
    let (builder, shifted) = arith_shr(builder, product, shift, 64)?;
    let ghost b9 = builder;
    // Truncate back to 32 bits.
    let (builder, next_out) = truncate(builder, shifted, 32)?;
    let ghost b10 = builder;
    let graph = builder.build();
    let input_wires = vec![out_reg, valid_reg, data_in, valid_in];
    let output_wires = vec![next_out, valid_in, out_reg, valid_reg];
    let initial_state = zero_sample_init().concat(zero_valid_init());
    let b = RawDspBlock::new(graph, input_wires, output_wires, initial_state, 2);
    proof {
        let w4 = seq![WireTy::Signed(32), WireTy::Bit, WireTy::Signed(32), WireTy::Bit];
        assert(b4.wires@ =~= w4);
        assert(instrs_view(b4.instructions@) =~= Seq::<InstrView>::empty());
        let c_i = seq![InstrView { op: OpView::Const { bits: i32_bits(coefficient), ty: WireTy::Signed(32) }, inputs: seq![], output: wire_at(4) }];
        let se1 = sign_extend_instrs(wire_at(2), 32, 64, 5);
        let se2 = sign_extend_instrs(wire_at(4), 32, 64, 10);
        let m_i = seq![InstrView { op: OpView::Bin(BinOp::Mul), inputs: seq![wire_at(9), wire_at(14)], output: wire_at(15) }];
        let sh_i = arith_shr_instrs(wire_at(15), shift, 64, 16);
        let t_i = seq![InstrView { op: OpView::Slice { lo: 0, hi: 32 }, inputs: seq![arith_shr_out(wire_at(15), shift, 64, 16)], output: wire_at(gain_out(shift)) }];
        let sew = sign_extend_wires(32, 64);
        assert(coeff == wire_at(4));
        assert(data_ext == wire_at(9));
        assert(coeff_ext == wire_at(14));
        assert(product == wire_at(15));
        lemma_appends_trans(b4, b5, b6, seq![WireTy::Signed(32)], c_i, sew, se1);
        lemma_appends_trans(b4, b6, b7, seq![WireTy::Signed(32)] + sew, c_i + se1, sew, se2);
        lemma_appends_trans(b4, b7, b8, seq![WireTy::Signed(32)] + sew + sew, c_i + se1 + se2, seq![WireTy::Signed(64)], m_i);
        lemma_appends_trans(b4, b8, b9, seq![WireTy::Signed(32)] + sew + sew + seq![WireTy::Signed(64)], c_i + se1 + se2 + m_i, arith_shr_wires(shift, 64), sh_i);
        lemma_appends_trans(b4, b9, b10, seq![WireTy::Signed(32)] + sew + sew + seq![WireTy::Signed(64)] + arith_shr_wires(shift, 64), c_i + se1 + se2 + m_i + sh_i, seq![WireTy::Signed(32)], t_i);
        assert(b.graph.wires@ =~= gain_wires(shift));
        assert(instrs_view(b.graph.instructions@) =~= gain_instrs(coefficient, shift));
        assert(builder_wf(b10));
        assert(b.input_wires@ =~= seq![wire_at(0), wire_at(1), wire_at(2), wire_at(3)]);
        assert(b.output_wires@ =~= seq![wire_at(gain_out(shift)), wire_at(3), wire_at(0), wire_at(1)]);
        assert(b.initial_state.0@ =~= zero_bits(33));
        assert(b.input_wires@.subrange(0, 2) =~= seq![wire_at(0), wire_at(1)]);
        reveal_with_fuel(state_bits, 3);
    }
    Ok(b)
}

/// What the gain makes of a 32-bit sample `x`: its signed value times the
/// coefficient, divided by `2^shift` rounding down, wrapped to 32 bits.
pub open spec fn gain_value(x: Seq<bool>, coefficient: i32, shift: u32) -> int {
    wrap_signed((signed_value(x) * coefficient) / (pow2(shift as nat) as int), 32)
}

/// One pass of the gain graph: with the sample `x` on the data input, the
/// next-output wire holds `gain_value(x)`; the state and valid inputs are
/// left as they were.
pub proof fn lemma_gain_cycle(env: Seq<Option<Seq<bool>>>, coefficient: i32, shift: u32, x: Seq<bool>)
    requires
        env.len() == gain_wires(shift).len(),
        x.len() == 32,
        env[2] == Some(x),
    ensures
        run(env, gain_instrs(coefficient, shift)) matches Some(e) && e[gain_out(shift)] matches Some(y)
            && y.len() == 32 && signed_value(y) == gain_value(x, coefficient, shift) && e.len() == env.len()
            && e[0] == env[0] && e[1] == env[1] && e[3] == env[3],
{
    let sw = arith_shr_wires(shift, 64).len() as int;
    assert(sw <= 6);
    let ia = seq![InstrView { op: OpView::Const { bits: i32_bits(coefficient), ty: WireTy::Signed(32) }, inputs: seq![], output: wire_at(4) }];
    let ib = sign_extend_instrs(wire_at(2), 32, 64, 5);
    let ic = sign_extend_instrs(wire_at(4), 32, 64, 10);
    let id = seq![InstrView { op: OpView::Bin(BinOp::Mul), inputs: seq![wire_at(9), wire_at(14)], output: wire_at(15) }];
    let ie = arith_shr_instrs(wire_at(15), shift, 64, 16);
    let out = arith_shr_out(wire_at(15), shift, 64, 16);
    let if_ = seq![InstrView { op: OpView::Slice { lo: 0, hi: 32 }, inputs: seq![out], output: wire_at(gain_out(shift)) }];
    assert(gain_instrs(coefficient, shift) == ia + ib + ic + id + ie + if_);
    // The coefficient constant.
    lemma_run_single(env, ia[0]);
    assert(ia =~= seq![ia[0]]);
    assert(read_wires(env, ia[0].inputs) == Some(Seq::<Seq<bool>>::empty()));
    let e1 = env.update(4, Some(i32_bits(coefficient)));
    assert(run(env, ia) == Some(e1));
    lemma_i32_bits_signed(coefficient);
    // The sample, sign-extended.
    lemma_sign_extend_keeps_value(e1, wire_at(2), 32, 64, 5, x);
    assert(writes_from(ib, 5));
    lemma_run_frame(e1, ib, 5);
    let e2 = run(e1, ib)->Some_0;
    let y1 = e2[9]->Some_0;
    lemma_run_append(env, ia, ib);
    // The coefficient, sign-extended.
    assert(e2[4] == Some(i32_bits(coefficient)));
    lemma_sign_extend_keeps_value(e2, wire_at(4), 32, 64, 10, i32_bits(coefficient));
    assert(writes_from(ic, 10));
    lemma_run_frame(e2, ic, 10);
    let e3 = run(e2, ic)->Some_0;
    let y2 = e3[14]->Some_0;
    assert(e3[9] == Some(y1));
    lemma_run_append(env, ia + ib, ic);
    // Their 64-bit product, exact for 32-bit operands.
    lemma_wrapping_mul(y1, y2);
    let prod = eval_bin(BinOp::Mul, y1, y2)->Some_0;
    lemma_run_single(e3, id[0]);
    assert(id =~= seq![id[0]]);
    assert(read_wires(e3, id[0].inputs) == Some(seq![y1, y2]));
    let e4 = e3.update(15, Some(prod));
    assert(run(e3, id) == Some(e4));
    lemma_run_append(env, ia + ib + ic, id);
    let sx = signed_value(x);
    let c = coefficient as int;
    vstd::arithmetic::power2::lemma2_to64();
    lemma_signed_bounds(x);
    assert(-0x4000_0000_0000_0000 <= sx * c <= 0x4000_0000_0000_0000) by (nonlinear_arith)
        requires
            -0x8000_0000 <= sx < 0x8000_0000,
            -0x8000_0000 <= c < 0x8000_0000,
    ;
    assert(pow2(63) == 0x8000_0000_0000_0000) by {
        vstd::arithmetic::power2::lemma2_to64_rest();
    }
    lemma_wrap_small(sx * c, 64);
    assert(signed_value(prod) == sx * c);
    // The arithmetic shift.
    lemma_arith_shr_divides(e4, wire_at(15), shift, 64, 16, prod);
    let e5 = run(e4, ie)->Some_0;
    let z = e5[out.0 as int]->Some_0;
    assert(writes_from(ie, 16));
    lemma_run_frame(e4, ie, 16);
    lemma_run_append(env, ia + ib + ic + id, ie);
    // The low 32 bits.
    lemma_run_single(e5, if_[0]);
    assert(if_ =~= seq![if_[0]]);
    assert(read_wires(e5, if_[0].inputs) == Some(seq![z]));
    let y = z.subrange(0, 32);
    let e6 = e5.update(gain_out(shift), Some(y));
    assert(run(e5, if_) == Some(e6));
    lemma_run_append(env, ia + ib + ic + id + ie, if_);
    lemma_low_bits_wrap(z, 32);
}

/// One clock cycle of the gain block: the output is the registered sample
/// and valid flag; the next registered sample is the gain of the input and
/// the next valid flag is the input's.
pub proof fn lemma_gain_block_cycle(
    b: RawDspBlock,
    coefficient: i32,
    shift: u32,
    reg: Seq<bool>,
    reg_valid: Seq<bool>,
    x: Seq<bool>,
    valid: bool,
)
    requires
        gain_block(b, coefficient, shift),
        x.len() == 32,
    ensures
        block_cycle(b, seq![reg, reg_valid], seq![x, seq![valid]]) matches Some((next, out)) && out == seq![
            reg,
            reg_valid,
        ] && next.len() == 2 && next[0].len() == 32 && signed_value(next[0]) == gain_value(x, coefficient, shift)
            && next[1] == seq![valid],
{
    let ins = seq![reg, reg_valid] + seq![x, seq![valid]];
    assert(ins =~= seq![reg, reg_valid, x, seq![valid]]);
    let env = input_env(gain_wires(shift).len(), b.input_wires@, ins);
    reveal_with_fuel(input_value, 5);
    assert(env[0] == Some(reg));
    assert(env[1] == Some(reg_valid));
    assert(env[2] == Some(x));
    assert(env[3] == Some(seq![valid]));
    lemma_gain_cycle(env, coefficient, shift, x);
    let e = run(env, gain_instrs(coefficient, shift))->Some_0;
    let y = e[gain_out(shift)]->Some_0;
    let outs = seq![y, seq![valid], reg, reg_valid];
    assert(read_wires(e, b.output_wires@) == Some(outs));
    assert(outs.subrange(0, 2) =~= seq![y, seq![valid]]);
    assert(outs.subrange(2, 4) =~= seq![reg, reg_valid]);
}

/// Every cycle input is a 32-bit sample followed by a one-bit valid flag.
pub open spec fn gain_inputs(inputs: Seq<Seq<Seq<bool>>>) -> bool {
    forall|i: int|
        0 <= i < inputs.len() ==> (#[trigger] inputs[i]).len() == 2 && inputs[i][0].len() == 32
            && inputs[i][1].len() == 1
}

/// The gain block clocked over a stream from registers `reg`, `reg_valid`:
/// the first output is the registers; each later output is the gain of the
/// sample one cycle before, flagged with that cycle's valid flag.
pub proof fn lemma_gain_stream(
    b: RawDspBlock,
    coefficient: i32,
    shift: u32,
    reg: Seq<bool>,
    reg_valid: Seq<bool>,
    inputs: Seq<Seq<Seq<bool>>>,
)
    requires
        gain_block(b, coefficient, shift),
        gain_inputs(inputs),
    ensures
        block_stream(b, seq![reg, reg_valid], inputs) matches Some(outs) && outs.len() == inputs.len()
            && forall|i: int|
            0 <= i < inputs.len() ==> if i == 0 {
                #[trigger] outs[i] == seq![reg, reg_valid]
            } else {
                outs[i].len() == 2 && outs[i][0].len() == 32 && signed_value(outs[i][0]) == gain_value(
                    inputs[i - 1][0],
                    coefficient,
                    shift,
                ) && outs[i][1] == seq![inputs[i - 1][1][0]]
            },
    decreases inputs.len(),
{
    if inputs.len() > 0 {
        let x = inputs[0][0];
        let v = inputs[0][1][0];
        assert(inputs[0].len() == 2 && inputs[0][0].len() == 32 && inputs[0][1].len() == 1);
        assert(inputs[0][1] =~= seq![v]);
        assert(inputs[0] =~= seq![x, seq![v]]);
        lemma_gain_block_cycle(b, coefficient, shift, reg, reg_valid, x, v);
        let (next, out) = block_cycle(b, seq![reg, reg_valid], seq![x, seq![v]])->Some_0;
        let rest = inputs.drop_first();
        assert(gain_inputs(rest)) by {
            assert forall|i: int| 0 <= i < rest.len() implies (#[trigger] rest[i]).len() == 2 && rest[i][0].len()
                == 32 && rest[i][1].len() == 1 by {
                assert(rest[i] == inputs[i + 1]);
            }
        }
        assert(next =~= seq![next[0], seq![v]]);
        lemma_gain_stream(b, coefficient, shift, next[0], seq![v], rest);
        let outs_rest = block_stream(b, seq![next[0], seq![v]], rest)->Some_0;
        let outs = seq![out] + outs_rest;
        assert(block_stream(b, seq![reg, reg_valid], inputs) == Some(outs));
        assert forall|i: int| 0 <= i < inputs.len() implies if i == 0 {
            #[trigger] outs[i] == seq![reg, reg_valid]
        } else {
            outs[i].len() == 2 && outs[i][0].len() == 32 && signed_value(outs[i][0]) == gain_value(
                inputs[i - 1][0],
                coefficient,
                shift,
            ) && outs[i][1] == seq![inputs[i - 1][1][0]]
        } by {
            if i > 0 {
                let j = i - 1;
                assert(outs[i] == outs_rest[j]);
                if j > 0 {
                    assert(rest[j - 1] == inputs[i - 1]);
                }
            }
        }
    }
}

/// The gain scales each sample with one cycle of latency: clocked from its
/// zero initial state, the first output is zero and not valid, and each
/// later output is the sample of the cycle before times the coefficient,
/// shifted right rounding down and wrapped to 32 bits, with that cycle's
/// valid flag.
pub proof fn lemma_gain_scales_with_latency(b: RawDspBlock, coefficient: i32, shift: u32, inputs: Seq<Seq<Seq<bool>>>)
    requires
        gain_block(b, coefficient, shift),
        gain_inputs(inputs),
    ensures
        block_stream(
            b,
            seq![b.initial_state.0@.subrange(0, 32), b.initial_state.0@.subrange(32, 33)],
            inputs,
        ) matches Some(outs) && outs.len() == inputs.len() && forall|i: int|
            0 <= i < inputs.len() ==> (#[trigger] outs[i]).len() == 2 && if i == 0 {
                signed_value(outs[i][0]) == 0 && outs[i][1] == seq![false]
            } else {
                signed_value(outs[i][0]) == gain_value(inputs[i - 1][0], coefficient, shift)
                    && outs[i][1] == seq![inputs[i - 1][1][0]]
            },
{
    let reg = b.initial_state.0@.subrange(0, 32);
    let reg_valid = b.initial_state.0@.subrange(32, 33);
    assert(reg =~= zero_bits(32));
    assert(reg_valid =~= seq![false]);
    lemma_unsigned_zero(32);
    lemma_gain_stream(b, coefficient, shift, reg, reg_valid, inputs);
    let outs = block_stream(b, seq![reg, reg_valid], inputs)->Some_0;
    assert forall|i: int| 0 <= i < inputs.len() implies (#[trigger] outs[i]).len() == 2 && if i == 0 {
        signed_value(outs[i][0]) == 0 && outs[i][1] == seq![false]
    } else {
        signed_value(outs[i][0]) == gain_value(inputs[i - 1][0], coefficient, shift)
            && outs[i][1] == seq![inputs[i - 1][1][0]]
    } by {
        if i == 0 {
            assert(outs[0] == seq![reg, reg_valid]);
        }
    }
}

} // verus!
