//! Decimator (keep every N-th valid sample) as an IR graph.
//!
//! A counter of `bits_for_value(factor)` bits counts valid samples modulo
//! the factor; the output is valid only when the counter is zero.

use vstd::prelude::*;

use crate::error::Error;
use crate::hdl::common::{
    bin_op, bits_for_value, const_unsigned, mux, repeat_bit, sample_wire, spec_bits_for_value,
    u128_bits, valid_wire, wire_at, zero_bits,
};
use crate::hdl::ir::{builder_wf, instrs_view, BinOp, BitSeq, HdlGraphBuilder, InstrView, OpView, WireTy};
use crate::hdl::clocked::{block_cycle, block_stream, input_env, input_value};
use crate::hdl::eval::{lemma_run_len, lemma_u128_bits_value, read_wires, run, unsigned_value};
use crate::hdl::raw::{dsp_interface, state_bits, RawDspBlock};
use crate::interpret::morphism::{bit_length, lemma_bit_length_bound, lemma_bit_length_bounds};
use vstd::arithmetic::power2::{lemma_pow2_strictly_increases, pow2};

verus! {

/// The wire types of the decimator graph, with a `cw`-bit counter.
pub open spec fn decimator_wires(cw: u32) -> Seq<WireTy> {
    let c = WireTy::Bits(cw);
    seq![c, WireTy::Signed(32), WireTy::Bit, c, c, c, c, WireTy::Bit, c, c, WireTy::Bit, WireTy::Bit]
}

/// The gates of the decimator graph: constants 1, 0 and the factor; the
/// counter's successor wrapped to zero at the factor; the counter advanced
/// only on valid input; and the output valid flag `valid_in && counter == 0`.
pub open spec fn decimator_instrs(factor: usize, cw: u32) -> Seq<InstrView> {
    let c = WireTy::Bits(cw);
    seq![
        InstrView { op: OpView::Const { bits: u128_bits(1, cw as nat), ty: c }, inputs: seq![], output: wire_at(3) },
        InstrView { op: OpView::Const { bits: u128_bits(0, cw as nat), ty: c }, inputs: seq![], output: wire_at(4) },
        InstrView { op: OpView::Const { bits: u128_bits(factor as u128, cw as nat), ty: c }, inputs: seq![], output: wire_at(5) },
        InstrView { op: OpView::Bin(BinOp::Add), inputs: seq![wire_at(0), wire_at(3)], output: wire_at(6) },
        InstrView { op: OpView::Bin(BinOp::Eq), inputs: seq![wire_at(6), wire_at(5)], output: wire_at(7) },
        InstrView { op: OpView::Mux, inputs: seq![wire_at(7), wire_at(6), wire_at(4)], output: wire_at(8) },
        InstrView { op: OpView::Mux, inputs: seq![wire_at(2), wire_at(0), wire_at(8)], output: wire_at(9) },
        InstrView { op: OpView::Bin(BinOp::Eq), inputs: seq![wire_at(0), wire_at(4)], output: wire_at(10) },
        InstrView { op: OpView::Bin(BinOp::And), inputs: seq![wire_at(2), wire_at(10)], output: wire_at(11) },
    ]
}

/// `b` is the decimator block for `factor`: its graph, wire layout and
/// zero initial state.
pub open spec fn decimator_block(b: RawDspBlock, factor: usize) -> bool {
    let cw = spec_bits_for_value(factor as nat);
    &&& b.graph.wires@ == decimator_wires(cw as u32)
    &&& instrs_view(b.graph.instructions@) == decimator_instrs(factor, cw as u32)
    &&& b.input_wires@ == seq![wire_at(0), wire_at(1), wire_at(2)]
    &&& b.output_wires@ == seq![wire_at(9), wire_at(1), wire_at(11)]
    &&& b.initial_state.0@ == zero_bits(cw)
    &&& b.state_wire_count == 1
    &&& dsp_interface(b)
}

/// Build a decimator as a [`RawDspBlock`].
///
/// State wires: `[counter]`.  Data: `data_in`, `valid_in`.  Outputs:
/// `[next_counter, data_in, decimated_valid]`.  A factor of zero is
/// refused with `Error::InvalidRateFactor`.
pub fn build_decimator(factor: usize) -> (r: Result<RawDspBlock, Error>)
    ensures
        factor == 0 ==> (r matches Err(Error::InvalidRateFactor { factor: k }) && k == 0),
        factor > 0 ==> (r matches Ok(b) && decimator_block(b, factor)),
{
    if factor == 0 {
        return Err(Error::InvalidRateFactor { factor });
    }
    let cw = bits_for_value(factor);
    // State wire: counter.
    let (builder, counter) = HdlGraphBuilder::new().with_wire(WireTy::Bits(cw));
    // Input wires.
    let (builder, data_in) = builder.with_wire(sample_wire());
    let (builder, valid_in) = builder.with_wire(valid_wire());
    let ghost b3 = builder;
    // Constants.
    let (builder, one) = const_unsigned(builder, 1, cw)?;
    let (builder, zero) = const_unsigned(builder, 0, cw)?;
    let (builder, factor_const) = const_unsigned(builder, factor as u128, cw)?;
    // raw_next = counter + 1 (wrapping at counter_width bits).
    let (builder, raw_next) = bin_op(builder, BinOp::Add, counter, one, WireTy::Bits(cw))?;
    // at_factor = (raw_next == factor).
    let (builder, at_factor) = bin_op(builder, BinOp::Eq, raw_next, factor_const, WireTy::Bit)?;
    // wrapped_next = Mux(at_factor, raw_next, zero).
    let (builder, wrapped_next) = mux(builder, at_factor, raw_next, zero, WireTy::Bits(cw))?;
    // next_counter = Mux(valid_in, counter, wrapped_next): only advance when valid_in.
    let (builder, next_counter) = mux(builder, valid_in, counter, wrapped_next, WireTy::Bits(cw))?;
    // counter_is_zero = (counter == 0).
    let (builder, counter_is_zero) = bin_op(builder, BinOp::Eq, counter, zero, WireTy::Bit)?;
    // decimated_valid = valid_in AND counter_is_zero.
    let (builder, decimated_valid) = bin_op(builder, BinOp::And, valid_in, counter_is_zero, WireTy::Bit)?;
    let ghost b12 = builder;
    let graph = builder.build();
    let initial_counter: BitSeq = repeat_bit(cw, false);
    let input_wires = vec![counter, data_in, valid_in];
    let output_wires = vec![next_counter, data_in, decimated_valid];
    let b = RawDspBlock::new(graph, input_wires, output_wires, initial_counter, 1);
    proof {
        assert(b3.wires@ =~= seq![WireTy::Bits(cw), WireTy::Signed(32), WireTy::Bit]);
        assert(instrs_view(b3.instructions@) =~= Seq::<InstrView>::empty());
        assert(b.graph.wires@ =~= decimator_wires(cw));
        assert(instrs_view(b.graph.instructions@) =~= decimator_instrs(factor, cw));
        assert(builder_wf(b12));
        assert(b.input_wires@ =~= seq![wire_at(0), wire_at(1), wire_at(2)]);
        assert(b.output_wires@ =~= seq![wire_at(9), wire_at(1), wire_at(11)]);
        assert(b.initial_state.0@ =~= zero_bits(cw as nat));
        assert(b.input_wires@.subrange(0, 1) =~= seq![wire_at(0)]);
        reveal_with_fuel(state_bits, 2);
    }
    Ok(b)
}

/// The decimator's counter after one cycle: it moves on only when the
/// input is valid, and wraps to zero on reaching the factor.
pub open spec fn decimator_next(factor: nat, c: nat, valid: bool) -> nat {
    if !valid {
        c
    } else if c + 1 == factor {
        0
    } else {
        c + 1
    }
}

/// One cycle of the decimator graph: with the counter at `c` (below the
/// factor), the sample `d` and the valid flag `valid` on its inputs, the
/// graph writes the next counter, passes the sample through, and flags the
/// output valid exactly when the input is valid and the counter is zero.
pub proof fn lemma_decimator_cycle(
    env: Seq<Option<Seq<bool>>>,
    factor: usize,
    c: nat,
    d: Seq<bool>,
    valid: bool,
)
    requires
        factor > 0,
        c < factor,
        env.len() >= 12,
        env[0] == Some(u128_bits(c as u128, spec_bits_for_value(factor as nat))),
        env[1] == Some(d),
        env[2] == Some(seq![valid]),
    ensures
        run(env, decimator_instrs(factor, spec_bits_for_value(factor as nat) as u32)) matches Some(e)
            && e[9] == Some(u128_bits(decimator_next(factor as nat, c, valid) as u128, spec_bits_for_value(factor as nat)))
            && e[1] == Some(d) && e[11] == Some(seq![valid && c == 0]),
{
    let cwn = spec_bits_for_value(factor as nat);
    let cw = cwn as u32;
    let s = decimator_instrs(factor, cw);
    lemma_bit_length_bound(factor as nat);
    lemma_bit_length_bounds(factor as nat);
    assert(cwn == bit_length(factor as nat));
    assert(cw as nat == cwn);
    vstd::arithmetic::power2::lemma2_to64();
    if cwn > 1 {
        lemma_pow2_strictly_increases(1, cwn);
    }
    let p = pow2(cwn);
    assert(factor < p);
    assert(p >= 2);
    let w0 = u128_bits(c as u128, cwn);
    let w3 = u128_bits(1, cwn);
    let w4 = u128_bits(0, cwn);
    let w5 = u128_bits(factor as u128, cwn);
    let w6 = u128_bits((c + 1) as u128, cwn);
    lemma_u128_bits_value(c as u128, cwn);
    lemma_u128_bits_value(1, cwn);
    lemma_u128_bits_value(0, cwn);
    lemma_u128_bits_value(factor as u128, cwn);
    lemma_u128_bits_value((c + 1) as u128, cwn);
    vstd::arithmetic::div_mod::lemma_small_mod(c, p);
    vstd::arithmetic::div_mod::lemma_small_mod(1, p);
    vstd::arithmetic::div_mod::lemma_small_mod(0, p);
    vstd::arithmetic::div_mod::lemma_small_mod(factor as nat, p);
    vstd::arithmetic::div_mod::lemma_small_mod(c + 1, p);
    assert(unsigned_value(w0) == c);
    assert(unsigned_value(w3) == 1);
    assert(unsigned_value(w4) == 0);
    assert(unsigned_value(w5) == factor);
    assert(unsigned_value(w6) == c + 1);
    let w7 = seq![c + 1 == factor];
    let w8 = if c + 1 == factor {
        w4
    } else {
        w6
    };
    let w9 = if valid {
        w8
    } else {
        w0
    };
    let w10 = seq![c == 0];
    let w11 = seq![valid && c == 0];
    let e3 = env.update(3, Some(w3));
    let e4 = e3.update(4, Some(w4));
    let e5 = e4.update(5, Some(w5));
    let e6 = e5.update(6, Some(w6));
    let e7 = e6.update(7, Some(w7));
    let e8 = e7.update(8, Some(w8));
    let e9 = e8.update(9, Some(w9));
    let e10 = e9.update(10, Some(w10));
    let e11 = e10.update(11, Some(w11));
    assert(s.subrange(0, 0) =~= Seq::<InstrView>::empty());
    assert(run(env, s.subrange(0, 0)) == Some(env));
    assert(run(env, s.subrange(0, 1)) == Some(e3)) by {
        assert(s.subrange(0, 1).drop_last() =~= s.subrange(0, 0));
        assert(s.subrange(0, 1).last() == s[0]);
        assert(read_wires(env, s[0].inputs) == Some(Seq::<Seq<bool>>::empty()));
    }
    assert(run(env, s.subrange(0, 2)) == Some(e4)) by {
        assert(s.subrange(0, 2).drop_last() =~= s.subrange(0, 1));
        assert(s.subrange(0, 2).last() == s[1]);
        assert(read_wires(e3, s[1].inputs) == Some(Seq::<Seq<bool>>::empty()));
    }
    assert(run(env, s.subrange(0, 3)) == Some(e5)) by {
        assert(s.subrange(0, 3).drop_last() =~= s.subrange(0, 2));
        assert(s.subrange(0, 3).last() == s[2]);
        assert(read_wires(e4, s[2].inputs) == Some(Seq::<Seq<bool>>::empty()));
    }
    assert(run(env, s.subrange(0, 4)) == Some(e6)) by {
        assert(s.subrange(0, 4).drop_last() =~= s.subrange(0, 3));
        assert(s.subrange(0, 4).last() == s[3]);
        assert(read_wires(e5, s[3].inputs) == Some(seq![w0, w3]));
        assert((((c + 1) as int) % (p as int)) as u128 == (c + 1) as u128);
    }
    assert(run(env, s.subrange(0, 5)) == Some(e7)) by {
        assert(s.subrange(0, 5).drop_last() =~= s.subrange(0, 4));
        assert(s.subrange(0, 5).last() == s[4]);
        assert(read_wires(e6, s[4].inputs) == Some(seq![w6, w5]));
    }
    assert(run(env, s.subrange(0, 6)) == Some(e8)) by {
        assert(s.subrange(0, 6).drop_last() =~= s.subrange(0, 5));
        assert(s.subrange(0, 6).last() == s[5]);
        assert(read_wires(e7, s[5].inputs) == Some(seq![w7, w6, w4]));
    }
    assert(run(env, s.subrange(0, 7)) == Some(e9)) by {
        assert(s.subrange(0, 7).drop_last() =~= s.subrange(0, 6));
        assert(s.subrange(0, 7).last() == s[6]);
        assert(read_wires(e8, s[6].inputs) == Some(seq![seq![valid], w0, w8]));
    }
    assert(run(env, s.subrange(0, 8)) == Some(e10)) by {
        assert(s.subrange(0, 8).drop_last() =~= s.subrange(0, 7));
        assert(s.subrange(0, 8).last() == s[7]);
        assert(read_wires(e9, s[7].inputs) == Some(seq![w0, w4]));
    }
    assert(run(env, s.subrange(0, 9)) == Some(e11)) by {
        assert(s.subrange(0, 9).drop_last() =~= s.subrange(0, 8));
        assert(s.subrange(0, 9).last() == s[8]);
        assert(read_wires(e10, s[8].inputs) == Some(seq![seq![valid], w10]));
        assert(Seq::new(1, |i: int| seq![valid][i] && w10[i]) =~= w11);
    }
    assert(s.subrange(0, 9) =~= s);
    if valid && c + 1 == factor {
        assert(w9 == u128_bits(0, cwn));
    }
}

/// The number of set flags in `vs`.
pub open spec fn count_set(vs: Seq<bool>) -> nat
    decreases vs.len(),
{
    if vs.len() == 0 {
        0
    } else {
        (if vs[0] {
            1nat
        } else {
            0nat
        }) + count_set(vs.drop_first())
    }
}

/// The valid flags of a stream of decimator inputs `[sample, [valid]]`.
pub open spec fn valid_flags(inputs: Seq<Seq<Seq<bool>>>) -> Seq<bool> {
    Seq::new(inputs.len(), |i: int| inputs[i][1][0])
}

/// Every cycle input is a sample followed by a one-bit valid flag.
pub open spec fn sample_valid_inputs(inputs: Seq<Seq<Seq<bool>>>) -> bool {
    forall|i: int| 0 <= i < inputs.len() ==> (#[trigger] inputs[i]).len() == 2 && inputs[i][1].len() == 1
}

/// One clock cycle of the decimator block with its counter at `c`.
pub proof fn lemma_decimator_block_cycle(b: RawDspBlock, factor: usize, c: nat, d: Seq<bool>, valid: bool)
    requires
        decimator_block(b, factor),
        factor > 0,
        c < factor,
    ensures
        block_cycle(
            b,
            seq![u128_bits(c as u128, spec_bits_for_value(factor as nat))],
            seq![d, seq![valid]],
        ) == Some((
            seq![u128_bits(decimator_next(factor as nat, c, valid) as u128, spec_bits_for_value(factor as nat))],
            seq![d, seq![valid && c == 0]],
        )),
{
    let cwn = spec_bits_for_value(factor as nat);
    let w0 = u128_bits(c as u128, cwn);
    let ins = seq![w0] + seq![d, seq![valid]];
    assert(ins =~= seq![w0, d, seq![valid]]);
    let env = input_env(12, b.input_wires@, ins);
    reveal_with_fuel(input_value, 4);
    assert(env[0] == Some(w0));
    assert(env[1] == Some(d));
    assert(env[2] == Some(seq![valid]));
    lemma_decimator_cycle(env, factor, c, d, valid);
    lemma_bit_length_bound(factor as nat);
    lemma_run_len(env, decimator_instrs(factor, cwn as u32));
    let e = run(env, decimator_instrs(factor, cwn as u32))->Some_0;
    assert(e.len() == 12);
    let w9 = u128_bits(decimator_next(factor as nat, c, valid) as u128, cwn);
    let outs = seq![w9, d, seq![valid && c == 0]];
    assert(read_wires(e, b.output_wires@) == Some(outs));
    assert(outs.subrange(0, 1) =~= seq![w9]);
    assert(outs.subrange(1, 3) =~= seq![d, seq![valid && c == 0]]);
}

/// The decimator block clocked over a stream from counter `c`: each
/// sample passes through, and is flagged valid exactly when its input is
/// valid and the valid inputs before it, counted from `c`, are a multiple
/// of the factor.
pub proof fn lemma_decimator_stream(b: RawDspBlock, factor: usize, c: nat, inputs: Seq<Seq<Seq<bool>>>)
    requires
        decimator_block(b, factor),
        factor > 0,
        c < factor,
        sample_valid_inputs(inputs),
    ensures
        block_stream(b, seq![u128_bits(c as u128, spec_bits_for_value(factor as nat))], inputs) matches Some(
            outs,
        ) && outs.len() == inputs.len() && forall|i: int|
            0 <= i < inputs.len() ==> #[trigger] outs[i] == seq![
                inputs[i][0],
                seq![inputs[i][1][0] && ((c + count_set(valid_flags(inputs).subrange(0, i))) as int) % (factor as int) == 0],
            ],
    decreases inputs.len(),
{
    if inputs.len() > 0 {
        let cwn = spec_bits_for_value(factor as nat);
        let v = inputs[0][1][0];
        let d = inputs[0][0];
        assert(inputs[0].len() == 2 && inputs[0][1].len() == 1);
        assert(inputs[0][1] =~= seq![v]);
        assert(inputs[0] =~= seq![d, seq![v]]);
        lemma_decimator_block_cycle(b, factor, c, d, v);
        let next = decimator_next(factor as nat, c, v);
        let rest = inputs.drop_first();
        assert(sample_valid_inputs(rest)) by {
            assert forall|i: int| 0 <= i < rest.len() implies (#[trigger] rest[i]).len() == 2 && rest[i][1].len() == 1 by {
                assert(rest[i] == inputs[i + 1]);
            }
        }
        lemma_decimator_stream(b, factor, next, rest);
        let outs_rest = block_stream(b, seq![u128_bits(next as u128, cwn)], rest)->Some_0;
        let outs = seq![seq![d, seq![v && c == 0]]] + outs_rest;
        assert(block_stream(b, seq![u128_bits(c as u128, cwn)], inputs) == Some(outs));
        let f = factor as int;
        let vs = valid_flags(inputs);
        let bump: int = if v {
            1
        } else {
            0
        };
        assert(next as int == (c + bump) % f) by {
            if v && c + 1 == factor {
                vstd::arithmetic::div_mod::lemma_mod_self_0(f);
            } else {
                vstd::arithmetic::div_mod::lemma_small_mod((c + bump) as nat, factor as nat);
            }
        }
        assert forall|i: int| 0 <= i < inputs.len() implies #[trigger] outs[i] == seq![
            inputs[i][0],
            seq![inputs[i][1][0] && ((c + count_set(vs.subrange(0, i))) as int) % f == 0],
        ] by {
            if i == 0 {
                assert(vs.subrange(0, 0) =~= Seq::<bool>::empty());
                vstd::arithmetic::div_mod::lemma_small_mod(c, factor as nat);
            } else {
                let j = i - 1;
                assert(outs[i] == outs_rest[j]);
                assert(rest[j] == inputs[i]);
                let vr = valid_flags(rest);
                assert(vs.subrange(0, i).drop_first() =~= vr.subrange(0, j));
                assert(vs.subrange(0, i)[0] == v);
                let k = count_set(vr.subrange(0, j)) as int;
                assert(count_set(vs.subrange(0, i)) == bump + k);
                vstd::arithmetic::div_mod::lemma_add_mod_noop(c + bump, k, f);
                vstd::arithmetic::div_mod::lemma_add_mod_noop(next as int, k, f);
                vstd::arithmetic::div_mod::lemma_small_mod(next, factor as nat);
                vstd::arithmetic::div_mod::lemma_mod_twice(c + bump, f);
            }
        }
    }
}

/// The decimator keeps every `factor`-th valid sample: clocked from its
/// initial state, the block passes each sample through and flags it valid
/// exactly when its input is valid and the number of valid inputs before
/// it is a multiple of the factor.
pub proof fn lemma_decimator_keeps_every_factor_th(b: RawDspBlock, factor: usize, inputs: Seq<Seq<Seq<bool>>>)
    requires
        decimator_block(b, factor),
        factor > 0,
        sample_valid_inputs(inputs),
    ensures
        block_stream(b, seq![b.initial_state.0@], inputs) matches Some(outs) && outs.len() == inputs.len()
            && forall|i: int|
            0 <= i < inputs.len() ==> #[trigger] outs[i] == seq![
                inputs[i][0],
                seq![inputs[i][1][0] && (count_set(valid_flags(inputs).subrange(0, i)) as int) % (factor as int) == 0],
            ],
{
    let cwn = spec_bits_for_value(factor as nat);
    assert(b.initial_state.0@ =~= u128_bits(0, cwn)) by {
        assert forall|i: int| 0 <= i < cwn implies u128_bits(0, cwn)[i] == false by {
            let x = i as u128;
            assert((0u128 >> x) & 1u128 != 1u128) by (bit_vector);
        }
    }
    lemma_decimator_stream(b, factor, 0, inputs);
}

} // verus!
