//! Delay line (shift register) as an IR graph.
//!
//! `depth` sample registers shift on every valid input; a fill counter
//! marks the output valid once the line has filled.  A depth of zero is
//! treated as one.

use vstd::prelude::*;

use crate::error::Error;
use crate::hdl::common::{
    bin_at, bin_op, bits_for_value, const_at, const_signed_32, const_unsigned, i32_bits, mux, mux_at,
    push_all, repeat_bit, sample_wire, sample_wires, shift_muxes, shift_register_next,
    spec_bits_for_value, u128_bits, valid_wire, wire_at, zero_bits, zero_samples,
};
use crate::hdl::ir::{builder_wf, graph_wf, spec_storage_bits, instrs_view, BinOp, HdlGraphBuilder, InstrView, WireId, WireTy};
use crate::hdl::clocked::{block_cycle, block_stream, input_env, lemma_input_env_in_order};
use crate::hdl::eval::{
    lemma_run_append, lemma_run_frame, lemma_u128_bits_value, read_wires, run,
    unsigned_value, writes_from,
};
use crate::interpret::morphism::{bit_length, lemma_bit_length_bound, lemma_bit_length_bounds};
use vstd::arithmetic::power2::{lemma_pow2_strictly_increases, pow2};
use crate::hdl::raw::{
    dsp_interface, lemma_state_bits_append, lemma_state_bits_uniform, state_bits, ty_of, RawDspBlock,
};

verus! {

/// The depth a delay line is built with: at least one register.
pub open spec fn effective_depth(depth: usize) -> nat {
    if depth == 0 {
        1
    } else {
        depth as nat
    }
}

/// The wire types of a delay line of `d` registers with an `fw`-bit fill counter.
pub open spec fn delay_wires(d: nat, fw: u32) -> Seq<WireTy> {
    let c = WireTy::Bits(fw);
    Seq::new(d, |i: int| WireTy::Signed(32)) + seq![c, WireTy::Signed(32), WireTy::Bit, WireTy::Signed(32), c, c]
        + Seq::new(d, |i: int| WireTy::Signed(32)) + seq![WireTy::Bit, c, c, c, WireTy::Signed(32), WireTy::Bit]
}

/// The constants of a delay line: a zero sample, one, and the depth.
pub open spec fn delay_consts(d: nat, fw: u32) -> Seq<InstrView> {
    let c = WireTy::Bits(fw);
    let n = d as int;
    seq![
        const_at(i32_bits(0), WireTy::Signed(32), n + 3),
        const_at(u128_bits(1, fw as nat), c, n + 4),
        const_at(u128_bits(d as u128, fw as nat), c, n + 5),
    ]
}

/// The fill-counter and output gates of a delay line: the line is full
/// when the counter equals the depth; the counter advances on valid input
/// until full; the output is the last register on valid input (else zero)
/// and is valid on valid input once full.
pub open spec fn delay_tail(d: int) -> Seq<InstrView> {
    seq![
        bin_at(BinOp::Eq, d, d + 5, 2 * d + 6),
        bin_at(BinOp::Add, d, d + 4, 2 * d + 7),
        mux_at(2 * d + 6, 2 * d + 7, d, 2 * d + 8),
        mux_at(d + 2, d, 2 * d + 8, 2 * d + 9),
        mux_at(d + 2, d + 3, d - 1, 2 * d + 10),
        bin_at(BinOp::And, d + 2, 2 * d + 6, 2 * d + 11),
    ]
}

/// The gates of a delay line of `d` registers with an `fw`-bit fill counter.
pub open spec fn delay_instrs(d: nat, fw: u32) -> Seq<InstrView> {
    let n = d as int;
    delay_consts(d, fw) + shift_muxes(wire_at(n + 2), Seq::new(d, |i: int| wire_at(i)), wire_at(n + 1), n + 6)
        + delay_tail(n)
}

/// The input wires of a delay line: the registers, the fill counter, the data.
pub open spec fn delay_inputs(d: nat) -> Seq<WireId> {
    let n = d as int;
    Seq::new(d, |i: int| wire_at(i)) + seq![wire_at(n), wire_at(n + 1), wire_at(n + 2)]
}

/// The output wires of a delay line: the next registers, the next fill
/// counter, the data out and the valid flag.
pub open spec fn delay_outputs(d: nat) -> Seq<WireId> {
    let n = d as int;
    Seq::new(d, |i: int| wire_at(n + 6 + i)) + seq![wire_at(2 * n + 9), wire_at(2 * n + 10), wire_at(2 * n + 11)]
}

/// The types of the delay line's state and data wires.
proof fn lemma_delay_wire_types(d: nat, fw: u32)
    ensures
        forall|k: int| 0 <= k < d ==> #[trigger] delay_wires(d, fw)[k] == WireTy::Signed(32),
        forall|k: int| 0 <= k < d ==> #[trigger] delay_wires(d, fw)[d as int + 6 + k] == WireTy::Signed(32),
        delay_wires(d, fw)[d as int] == WireTy::Bits(fw),
        delay_wires(d, fw)[d as int + 1] == WireTy::Signed(32),
        delay_wires(d, fw)[d as int + 2] == WireTy::Bit,
        delay_wires(d, fw)[2 * d as int + 9] == WireTy::Bits(fw),
        delay_wires(d, fw)[2 * d as int + 10] == WireTy::Signed(32),
        delay_wires(d, fw)[2 * d as int + 11] == WireTy::Bit,
        delay_wires(d, fw).len() == 2 * d + 12,
{
    let c = WireTy::Bits(fw);
    let sw = Seq::new(d, |i: int| WireTy::Signed(32));
    let head = sw + seq![c, WireTy::Signed(32), WireTy::Bit, WireTy::Signed(32), c, c];
    let body = head + sw;
    let tys = delay_wires(d, fw);
    assert(tys == body + seq![WireTy::Bit, c, c, c, WireTy::Signed(32), WireTy::Bit]);
    assert forall|k: int| 0 <= k < d implies #[trigger] tys[k] == WireTy::Signed(32) by {
        assert(tys[k] == body[k]);
        assert(body[k] == head[k]);
    }
    assert forall|k: int| 0 <= k < d implies #[trigger] tys[d as int + 6 + k] == WireTy::Signed(32) by {
        assert(tys[d as int + 6 + k] == body[d as int + 6 + k]);
        assert(body[d as int + 6 + k] == sw[k]);
    }
    assert(body[d as int] == head[d as int]);
    assert(body[d as int + 1] == head[d as int + 1]);
    assert(body[d as int + 2] == head[d as int + 2]);
}

/// `b` is the delay block for `depth`: its graph, wire layout and zero
/// initial state.
pub open spec fn delay_block(b: RawDspBlock, depth: usize) -> bool {
    let d = effective_depth(depth);
    let fw = spec_bits_for_value(d);
    &&& b.graph.wires@ == delay_wires(d, fw as u32)
    &&& instrs_view(b.graph.instructions@) == delay_instrs(d, fw as u32)
    &&& b.input_wires@ == delay_inputs(d)
    &&& b.output_wires@ == delay_outputs(d)
    &&& b.initial_state.0@ == zero_bits(32 * d + fw)
    &&& b.state_wire_count == d + 1
    &&& dsp_interface(b)
}

/// A block with the delay line's wires and layout has the standard DSP
/// interface.
proof fn lemma_delay_interface(b: RawDspBlock, d: nat, fw: u32)
    requires
        d >= 1,
        2 * d + 12 <= usize::MAX,
        graph_wf(b.graph),
        b.graph.wires@ == delay_wires(d, fw),
        b.input_wires@ == delay_inputs(d),
        b.output_wires@ == delay_outputs(d),
        b.initial_state.0@ == zero_bits((32 * d + fw) as nat),
        b.state_wire_count == d + 1,
    ensures
        dsp_interface(b),
{
    let tys = b.graph.wires@;
    let ins = b.input_wires@;
    let outs = b.output_wires@;
    lemma_delay_wire_types(d, fw);
    assert forall|k: int| 0 <= k < d + 1 implies ty_of(tys, #[trigger] ins[k]) == ty_of(tys, outs[k]) by {
        if k < d {
            assert(ins[k] == wire_at(k));
            assert(outs[k] == wire_at(d as int + 6 + k));
            assert(tys[k] == WireTy::Signed(32));
            assert(tys[d as int + 6 + k] == WireTy::Signed(32));
        } else {
            assert(ins[k] == wire_at(d as int));
            assert(outs[k] == wire_at(2 * d as int + 9));
        }
    }
    assert forall|k: int| 0 <= k < 2 implies ty_of(tys, #[trigger] ins[d as int + 1 + k]) == crate::hdl::raw::data_port_ty(k) by {
        assert(ins[d as int + 1 + k] == wire_at(d as int + 1 + k));
    }
    assert forall|k: int| 0 <= k < 2 implies ty_of(tys, #[trigger] outs[d as int + 1 + k]) == crate::hdl::raw::data_port_ty(k) by {
        assert(outs[d as int + 1 + k] == wire_at(2 * d as int + 10 + k));
    }
    assert(crate::hdl::common::wires_below(ins, tys.len())) by {
        assert forall|k: int| 0 <= k < ins.len() implies (#[trigger] ins[k]).0 < tys.len() by {
            if k < d {
                assert(ins[k] == wire_at(k));
            }
        }
    }
    assert(crate::hdl::common::wires_below(outs, tys.len())) by {
        assert forall|k: int| 0 <= k < outs.len() implies (#[trigger] outs[k]).0 < tys.len() by {
            if k < d {
                assert(outs[k] == wire_at(d as int + 6 + k));
            }
        }
    }
    let regs_in = ins.subrange(0, d as int);
    assert forall|k: int| 0 <= k < regs_in.len() implies ty_of(tys, #[trigger] regs_in[k]) == WireTy::Signed(32) by {
        assert(regs_in[k] == wire_at(k));
        assert(tys[k] == WireTy::Signed(32));
    }
    lemma_state_bits_uniform(tys, regs_in, WireTy::Signed(32));
    assert(spec_storage_bits(WireTy::Signed(32)) == 32);
    assert(regs_in.len() == d);
    assert(regs_in.len() * spec_storage_bits(WireTy::Signed(32)) == 32 * d) by (nonlinear_arith)
        requires
            regs_in.len() == d,
            spec_storage_bits(WireTy::Signed(32)) == 32,
    ;
    lemma_state_bits_append(tys, regs_in, seq![wire_at(d as int)]);
    assert(state_bits(tys, seq![wire_at(d as int)]) == fw) by {
        reveal_with_fuel(state_bits, 2);
        assert(seq![wire_at(d as int)].drop_last() =~= Seq::<WireId>::empty());
    }
    assert(ins.subrange(0, b.state_wire_count as int) =~= regs_in + seq![wire_at(d as int)]);
}

/// Build a delay line as a [`RawDspBlock`].
///
/// State wires: `[reg_0, ..., reg_{d-1}, fill_ctr]`.  Data: `data_in`,
/// `valid_in`.  Outputs: `[next_reg_0, ..., next_fill, data_out, valid_out]`.
pub fn build_delay(depth: usize) -> (r: Result<RawDspBlock, Error>)
    ensures
        r matches Ok(b) && delay_block(b, depth),
{
    let depth = if depth == 0 {
        1
    } else {
        depth
    };
    let ghost d = depth as nat;
    let fw = bits_for_value(depth);
    // ---- declare state wires: depth registers for the shift chain ----
    let (builder, regs) = sample_wires(HdlGraphBuilder::new(), depth);
    // Fill counter.
    let (builder, fill_ctr) = builder.with_wire(WireTy::Bits(fw));
    // ---- declare input wires ----
    let (builder, data_in) = builder.with_wire(sample_wire());
    let (builder, valid_in) = builder.with_wire(valid_wire());
    // ---- constants ----
    let (builder, zero_sample) = const_signed_32(builder, 0)?;
    let (builder, fill_one) = const_unsigned(builder, 1, fw)?;
    let (builder, depth_const) = const_unsigned(builder, depth as u128, fw)?;
    let ghost base_w = builder.wires@;
    let ghost base_i = instrs_view(builder.instructions@);
    proof {
        assert(regs@ =~= Seq::new(d, |i: int| wire_at(i)));
        assert(base_w =~= delay_wires(d, fw).subrange(0, d as int + 6));
        assert(instrs_view(builder.instructions@) =~= delay_consts(d, fw));
    }
    // ---- shift register next-state ----
    // next_reg[0] = Mux(valid_in, reg[0], data_in)
    // next_reg[i] = Mux(valid_in, reg[i], reg[i-1])  for i > 0
    let (builder, next_regs) = shift_register_next(builder, valid_in, &regs, data_in)?;
    let ghost mid_w = builder.wires@;
    let ghost mid_i = instrs_view(builder.instructions@);
    // ---- fill counter logic ----
    // is_full = Eq(fill_ctr, depth_const).
    let (builder, is_full) = bin_op(builder, BinOp::Eq, fill_ctr, depth_const, WireTy::Bit)?;
    // fill_plus_one = fill_ctr + 1.
    let (builder, fill_plus_one) = bin_op(builder, BinOp::Add, fill_ctr, fill_one, WireTy::Bits(fw))?;
    // fill_update = Mux(is_full, fill_plus_one, fill_ctr): if full, keep; else increment.
    let (builder, fill_update) = mux(builder, is_full, fill_plus_one, fill_ctr, WireTy::Bits(fw))?;
    // next_fill = Mux(valid_in, fill_ctr, fill_update): only advance when valid_in.
    let (builder, next_fill) = mux(builder, valid_in, fill_ctr, fill_update, WireTy::Bits(fw))?;
    // ---- output ----
    // data_out = Mux(valid_in, zero_sample, reg[depth-1]).
    let (builder, data_out) = mux(builder, valid_in, zero_sample, regs[depth - 1], sample_wire())?;
    // valid_out = And(valid_in, is_full).
    let (builder, valid_out) = bin_op(builder, BinOp::And, valid_in, is_full, valid_wire())?;
    let ghost last = builder;
    let total = builder.wires.len();
    proof {
        assert(total >= d + 1);
    }
    let graph = builder.build();
    // ---- assemble wires ----
    let state_wire_count = depth + 1;
    let mut input_wires: Vec<WireId> = Vec::new();
    push_all(&mut input_wires, &regs);
    input_wires.push(fill_ctr);
    input_wires.push(data_in);
    input_wires.push(valid_in);
    let mut output_wires: Vec<WireId> = Vec::new();
    push_all(&mut output_wires, &next_regs);
    output_wires.push(next_fill);
    output_wires.push(data_out);
    output_wires.push(valid_out);
    // Initial state: all registers zero, fill counter zero.
    let initial_state = zero_samples(depth).concat(repeat_bit(fw, false));
    let b = RawDspBlock::new(graph, input_wires, output_wires, initial_state, state_wire_count);
    proof {
        assert(mid_w =~= delay_wires(d, fw).subrange(0, 2 * d as int + 6));
        assert(mid_i =~= delay_instrs(d, fw).subrange(0, d as int + 3));
        assert(b.graph.wires@ =~= delay_wires(d, fw));
        assert(instrs_view(b.graph.instructions@) =~= delay_instrs(d, fw));
        assert(builder_wf(last));
        assert(b.input_wires@ =~= delay_inputs(d));
        assert(b.output_wires@ =~= delay_outputs(d));
        assert(b.initial_state.0@ =~= zero_bits((32 * d + fw) as nat));
        lemma_delay_interface(b, d, fw);
    }
    Ok(b)
}

/// The registers after one cycle: on valid input the new sample enters
/// first and the others move down one place; otherwise they stay.
pub open spec fn shifted_regs(regs: Seq<Seq<bool>>, x: Seq<bool>, valid: bool) -> Seq<Seq<bool>> {
    if valid {
        seq![x] + regs.drop_last()
    } else {
        regs
    }
}

/// The next-state muxes of a shift register of `d` registers on wires
/// `0..d`, reading the valid flag from wire `vi` and the new sample from
/// wire `fi` and writing from wire `n` on, run on the first `k` registers,
/// write the first `k` shifted registers and leave every other wire.
pub proof fn lemma_shift_muxes_run(
    env: Seq<Option<Seq<bool>>>,
    d: nat,
    vi: int,
    fi: int,
    n: int,
    regs: Seq<Seq<bool>>,
    x: Seq<bool>,
    valid: bool,
    k: nat,
)
    requires
        k <= d,
        d <= vi < n,
        d <= fi < n,
        n + d <= env.len(),
        n + d <= usize::MAX,
        regs.len() == d,
        forall|j: int| 0 <= j < d ==> #[trigger] env[j] == Some(regs[j]),
        env[fi] == Some(x),
        env[vi] == Some(seq![valid]),
    ensures
        ({
            let s = shift_muxes(wire_at(vi), Seq::new(d, |i: int| wire_at(i)), wire_at(fi), n);
            run(env, s.subrange(0, k as int)) matches Some(e) && e.len() == env.len() && (forall|i: int|
                0 <= i < env.len() && !(n <= i < n + k) ==> #[trigger] e[i] == env[i]) && (forall|j: int|
                0 <= j < k ==> #[trigger] e[n + j] == Some(shifted_regs(regs, x, valid)[j]))
        }),
    decreases k,
{
    let s = shift_muxes(wire_at(vi), Seq::new(d, |i: int| wire_at(i)), wire_at(fi), n);
    if k == 0 {
        assert(s.subrange(0, 0) =~= Seq::<InstrView>::empty());
    } else {
        lemma_shift_muxes_run(env, d, vi, fi, n, regs, x, valid, (k - 1) as nat);
        let e = run(env, s.subrange(0, k - 1))->Some_0;
        let kk = k - 1;
        assert(s.subrange(0, k as int).drop_last() =~= s.subrange(0, kk));
        assert(s.subrange(0, k as int).last() == s[kk]);
        let third = if kk == 0 {
            x
        } else {
            regs[kk - 1]
        };
        assert(e[vi] == env[vi]);
        assert(e[kk] == env[kk]);
        if kk > 0 {
            assert(e[kk - 1] == env[kk - 1]);
        } else {
            assert(e[fi] == env[fi]);
        }
        assert(read_wires(e, s[kk].inputs) == Some(seq![seq![valid], regs[kk], third]));
        let v = if valid {
            third
        } else {
            regs[kk]
        };
        assert(v == shifted_regs(regs, x, valid)[kk]);
        let e2 = e.update(n + kk, Some(v));
        assert(run(env, s.subrange(0, k as int)) == Some(e2));
    }
}

/// The fill counter after one cycle: it counts valid inputs up to the
/// depth and stays there.
pub open spec fn next_fill(f: nat, d: nat, valid: bool) -> nat {
    if valid && f < d {
        f + 1
    } else {
        f
    }
}

/// The constants and register muxes of a delay line: the constants are
/// written, the registers shifted, the counter, valid flag and last
/// register left in place.
#[verifier::spinoff_prover]
proof fn lemma_delay_front(
    env: Seq<Option<Seq<bool>>>,
    d: nat,
    regs: Seq<Seq<bool>>,
    f: nat,
    x: Seq<bool>,
    valid: bool,
)
    requires
        1 <= d,
        2 * d + 12 <= usize::MAX,
        f <= d,
        env.len() == 2 * d + 12,
        regs.len() == d,
        forall|j: int| 0 <= j < d ==> #[trigger] env[j] == Some(regs[j]),
        env[d as int] == Some(u128_bits(f as u128, spec_bits_for_value(d))),
        env[d as int + 1] == Some(x),
        env[d as int + 2] == Some(seq![valid]),
    ensures
        ({
            let n = d as int;
            let fwn = spec_bits_for_value(d);
            run(env, delay_consts(d, fwn as u32) + shift_muxes(wire_at(n + 2), Seq::new(d, |i: int| wire_at(i)), wire_at(n + 1), n + 6)) matches Some(e2)
                && e2.len() == env.len() && e2[n] == Some(u128_bits(f as u128, fwn)) && e2[n + 2] == Some(seq![valid])
                && e2[n + 3] == Some(i32_bits(0)) && e2[n + 4] == Some(u128_bits(1, fwn))
                && e2[n + 5] == Some(u128_bits(d as u128, fwn)) && e2[n - 1] == Some(regs[n - 1])
                && (forall|j: int| 0 <= j < d ==> #[trigger] e2[n + 6 + j] == Some(shifted_regs(regs, x, valid)[j]))
        }),
{
    let fwn = spec_bits_for_value(d);
    let fw = fwn as u32;
    let n = d as int;
    lemma_bit_length_bound(d);
    lemma_bit_length_bounds(d);
    assert(fwn == bit_length(d));
    assert(fw as nat == fwn);
    vstd::arithmetic::power2::lemma2_to64();
    let p = pow2(fwn);
    assert(d < p);
    let cnt = u128_bits(f as u128, fwn);
    let one = u128_bits(1, fwn);
    let dc = u128_bits(d as u128, fwn);
    lemma_u128_bits_value(f as u128, fwn);
    lemma_u128_bits_value(1, fwn);
    lemma_u128_bits_value(d as u128, fwn);
    vstd::arithmetic::div_mod::lemma_small_mod(f, p);
    vstd::arithmetic::div_mod::lemma_small_mod(d, p);
    // The constants.
    let consts = delay_consts(d, fw);
    let e1a = env.update(n + 3, Some(i32_bits(0)));
    let e1b = e1a.update(n + 4, Some(one));
    let e1 = e1b.update(n + 5, Some(dc));
    assert(consts.subrange(0, 0) =~= Seq::<InstrView>::empty());
    assert(run(env, consts.subrange(0, 0)) == Some(env));
    assert(run(env, consts.subrange(0, 1)) == Some(e1a)) by {
        assert(consts.subrange(0, 1).drop_last() =~= consts.subrange(0, 0));
        assert(consts.subrange(0, 1).last() == consts[0]);
        assert(read_wires(env, consts[0].inputs) == Some(Seq::<Seq<bool>>::empty()));
    }
    assert(run(env, consts.subrange(0, 2)) == Some(e1b)) by {
        assert(consts.subrange(0, 2).drop_last() =~= consts.subrange(0, 1));
        assert(consts.subrange(0, 2).last() == consts[1]);
        assert(read_wires(e1a, consts[1].inputs) == Some(Seq::<Seq<bool>>::empty()));
    }
    assert(run(env, consts.subrange(0, 3)) == Some(e1)) by {
        assert(consts.subrange(0, 3).drop_last() =~= consts.subrange(0, 2));
        assert(consts.subrange(0, 3).last() == consts[2]);
        assert(read_wires(e1b, consts[2].inputs) == Some(Seq::<Seq<bool>>::empty()));
    }
    assert(consts.subrange(0, 3) =~= consts);
    // The register muxes.
    let muxes = shift_muxes(wire_at(n + 2), Seq::new(d, |i: int| wire_at(i)), wire_at(n + 1), n + 6);
    assert forall|j: int| 0 <= j < d implies #[trigger] e1[j] == Some(regs[j]) by {
        assert(e1[j] == env[j]);
    }
    lemma_shift_muxes_run(e1, d, n + 2, n + 1, n + 6, regs, x, valid, d);
    assert(muxes.subrange(0, d as int) =~= muxes);
    let e2 = run(e1, muxes)->Some_0;
    lemma_run_append(env, consts, muxes);
    let sr = shifted_regs(regs, x, valid);
    assert(e2[n] == Some(cnt));
    assert(e2[n + 2] == Some(seq![valid]));
    assert(e2[n + 3] == Some(i32_bits(0)));
    assert(e2[n + 4] == Some(one));
    assert(e2[n + 5] == Some(dc));
    assert(e2[n - 1] == Some(regs[n - 1]));
}

/// The fill-counter and output gates of a delay line.
#[verifier::spinoff_prover]
#[verifier::rlimit(40)]
proof fn lemma_delay_tail_run(
    e2: Seq<Option<Seq<bool>>>,
    d: nat,
    regs: Seq<Seq<bool>>,
    f: nat,
    valid: bool,
)
    requires
        1 <= d,
        2 * d + 12 <= usize::MAX,
        f <= d,
        regs.len() == d,
        e2.len() == 2 * d + 12,
        e2[d as int] == Some(u128_bits(f as u128, spec_bits_for_value(d))),
        e2[d as int + 2] == Some(seq![valid]),
        e2[d as int + 3] == Some(i32_bits(0)),
        e2[d as int + 4] == Some(u128_bits(1, spec_bits_for_value(d))),
        e2[d as int + 5] == Some(u128_bits(d as u128, spec_bits_for_value(d))),
        e2[d as int - 1] == Some(regs[d as int - 1]),
    ensures
        run(e2, delay_tail(d as int)) matches Some(e) && e.len() == e2.len()
            && (forall|i: int| 0 <= i < 2 * d + 6 ==> #[trigger] e[i] == e2[i])
            && e[2 * d as int + 9] == Some(u128_bits(next_fill(f, d, valid) as u128, spec_bits_for_value(d)))
            && e[2 * d as int + 10] == Some(if valid {
                regs[d - 1]
            } else {
                i32_bits(0)
            }) && e[2 * d as int + 11] == Some(seq![valid && f == d]),
{
    let fwn = spec_bits_for_value(d);
    let n = d as int;
    lemma_bit_length_bound(d);
    lemma_bit_length_bounds(d);
    assert(fwn == bit_length(d));
    vstd::arithmetic::power2::lemma2_to64();
    let p = pow2(fwn);
    assert(d < p);
    let cnt = u128_bits(f as u128, fwn);
    let one = u128_bits(1, fwn);
    let dc = u128_bits(d as u128, fwn);
    lemma_u128_bits_value(f as u128, fwn);
    lemma_u128_bits_value(1, fwn);
    lemma_u128_bits_value(d as u128, fwn);
    vstd::arithmetic::div_mod::lemma_small_mod(f, p);
    vstd::arithmetic::div_mod::lemma_small_mod(d, p);
    if fwn > 1 {
        lemma_pow2_strictly_increases(1, fwn);
    }
    assert(fwn >= 1) by {
        reveal_with_fuel(bit_length, 2);
    }
    assert(p >= 2);
    vstd::arithmetic::div_mod::lemma_small_mod(1, p);
    assert(unsigned_value(cnt) == f);
    assert(unsigned_value(one) == 1);
    assert(cnt.len() == fwn && one.len() == fwn);
    // The fill counter and output gates.
    let tail = delay_tail(n);
    let t0 = seq![f == d];
    let r1 = u128_bits((((f + 1) as int) % (p as int)) as u128, fwn);
    let t2 = if f == d {
        cnt
    } else {
        r1
    };
    let t3 = if valid {
        t2
    } else {
        cnt
    };
    let t4 = if valid {
        regs[n - 1]
    } else {
        i32_bits(0)
    };
    let t5 = seq![valid && f == d];
    let g0 = e2.update(2 * n + 6, Some(t0));
    let g1 = g0.update(2 * n + 7, Some(r1));
    let g2 = g1.update(2 * n + 8, Some(t2));
    let g3 = g2.update(2 * n + 9, Some(t3));
    let g4 = g3.update(2 * n + 10, Some(t4));
    let g5 = g4.update(2 * n + 11, Some(t5));
    assert(tail.subrange(0, 0) =~= Seq::<InstrView>::empty());
    assert(run(e2, tail.subrange(0, 0)) == Some(e2));
    assert(run(e2, tail.subrange(0, 1)) == Some(g0)) by {
        assert(tail.subrange(0, 1).drop_last() =~= tail.subrange(0, 0));
        assert(tail.subrange(0, 1).last() == tail[0]);
        assert(read_wires(e2, tail[0].inputs) == Some(seq![cnt, dc]));
    }
    assert(run(e2, tail.subrange(0, 2)) == Some(g1)) by {
        assert(tail.subrange(0, 2).drop_last() =~= tail.subrange(0, 1));
        assert(tail.subrange(0, 2).last() == tail[1]);
        assert(read_wires(g0, tail[1].inputs) == Some(seq![cnt, one]));
    }
    assert(run(e2, tail.subrange(0, 3)) == Some(g2)) by {
        assert(tail.subrange(0, 3).drop_last() =~= tail.subrange(0, 2));
        assert(tail.subrange(0, 3).last() == tail[2]);
        assert(read_wires(g1, tail[2].inputs) == Some(seq![t0, r1, cnt]));
    }
    assert(run(e2, tail.subrange(0, 4)) == Some(g3)) by {
        assert(tail.subrange(0, 4).drop_last() =~= tail.subrange(0, 3));
        assert(tail.subrange(0, 4).last() == tail[3]);
        assert(read_wires(g2, tail[3].inputs) == Some(seq![seq![valid], cnt, t2]));
    }
    assert(run(e2, tail.subrange(0, 5)) == Some(g4)) by {
        assert(tail.subrange(0, 5).drop_last() =~= tail.subrange(0, 4));
        assert(tail.subrange(0, 5).last() == tail[4]);
        assert(read_wires(g3, tail[4].inputs) == Some(seq![seq![valid], i32_bits(0), regs[n - 1]]));
    }
    assert(run(e2, tail.subrange(0, 6)) == Some(g5)) by {
        assert(tail.subrange(0, 6).drop_last() =~= tail.subrange(0, 5));
        assert(tail.subrange(0, 6).last() == tail[5]);
        assert(read_wires(g4, tail[5].inputs) == Some(seq![seq![valid], t0]));
        assert(Seq::new(1, |i: int| seq![valid][i] && t0[i]) =~= t5);
    }
    assert(tail.subrange(0, 6) =~= tail);
    if valid && f < d {
        vstd::arithmetic::div_mod::lemma_small_mod(f + 1, p);
        assert(t3 == u128_bits((f + 1) as u128, fwn));
    }
    assert(writes_from(tail, 2 * n + 6));
    lemma_run_frame(e2, tail, 2 * n + 6);
}

/// One pass of a delay line's graph, with registers `regs`, fill count
/// `f` (at most the depth), sample `x` and valid flag `valid`: the next
/// registers are shifted, the fill count moves on, the output is the last
/// register on valid input (zero otherwise), valid on valid input once
/// the line is full.
pub proof fn lemma_delay_cycle(
    env: Seq<Option<Seq<bool>>>,
    d: nat,
    regs: Seq<Seq<bool>>,
    f: nat,
    x: Seq<bool>,
    valid: bool,
)
    requires
        1 <= d,
        2 * d + 12 <= usize::MAX,
        f <= d,
        env.len() == 2 * d + 12,
        regs.len() == d,
        forall|j: int| 0 <= j < d ==> #[trigger] env[j] == Some(regs[j]),
        env[d as int] == Some(u128_bits(f as u128, spec_bits_for_value(d))),
        env[d as int + 1] == Some(x),
        env[d as int + 2] == Some(seq![valid]),
    ensures
        run(env, delay_instrs(d, spec_bits_for_value(d) as u32)) matches Some(e) && e.len() == env.len()
            && (forall|j: int| 0 <= j < d ==> #[trigger] e[d as int + 6 + j] == Some(shifted_regs(regs, x, valid)[j]))
            && e[2 * d as int + 9] == Some(u128_bits(next_fill(f, d, valid) as u128, spec_bits_for_value(d)))
            && e[2 * d as int + 10] == Some(if valid {
                regs[d - 1]
            } else {
                i32_bits(0)
            }) && e[2 * d as int + 11] == Some(seq![valid && f == d]),
{
    let n = d as int;
    let fwn = spec_bits_for_value(d);
    let consts = delay_consts(d, fwn as u32);
    let muxes = shift_muxes(wire_at(n + 2), Seq::new(d, |i: int| wire_at(i)), wire_at(n + 1), n + 6);
    lemma_delay_front(env, d, regs, f, x, valid);
    let e2 = run(env, consts + muxes)->Some_0;
    lemma_delay_tail_run(e2, d, regs, f, valid);
    lemma_run_append(env, consts + muxes, delay_tail(n));
    let e = run(e2, delay_tail(n))->Some_0;
    assert forall|j: int| 0 <= j < d implies #[trigger] e[d as int + 6 + j] == Some(shifted_regs(regs, x, valid)[j]) by {
        assert(e[n + 6 + j] == e2[n + 6 + j]);
    }
}

/// One clock cycle of the delay-line block, with registers `regs` and fill
/// count `f` (at most the depth).
pub proof fn lemma_delay_block_cycle(
    b: RawDspBlock,
    depth: usize,
    regs: Seq<Seq<bool>>,
    f: nat,
    x: Seq<bool>,
    valid: bool,
)
    requires
        delay_block(b, depth),
        regs.len() == effective_depth(depth),
        f <= effective_depth(depth),
    ensures
        ({
            let d = effective_depth(depth);
            let fwn = spec_bits_for_value(d);
            block_cycle(b, regs + seq![u128_bits(f as u128, fwn)], seq![x, seq![valid]]) == Some((
                shifted_regs(regs, x, valid) + seq![u128_bits(next_fill(f, d, valid) as u128, fwn)],
                seq![
                    if valid {
                        regs[d - 1]
                    } else {
                        i32_bits(0)
                    },
                    seq![valid && f == d],
                ],
            ))
        }),
{
    let d = effective_depth(depth);
    let n = d as int;
    let fwn = spec_bits_for_value(d);
    let cnt = u128_bits(f as u128, fwn);
    assert(b.graph.wires.len() == b.graph.wires@.len());
    lemma_delay_wire_types(d, fwn as u32);
    let ins = regs + seq![cnt] + seq![x, seq![valid]];
    assert(ins.len() == b.input_wires@.len());
    assert forall|j: int| 0 <= j < b.input_wires@.len() implies (#[trigger] b.input_wires@[j]).0 == j by {
        if j < d {
            assert(b.input_wires@[j] == wire_at(j));
        }
    }
    lemma_input_env_in_order(2 * d + 12, b.input_wires@, ins);
    let env = input_env(2 * d + 12, b.input_wires@, ins);
    assert forall|j: int| 0 <= j < d implies #[trigger] env[j] == Some(regs[j]) by {
        assert(ins[j] == regs[j]);
    }
    assert(ins[n] == cnt);
    assert(ins[n + 1] == x);
    assert(ins[n + 2] == seq![valid]);
    lemma_delay_cycle(env, d, regs, f, x, valid);
    let e = run(env, delay_instrs(d, fwn as u32))->Some_0;
    let sr = shifted_regs(regs, x, valid);
    let nf = u128_bits(next_fill(f, d, valid) as u128, fwn);
    let dout = if valid {
        regs[d - 1]
    } else {
        i32_bits(0)
    };
    let outs = sr + seq![nf] + seq![dout, seq![valid && f == d]];
    let ows = b.output_wires@;
    assert forall|k: int| 0 <= k < ows.len() implies (#[trigger] ows[k]).0 < e.len() && e[ows[k].0 as int] == Some(outs[k]) by {
        if k < d {
            assert(ows[k] == wire_at(n + 6 + k));
        }
    }
    assert(read_wires(e, ows) == Some(outs)) by {
        assert(Seq::new(ows.len(), |k: int| e[ows[k].0 as int]->Some_0) =~= outs);
    }
    assert(outs.subrange(0, n + 1) =~= sr + seq![nf]);
    assert(outs.subrange(n + 1, n + 3) =~= seq![dout, seq![valid && f == d]]);
}

/// The samples of the valid cycles of a stream, oldest first.
pub open spec fn valid_samples(inputs: Seq<Seq<Seq<bool>>>) -> Seq<Seq<bool>>
    decreases inputs.len(),
{
    if inputs.len() == 0 {
        Seq::empty()
    } else {
        (if inputs[0][1][0] {
            seq![inputs[0][0]]
        } else {
            Seq::<Seq<bool>>::empty()
        }) + valid_samples(inputs.drop_first())
    }
}

/// Place `j` of the line after the valid samples `s` have entered
/// registers `regs`: the newest sample first, then the older registers.
pub open spec fn line_at(s: Seq<Seq<bool>>, regs: Seq<Seq<bool>>, j: int) -> Seq<bool> {
    if j < s.len() {
        s[s.len() - 1 - j]
    } else {
        regs[j - s.len()]
    }
}

/// Every cycle input is a sample followed by a one-bit valid flag.
pub open spec fn delay_inputs_ok(inputs: Seq<Seq<Seq<bool>>>) -> bool {
    forall|i: int| 0 <= i < inputs.len() ==> (#[trigger] inputs[i]).len() == 2 && inputs[i][1].len() == 1
}

/// The delay line clocked over a stream from registers `regs` and fill
/// count `f`: on each valid cycle it outputs the sample `d` places back in
/// the line of valid samples (the registers before any), valid once `d`
/// valid samples have been counted; an invalid cycle outputs zero, not
/// valid.
pub proof fn lemma_delay_stream(b: RawDspBlock, depth: usize, regs: Seq<Seq<bool>>, f: nat, inputs: Seq<Seq<Seq<bool>>>)
    requires
        delay_block(b, depth),
        regs.len() == effective_depth(depth),
        f <= effective_depth(depth),
        delay_inputs_ok(inputs),
    ensures
        ({
            let d = effective_depth(depth);
            block_stream(b, regs + seq![u128_bits(f as u128, spec_bits_for_value(d))], inputs) matches Some(outs)
                && outs.len() == inputs.len() && forall|i: int|
                0 <= i < inputs.len() ==> #[trigger] outs[i] == if inputs[i][1][0] {
                    seq![
                        line_at(valid_samples(inputs.subrange(0, i)), regs, d - 1),
                        seq![f + valid_samples(inputs.subrange(0, i)).len() >= d],
                    ]
                } else {
                    seq![i32_bits(0), seq![false]]
                }
        }),
    decreases inputs.len(),
{
    let d = effective_depth(depth);
    let fwn = spec_bits_for_value(d);
    if inputs.len() > 0 {
        let x = inputs[0][0];
        let v = inputs[0][1][0];
        assert(inputs[0].len() == 2 && inputs[0][1].len() == 1);
        assert(inputs[0][1] =~= seq![v]);
        assert(inputs[0] =~= seq![x, seq![v]]);
        lemma_delay_block_cycle(b, depth, regs, f, x, v);
        let sr = shifted_regs(regs, x, v);
        let f2 = next_fill(f, d, v);
        let rest = inputs.drop_first();
        assert(delay_inputs_ok(rest)) by {
            assert forall|i: int| 0 <= i < rest.len() implies (#[trigger] rest[i]).len() == 2 && rest[i][1].len() == 1 by {
                assert(rest[i] == inputs[i + 1]);
            }
        }
        lemma_delay_stream(b, depth, sr, f2, rest);
        let state = regs + seq![u128_bits(f as u128, fwn)];
        let state2 = sr + seq![u128_bits(f2 as u128, fwn)];
        let out = seq![if v { regs[d - 1] } else { i32_bits(0) }, seq![v && f == d]];
        let outs_rest = block_stream(b, state2, rest)->Some_0;
        let outs = seq![out] + outs_rest;
        assert(block_stream(b, state, inputs) == Some(outs));
        let c0 = if v {
            seq![x]
        } else {
            Seq::<Seq<bool>>::empty()
        };
        assert forall|i: int| 0 <= i < inputs.len() implies #[trigger] outs[i] == if inputs[i][1][0] {
            seq![
                line_at(valid_samples(inputs.subrange(0, i)), regs, d - 1),
                seq![f + valid_samples(inputs.subrange(0, i)).len() >= d],
            ]
        } else {
            seq![i32_bits(0), seq![false]]
        } by {
            if i == 0 {
                assert(inputs.subrange(0, 0) =~= Seq::<Seq<Seq<bool>>>::empty());
                assert(valid_samples(inputs.subrange(0, 0)) =~= Seq::<Seq<bool>>::empty());
                if v {
                    assert(f == d <==> f >= d);
                }
            } else {
                let j = i - 1;
                assert(outs[i] == outs_rest[j]);
                assert(rest[j] == inputs[i]);
                let p = inputs.subrange(0, i);
                assert(p.drop_first() =~= rest.subrange(0, j));
                assert(p[0] == inputs[0]);
                let s2 = valid_samples(rest.subrange(0, j));
                assert(valid_samples(p) == c0 + s2);
                let s = c0 + s2;
                if inputs[i][1][0] {
                    let k = d - 1;
                    if k < s2.len() {
                        assert(s[s.len() - 1 - k] == s2[s2.len() - 1 - k]);
                    } else if v {
                        assert(sr[k - s2.len()] == (seq![x] + regs)[k - s2.len()]);
                        if k - s2.len() == 0 {
                            assert(line_at(s, regs, k) == x);
                        } else {
                            assert(line_at(s, regs, k) == regs[k - s2.len() - 1]);
                        }
                    } else {
                        assert(s =~= s2);
                    }
                }
            }
        }
    }
}

/// The delay line delays the stream of valid samples by `depth` (at least
/// one): clocked from its zero initial state, each valid cycle outputs the
/// valid sample `depth` places back, or zero while fewer have entered, and
/// is flagged valid once `depth` valid samples have entered; an invalid
/// cycle outputs zero, not valid.
pub proof fn lemma_delay_delays_valid_samples(b: RawDspBlock, depth: usize, inputs: Seq<Seq<Seq<bool>>>)
    requires
        delay_block(b, depth),
        delay_inputs_ok(inputs),
    ensures
        ({
            let d = effective_depth(depth);
            let init = b.initial_state.0@;
            block_stream(
                b,
                Seq::new(d, |k: int| init.subrange(32 * k, 32 * k + 32)) + seq![init.subrange(32 * d as int, init.len() as int)],
                inputs,
            ) matches Some(outs) && outs.len() == inputs.len() && forall|i: int|
                0 <= i < inputs.len() ==> #[trigger] outs[i] == if inputs[i][1][0] {
                    let s = valid_samples(inputs.subrange(0, i));
                    seq![
                        if s.len() >= d {
                            s[s.len() - d]
                        } else {
                            zero_bits(32)
                        },
                        seq![s.len() >= d],
                    ]
                } else {
                    seq![i32_bits(0), seq![false]]
                }
        }),
{
    let d = effective_depth(depth);
    let fwn = spec_bits_for_value(d);
    let init = b.initial_state.0@;
    let regs = Seq::new(d, |k: int| init.subrange(32 * k, 32 * k + 32));
    assert forall|k: int| 0 <= k < d implies #[trigger] regs[k] == zero_bits(32) by {
        assert(regs[k] =~= zero_bits(32));
    }
    assert(init.subrange(32 * d as int, init.len() as int) =~= u128_bits(0, fwn)) by {
        assert forall|i: int| 0 <= i < fwn implies u128_bits(0, fwn)[i] == false by {
            let xx = i as u128;
            assert((0u128 >> xx) & 1u128 != 1u128) by (bit_vector);
        }
    }
    lemma_delay_stream(b, depth, regs, 0, inputs);
    let outs = block_stream(b, regs + seq![u128_bits(0, fwn)], inputs)->Some_0;
    assert forall|i: int| 0 <= i < inputs.len() implies #[trigger] outs[i] == if inputs[i][1][0] {
        let s = valid_samples(inputs.subrange(0, i));
        seq![
            if s.len() >= d {
                s[s.len() - d]
            } else {
                zero_bits(32)
            },
            seq![s.len() >= d],
        ]
    } else {
        seq![i32_bits(0), seq![false]]
    } by {
        let s = valid_samples(inputs.subrange(0, i));
        if inputs[i][1][0] && s.len() < d {
            assert(regs[d - 1 - s.len()] == zero_bits(32));
        }
    }
}

/// Shifting a sample into the registers and then reading the line after
/// the later samples is reading the line after both.
pub proof fn lemma_line_after_shift(s2: Seq<Seq<bool>>, regs: Seq<Seq<bool>>, x: Seq<bool>, valid: bool, j: int)
    requires
        0 <= j < regs.len(),
        regs.len() >= 1,
    ensures
        line_at(s2, shifted_regs(regs, x, valid), j) == line_at(
            (if valid {
                seq![x]
            } else {
                Seq::<Seq<bool>>::empty()
            }) + s2,
            regs,
            j,
        ),
{
    let c0 = if valid {
        seq![x]
    } else {
        Seq::<Seq<bool>>::empty()
    };
    let s = c0 + s2;
    if j < s2.len() {
        assert(s[s.len() - 1 - j] == s2[s2.len() - 1 - j]);
    } else if valid {
        if j - s2.len() == 0 {
            assert(line_at(s, regs, j) == x);
        } else {
            assert(line_at(s, regs, j) == regs[j - s2.len() - 1]);
        }
    } else {
        assert(s =~= s2);
    }
}

} // verus!
