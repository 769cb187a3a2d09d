//! CIC decimation filter as an IR graph.
//!
//! `M` integrators run at the input rate, a counter keeps every
//! `rate_factor`-th valid sample, and `M` combs (first differences) run on
//! the kept samples.

use vstd::prelude::*;

use crate::error::{zero_order_error, Error, Fault, raises};
use crate::hdl::common::{
    bin_op, bits_for_value, chain_instrs, chain_prevs, const_at, const_signed_32,
    const_unsigned, i32_bits, mux, mux_at, mux_each, mux_row, op_chain, push_all, repeat_bit,
    sample_wire, sample_wires, spec_bits_for_value, u128_bits, valid_wire, wire_at, wires_below,
    zero_bits, zero_samples,
};
use crate::hdl::ir::{
    builder_wf, graph_wf, instrs_view, spec_storage_bits, BinOp, HdlGraphBuilder, InstrView, OpView,
    WireId, WireTy,
};
use crate::hdl::clocked::{block_cycle, block_stream, input_env, lemma_input_env_in_order};
use crate::hdl::accumulator::sample32_inputs;
use crate::hdl::decimator::{count_set, decimator_next, valid_flags};
use crate::hdl::eval::{
    eval_bin, lemma_run_append, lemma_run_frame, lemma_u128_bits_value, lemma_wrapping_add,
    lemma_wrapping_sub, read_wires, run, signed_value, unsigned_value, wrap_signed, writes_from,
};
use crate::interpret::morphism::{bit_length, lemma_bit_length_bound, lemma_bit_length_bounds};
use vstd::arithmetic::power2::{lemma_pow2_strictly_increases, pow2};
use crate::hdl::raw::{
    data_port_ty, dsp_interface, lemma_state_bits_append, lemma_state_bits_uniform, state_bits, ty_of,
    RawDspBlock,
};

verus! {

/// The first wire of the integrator chain, for order `m`.
pub open spec fn cic_integ_base(m: int) -> int {
    2 * m + 7
}

/// The first wire of the decimation-counter logic, for order `m`.
pub open spec fn cic_ctr_base(m: int) -> int {
    4 * m + 7
}

/// The first wire of the comb chain, for order `m`.
pub open spec fn cic_comb_base(m: int) -> int {
    4 * m + 13
}

/// `m` sample wires.
pub open spec fn samples(m: nat) -> Seq<WireTy> {
    Seq::new(m, |k: int| WireTy::Signed(32))
}

/// The wires with indices `start, ..., start + m - 1`.
pub open spec fn wire_run(start: int, m: nat) -> Seq<WireId> {
    Seq::new(m, |k: int| wire_at(start + k))
}

/// The wire types of a CIC filter of order `m` with a `cw`-bit counter.
pub open spec fn cic_wires(m: nat, cw: u32) -> Seq<WireTy> {
    let c = WireTy::Bits(cw);
    samples(m) + seq![c] + samples(m) + seq![WireTy::Signed(32), WireTy::Bit, WireTy::Signed(32), c, c, c]
        + samples(m) + samples(m) + seq![WireTy::Bit, c, WireTy::Bit, c, c, WireTy::Bit] + samples(m)
        + samples(m) + seq![WireTy::Signed(32)]
}

/// The gates of a CIC filter of order `m`, rate factor `rate`, counter
/// width `cw`: the constants; the integrator chain and its registers,
/// advanced on valid input; the decimation counter; the comb chain on the
/// last integrator, its registers advanced on kept samples; and the output
/// (the last comb on a kept sample, else zero).
pub open spec fn cic_instrs(m: nat, rate: usize, cw: u32) -> Seq<InstrView> {
    let c = WireTy::Bits(cw);
    let n = m as int;
    let p = cic_integ_base(n);
    let q = cic_ctr_base(n);
    let r = cic_comb_base(n);
    seq![
        const_at(i32_bits(0), WireTy::Signed(32), 2 * n + 3),
        const_at(u128_bits(0, cw as nat), c, 2 * n + 4),
        const_at(u128_bits(1, cw as nat), c, 2 * n + 5),
        const_at(u128_bits(rate as u128, cw as nat), c, 2 * n + 6),
    ] + chain_instrs(BinOp::Add, wire_at(2 * n + 1), wire_run(0, m), false, p) + mux_row(
        wire_at(2 * n + 2),
        wire_run(0, m),
        wire_run(p, m),
        p + n,
    ) + cic_ctr_instrs(wire_at(n), wire_at(2 * n + 4), wire_at(2 * n + 5), wire_at(2 * n + 6), wire_at(2 * n + 2), q)
        + chain_instrs(BinOp::Sub, wire_at(p + n - 1), wire_run(n + 1, m), true, r) + mux_row(
        wire_at(q + 5),
        wire_run(n + 1, m),
        chain_prevs(wire_at(p + n - 1), m, r),
        r + n,
    ) + seq![mux_at(q + 5, 2 * n + 3, r + n - 1, r + 2 * n)]
}

/// The input wires of a CIC filter of order `m`: the integrators, the
/// counter, the comb registers, then the data.
pub open spec fn cic_inputs(m: nat) -> Seq<WireId> {
    let n = m as int;
    wire_run(0, m) + seq![wire_at(n)] + wire_run(n + 1, m) + seq![wire_at(2 * n + 1), wire_at(2 * n + 2)]
}

/// The output wires of a CIC filter of order `m`: the next integrators,
/// the next counter, the next comb registers, the data out and its valid
/// flag.
pub open spec fn cic_outputs(m: nat) -> Seq<WireId> {
    let n = m as int;
    let q = cic_ctr_base(n);
    let r = cic_comb_base(n);
    wire_run(cic_integ_base(n) + n, m) + seq![wire_at(q + 4)] + wire_run(r + n, m) + seq![
        wire_at(r + 2 * n),
        wire_at(q + 5),
    ]
}

/// The types of the CIC filter's state and data wires.
proof fn lemma_cic_wire_types(m: int, cw: u32)
    requires
        m >= 0,
    ensures
        cic_wires(m as nat, cw).len() == 6 * m + 14,
        forall|k: int| 0 <= k < m ==> #[trigger] cic_wires(m as nat, cw)[k] == WireTy::Signed(32),
        forall|k: int| 0 <= k < m ==> #[trigger] cic_wires(m as nat, cw)[m + 1 + k] == WireTy::Signed(32),
        forall|k: int| 0 <= k < m ==> #[trigger] cic_wires(m as nat, cw)[3 * m + 7 + k] == WireTy::Signed(32),
        forall|k: int| 0 <= k < m ==> #[trigger] cic_wires(m as nat, cw)[5 * m + 13 + k] == WireTy::Signed(32),
        cic_wires(m as nat, cw)[m] == WireTy::Bits(cw),
        cic_wires(m as nat, cw)[2 * m + 1] == WireTy::Signed(32),
        cic_wires(m as nat, cw)[2 * m + 2] == WireTy::Bit,
        cic_wires(m as nat, cw)[4 * m + 11] == WireTy::Bits(cw),
        cic_wires(m as nat, cw)[4 * m + 12] == WireTy::Bit,
        cic_wires(m as nat, cw)[6 * m + 13] == WireTy::Signed(32),
{
    let c = WireTy::Bits(cw);
    let s = samples(m as nat);
    let a = s + seq![c];
    let b = a + s;
    let d = b + seq![WireTy::Signed(32), WireTy::Bit, WireTy::Signed(32), c, c, c];
    let e = d + s;
    let f = e + s;
    let g = f + seq![WireTy::Bit, c, WireTy::Bit, c, c, WireTy::Bit];
    let h = g + s;
    let i = h + s;
    let tys = cic_wires(m as nat, cw);
    assert(tys == i + seq![WireTy::Signed(32)]);
    assert forall|k: int| 0 <= k < m implies #[trigger] tys[k] == WireTy::Signed(32) by {
        assert(tys[k] == i[k] && i[k] == h[k] && h[k] == g[k] && g[k] == f[k] && f[k] == e[k] && e[k] == d[k]
            && d[k] == b[k] && b[k] == a[k] && a[k] == s[k]);
    }
    assert forall|k: int| 0 <= k < m implies #[trigger] tys[m + 1 + k] == WireTy::Signed(32) by {
        let j = m + 1 + k;
        assert(tys[j] == i[j] && i[j] == h[j] && h[j] == g[j] && g[j] == f[j] && f[j] == e[j] && e[j] == d[j]
            && d[j] == b[j] && b[j] == s[k]);
    }
    assert forall|k: int| 0 <= k < m implies #[trigger] tys[3 * m + 7 + k] == WireTy::Signed(32) by {
        let j = 3 * m + 7 + k;
        assert(tys[j] == i[j] && i[j] == h[j] && h[j] == g[j] && g[j] == f[j] && f[j] == s[k]);
    }
    assert forall|k: int| 0 <= k < m implies #[trigger] tys[5 * m + 13 + k] == WireTy::Signed(32) by {
        let j = 5 * m + 13 + k;
        assert(tys[j] == i[j] && i[j] == s[k]);
    }
    let j = m as int;
    assert(tys[j] == i[j] && i[j] == h[j] && h[j] == g[j] && g[j] == f[j] && f[j] == e[j] && e[j] == d[j] && d[j]
        == b[j] && b[j] == a[j]);
    let j = 2 * m + 1;
    assert(tys[j] == i[j] && i[j] == h[j] && h[j] == g[j] && g[j] == f[j] && f[j] == e[j] && e[j] == d[j]);
    let j = 2 * m + 2;
    assert(tys[j] == i[j] && i[j] == h[j] && h[j] == g[j] && g[j] == f[j] && f[j] == e[j] && e[j] == d[j]);
    let j = 4 * m + 11;
    assert(tys[j] == i[j] && i[j] == h[j] && h[j] == g[j]);
    let j = 4 * m + 12;
    assert(tys[j] == i[j] && i[j] == h[j] && h[j] == g[j]);
}

/// A block with the CIC filter's wires and layout has the standard DSP
/// interface.
#[verifier::rlimit(50)]
proof fn lemma_cic_interface(b: RawDspBlock, m: int, cw: u32)
    requires
        m >= 1,
        6 * m + 14 <= usize::MAX,
        graph_wf(b.graph),
        b.graph.wires@ == cic_wires(m as nat, cw),
        b.input_wires@ == cic_inputs(m as nat),
        b.output_wires@ == cic_outputs(m as nat),
        b.initial_state.0@ == zero_bits((64 * m + cw) as nat),
        b.state_wire_count == 2 * m + 1,
    ensures
        dsp_interface(b),
{
    let tys = b.graph.wires@;
    let ins = b.input_wires@;
    let outs = b.output_wires@;
    let n = m;
    lemma_cic_wire_types(m, cw);
    assert forall|k: int| 0 <= k < 2 * m + 1 implies ty_of(tys, #[trigger] ins[k]) == ty_of(tys, outs[k]) by {
        if k < m {
            assert(ins[k] == wire_at(k));
            assert(outs[k] == wire_at(3 * n + 7 + k));
            assert(tys[k] == WireTy::Signed(32));
            assert(tys[3 * n + 7 + k] == WireTy::Signed(32));
        } else if k == m {
            assert(ins[k] == wire_at(n));
            assert(outs[k] == wire_at(4 * n + 11));
        } else {
            let j = k - n - 1;
            assert(ins[k] == wire_at(n + 1 + j));
            assert(outs[k] == wire_at(5 * n + 13 + j));
            assert(tys[n + 1 + j] == WireTy::Signed(32));
            assert(tys[5 * n + 13 + j] == WireTy::Signed(32));
        }
    }
    assert(ins[2 * n + 1] == wire_at(2 * n + 1));
    assert(ins[2 * n + 2] == wire_at(2 * n + 2));
    assert(outs[2 * n + 1] == wire_at(6 * n + 13));
    assert(outs[2 * n + 2] == wire_at(4 * n + 12));
    assert(forall|k: int| 0 <= k < 2 ==> ty_of(tys, #[trigger] ins[2 * n + 1 + k]) == data_port_ty(k));
    assert(forall|k: int| 0 <= k < 2 ==> ty_of(tys, #[trigger] outs[2 * n + 1 + k]) == data_port_ty(k));
    assert(wires_below(ins, tys.len())) by {
        assert forall|k: int| 0 <= k < ins.len() implies (#[trigger] ins[k]).0 < tys.len() by {
            if k < m {
                assert(ins[k] == wire_at(k));
            } else if m < k < 2 * m + 1 {
                assert(ins[k] == wire_at(k));
            }
        }
    }
    assert(wires_below(outs, tys.len())) by {
        assert forall|k: int| 0 <= k < outs.len() implies (#[trigger] outs[k]).0 < tys.len() by {
            if k < m {
                assert(outs[k] == wire_at(3 * n + 7 + k));
            } else if m < k < 2 * m + 1 {
                assert(outs[k] == wire_at(5 * n + 13 + k - n - 1));
            }
        }
    }
    let integ_in = wire_run(0, m as nat);
    let comb_in = wire_run(n + 1, m as nat);
    assert(ins.subrange(0, 2 * n + 1) =~= integ_in + seq![wire_at(n)] + comb_in);
    assert forall|k: int| 0 <= k < m implies ty_of(tys, #[trigger] integ_in[k]) == WireTy::Signed(32) by {
        assert(tys[k] == WireTy::Signed(32));
    }
    assert forall|k: int| 0 <= k < m implies ty_of(tys, #[trigger] comb_in[k]) == WireTy::Signed(32) by {
        assert(tys[n + 1 + k] == WireTy::Signed(32));
    }
    lemma_state_bits_uniform(tys, integ_in, WireTy::Signed(32));
    lemma_state_bits_uniform(tys, comb_in, WireTy::Signed(32));
    assert(spec_storage_bits(WireTy::Signed(32)) == 32);
    assert(m * spec_storage_bits(WireTy::Signed(32)) == 32 * m) by (nonlinear_arith)
        requires
            spec_storage_bits(WireTy::Signed(32)) == 32,
    ;
    lemma_state_bits_append(tys, integ_in, seq![wire_at(n)]);
    lemma_state_bits_append(tys, integ_in + seq![wire_at(n)], comb_in);
    assert(state_bits(tys, seq![wire_at(n)]) == cw) by {
        reveal_with_fuel(state_bits, 2);
        assert(seq![wire_at(n)].drop_last() =~= Seq::<WireId>::empty());
    }
}

/// The wires a CIC filter declares before its gates: state, data and constants.
struct CicFront {
    builder: HdlGraphBuilder,
    integs: Vec<WireId>,
    counter: WireId,
    comb_prevs: Vec<WireId>,
    data_in: WireId,
    valid_in: WireId,
    zero_sample: WireId,
    zero_ctr: WireId,
    one_ctr: WireId,
    factor_const: WireId,
}

/// Declare the state wires, the data inputs and the constants of a CIC
/// filter of the given order, rate factor and counter width.
fn cic_front(order: usize, rate_factor: usize, cw: u32) -> (r: Result<CicFront, Error>)
    requires
        cw <= 128,
    ensures
        r matches Ok(f) && f.builder.wires@ == samples(order as nat) + seq![WireTy::Bits(cw)] + samples(
            order as nat,
        ) + seq![WireTy::Signed(32), WireTy::Bit, WireTy::Signed(32), WireTy::Bits(cw), WireTy::Bits(cw), WireTy::Bits(cw)]
            && instrs_view(f.builder.instructions@) == seq![
            const_at(i32_bits(0), WireTy::Signed(32), 2 * order + 3),
            const_at(u128_bits(0, cw as nat), WireTy::Bits(cw), 2 * order + 4),
            const_at(u128_bits(1, cw as nat), WireTy::Bits(cw), 2 * order + 5),
            const_at(u128_bits(rate_factor as u128, cw as nat), WireTy::Bits(cw), 2 * order + 6),
        ] && builder_wf(f.builder) && f.integs@ == wire_run(0, order as nat) && f.comb_prevs@ == wire_run(
            order + 1,
            order as nat,
        ) && f.counter == wire_at(order as int) && f.data_in == wire_at(2 * order + 1) && f.valid_in
            == wire_at(2 * order + 2) && f.zero_sample == wire_at(2 * order + 3) && f.zero_ctr == wire_at(
            2 * order + 4,
        ) && f.one_ctr == wire_at(2 * order + 5) && f.factor_const == wire_at(2 * order + 6),
{
    let ghost m = order as nat;
    let ghost n = order as int;
    let ghost c = WireTy::Bits(cw);
    // M integrator accumulators.
    let (builder, integs) = sample_wires(HdlGraphBuilder::new(), order);
    // Decimation counter.
    let (builder, counter) = builder.with_wire(WireTy::Bits(cw));
    // M comb previous values.
    let (builder, comb_prevs) = sample_wires(builder, order);
    // ---- input wires ----
    let (builder, data_in) = builder.with_wire(sample_wire());
    let (builder, valid_in) = builder.with_wire(valid_wire());
    // ---- constants ----
    let (builder, zero_sample) = const_signed_32(builder, 0)?;
    let (builder, zero_ctr) = const_unsigned(builder, 0, cw)?;
    let (builder, one_ctr) = const_unsigned(builder, 1, cw)?;
    let (builder, factor_const) = const_unsigned(builder, rate_factor as u128, cw)?;
    proof {
        assert(integs@ =~= wire_run(0, m));
        assert(comb_prevs@ =~= wire_run(n + 1, m));
        assert(builder.wires@ =~= samples(m) + seq![c] + samples(m) + seq![
            WireTy::Signed(32),
            WireTy::Bit,
            WireTy::Signed(32),
            c,
            c,
            c,
        ]);
        assert(instrs_view(builder.instructions@) =~= seq![
            const_at(i32_bits(0), WireTy::Signed(32), 2 * n + 3),
            const_at(u128_bits(0, cw as nat), c, 2 * n + 4),
            const_at(u128_bits(1, cw as nat), c, 2 * n + 5),
            const_at(u128_bits(rate_factor as u128, cw as nat), c, 2 * n + 6),
        ]);
    }
    Ok(CicFront {
        builder,
        integs,
        counter,
        comb_prevs,
        data_in,
        valid_in,
        zero_sample,
        zero_ctr,
        one_ctr,
        factor_const,
    })
}

/// The decimation counter's gates, writing wires from index `q` on: the
/// sample passes when the counter is zero; the counter's successor wraps
/// to zero at the factor; the counter advances on valid input; the output
/// is valid on valid input that passes.
pub open spec fn cic_ctr_instrs(
    counter: WireId,
    zero_ctr: WireId,
    one_ctr: WireId,
    factor_const: WireId,
    valid_in: WireId,
    q: int,
) -> Seq<InstrView> {
    seq![
        InstrView { op: OpView::Bin(BinOp::Eq), inputs: seq![counter, zero_ctr], output: wire_at(q) },
        InstrView { op: OpView::Bin(BinOp::Add), inputs: seq![counter, one_ctr], output: wire_at(q + 1) },
        InstrView { op: OpView::Bin(BinOp::Eq), inputs: seq![wire_at(q + 1), factor_const], output: wire_at(q + 2) },
        InstrView { op: OpView::Mux, inputs: seq![wire_at(q + 2), wire_at(q + 1), zero_ctr], output: wire_at(q + 3) },
        InstrView { op: OpView::Mux, inputs: seq![valid_in, counter, wire_at(q + 3)], output: wire_at(q + 4) },
        InstrView { op: OpView::Bin(BinOp::And), inputs: seq![valid_in, wire_at(q)], output: wire_at(q + 5) },
    ]
}

/// Add the decimation counter's gates; returns the next counter and the
/// output valid flag.
fn cic_counter_logic(
    builder: HdlGraphBuilder,
    counter: WireId,
    zero_ctr: WireId,
    one_ctr: WireId,
    factor_const: WireId,
    valid_in: WireId,
    cw: u32,
) -> (r: Result<(HdlGraphBuilder, WireId, WireId), Error>)
    ensures
        r matches Ok((b, next_counter, valid_out)) && b.wires@ == builder.wires@ + seq![
            WireTy::Bit,
            WireTy::Bits(cw),
            WireTy::Bit,
            WireTy::Bits(cw),
            WireTy::Bits(cw),
            WireTy::Bit,
        ] && instrs_view(b.instructions@) == instrs_view(builder.instructions@) + cic_ctr_instrs(
            counter,
            zero_ctr,
            one_ctr,
            factor_const,
            valid_in,
            builder.wires@.len() as int,
        ) && next_counter == wire_at(builder.wires@.len() as int + 4) && valid_out == wire_at(
            builder.wires@.len() as int + 5,
        ) && (builder_wf(builder) && counter.0 < builder.wires@.len() && zero_ctr.0 < builder.wires@.len()
            && one_ctr.0 < builder.wires@.len() && factor_const.0 < builder.wires@.len() && valid_in.0
            < builder.wires@.len() ==> builder_wf(b)),
{
    let ghost b0 = builder;
    let (builder, decim_pass) = bin_op(builder, BinOp::Eq, counter, zero_ctr, WireTy::Bit)?;
    let (builder, ctr_plus_one) = bin_op(builder, BinOp::Add, counter, one_ctr, WireTy::Bits(cw))?;
    let (builder, at_factor) = bin_op(builder, BinOp::Eq, ctr_plus_one, factor_const, WireTy::Bit)?;
    let (builder, wrapped_ctr) = mux(builder, at_factor, ctr_plus_one, zero_ctr, WireTy::Bits(cw))?;
    let (builder, next_counter) = mux(builder, valid_in, counter, wrapped_ctr, WireTy::Bits(cw))?;
    // valid_and_decim = And(valid_in, decim_pass).
    let (builder, valid_and_decim) = bin_op(builder, BinOp::And, valid_in, decim_pass, WireTy::Bit)?;
    proof {
        assert(builder.wires@ =~= b0.wires@ + seq![
            WireTy::Bit,
            WireTy::Bits(cw),
            WireTy::Bit,
            WireTy::Bits(cw),
            WireTy::Bits(cw),
            WireTy::Bit,
        ]);
        assert(instrs_view(builder.instructions@) =~= instrs_view(b0.instructions@) + cic_ctr_instrs(
            counter,
            zero_ctr,
            one_ctr,
            factor_const,
            valid_in,
            b0.wires@.len() as int,
        ));
    }
    Ok((builder, next_counter, valid_and_decim))
}

/// `b` is the CIC block for `order` and `rate_factor`: its graph, wire
/// layout and zero initial state.
pub open spec fn cic_block(b: RawDspBlock, order: usize, rate_factor: usize) -> bool {
    let cw = spec_bits_for_value(rate_factor as nat);
    &&& b.graph.wires@ == cic_wires(order as nat, cw as u32)
    &&& instrs_view(b.graph.instructions@) == cic_instrs(order as nat, rate_factor, cw as u32)
    &&& b.input_wires@ == cic_inputs(order as nat)
    &&& b.output_wires@ == cic_outputs(order as nat)
    &&& b.initial_state.0@ == zero_bits((64 * order + cw) as nat)
    &&& b.state_wire_count == 2 * order + 1
    &&& dsp_interface(b)
}

/// Build a CIC decimation filter as a [`RawDspBlock`].
///
/// State wires: `[integ_0..integ_{M-1}, counter, comb_prev_0..comb_prev_{M-1}]`.
/// Data: `data_in`, `valid_in`.  Outputs: `[next state..., data_out,
/// valid_out]`.  Order zero is refused with `Error::Cic`, then a rate
/// factor of zero with `Error::InvalidRateFactor`.
#[verifier::rlimit(40)]
pub fn build_cic(order: usize, rate_factor: usize) -> (r: Result<RawDspBlock, Error>)
    ensures
        order == 0 ==> (r matches Err(e) && raises(e, Fault::ZeroOrder)),
        order > 0 && rate_factor == 0 ==> (r matches Err(Error::InvalidRateFactor { factor: k }) && k == 0),
        order > 0 && rate_factor > 0 ==> (r matches Ok(b) && cic_block(b, order, rate_factor)),
{
    if order == 0 {
        return Err(zero_order_error());
    }
    if rate_factor == 0 {
        return Err(Error::InvalidRateFactor { factor: rate_factor });
    }
    let ghost m = order as nat;
    let ghost n = order as int;
    let cw = bits_for_value(rate_factor);
    let ghost p = cic_integ_base(n);
    let ghost r = cic_comb_base(n);
    // ---- state wires, input wires, constants ----
    let front = cic_front(order, rate_factor, cw)?;
    let CicFront {
        builder,
        integs,
        counter,
        comb_prevs,
        data_in,
        valid_in,
        zero_sample,
        zero_ctr,
        one_ctr,
        factor_const,
    } = front;
    // ---- integrator chain (combinational) ----
    // integ_out[0] = integs[0] + data_in
    // integ_out[k] = integs[k] + integ_out[k-1]
    let (builder, integ_outs, _integ_prevs) = op_chain(builder, BinOp::Add, data_in, &integs, false)?;
    proof {
        assert(Seq::new(integs@.len(), |k: int| WireTy::Signed(32)) =~= samples(m));
        assert(integ_outs@ =~= wire_run(p, m));
    }
    // next_integ[k] = Mux(valid_in, integs[k], integ_outs[k]).
    let (builder, next_integs) = mux_each(builder, valid_in, &integs, &integ_outs)?;
    // ---- decimator logic ----
    let (builder, next_counter, valid_and_decim) = cic_counter_logic(
        builder,
        counter,
        zero_ctr,
        one_ctr,
        factor_const,
        valid_in,
        cw,
    )?;
    // ---- comb chain (combinational) ----
    // comb_val[0] = integ_outs[M-1] - comb_prevs[0]
    // comb_val[k] = comb_val[k-1] - comb_prevs[k]
    let integ_final = integ_outs[order - 1];
    let (builder, comb_vals, comb_inputs) = op_chain(builder, BinOp::Sub, integ_final, &comb_prevs, true)?;
    proof {
        assert(comb_vals@ =~= wire_run(r, m));
    }
    // next_comb_prevs[k] = Mux(valid_and_decim, comb_prevs[k], comb_inputs[k]).
    let (builder, next_comb_prevs) = mux_each(builder, valid_and_decim, &comb_prevs, &comb_inputs)?;
    // ---- output ----
    let comb_final = comb_vals[order - 1];
    let (builder, data_out) = mux(builder, valid_and_decim, zero_sample, comb_final, sample_wire())?;
    let ghost last = builder;
    proof {
        assert(next_integs@ =~= wire_run(p + n, m));
        assert(next_comb_prevs@ =~= wire_run(r + n, m));
        assert(last.wires@ == cic_wires(m, cw));
        assert(instrs_view(last.instructions@) == cic_instrs(m, rate_factor, cw));
        assert(builder_wf(last));
    }
    let total = builder.wires.len();
    let graph = builder.build();
    // ---- assemble wires ----
    let mut input_wires: Vec<WireId> = Vec::new();
    push_all(&mut input_wires, &integs);
    input_wires.push(counter);
    push_all(&mut input_wires, &comb_prevs);
    input_wires.push(data_in);
    input_wires.push(valid_in);
    let mut output_wires: Vec<WireId> = Vec::new();
    push_all(&mut output_wires, &next_integs);
    output_wires.push(next_counter);
    push_all(&mut output_wires, &next_comb_prevs);
    output_wires.push(data_out);
    // valid_out
    output_wires.push(valid_and_decim);
    // Initial state: all zeros.
    let initial_state = zero_samples(order).concat(repeat_bit(cw, false)).concat(zero_samples(order));
    let state_wire_count = order + 1 + order;
    let b = RawDspBlock::new(graph, input_wires, output_wires, initial_state, state_wire_count);
    proof {
        assert(b.input_wires@ =~= cic_inputs(m));
        assert(b.output_wires@ =~= cic_outputs(m));
        assert(b.initial_state.0@ =~= zero_bits((64 * m + cw) as nat));
        lemma_cic_wire_types(n, cw);
        assert(total == b.graph.wires@.len());
        lemma_cic_interface(b, n, cw);
    }
    Ok(b)
}

/// The integrator outputs of one cycle: stage `j` adds its register to
/// the previous stage's output (the sample for stage 0), wrapped to 32 bits.
pub open spec fn integ_value(regs: Seq<Seq<bool>>, x: Seq<bool>, j: int) -> int
    decreases j,
{
    if j <= 0 {
        wrap_signed(signed_value(regs[0]) + signed_value(x), 32)
    } else {
        wrap_signed(signed_value(regs[j]) + integ_value(regs, x, j - 1), 32)
    }
}

/// The comb outputs of one cycle: stage `j` subtracts its register from
/// the previous stage's output (`top` for stage 0), wrapped to 32 bits.
pub open spec fn comb_value(regs: Seq<Seq<bool>>, top: int, j: int) -> int
    decreases j,
{
    if j <= 0 {
        wrap_signed(top - signed_value(regs[0]), 32)
    } else {
        wrap_signed(comb_value(regs, top, j - 1) - signed_value(regs[j]), 32)
    }
}

/// The integrator chain, run on its first `k` stages, writes each stage's
/// 32-bit output and leaves every other wire.
proof fn lemma_integ_chain_run(
    env: Seq<Option<Seq<bool>>>,
    start: WireId,
    ops: Seq<WireId>,
    base: int,
    regs: Seq<Seq<bool>>,
    x: Seq<bool>,
    k: nat,
)
    requires
        ops.len() == regs.len(),
        k <= ops.len(),
        start.0 < base,
        base + ops.len() <= env.len(),
        base + ops.len() <= usize::MAX,
        env[start.0 as int] == Some(x),
        x.len() == 32,
        forall|j: int| 0 <= j < ops.len() ==> (#[trigger] ops[j]).0 < base && env[ops[j].0 as int] == Some(regs[j])
            && regs[j].len() == 32,
    ensures
        ({
            let s = chain_instrs(BinOp::Add, start, ops, false, base);
            run(env, s.subrange(0, k as int)) matches Some(e) && e.len() == env.len() && (forall|i: int|
                0 <= i < env.len() && !(base <= i < base + k) ==> #[trigger] e[i] == env[i]) && (forall|j: int|
                0 <= j < k ==> (#[trigger] e[base + j]) is Some && e[base + j]->Some_0.len() == 32 && signed_value(
                    e[base + j]->Some_0,
                ) == integ_value(regs, x, j))
        }),
    decreases k,
{
    let s = chain_instrs(BinOp::Add, start, ops, false, base);
    if k == 0 {
        assert(s.subrange(0, 0) =~= Seq::<InstrView>::empty());
    } else {
        let kk = k - 1;
        lemma_integ_chain_run(env, start, ops, base, regs, x, kk as nat);
        let e = run(env, s.subrange(0, kk))->Some_0;
        assert(s.subrange(0, k as int).drop_last() =~= s.subrange(0, kk));
        assert(s.subrange(0, k as int).last() == s[kk]);
        let prev = if kk == 0 {
            x
        } else {
            e[base + kk - 1]->Some_0
        };
        assert(ops[kk].0 < base);
        assert(e[ops[kk].0 as int] == env[ops[kk].0 as int]);
        if kk == 0 {
            assert(e[start.0 as int] == env[start.0 as int]);
        }
        assert(chain_prevs(start, ops.len(), base)[kk] == if kk == 0 { start } else { wire_at(base + kk - 1) });
        assert(read_wires(e, s[kk].inputs) == Some(seq![regs[kk], prev]));
        lemma_wrapping_add(regs[kk], prev);
        let y = eval_bin(BinOp::Add, regs[kk], prev)->Some_0;
        let e2 = e.update(base + kk, Some(y));
        assert(run(env, s.subrange(0, k as int)) == Some(e2));
    }
}

/// The comb chain, run on its first `k` stages, writes each stage's 32-bit
/// output and leaves every other wire.
proof fn lemma_comb_chain_run(
    env: Seq<Option<Seq<bool>>>,
    start: WireId,
    ops: Seq<WireId>,
    base: int,
    regs: Seq<Seq<bool>>,
    top: Seq<bool>,
    k: nat,
)
    requires
        ops.len() == regs.len(),
        k <= ops.len(),
        start.0 < base,
        base + ops.len() <= env.len(),
        base + ops.len() <= usize::MAX,
        env[start.0 as int] == Some(top),
        top.len() == 32,
        forall|j: int| 0 <= j < ops.len() ==> (#[trigger] ops[j]).0 < base && env[ops[j].0 as int] == Some(regs[j])
            && regs[j].len() == 32,
    ensures
        ({
            let s = chain_instrs(BinOp::Sub, start, ops, true, base);
            run(env, s.subrange(0, k as int)) matches Some(e) && e.len() == env.len() && (forall|i: int|
                0 <= i < env.len() && !(base <= i < base + k) ==> #[trigger] e[i] == env[i]) && (forall|j: int|
                0 <= j < k ==> (#[trigger] e[base + j]) is Some && e[base + j]->Some_0.len() == 32 && signed_value(
                    e[base + j]->Some_0,
                ) == comb_value(regs, signed_value(top), j))
        }),
    decreases k,
{
    let s = chain_instrs(BinOp::Sub, start, ops, true, base);
    if k == 0 {
        assert(s.subrange(0, 0) =~= Seq::<InstrView>::empty());
    } else {
        let kk = k - 1;
        lemma_comb_chain_run(env, start, ops, base, regs, top, kk as nat);
        let e = run(env, s.subrange(0, kk))->Some_0;
        assert(s.subrange(0, k as int).drop_last() =~= s.subrange(0, kk));
        assert(s.subrange(0, k as int).last() == s[kk]);
        let prev = if kk == 0 {
            top
        } else {
            e[base + kk - 1]->Some_0
        };
        assert(ops[kk].0 < base);
        assert(e[ops[kk].0 as int] == env[ops[kk].0 as int]);
        if kk == 0 {
            assert(e[start.0 as int] == env[start.0 as int]);
        }
        assert(chain_prevs(start, ops.len(), base)[kk] == if kk == 0 { start } else { wire_at(base + kk - 1) });
        assert(read_wires(e, s[kk].inputs) == Some(seq![prev, regs[kk]]));
        lemma_wrapping_sub(prev, regs[kk]);
        let y = eval_bin(BinOp::Sub, prev, regs[kk])->Some_0;
        let e2 = e.update(base + kk, Some(y));
        assert(run(env, s.subrange(0, k as int)) == Some(e2));
    }
}

/// A row of muxes, run on its first `k` entries, writes `sel ? ys[j] : xs[j]`
/// for each and leaves every other wire.
proof fn lemma_mux_row_run(
    env: Seq<Option<Seq<bool>>>,
    sel: WireId,
    xs: Seq<WireId>,
    ys: Seq<WireId>,
    base: int,
    s: bool,
    k: nat,
)
    requires
        xs.len() == ys.len(),
        k <= xs.len(),
        sel.0 < base,
        base + xs.len() <= env.len(),
        base + xs.len() <= usize::MAX,
        env[sel.0 as int] == Some(seq![s]),
        forall|j: int| 0 <= j < xs.len() ==> (#[trigger] xs[j]).0 < base && env[xs[j].0 as int] is Some,
        forall|j: int| 0 <= j < ys.len() ==> (#[trigger] ys[j]).0 < base && env[ys[j].0 as int] is Some,
    ensures
        run(env, mux_row(sel, xs, ys, base).subrange(0, k as int)) matches Some(e) && e.len() == env.len() && (forall|i: int|
            0 <= i < env.len() && !(base <= i < base + k) ==> #[trigger] e[i] == env[i]) && (forall|j: int|
            0 <= j < k ==> #[trigger] e[base + j] == if s {
                env[ys[j].0 as int]
            } else {
                env[xs[j].0 as int]
            }),
    decreases k,
{
    let r = mux_row(sel, xs, ys, base);
    if k == 0 {
        assert(r.subrange(0, 0) =~= Seq::<InstrView>::empty());
    } else {
        let kk = k - 1;
        lemma_mux_row_run(env, sel, xs, ys, base, s, kk as nat);
        let e = run(env, r.subrange(0, kk))->Some_0;
        assert(r.subrange(0, k as int).drop_last() =~= r.subrange(0, kk));
        assert(r.subrange(0, k as int).last() == r[kk]);
        assert(xs[kk].0 < base && ys[kk].0 < base);
        assert(e[sel.0 as int] == env[sel.0 as int]);
        assert(e[xs[kk].0 as int] == env[xs[kk].0 as int]);
        assert(e[ys[kk].0 as int] == env[ys[kk].0 as int]);
        let xv = env[xs[kk].0 as int]->Some_0;
        let yv = env[ys[kk].0 as int]->Some_0;
        assert(read_wires(e, r[kk].inputs) == Some(seq![seq![s], xv, yv]));
        let e2 = e.update(base + kk, Some(if s { yv } else { xv }));
        assert(run(env, r.subrange(0, k as int)) == Some(e2));
    }
}

/// The constants, integrator chain and integrator registers of a CIC
/// filter of order `m`.
#[verifier::spinoff_prover]
proof fn lemma_cic_front(
    env: Seq<Option<Seq<bool>>>,
    m: nat,
    rate: usize,
    integs: Seq<Seq<bool>>,
    x: Seq<bool>,
    v: bool,
)
    requires
        m >= 1,
        rate > 0,
        env.len() == 6 * m + 14,
        6 * m + 14 <= usize::MAX,
        integs.len() == m,
        forall|j: int| 0 <= j < m ==> #[trigger] env[j] == Some(integs[j]) && integs[j].len() == 32,
        env[2 * m as int + 1] == Some(x),
        x.len() == 32,
        env[2 * m as int + 2] == Some(seq![v]),
    ensures
        ({
            let n = m as int;
            let cwn = spec_bits_for_value(rate as nat);
            let cw = cwn as u32;
            let c = WireTy::Bits(cw);
            let p = cic_integ_base(n);
            let front = seq![
                const_at(i32_bits(0), WireTy::Signed(32), 2 * n + 3),
                const_at(u128_bits(0, cw as nat), c, 2 * n + 4),
                const_at(u128_bits(1, cw as nat), c, 2 * n + 5),
                const_at(u128_bits(rate as u128, cw as nat), c, 2 * n + 6),
            ] + chain_instrs(BinOp::Add, wire_at(2 * n + 1), wire_run(0, m), false, p) + mux_row(
                wire_at(2 * n + 2),
                wire_run(0, m),
                wire_run(p, m),
                p + n,
            );
            run(env, front) matches Some(e) && e.len() == env.len() && (forall|i: int|
                0 <= i < 2 * n + 3 ==> #[trigger] e[i] == env[i]) && e[2 * n + 3] == Some(i32_bits(0)) && e[2 * n + 4]
                == Some(u128_bits(0, cwn)) && e[2 * n + 5] == Some(u128_bits(1, cwn)) && e[2 * n + 6] == Some(
                u128_bits(rate as u128, cwn),
            ) && (forall|k: int|
                0 <= k < n ==> (#[trigger] e[p + k]) is Some && e[p + k]->Some_0.len() == 32 && signed_value(
                    e[p + k]->Some_0,
                ) == integ_value(integs, x, k)) && (forall|k: int|
                0 <= k < n ==> #[trigger] e[p + n + k] == if v {
                    e[p + k]
                } else {
                    env[k]
                })
        }),
{
    let n = m as int;
    let cwn = spec_bits_for_value(rate as nat);
    let cw = cwn as u32;
    let c = WireTy::Bits(cw);
    let p = cic_integ_base(n);
    let s1 = seq![
        const_at(i32_bits(0), WireTy::Signed(32), 2 * n + 3),
        const_at(u128_bits(0, cw as nat), c, 2 * n + 4),
        const_at(u128_bits(1, cw as nat), c, 2 * n + 5),
        const_at(u128_bits(rate as u128, cw as nat), c, 2 * n + 6),
    ];
    lemma_bit_length_bound(rate as nat);
    assert(cw as nat == cwn);
    let e1a = env.update(2 * n + 3, Some(i32_bits(0)));
    let e1b = e1a.update(2 * n + 4, Some(u128_bits(0, cwn)));
    let e1c = e1b.update(2 * n + 5, Some(u128_bits(1, cwn)));
    let e1 = e1c.update(2 * n + 6, Some(u128_bits(rate as u128, cwn)));
    assert(s1.subrange(0, 0) =~= Seq::<InstrView>::empty());
    assert(run(env, s1.subrange(0, 0)) == Some(env));
    assert(run(env, s1.subrange(0, 1)) == Some(e1a)) by {
        assert(s1.subrange(0, 1).drop_last() =~= s1.subrange(0, 0));
        assert(s1.subrange(0, 1).last() == s1[0]);
        assert(read_wires(env, s1[0].inputs) == Some(Seq::<Seq<bool>>::empty()));
    }
    assert(run(env, s1.subrange(0, 2)) == Some(e1b)) by {
        assert(s1.subrange(0, 2).drop_last() =~= s1.subrange(0, 1));
        assert(s1.subrange(0, 2).last() == s1[1]);
        assert(read_wires(e1a, s1[1].inputs) == Some(Seq::<Seq<bool>>::empty()));
    }
    assert(run(env, s1.subrange(0, 3)) == Some(e1c)) by {
        assert(s1.subrange(0, 3).drop_last() =~= s1.subrange(0, 2));
        assert(s1.subrange(0, 3).last() == s1[2]);
        assert(read_wires(e1b, s1[2].inputs) == Some(Seq::<Seq<bool>>::empty()));
    }
    assert(run(env, s1.subrange(0, 4)) == Some(e1)) by {
        assert(s1.subrange(0, 4).drop_last() =~= s1.subrange(0, 3));
        assert(s1.subrange(0, 4).last() == s1[3]);
        assert(read_wires(e1c, s1[3].inputs) == Some(Seq::<Seq<bool>>::empty()));
    }
    assert(s1.subrange(0, 4) =~= s1);
    // The integrator chain.
    let ops = wire_run(0, m);
    let s2 = chain_instrs(BinOp::Add, wire_at(2 * n + 1), ops, false, p);
    assert forall|j: int| 0 <= j < ops.len() implies (#[trigger] ops[j]).0 < p && e1[ops[j].0 as int] == Some(integs[j])
        && integs[j].len() == 32 by {
        assert(e1[j] == env[j]);
    }
    lemma_integ_chain_run(e1, wire_at(2 * n + 1), ops, p, integs, x, m);
    assert(s2.subrange(0, n) =~= s2);
    let e2 = run(e1, s2)->Some_0;
    lemma_run_append(env, s1, s2);
    // The integrator registers.
    let ys = wire_run(p, m);
    let s3 = mux_row(wire_at(2 * n + 2), ops, ys, p + n);
    assert forall|j: int| 0 <= j < ops.len() implies (#[trigger] ops[j]).0 < p + n && e2[ops[j].0 as int] is Some by {
        assert(e2[j] == e1[j]);
    }
    assert forall|j: int| 0 <= j < ys.len() implies (#[trigger] ys[j]).0 < p + n && e2[ys[j].0 as int] is Some by {
        assert(ys[j] == wire_at(p + j));
    }
    assert(e2[2 * n + 2] == e1[2 * n + 2]);
    lemma_mux_row_run(e2, wire_at(2 * n + 2), ops, ys, p + n, v, m);
    assert(s3.subrange(0, n) =~= s3);
    let e3 = run(e2, s3)->Some_0;
    lemma_run_append(env, s1 + s2, s3);
    assert forall|k: int| 0 <= k < n implies (#[trigger] e3[p + k]) is Some && e3[p + k]->Some_0.len() == 32
        && signed_value(e3[p + k]->Some_0) == integ_value(integs, x, k) by {
        assert(e3[p + k] == e2[p + k]);
    }
    assert forall|k: int| 0 <= k < n implies #[trigger] e3[p + n + k] == if v {
        e3[p + k]
    } else {
        env[k]
    } by {
        assert(ys[k] == wire_at(p + k));
        assert(ops[k] == wire_at(k));
        assert(e3[p + k] == e2[p + k]);
        assert(e2[k] == e1[k]);
    }
    assert forall|i: int| 0 <= i < 2 * n + 3 implies #[trigger] e3[i] == env[i] by {
        assert(e3[i] == e2[i]);
        assert(e2[i] == e1[i]);
    }
}

/// The decimation-counter gates of a CIC filter: the next counter, and the
/// keep flag `valid && counter == 0`.
#[verifier::spinoff_prover]
#[verifier::rlimit(80)]
proof fn lemma_cic_ctr(env: Seq<Option<Seq<bool>>>, m: nat, rate: usize, cnt: nat, v: bool)
    requires
        m >= 1,
        rate > 0,
        cnt < rate,
        env.len() == 6 * m + 14,
        6 * m + 14 <= usize::MAX,
        env[m as int] == Some(u128_bits(cnt as u128, spec_bits_for_value(rate as nat))),
        env[2 * m as int + 2] == Some(seq![v]),
        env[2 * m as int + 4] == Some(u128_bits(0, spec_bits_for_value(rate as nat))),
        env[2 * m as int + 5] == Some(u128_bits(1, spec_bits_for_value(rate as nat))),
        env[2 * m as int + 6] == Some(u128_bits(rate as u128, spec_bits_for_value(rate as nat))),
    ensures
        ({
            let n = m as int;
            let q = cic_ctr_base(n);
            let cwn = spec_bits_for_value(rate as nat);
            run(env, cic_ctr_instrs(wire_at(n), wire_at(2 * n + 4), wire_at(2 * n + 5), wire_at(2 * n + 6), wire_at(2 * n + 2), q))
                matches Some(e) && e.len() == env.len() && (forall|i: int| 0 <= i < q ==> #[trigger] e[i] == env[i])
                && e[q + 4] == Some(u128_bits(decimator_next(rate as nat, cnt, v) as u128, cwn)) && e[q + 5] == Some(
                seq![v && cnt == 0],
            )
        }),
{
    let n = m as int;
    let q = cic_ctr_base(n);
    let cwn = spec_bits_for_value(rate as nat);
    let s = cic_ctr_instrs(wire_at(n), wire_at(2 * n + 4), wire_at(2 * n + 5), wire_at(2 * n + 6), wire_at(2 * n + 2), q);
    lemma_bit_length_bound(rate as nat);
    lemma_bit_length_bounds(rate as nat);
    assert(cwn == bit_length(rate as nat));
    vstd::arithmetic::power2::lemma2_to64();
    if cwn > 1 {
        lemma_pow2_strictly_increases(1, cwn);
    }
    let pp = pow2(cwn);
    assert(rate < pp);
    assert(pp >= 2);
    let w0 = u128_bits(cnt as u128, cwn);
    let z = u128_bits(0, cwn);
    let one = u128_bits(1, cwn);
    let f = u128_bits(rate as u128, cwn);
    let w1 = u128_bits((cnt + 1) as u128, cwn);
    lemma_u128_bits_value(cnt as u128, cwn);
    lemma_u128_bits_value(0, cwn);
    lemma_u128_bits_value(1, cwn);
    lemma_u128_bits_value(rate as u128, cwn);
    lemma_u128_bits_value((cnt + 1) as u128, cwn);
    vstd::arithmetic::div_mod::lemma_small_mod(cnt, pp);
    vstd::arithmetic::div_mod::lemma_small_mod(0, pp);
    vstd::arithmetic::div_mod::lemma_small_mod(1, pp);
    vstd::arithmetic::div_mod::lemma_small_mod(rate as nat, pp);
    vstd::arithmetic::div_mod::lemma_small_mod(cnt + 1, pp);
    assert(unsigned_value(w0) == cnt);
    assert(unsigned_value(z) == 0);
    assert(unsigned_value(one) == 1);
    assert(unsigned_value(f) == rate);
    assert(unsigned_value(w1) == cnt + 1);
    assert((((cnt + 1) as int) % (pp as int)) as u128 == (cnt + 1) as u128);
    let t0 = seq![cnt == 0];
    let t2 = seq![cnt + 1 == rate];
    let t3 = if cnt + 1 == rate {
        z
    } else {
        w1
    };
    let t4 = if v {
        t3
    } else {
        w0
    };
    let t5 = seq![v && cnt == 0];
    let g0 = env.update(q, Some(t0));
    let g1 = g0.update(q + 1, Some(w1));
    let g2 = g1.update(q + 2, Some(t2));
    let g3 = g2.update(q + 3, Some(t3));
    let g4 = g3.update(q + 4, Some(t4));
    let g5 = g4.update(q + 5, Some(t5));
    assert(s.subrange(0, 0) =~= Seq::<InstrView>::empty());
    assert(run(env, s.subrange(0, 0)) == Some(env));
    assert(run(env, s.subrange(0, 1)) == Some(g0)) by {
        assert(s.subrange(0, 1).drop_last() =~= s.subrange(0, 0));
        assert(s.subrange(0, 1).last() == s[0]);
        assert(read_wires(env, s[0].inputs) == Some(seq![w0, z]));
    }
    assert(run(env, s.subrange(0, 2)) == Some(g1)) by {
        assert(s.subrange(0, 2).drop_last() =~= s.subrange(0, 1));
        assert(s.subrange(0, 2).last() == s[1]);
        assert(read_wires(g0, s[1].inputs) == Some(seq![w0, one]));
    }
    assert(run(env, s.subrange(0, 3)) == Some(g2)) by {
        assert(s.subrange(0, 3).drop_last() =~= s.subrange(0, 2));
        assert(s.subrange(0, 3).last() == s[2]);
        assert(read_wires(g1, s[2].inputs) == Some(seq![w1, f]));
    }
    assert(run(env, s.subrange(0, 4)) == Some(g3)) by {
        assert(s.subrange(0, 4).drop_last() =~= s.subrange(0, 3));
        assert(s.subrange(0, 4).last() == s[3]);
        assert(read_wires(g2, s[3].inputs) == Some(seq![t2, w1, z]));
    }
    assert(run(env, s.subrange(0, 5)) == Some(g4)) by {
        assert(s.subrange(0, 5).drop_last() =~= s.subrange(0, 4));
        assert(s.subrange(0, 5).last() == s[4]);
        assert(read_wires(g3, s[4].inputs) == Some(seq![seq![v], w0, t3]));
    }
    assert(run(env, s.subrange(0, 6)) == Some(g5)) by {
        assert(s.subrange(0, 6).drop_last() =~= s.subrange(0, 5));
        assert(s.subrange(0, 6).last() == s[5]);
        assert(read_wires(g4, s[5].inputs) == Some(seq![seq![v], t0]));
        assert(Seq::new(1, |i: int| seq![v][i] && t0[i]) =~= t5);
    }
    assert(s.subrange(0, 6) =~= s);
    if v && cnt + 1 == rate {
        assert(t4 == u128_bits(0, cwn));
    }
}

/// The comb chain, comb registers and output gate of a CIC filter, run
/// where the last integrator holds `top`, the comb registers `combs` and
/// the keep flag `keep`.
#[verifier::spinoff_prover]
#[verifier::rlimit(60)]
proof fn lemma_cic_back(env: Seq<Option<Seq<bool>>>, m: nat, combs: Seq<Seq<bool>>, top: Seq<bool>, keep: bool)
    requires
        m >= 1,
        env.len() == 6 * m + 14,
        6 * m + 14 <= usize::MAX,
        combs.len() == m,
        forall|j: int| 0 <= j < m ==> #[trigger] env[m + 1 + j] == Some(combs[j]) && combs[j].len() == 32,
        env[cic_integ_base(m as int) + m - 1] == Some(top),
        top.len() == 32,
        env[cic_ctr_base(m as int) + 5] == Some(seq![keep]),
        env[2 * m as int + 3] == Some(i32_bits(0)),
    ensures
        ({
            let n = m as int;
            let p = cic_integ_base(n);
            let q = cic_ctr_base(n);
            let r = cic_comb_base(n);
            let t = signed_value(top);
            let back = chain_instrs(BinOp::Sub, wire_at(p + n - 1), wire_run(n + 1, m), true, r) + mux_row(
                wire_at(q + 5),
                wire_run(n + 1, m),
                chain_prevs(wire_at(p + n - 1), m, r),
                r + n,
            ) + seq![mux_at(q + 5, 2 * n + 3, r + n - 1, r + 2 * n)];
            run(env, back) matches Some(e) && e.len() == env.len() && (forall|i: int|
                0 <= i < r ==> #[trigger] e[i] == env[i]) && (forall|k: int|
                0 <= k < n ==> (#[trigger] e[r + n + k]) is Some && e[r + n + k]->Some_0.len() == 32 && signed_value(
                    e[r + n + k]->Some_0,
                ) == if keep {
                    if k == 0 {
                        t
                    } else {
                        comb_value(combs, t, k - 1)
                    }
                } else {
                    signed_value(combs[k])
                }) && e[r + 2 * n] is Some && (keep ==> e[r + 2 * n]->Some_0.len() == 32 && signed_value(
                e[r + 2 * n]->Some_0,
            ) == comb_value(combs, t, n - 1)) && (!keep ==> e[r + 2 * n] == Some(i32_bits(0)))
        }),
{
    let n = m as int;
    let p = cic_integ_base(n);
    let q = cic_ctr_base(n);
    let r = cic_comb_base(n);
    let t = signed_value(top);
    let ops = wire_run(n + 1, m);
    let s5 = chain_instrs(BinOp::Sub, wire_at(p + n - 1), ops, true, r);
    assert forall|j: int| 0 <= j < ops.len() implies (#[trigger] ops[j]).0 < r && env[ops[j].0 as int] == Some(combs[j])
        && combs[j].len() == 32 by {
        assert(0 <= j < m);
        assert(ops[j] == wire_at(n + 1 + j));
        assert(env[m + 1 + j] == Some(combs[j]) && combs[j].len() == 32);
    }
    lemma_comb_chain_run(env, wire_at(p + n - 1), ops, r, combs, top, m);
    assert(s5.subrange(0, n) =~= s5);
    let e5 = run(env, s5)->Some_0;
    let ys = chain_prevs(wire_at(p + n - 1), m, r);
    let s6 = mux_row(wire_at(q + 5), ops, ys, r + n);
    assert forall|j: int| 0 <= j < ops.len() implies (#[trigger] ops[j]).0 < r + n && e5[ops[j].0 as int] is Some by {
        assert(ops[j] == wire_at(n + 1 + j));
        assert(e5[n + 1 + j] == env[n + 1 + j]);
        assert(env[m + 1 + j] == Some(combs[j]));
    }
    assert forall|j: int| 0 <= j < ys.len() implies (#[trigger] ys[j]).0 < r + n && e5[ys[j].0 as int] is Some by {
        if j == 0 {
            assert(e5[p + n - 1] == env[p + n - 1]);
        } else {
            assert(ys[j] == wire_at(r + j - 1));
            assert(e5[r + (j - 1)] is Some);
        }
    }
    assert(e5[q + 5] == env[q + 5]);
    lemma_mux_row_run(e5, wire_at(q + 5), ops, ys, r + n, keep, m);
    assert(s6.subrange(0, n) =~= s6);
    let e6 = run(e5, s6)->Some_0;
    lemma_run_append(env, s5, s6);
    let s7 = seq![mux_at(q + 5, 2 * n + 3, r + n - 1, r + 2 * n)];
    let last = e5[r + n - 1]->Some_0;
    assert(e6[r + n - 1] == e5[r + n - 1]);
    assert(e6[q + 5] == env[q + 5]);
    assert(e6[2 * n + 3] == env[2 * n + 3]);
    let outv = if keep {
        last
    } else {
        i32_bits(0)
    };
    let e7 = e6.update(r + 2 * n, Some(outv));
    assert(s7.subrange(0, 0) =~= Seq::<InstrView>::empty());
    assert(run(e6, s7.subrange(0, 0)) == Some(e6));
    assert(run(e6, s7) == Some(e7)) by {
        assert(s7.drop_last() =~= s7.subrange(0, 0));
        assert(read_wires(e6, s7[0].inputs) == Some(seq![seq![keep], i32_bits(0), last]));
    }
    lemma_run_append(env, s5 + s6, s7);
    let back = s5 + s6 + s7;
    assert(writes_from(back, r)) by {
        assert forall|k: int| 0 <= k < back.len() implies (#[trigger] back[k]).output.0 >= r by {
            if k < n {
                assert(back[k] == s5[k]);
            } else if k < 2 * n {
                assert(back[k] == s6[k - n]);
            } else {
                assert(back[k] == s7[0]);
            }
        }
    }
    lemma_run_frame(env, back, r);
    assert forall|k: int| 0 <= k < n implies (#[trigger] e7[r + n + k]) is Some && e7[r + n + k]->Some_0.len() == 32
        && signed_value(e7[r + n + k]->Some_0) == if keep {
        if k == 0 {
            t
        } else {
            comb_value(combs, t, k - 1)
        }
    } else {
        signed_value(combs[k])
    } by {
        assert(e7[r + n + k] == e6[r + n + k]);
        assert(ops[k] == wire_at(n + 1 + k));
        assert(e5[n + 1 + k] == env[n + 1 + k]);
        assert(env[m + 1 + k] == Some(combs[k]));
        if k == 0 {
            assert(ys[0] == wire_at(p + n - 1));
            assert(e5[p + n - 1] == env[p + n - 1]);
        } else {
            assert(ys[k] == wire_at(r + (k - 1)));
            assert(e5[r + (k - 1)] is Some);
        }
    }
}

/// One pass of a CIC filter's graph of order `m` and rate factor `rate`:
/// on valid input each integrator register takes its stage's output (the
/// running sums); the decimation counter moves on; on a kept sample
/// (valid with the counter at zero) each comb register takes its stage's
/// input and the output is the last comb stage's output, otherwise zero.
#[verifier::spinoff_prover]
#[verifier::rlimit(60)]
pub proof fn lemma_cic_cycle(
    env: Seq<Option<Seq<bool>>>,
    m: nat,
    rate: usize,
    integs: Seq<Seq<bool>>,
    cnt: nat,
    combs: Seq<Seq<bool>>,
    x: Seq<bool>,
    v: bool,
)
    requires
        m >= 1,
        rate > 0,
        cnt < rate,
        env.len() == 6 * m + 14,
        6 * m + 14 <= usize::MAX,
        integs.len() == m,
        combs.len() == m,
        forall|j: int| 0 <= j < m ==> #[trigger] env[j] == Some(integs[j]) && integs[j].len() == 32,
        env[m as int] == Some(u128_bits(cnt as u128, spec_bits_for_value(rate as nat))),
        forall|j: int| 0 <= j < m ==> #[trigger] env[m + 1 + j] == Some(combs[j]) && combs[j].len() == 32,
        env[2 * m as int + 1] == Some(x),
        x.len() == 32,
        env[2 * m as int + 2] == Some(seq![v]),
    ensures
        ({
            let n = m as int;
            let p = cic_integ_base(n);
            let q = cic_ctr_base(n);
            let r = cic_comb_base(n);
            let keep = v && cnt == 0;
            let t = integ_value(integs, x, n - 1);
            run(env, cic_instrs(m, rate, spec_bits_for_value(rate as nat) as u32)) matches Some(e) && e.len() == env.len()
                && (forall|k: int|
                0 <= k < n ==> (#[trigger] e[p + n + k]) is Some && e[p + n + k]->Some_0.len() == 32 && signed_value(
                    e[p + n + k]->Some_0,
                ) == if v {
                    integ_value(integs, x, k)
                } else {
                    signed_value(integs[k])
                }) && e[q + 4] == Some(u128_bits(decimator_next(rate as nat, cnt, v) as u128, spec_bits_for_value(rate as nat)))
                && e[q + 5] == Some(seq![keep]) && (forall|k: int|
                0 <= k < n ==> (#[trigger] e[r + n + k]) is Some && e[r + n + k]->Some_0.len() == 32 && signed_value(
                    e[r + n + k]->Some_0,
                ) == if keep {
                    if k == 0 {
                        t
                    } else {
                        comb_value(combs, t, k - 1)
                    }
                } else {
                    signed_value(combs[k])
                }) && e[r + 2 * n] is Some && (keep ==> e[r + 2 * n]->Some_0.len() == 32 && signed_value(
                e[r + 2 * n]->Some_0,
            ) == comb_value(combs, t, n - 1)) && (!keep ==> e[r + 2 * n] == Some(i32_bits(0)))
        }),
{
    let n = m as int;
    let p = cic_integ_base(n);
    let q = cic_ctr_base(n);
    let r = cic_comb_base(n);
    let cwn = spec_bits_for_value(rate as nat);
    let cw = cwn as u32;
    let c = WireTy::Bits(cw);
    let keep = v && cnt == 0;
    lemma_bit_length_bound(rate as nat);
    let front = seq![
        const_at(i32_bits(0), WireTy::Signed(32), 2 * n + 3),
        const_at(u128_bits(0, cw as nat), c, 2 * n + 4),
        const_at(u128_bits(1, cw as nat), c, 2 * n + 5),
        const_at(u128_bits(rate as u128, cw as nat), c, 2 * n + 6),
    ] + chain_instrs(BinOp::Add, wire_at(2 * n + 1), wire_run(0, m), false, p) + mux_row(
        wire_at(2 * n + 2),
        wire_run(0, m),
        wire_run(p, m),
        p + n,
    );
    lemma_cic_front(env, m, rate, integs, x, v);
    let e1 = run(env, front)->Some_0;
    let ctr = cic_ctr_instrs(wire_at(n), wire_at(2 * n + 4), wire_at(2 * n + 5), wire_at(2 * n + 6), wire_at(2 * n + 2), q);
    assert(e1[n] == env[n]);
    assert(e1[2 * n + 2] == env[2 * n + 2]);
    lemma_cic_ctr(e1, m, rate, cnt, v);
    let e2 = run(e1, ctr)->Some_0;
    lemma_run_append(env, front, ctr);
    let back = chain_instrs(BinOp::Sub, wire_at(p + n - 1), wire_run(n + 1, m), true, r) + mux_row(
        wire_at(q + 5),
        wire_run(n + 1, m),
        chain_prevs(wire_at(p + n - 1), m, r),
        r + n,
    ) + seq![mux_at(q + 5, 2 * n + 3, r + n - 1, r + 2 * n)];
    let top = e1[p + n - 1]->Some_0;
    assert(e2[p + n - 1] == e1[p + n - 1]);
    assert forall|j: int| 0 <= j < m implies #[trigger] e2[m + 1 + j] == Some(combs[j]) && combs[j].len() == 32 by {
        assert(e2[n + 1 + j] == e1[n + 1 + j]);
        assert(e1[n + 1 + j] == env[n + 1 + j]);
    }
    assert(e2[2 * n + 3] == e1[2 * n + 3]);
    lemma_cic_back(e2, m, combs, top, keep);
    lemma_run_append(env, front + ctr, back);
    assert(cic_instrs(m, rate, cw) =~= front + ctr + back);
    let e3 = run(e2, back)->Some_0;
    assert forall|k: int| 0 <= k < n implies (#[trigger] e3[p + n + k]) is Some && e3[p + n + k]->Some_0.len() == 32
        && signed_value(e3[p + n + k]->Some_0) == if v {
        integ_value(integs, x, k)
    } else {
        signed_value(integs[k])
    } by {
        assert(e3[p + n + k] == e2[p + n + k]);
        assert(e2[p + n + k] == e1[p + n + k]);
        assert(e1[p + k] is Some);
    }
    assert(e3[q + 4] == e2[q + 4]);
    assert(e3[q + 5] == e2[q + 5]);
}

/// One clock cycle of the CIC block with integrator registers `integs`,
/// counter `cnt` (below the rate factor) and comb registers `combs`: on
/// valid input the integrators advance (each adds the stage before it,
/// the first the sample); the counter keeps every `rate`-th valid sample;
/// on a kept sample the combs advance (each takes the first difference of
/// the stage before it) and the last comb's output is emitted, valid;
/// otherwise the output is zero, not valid.
pub proof fn lemma_cic_block_cycle(
    b: RawDspBlock,
    order: usize,
    rate: usize,
    integs: Seq<Seq<bool>>,
    cnt: nat,
    combs: Seq<Seq<bool>>,
    x: Seq<bool>,
    v: bool,
)
    requires
        cic_block(b, order, rate),
        order >= 1,
        rate > 0,
        cnt < rate,
        integs.len() == order,
        combs.len() == order,
        forall|j: int| 0 <= j < order ==> (#[trigger] integs[j]).len() == 32,
        forall|j: int| 0 <= j < order ==> (#[trigger] combs[j]).len() == 32,
        x.len() == 32,
    ensures
        ({
            let m = order as int;
            let keep = v && cnt == 0;
            let t = integ_value(integs, x, m - 1);
            block_cycle(
                b,
                integs + seq![u128_bits(cnt as u128, spec_bits_for_value(rate as nat))] + combs,
                seq![x, seq![v]],
            ) matches Some((next, out)) && next.len() == 2 * m + 1 && out.len() == 2 && (forall|k: int|
                0 <= k < m ==> (#[trigger] next[k]).len() == 32 && signed_value(next[k]) == if v {
                    integ_value(integs, x, k)
                } else {
                    signed_value(integs[k])
                }) && next[m] == u128_bits(decimator_next(rate as nat, cnt, v) as u128, spec_bits_for_value(rate as nat))
                && (forall|k: int|
                0 <= k < m ==> (#[trigger] next[m + 1 + k]).len() == 32 && signed_value(next[m + 1 + k]) == if keep {
                    if k == 0 {
                        t
                    } else {
                        comb_value(combs, t, k - 1)
                    }
                } else {
                    signed_value(combs[k])
                }) && out[1] == seq![keep] && (keep ==> out[0].len() == 32 && signed_value(out[0]) == comb_value(
                combs,
                t,
                m - 1,
            )) && (!keep ==> out[0] == i32_bits(0))
        }),
{
    let m = order as nat;
    let n = m as int;
    let p = cic_integ_base(n);
    let q = cic_ctr_base(n);
    let r = cic_comb_base(n);
    let cwn = spec_bits_for_value(rate as nat);
    let cnt_bits = u128_bits(cnt as u128, cwn);
    lemma_cic_wire_types(n, cwn as u32);
    assert(b.graph.wires.len() == b.graph.wires@.len());
    let st = integs + seq![cnt_bits] + combs;
    let ins = st + seq![x, seq![v]];
    assert forall|j: int| 0 <= j < b.input_wires@.len() implies (#[trigger] b.input_wires@[j]).0 == j by {
        let a = wire_run(0, m);
        let bb = a + seq![wire_at(n)];
        let cc = bb + wire_run(n + 1, m);
        assert(b.input_wires@ == cc + seq![wire_at(2 * n + 1), wire_at(2 * n + 2)]);
        if j < n {
            assert(b.input_wires@[j] == cc[j]);
            assert(cc[j] == bb[j]);
            assert(bb[j] == a[j]);
        } else if j == n {
            assert(b.input_wires@[j] == cc[j]);
            assert(cc[j] == bb[j]);
        } else if j < 2 * n + 1 {
            assert(b.input_wires@[j] == cc[j]);
            assert(cc[j] == wire_run(n + 1, m)[j - n - 1]);
        }
    }
    lemma_input_env_in_order(6 * m + 14, b.input_wires@, ins);
    let env = input_env(6 * m + 14, b.input_wires@, ins);
    assert forall|j: int| 0 <= j < m implies #[trigger] env[j] == Some(integs[j]) && integs[j].len() == 32 by {
        assert(ins[j] == integs[j]);
    }
    assert(ins[n] == cnt_bits);
    assert forall|j: int| 0 <= j < m implies #[trigger] env[m + 1 + j] == Some(combs[j]) && combs[j].len() == 32 by {
        assert(ins[n + 1 + j] == combs[j]);
    }
    assert(ins[2 * n + 1] == x);
    assert(ins[2 * n + 2] == seq![v]);
    lemma_cic_cycle(env, m, rate, integs, cnt, combs, x, v);
    let e = run(env, cic_instrs(m, rate, cwn as u32))->Some_0;
    let ows = b.output_wires@;
    let outs = Seq::new(ows.len(), |k: int| e[ows[k].0 as int]->Some_0);
    assert forall|k: int| 0 <= k < ows.len() implies (#[trigger] ows[k]).0 < e.len() && e[ows[k].0 as int] is Some by {
        let a = wire_run(p + n, m);
        let bb = a + seq![wire_at(q + 4)];
        let cc = bb + wire_run(r + n, m);
        assert(ows == cc + seq![wire_at(r + 2 * n), wire_at(q + 5)]);
        if k < n {
            assert(ows[k] == a[k]);
            assert(e[p + n + k] is Some);
        } else if k == n {
            assert(ows[k] == wire_at(q + 4));
        } else if k < 2 * n + 1 {
            assert(ows[k] == wire_run(r + n, m)[k - n - 1]);
            assert(e[r + n + (k - n - 1)] is Some);
        }
    }
    assert(read_wires(e, ows) == Some(outs));
    let next = outs.subrange(0, 2 * n + 1);
    let out = outs.subrange(2 * n + 1, 2 * n + 3);
    assert forall|k: int| 0 <= k < n implies (#[trigger] next[k]).len() == 32 && signed_value(next[k]) == if v {
        integ_value(integs, x, k)
    } else {
        signed_value(integs[k])
    } by {
        assert(ows[k] == wire_run(p + n, m)[k]);
        assert(e[p + n + k] is Some);
    }
    assert(ows[n] == wire_at(q + 4));
    assert forall|k: int| 0 <= k < n implies (#[trigger] next[n + 1 + k]).len() == 32 && signed_value(next[n + 1 + k]) == if v && cnt == 0 {
        if k == 0 {
            integ_value(integs, x, n - 1)
        } else {
            comb_value(combs, integ_value(integs, x, n - 1), k - 1)
        }
    } else {
        signed_value(combs[k])
    } by {
        assert(ows[n + 1 + k] == wire_run(r + n, m)[k]);
        assert(e[r + n + k] is Some);
    }
    assert(ows[2 * n + 1] == wire_at(r + 2 * n));
    assert(ows[2 * n + 2] == wire_at(q + 5));
}

/// The CIC block clocked over a stream from integrators `integs`, counter
/// `cnt` and combs `combs`: its output is valid exactly on the valid
/// cycles where the valid inputs before it, counted from `cnt`, are a
/// multiple of the rate factor, and zero on every other cycle.
pub proof fn lemma_cic_stream_keeps(
    b: RawDspBlock,
    order: usize,
    rate: usize,
    integs: Seq<Seq<bool>>,
    cnt: nat,
    combs: Seq<Seq<bool>>,
    inputs: Seq<Seq<Seq<bool>>>,
)
    requires
        cic_block(b, order, rate),
        order >= 1,
        rate > 0,
        cnt < rate,
        integs.len() == order,
        combs.len() == order,
        forall|j: int| 0 <= j < order ==> (#[trigger] integs[j]).len() == 32,
        forall|j: int| 0 <= j < order ==> (#[trigger] combs[j]).len() == 32,
        sample32_inputs(inputs),
    ensures
        block_stream(
            b,
            integs + seq![u128_bits(cnt as u128, spec_bits_for_value(rate as nat))] + combs,
            inputs,
        ) matches Some(outs) && outs.len() == inputs.len() && forall|i: int|
            0 <= i < inputs.len() ==> (#[trigger] outs[i]).len() == 2 && outs[i][1] == seq![
                inputs[i][1][0] && ((cnt + count_set(valid_flags(inputs).subrange(0, i))) as int) % (rate as int) == 0,
            ] && (!outs[i][1][0] ==> outs[i][0] == i32_bits(0)),
    decreases inputs.len(),
{
    let m = order as int;
    let cwn = spec_bits_for_value(rate as nat);
    if inputs.len() > 0 {
        let x = inputs[0][0];
        let v = inputs[0][1][0];
        assert(inputs[0].len() == 2 && inputs[0][0].len() == 32 && inputs[0][1].len() == 1);
        assert(inputs[0][1] =~= seq![v]);
        assert(inputs[0] =~= seq![x, seq![v]]);
        lemma_cic_block_cycle(b, order, rate, integs, cnt, combs, x, v);
        let st = integs + seq![u128_bits(cnt as u128, cwn)] + combs;
        let (next, out) = block_cycle(b, st, seq![x, seq![v]])->Some_0;
        let ni = next.subrange(0, m);
        let nc = next.subrange(m + 1, 2 * m + 1);
        let cnt2 = decimator_next(rate as nat, cnt, v);
        assert(next =~= ni + seq![u128_bits(cnt2 as u128, cwn)] + nc);
        assert forall|j: int| 0 <= j < order implies (#[trigger] ni[j]).len() == 32 by {
            assert(ni[j] == next[j]);
        }
        assert forall|j: int| 0 <= j < order implies (#[trigger] nc[j]).len() == 32 by {
            assert(nc[j] == next[m + 1 + j]);
        }
        let rest = inputs.drop_first();
        assert(sample32_inputs(rest)) by {
            assert forall|i: int| 0 <= i < rest.len() implies (#[trigger] rest[i]).len() == 2 && rest[i][0].len()
                == 32 && rest[i][1].len() == 1 by {
                assert(rest[i] == inputs[i + 1]);
            }
        }
        assert(cnt2 < rate);
        lemma_cic_stream_keeps(b, order, rate, ni, cnt2, nc, rest);
        let outs_rest = block_stream(b, next, rest)->Some_0;
        let outs = seq![out] + outs_rest;
        assert(block_stream(b, st, inputs) == Some(outs));
        let f = rate as int;
        let vs = valid_flags(inputs);
        let bump: int = if v {
            1
        } else {
            0
        };
        assert(cnt2 as int == (cnt + bump) % f) by {
            if v && cnt + 1 == rate {
                vstd::arithmetic::div_mod::lemma_mod_self_0(f);
            } else {
                vstd::arithmetic::div_mod::lemma_small_mod((cnt + bump) as nat, rate as nat);
            }
        }
        assert forall|i: int| 0 <= i < inputs.len() implies (#[trigger] outs[i]).len() == 2 && outs[i][1] == seq![
            inputs[i][1][0] && ((cnt + count_set(vs.subrange(0, i))) as int) % f == 0,
        ] && (!outs[i][1][0] ==> outs[i][0] == i32_bits(0)) by {
            if i == 0 {
                assert(vs.subrange(0, 0) =~= Seq::<bool>::empty());
                vstd::arithmetic::div_mod::lemma_small_mod(cnt, rate as nat);
            } else {
                let j = i - 1;
                assert(outs[i] == outs_rest[j]);
                assert(rest[j] == inputs[i]);
                let vr = valid_flags(rest);
                assert(vs.subrange(0, i).drop_first() =~= vr.subrange(0, j));
                assert(vs.subrange(0, i)[0] == v);
                let k = count_set(vr.subrange(0, j)) as int;
                assert(count_set(vs.subrange(0, i)) == bump + k);
                vstd::arithmetic::div_mod::lemma_add_mod_noop(cnt + bump, k, f);
                vstd::arithmetic::div_mod::lemma_add_mod_noop(cnt2 as int, k, f);
                vstd::arithmetic::div_mod::lemma_small_mod(cnt2, rate as nat);
                vstd::arithmetic::div_mod::lemma_mod_twice(cnt + bump, f);
            }
        }
    }
}

/// The CIC filter decimates: clocked from its zero initial state, its
/// output is valid exactly on the valid cycles with a multiple of the rate
/// factor of valid inputs before them, and zero on every other cycle.
pub proof fn lemma_cic_keeps_every_rate_th(b: RawDspBlock, order: usize, rate: usize, inputs: Seq<Seq<Seq<bool>>>)
    requires
        cic_block(b, order, rate),
        order >= 1,
        rate > 0,
        sample32_inputs(inputs),
    ensures
        ({
            let m = order as int;
            let cwn = spec_bits_for_value(rate as nat) as int;
            let init = b.initial_state.0@;
            let state = Seq::new(order as nat, |k: int| init.subrange(32 * k, 32 * k + 32)) + seq![
                init.subrange(32 * m, 32 * m + cwn),
            ] + Seq::new(order as nat, |k: int| init.subrange(32 * m + cwn + 32 * k, 32 * m + cwn + 32 * k + 32));
            block_stream(b, state, inputs) matches Some(outs) && outs.len() == inputs.len() && forall|i: int|
                0 <= i < inputs.len() ==> (#[trigger] outs[i]).len() == 2 && outs[i][1] == seq![
                    inputs[i][1][0] && (count_set(valid_flags(inputs).subrange(0, i)) as int) % (rate as int) == 0,
                ] && (!outs[i][1][0] ==> outs[i][0] == i32_bits(0))
        }),
{
    let m = order as int;
    let cwn = spec_bits_for_value(rate as nat);
    let c = cwn as int;
    let init = b.initial_state.0@;
    let integs = Seq::new(order as nat, |k: int| init.subrange(32 * k, 32 * k + 32));
    let combs = Seq::new(order as nat, |k: int| init.subrange(32 * m + c + 32 * k, 32 * m + c + 32 * k + 32));
    assert forall|j: int| 0 <= j < order implies (#[trigger] integs[j]).len() == 32 by {}
    assert forall|j: int| 0 <= j < order implies (#[trigger] combs[j]).len() == 32 by {}
    assert(init.subrange(32 * m, 32 * m + c) =~= u128_bits(0, cwn)) by {
        assert forall|i: int| 0 <= i < cwn implies u128_bits(0, cwn)[i] == false by {
            let xx = i as u128;
            assert((0u128 >> xx) & 1u128 != 1u128) by (bit_vector);
        }
    }
    lemma_cic_stream_keeps(b, order, rate, integs, 0, combs, inputs);
}

} // verus!
