//! FIR filter as an IR graph.
//!
//! A shift register of `N` sample registers feeds an unrolled
//! multiply-accumulate chain: each tap is sign-extended to 64 bits,
//! multiplied by its coefficient and added to a 64-bit accumulator; the
//! sum is shifted right arithmetically and truncated to 32 bits.

use vstd::prelude::*;
use vstd::string::StringExecFns;

use crate::error::Error;
use crate::hdl::common::{
    arith_shr, arith_shr_instrs, arith_shr_out, arith_shr_wires, bin_at, bin_op, const_at,
    const_signed_32, const_value, i32_bits, mux, mux_at, push_all, repeat_bit, same_bits, sample_wire,
    sample_wires, shift_muxes, shift_register_next, sign_extend, sign_extend_instrs,
    sign_extend_wires, truncate, valid_wire, wire_at, zero_bits, zero_samples,
};
use crate::hdl::ir::{
    builder_wf, graph_wf, instrs_view, spec_storage_bits, BinOp, HdlGraphBuilder, InstrView, OpView,
    WireId, WireTy,
};
use crate::hdl::clocked::{block_cycle, block_stream, input_env, lemma_input_env_in_order};
use crate::hdl::delay::{lemma_line_after_shift, lemma_shift_muxes_run, line_at, shifted_regs, valid_samples};
use crate::hdl::eval::{
    eval_bin, lemma_arith_shr_divides, lemma_i32_bits_signed, lemma_low_bits_wrap, lemma_run_append,
    lemma_run_frame, lemma_run_single, lemma_sign_extend_keeps_value, lemma_signed_bounds,
    lemma_unsigned_zero, lemma_wrap_congruent, lemma_wrap_range,
    lemma_wrap_small, lemma_wrapping_add, lemma_wrapping_mul, read_wires, run, signed_value, wrap_signed,
    writes_from,
};
use crate::hdl::raw::{dsp_interface, lemma_state_bits_uniform, ty_of, RawDspBlock};
use vstd::arithmetic::power2::pow2;

verus! {

/// The message of the error for a FIR block without coefficients.
pub open spec fn fir_empty_message() -> Seq<char> {
    "empty coefficients"@
}

/// The wire tap `k` reads: the input for tap 0, register `k - 1` otherwise.
pub open spec fn fir_tap_src(n: int, k: int) -> WireId {
    if k == 0 {
        wire_at(n)
    } else {
        wire_at(k - 1)
    }
}

/// The first wire of tap `k`'s gates in a filter of `n` taps.
pub open spec fn fir_tap_base(n: int, k: int) -> int {
    n + 4 + 13 * k
}

/// The accumulator wire after `k` taps.
pub open spec fn fir_acc_after(n: int, k: int) -> int {
    if k == 0 {
        n + 3
    } else {
        fir_tap_base(n, k) - 1
    }
}

/// The wires of one tap: the extended sample, the coefficient and its
/// extension, the product and the new accumulator.
pub open spec fn fir_tap_wires() -> Seq<WireTy> {
    sign_extend_wires(32, 64) + seq![WireTy::Signed(32)] + sign_extend_wires(32, 64) + seq![
        WireTy::Signed(64),
        WireTy::Signed(64),
    ]
}

/// The gates of tap `k`: sign-extend the tap's sample, the coefficient
/// constant and its extension, their product, and the accumulation.
pub open spec fn fir_tap_instrs(n: int, k: int, coef: i32) -> Seq<InstrView> {
    let base = fir_tap_base(n, k);
    sign_extend_instrs(fir_tap_src(n, k), 32, 64, base) + seq![const_at(i32_bits(coef), WireTy::Signed(32), base + 5)]
        + sign_extend_instrs(wire_at(base + 5), 32, 64, base + 6) + seq![
        bin_at(BinOp::Mul, base + 4, base + 10, base + 11),
        bin_at(BinOp::Add, fir_acc_after(n, k), base + 11, base + 12),
    ]
}

/// The wires of the first `k` taps.
pub open spec fn fir_taps_wires(k: nat) -> Seq<WireTy>
    decreases k,
{
    if k == 0 {
        seq![]
    } else {
        fir_taps_wires((k - 1) as nat) + fir_tap_wires()
    }
}

/// The gates of the first `k` taps.
pub open spec fn fir_taps_instrs(n: int, coefs: Seq<i32>, k: nat) -> Seq<InstrView>
    decreases k,
{
    if k == 0 {
        seq![]
    } else {
        fir_taps_instrs(n, coefs, (k - 1) as nat) + fir_tap_instrs(n, k - 1, coefs[k - 1])
    }
}

/// The first wire after the multiply-accumulate chain of `n` taps.
pub open spec fn fir_chain_end(n: int) -> int {
    14 * n + 4
}

/// The data-output wire of a filter of `n` taps shifted by `shift`.
pub open spec fn fir_out(n: int, shift: u32) -> int {
    fir_chain_end(n) + arith_shr_wires(shift, 64).len() + 1
}

/// The wire types of a filter of `n` taps shifted by `shift`.
pub open spec fn fir_wires(n: nat, shift: u32) -> Seq<WireTy> {
    Seq::new(n, |i: int| WireTy::Signed(32)) + seq![
        WireTy::Signed(32),
        WireTy::Bit,
        WireTy::Signed(32),
        WireTy::Signed(64),
    ] + fir_taps_wires(n) + arith_shr_wires(shift, 64) + seq![WireTy::Signed(32), WireTy::Signed(32)]
        + Seq::new(n, |i: int| WireTy::Signed(32))
}

/// The gates of a filter with coefficients `coefs` shifted by `shift`:
/// the zero constants, the tap chain, the shift, the truncation, the
/// output gated by `valid_in`, and the shift register's next state.
pub open spec fn fir_instrs(coefs: Seq<i32>, shift: u32) -> Seq<InstrView> {
    let n = coefs.len() as int;
    let m = fir_chain_end(n);
    let o = fir_out(n, shift);
    seq![
        const_at(i32_bits(0), WireTy::Signed(32), n + 2),
        const_at(same_bits(64, false), WireTy::Signed(64), n + 3),
    ] + fir_taps_instrs(n, coefs, n as nat) + arith_shr_instrs(wire_at(m - 1), shift, 64, m) + seq![
        InstrView {
            op: OpView::Slice { lo: 0, hi: 32 },
            inputs: seq![arith_shr_out(wire_at(m - 1), shift, 64, m)],
            output: wire_at(o - 1),
        },
        mux_at(n + 1, n + 2, o - 1, o),
    ] + shift_muxes(wire_at(n + 1), Seq::new(n as nat, |k: int| wire_at(k)), wire_at(n), o + 1)
}

/// The input wires of a filter of `n` taps: the registers, then the data.
pub open spec fn fir_inputs(n: nat) -> Seq<WireId> {
    Seq::new(n, |i: int| wire_at(i)) + seq![wire_at(n as int), wire_at(n as int + 1)]
}

/// The output wires of a filter of `n` taps: the next registers, the data
/// out, and `valid_in` passed through.
pub open spec fn fir_outputs(n: nat, shift: u32) -> Seq<WireId> {
    let o = fir_out(n as int, shift);
    Seq::new(n, |i: int| wire_at(o + 1 + i)) + seq![wire_at(o), wire_at(n as int + 1)]
}

/// The tap chain's wires have thirteen wires per tap.
proof fn lemma_fir_taps_len(n: int, coefs: Seq<i32>, k: nat)
    ensures
        fir_taps_wires(k).len() == 13 * k,
        fir_taps_instrs(n, coefs, k).len() == 13 * k,
    decreases k,
{
    if k > 0 {
        lemma_fir_taps_len(n, coefs, (k - 1) as nat);
    }
}

/// Add the unrolled multiply-accumulate chain of a filter: for each tap,
/// sign-extend its sample and its coefficient to 64 bits, multiply, and
/// add to the accumulator, which starts at `zero_64`.
fn fir_mac_chain(builder: HdlGraphBuilder, coefficients: &[i32], regs: &Vec<WireId>, data_in: WireId, zero_64: WireId) -> (r:
    Result<(HdlGraphBuilder, WireId), Error>)
    requires
        regs@.len() == coefficients@.len(),
        builder.wires@.len() == coefficients@.len() + 4,
        regs@ == Seq::new(coefficients@.len(), |j: int| wire_at(j)),
        data_in == wire_at(coefficients@.len() as int),
        zero_64 == wire_at(coefficients@.len() as int + 3),
        builder_wf(builder),
    ensures
        r matches Ok((b, acc)) && b.wires@ == builder.wires@ + fir_taps_wires(coefficients@.len())
            && instrs_view(b.instructions@) == instrs_view(builder.instructions@) + fir_taps_instrs(
            coefficients@.len() as int,
            coefficients@,
            coefficients@.len(),
        ) && acc == wire_at(fir_acc_after(coefficients@.len() as int, coefficients@.len() as int))
            && builder_wf(b),
{
    let tap_count = coefficients.len();
    let ghost n = tap_count as int;
    let ghost coefs = coefficients@;
    let ghost base_w = builder.wires@;
    let ghost base_i = instrs_view(builder.instructions@);
    let mut builder = builder;
    let mut acc = zero_64;
    let mut k: usize = 0;
    proof {
        assert(base_w + fir_taps_wires(0) =~= base_w);
        assert(base_i + fir_taps_instrs(n, coefs, 0) =~= base_i);
    }
    while k < tap_count
        invariant
            k <= tap_count,
            n == tap_count,
            coefs == coefficients@,
            coefs.len() == n,
            base_w.len() == n + 4,
            regs@ == Seq::new(n as nat, |j: int| wire_at(j)),
            data_in == wire_at(n),
            builder.wires@ == base_w + fir_taps_wires(k as nat),
            instrs_view(builder.instructions@) == base_i + fir_taps_instrs(n, coefs, k as nat),
            builder_wf(builder),
            acc == wire_at(fir_acc_after(n, k as int)),
        decreases tap_count - k,
    {
        proof {
            lemma_fir_taps_len(n, coefs, k as nat);
        }
        let ghost b0 = builder;
        // Tap sources: tap[0] = data_in, tap[k] = regs[k-1] for k > 0.
        let tap_wire = if k == 0 {
            data_in
        } else {
            regs[k - 1]
        };
        // Sign-extend tap to 64 bits.
        let (b, tap_ext) = sign_extend(builder, tap_wire, 32, 64)?;
        // Coefficient constant (sign-extended to 64).
        let coeff_val = coefficients[k];
        let (b, coeff_wire) = const_signed_32(b, coeff_val)?;
        let (b, coeff_ext) = sign_extend(b, coeff_wire, 32, 64)?;
        // product = tap * coeff (64-bit wrapping).
        let (b, product) = bin_op(b, BinOp::Mul, tap_ext, coeff_ext, WireTy::Signed(64))?;
        // acc = acc + product (64-bit wrapping).
        let (b, new_acc) = bin_op(b, BinOp::Add, acc, product, WireTy::Signed(64))?;
        builder = b;
        acc = new_acc;
        k = k + 1;
        proof {
            assert(b0.wires@.len() == fir_tap_base(n, k - 1));
            assert(tap_wire == fir_tap_src(n, k - 1));
            assert(builder.wires@ =~= b0.wires@ + fir_tap_wires());
            assert(instrs_view(builder.instructions@) =~= instrs_view(b0.instructions@) + fir_tap_instrs(
                n,
                k - 1,
                coefs[k - 1],
            ));
            assert(builder.wires@ =~= base_w + fir_taps_wires(k as nat));
            assert(instrs_view(builder.instructions@) =~= base_i + fir_taps_instrs(n, coefs, k as nat));
        }
    }
    Ok((builder, acc))
}

/// The types of the filter's state and data wires.
proof fn lemma_fir_wire_types(n: nat, shift: u32)
    ensures
        forall|k: int| 0 <= k < n ==> #[trigger] fir_wires(n, shift)[k] == WireTy::Signed(32),
        forall|k: int|
            0 <= k < n ==> #[trigger] fir_wires(n, shift)[fir_out(n as int, shift) + 1 + k] == WireTy::Signed(32),
        fir_wires(n, shift)[n as int] == WireTy::Signed(32),
        fir_wires(n, shift)[n as int + 1] == WireTy::Bit,
        fir_wires(n, shift)[fir_out(n as int, shift)] == WireTy::Signed(32),
        fir_wires(n, shift).len() == fir_out(n as int, shift) + 1 + n,
{
    let coefs = Seq::new(n, |i: int| 0i32);
    lemma_fir_taps_len(n as int, coefs, n);
    let sw = Seq::new(n, |i: int| WireTy::Signed(32));
    let head = sw + seq![WireTy::Signed(32), WireTy::Bit, WireTy::Signed(32), WireTy::Signed(64)];
    let mid = head + fir_taps_wires(n) + arith_shr_wires(shift, 64) + seq![WireTy::Signed(32), WireTy::Signed(32)];
    let tys = fir_wires(n, shift);
    assert(tys == mid + sw);
    assert(mid.len() == fir_out(n as int, shift) + 1);
    assert forall|k: int| 0 <= k < n implies #[trigger] tys[k] == WireTy::Signed(32) by {
        assert(tys[k] == mid[k]);
        assert(mid[k] == head[k]);
    }
    assert forall|k: int| 0 <= k < n implies #[trigger] tys[fir_out(n as int, shift) + 1 + k] == WireTy::Signed(32) by {
        assert(tys[fir_out(n as int, shift) + 1 + k] == sw[k]);
    }
    assert(mid[n as int] == head[n as int]);
    assert(mid[n as int + 1] == head[n as int + 1]);
}

/// A block with the filter's wires and layout has the standard DSP interface.
proof fn lemma_fir_interface(b: RawDspBlock, n: nat, shift: u32)
    requires
        n >= 1,
        fir_out(n as int, shift) + 1 + n <= usize::MAX,
        graph_wf(b.graph),
        b.graph.wires@ == fir_wires(n, shift),
        b.input_wires@ == fir_inputs(n),
        b.output_wires@ == fir_outputs(n, shift),
        b.initial_state.0@ == zero_bits(32 * n),
        b.state_wire_count == n,
    ensures
        dsp_interface(b),
{
    let tys = b.graph.wires@;
    let ins = b.input_wires@;
    let outs = b.output_wires@;
    let o = fir_out(n as int, shift);
    lemma_fir_wire_types(n, shift);
    assert forall|k: int| 0 <= k < n implies ty_of(tys, #[trigger] ins[k]) == ty_of(tys, outs[k]) by {
        assert(ins[k] == wire_at(k));
        assert(outs[k] == wire_at(o + 1 + k));
        assert(tys[k] == WireTy::Signed(32));
        assert(tys[o + 1 + k] == WireTy::Signed(32));
    }
    assert(ins[n as int] == wire_at(n as int));
    assert(ins[n as int + 1] == wire_at(n as int + 1));
    assert(outs[n as int] == wire_at(o));
    assert(outs[n as int + 1] == wire_at(n as int + 1));
    assert(crate::hdl::common::wires_below(ins, tys.len())) by {
        assert forall|k: int| 0 <= k < ins.len() implies (#[trigger] ins[k]).0 < tys.len() by {
            if k < n {
                assert(ins[k] == wire_at(k));
            }
        }
    }
    assert(crate::hdl::common::wires_below(outs, tys.len())) by {
        assert forall|k: int| 0 <= k < outs.len() implies (#[trigger] outs[k]).0 < tys.len() by {
            if k < n {
                assert(outs[k] == wire_at(o + 1 + k));
            }
        }
    }
    let regs_in = ins.subrange(0, n as int);
    assert forall|k: int| 0 <= k < regs_in.len() implies ty_of(tys, #[trigger] regs_in[k]) == WireTy::Signed(32) by {
        assert(regs_in[k] == wire_at(k));
        assert(tys[k] == WireTy::Signed(32));
    }
    lemma_state_bits_uniform(tys, regs_in, WireTy::Signed(32));
    assert(spec_storage_bits(WireTy::Signed(32)) == 32);
    assert(regs_in.len() * spec_storage_bits(WireTy::Signed(32)) == 32 * n) by (nonlinear_arith)
        requires
            regs_in.len() == n,
            spec_storage_bits(WireTy::Signed(32)) == 32,
    ;
}

/// `b` is the FIR block for coefficients `coefs` and `shift`: its graph,
/// wire layout and zero initial state.
pub open spec fn fir_block(b: RawDspBlock, coefs: Seq<i32>, shift: u32) -> bool {
    &&& b.graph.wires@ == fir_wires(coefs.len(), shift)
    &&& instrs_view(b.graph.instructions@) == fir_instrs(coefs, shift)
    &&& b.input_wires@ == fir_inputs(coefs.len())
    &&& b.output_wires@ == fir_outputs(coefs.len(), shift)
    &&& b.initial_state.0@ == zero_bits(32 * coefs.len())
    &&& b.state_wire_count == coefs.len()
    &&& dsp_interface(b)
}

/// Build a FIR filter as a [`RawDspBlock`].
///
/// State wires: the `N` shift-register taps.  Data: `data_in`,
/// `valid_in`.  Outputs: `[next_reg_0, ..., data_out, valid_in]`.  An
/// empty coefficient set is refused with `Error::Fir`.
#[verifier::rlimit(40)]
pub fn build_fir(coefficients: &[i32], shift: u32) -> (r: Result<RawDspBlock, Error>)
    ensures
        coefficients@.len() == 0 ==> (r matches Err(Error::Fir(m)) && m@ == fir_empty_message()),
        coefficients@.len() > 0 ==> (r matches Ok(b) && fir_block(b, coefficients@, shift)),
{
    if coefficients.len() == 0 {
        return Err(Error::Fir(String::from_str("empty coefficients")));
    }
    let tap_count = coefficients.len();
    let ghost n = tap_count as int;
    let ghost coefs = coefficients@;
    // ---- state wires: shift register ----
    let (builder, regs) = sample_wires(HdlGraphBuilder::new(), tap_count);
    // ---- input wires ----
    let (builder, data_in) = builder.with_wire(sample_wire());
    let (builder, valid_in) = builder.with_wire(valid_wire());
    // ---- constants ----
    let (builder, zero_sample) = const_signed_32(builder, 0)?;
    let (builder, zero_64) = const_value(builder, repeat_bit(64, false), WireTy::Signed(64))?;
    let ghost base_w = builder.wires@;
    let ghost base_i = instrs_view(builder.instructions@);
    proof {
        assert(regs@ =~= Seq::new(n as nat, |j: int| wire_at(j)));
    }
    // ---- unrolled multiply-accumulate chain ----
    let (builder, acc) = fir_mac_chain(builder, coefficients, &regs, data_in, zero_64)?;
    proof {
        lemma_fir_taps_len(n, coefs, n as nat);
    }
    // ---- shift and truncate ----
    let (builder, shifted) = arith_shr(builder, acc, shift, 64)?;
    let (builder, result) = truncate(builder, shifted, 32)?;
    // ---- output gated by valid_in ----
    let (builder, data_out) = mux(builder, valid_in, zero_sample, result, sample_wire())?;
    let ghost tail = builder;
    // ---- shift register next-state ----
    // next_regs[0] = Mux(valid_in, regs[0], data_in)
    // next_regs[k] = Mux(valid_in, regs[k], regs[k-1])
    let (builder, next_regs) = shift_register_next(builder, valid_in, &regs, data_in)?;
    let total = builder.wires.len();
    let graph = builder.build();
    // ---- assemble wires ----
    let mut input_wires: Vec<WireId> = Vec::new();
    push_all(&mut input_wires, &regs);
    input_wires.push(data_in);
    input_wires.push(valid_in);
    let mut output_wires: Vec<WireId> = Vec::new();
    push_all(&mut output_wires, &next_regs);
    output_wires.push(data_out);
    // valid_out = valid_in (combinational)
    output_wires.push(valid_in);
    let initial_state = zero_samples(tap_count);
    let b = RawDspBlock::new(graph, input_wires, output_wires, initial_state, tap_count);
    proof {
        assert(tail.wires@.len() == fir_out(n, shift) + 1);
        assert(b.graph.wires@ =~= fir_wires(n as nat, shift));
        assert(instrs_view(b.graph.instructions@) =~= fir_instrs(coefs, shift));
        assert(b.input_wires@ =~= fir_inputs(n as nat));
        assert(b.output_wires@ =~= fir_outputs(n as nat, shift));
        lemma_fir_wire_types(n as nat, shift);
        assert(total == b.graph.wires@.len());
        lemma_fir_interface(b, n as nat, shift);
    }
    Ok(b)
}

/// The dot product of the first `k` tap samples with the coefficients.
pub open spec fn fir_dot(samples: Seq<int>, coefs: Seq<i32>, k: nat) -> int
    decreases k,
{
    if k == 0 {
        0
    } else {
        fir_dot(samples, coefs, (k - 1) as nat) + samples[k - 1] * coefs[k - 1]
    }
}

/// The gates of tap `k`, run where the tap's sample wire holds `sv` and
/// the accumulator wire `acc`, leave on the tap's last wire the 64-bit
/// wrapped sum of the accumulator and the sample times the coefficient,
/// and every wire below the tap's first wire as it was.
#[verifier::spinoff_prover]
proof fn lemma_fir_tap_run(
    env: Seq<Option<Seq<bool>>>,
    n: int,
    k: int,
    coef: i32,
    sv: Seq<bool>,
    acc: Seq<bool>,
)
    requires
        0 <= k < n,
        fir_tap_base(n, k) + 13 <= env.len(),
        fir_tap_base(n, k) + 13 <= usize::MAX,
        env[fir_tap_src(n, k).0 as int] == Some(sv),
        sv.len() == 32,
        env[fir_acc_after(n, k)] == Some(acc),
        acc.len() == 64,
    ensures
        run(env, fir_tap_instrs(n, k, coef)) matches Some(e) && e[fir_tap_base(n, k) + 12] matches Some(a2)
            && a2.len() == 64 && signed_value(a2) == wrap_signed(signed_value(acc) + signed_value(sv) * coef, 64)
            && e.len() == env.len() && (forall|i: int| 0 <= i < fir_tap_base(n, k) ==> #[trigger] e[i] == env[i]),
{
    let base = fir_tap_base(n, k);
    let src = fir_tap_src(n, k);
    let ia = sign_extend_instrs(src, 32, 64, base);
    let ib = seq![const_at(i32_bits(coef), WireTy::Signed(32), base + 5)];
    let ic = sign_extend_instrs(wire_at(base + 5), 32, 64, base + 6);
    let id = seq![bin_at(BinOp::Mul, base + 4, base + 10, base + 11)];
    let ie = seq![bin_at(BinOp::Add, fir_acc_after(n, k), base + 11, base + 12)];
    assert(fir_tap_instrs(n, k, coef) =~= ia + ib + ic + (id + ie));
    assert(src.0 < base);
    // The sample, sign-extended.
    lemma_sign_extend_keeps_value(env, src, 32, 64, base, sv);
    assert(writes_from(ia, base));
    lemma_run_frame(env, ia, base);
    let e1 = run(env, ia)->Some_0;
    let y1 = e1[base + 4]->Some_0;
    // The coefficient.
    lemma_run_single(e1, ib[0]);
    assert(ib =~= seq![ib[0]]);
    assert(read_wires(e1, ib[0].inputs) == Some(Seq::<Seq<bool>>::empty()));
    let e2 = e1.update(base + 5, Some(i32_bits(coef)));
    assert(run(e1, ib) == Some(e2));
    lemma_run_append(env, ia, ib);
    lemma_i32_bits_signed(coef);
    // The coefficient, sign-extended.
    lemma_sign_extend_keeps_value(e2, wire_at(base + 5), 32, 64, base + 6, i32_bits(coef));
    assert(writes_from(ic, base + 6));
    lemma_run_frame(e2, ic, base + 6);
    let e3 = run(e2, ic)->Some_0;
    let y2 = e3[base + 10]->Some_0;
    assert(e3[base + 4] == Some(y1));
    lemma_run_append(env, ia + ib, ic);
    // The product, exact for 32-bit operands.
    lemma_wrapping_mul(y1, y2);
    let prod = eval_bin(BinOp::Mul, y1, y2)->Some_0;
    lemma_run_single(e3, id[0]);
    assert(id =~= seq![id[0]]);
    assert(read_wires(e3, id[0].inputs) == Some(seq![y1, y2]));
    let e4 = e3.update(base + 11, Some(prod));
    assert(run(e3, id) == Some(e4));
    let sx = signed_value(sv);
    let c = coef as int;
    vstd::arithmetic::power2::lemma2_to64();
    lemma_signed_bounds(sv);
    assert(-0x4000_0000_0000_0000 <= sx * c <= 0x4000_0000_0000_0000) by (nonlinear_arith)
        requires
            -0x8000_0000 <= sx < 0x8000_0000,
            -0x8000_0000 <= c < 0x8000_0000,
    ;
    assert(pow2(63) == 0x8000_0000_0000_0000) by {
        vstd::arithmetic::power2::lemma2_to64_rest();
    }
    lemma_wrap_small(sx * c, 64);
    assert(signed_value(prod) == sx * c);
    // The accumulation.
    assert(fir_acc_after(n, k) < base);
    assert(e4[fir_acc_after(n, k)] == Some(acc));
    lemma_wrapping_add(acc, prod);
    let a2 = eval_bin(BinOp::Add, acc, prod)->Some_0;
    lemma_run_single(e4, ie[0]);
    assert(ie =~= seq![ie[0]]);
    assert(read_wires(e4, ie[0].inputs) == Some(seq![acc, prod]));
    let e5 = e4.update(base + 12, Some(a2));
    assert(run(e4, ie) == Some(e5));
    lemma_run_append(e3, id, ie);
    lemma_run_append(env, ia + ib + ic, id + ie);
}

/// The first `k` taps of the chain, run where tap `j`'s sample wire holds
/// `taps[j]` and the accumulator starts at zero, leave on the accumulator
/// after `k` taps the 64-bit wrapped dot product of the first `k` samples
/// with the coefficients.
proof fn lemma_fir_taps_run(
    env: Seq<Option<Seq<bool>>>,
    n: int,
    coefs: Seq<i32>,
    taps: Seq<Seq<bool>>,
    k: nat,
)
    requires
        coefs.len() == n,
        taps.len() == n,
        k <= n,
        fir_chain_end(n) <= env.len(),
        fir_chain_end(n) <= usize::MAX,
        forall|j: int| 0 <= j < n ==> env[(#[trigger] fir_tap_src(n, j)).0 as int] == Some(taps[j]),
        forall|j: int| 0 <= j < n ==> (#[trigger] taps[j]).len() == 32,
        env[n + 3] == Some(same_bits(64, false)),
    ensures
        run(env, fir_taps_instrs(n, coefs, k)) matches Some(e) && e[fir_acc_after(n, k as int)] matches Some(acc)
            && acc.len() == 64 && signed_value(acc) == wrap_signed(
            fir_dot(Seq::new(n as nat, |j: int| signed_value(taps[j])), coefs, k),
            64,
        ) && e.len() == env.len() && (forall|i: int| 0 <= i < n + 4 ==> #[trigger] e[i] == env[i]),
    decreases k,
{
    let sv = Seq::new(n as nat, |j: int| signed_value(taps[j]));
    lemma_fir_taps_len(n, coefs, k);
    if k == 0 {
        assert(fir_taps_instrs(n, coefs, 0) =~= Seq::<InstrView>::empty());
        assert(run(env, Seq::<InstrView>::empty()) == Some(env));
        lemma_unsigned_zero(64);
        assert(same_bits(64, false) =~= zero_bits(64));
        vstd::arithmetic::power2::lemma_pow2_pos(63);
        lemma_wrap_small(0, 64);
    } else {
        let j = k - 1;
        lemma_fir_taps_run(env, n, coefs, taps, j as nat);
        let e = run(env, fir_taps_instrs(n, coefs, j as nat))->Some_0;
        let acc = e[fir_acc_after(n, j)]->Some_0;
        let src = fir_tap_src(n, j);
        assert(src.0 < n + 4);
        assert(e[src.0 as int] == env[src.0 as int]);
        assert(e[src.0 as int] == Some(taps[j]));
        lemma_fir_tap_run(e, n, j, coefs[j], taps[j], acc);
        lemma_run_append(env, fir_taps_instrs(n, coefs, j as nat), fir_tap_instrs(n, j, coefs[j]));
        let e2 = run(e, fir_tap_instrs(n, j, coefs[j]))->Some_0;
        assert(fir_acc_after(n, k as int) == fir_tap_base(n, j) + 12);
        let a2 = e2[fir_tap_base(n, j) + 12]->Some_0;
        let d0 = fir_dot(sv, coefs, j as nat);
        let t = signed_value(taps[j]) * coefs[j];
        let p = pow2(64) as int;
        lemma_wrap_range(d0, 64);
        vstd::arithmetic::power2::lemma2_to64();
        vstd::arithmetic::div_mod::lemma_add_mod_noop(signed_value(acc), t, p);
        vstd::arithmetic::div_mod::lemma_add_mod_noop(d0, t, p);
        lemma_wrap_congruent(signed_value(acc) + t, d0 + t, 64);
        assert(sv[j] == signed_value(taps[j]));
        assert(forall|i: int| 0 <= i < n + 4 ==> #[trigger] e2[i] == e[i]);
    }
}

/// The samples the taps read: the new sample, then the registers.
pub open spec fn fir_tap_samples(x: Seq<bool>, regs: Seq<Seq<bool>>) -> Seq<Seq<bool>> {
    Seq::new(regs.len(), |j: int| if j == 0 { x } else { regs[j - 1] })
}

/// What the filter outputs for the tap samples `taps`: the 64-bit wrapped
/// dot product with the coefficients, divided by `2^shift` rounding down
/// and wrapped to 32 bits.
pub open spec fn fir_value(taps: Seq<Seq<bool>>, coefs: Seq<i32>, shift: u32) -> int {
    wrap_signed(
        wrap_signed(fir_dot(Seq::new(taps.len(), |j: int| signed_value(taps[j])), coefs, taps.len()), 64)
            / (pow2(shift as nat) as int),
        32,
    )
}

/// The constants and tap chain of a filter.
#[verifier::spinoff_prover]
proof fn lemma_fir_front(
    env: Seq<Option<Seq<bool>>>,
    coefs: Seq<i32>,
    shift: u32,
    regs: Seq<Seq<bool>>,
    x: Seq<bool>,
    valid: bool,
)
    requires
        coefs.len() >= 1,
        regs.len() == coefs.len(),
        env.len() == fir_wires(coefs.len(), shift).len(),
        env.len() <= usize::MAX,
        forall|j: int| 0 <= j < coefs.len() ==> #[trigger] env[j] == Some(regs[j]),
        forall|j: int| 0 <= j < coefs.len() ==> (#[trigger] regs[j]).len() == 32,
        x.len() == 32,
        env[coefs.len() as int] == Some(x),
        env[coefs.len() as int + 1] == Some(seq![valid]),
    ensures
        ({
            let n = coefs.len() as int;
            let front = seq![
                const_at(i32_bits(0), WireTy::Signed(32), n + 2),
                const_at(same_bits(64, false), WireTy::Signed(64), n + 3),
            ] + fir_taps_instrs(n, coefs, n as nat);
            run(env, front) matches Some(e) && e[fir_chain_end(n) - 1] matches Some(acc) && acc.len() == 64
                && signed_value(acc) == wrap_signed(
                fir_dot(
                    Seq::new(n as nat, |j: int| signed_value(fir_tap_samples(x, regs)[j])),
                    coefs,
                    n as nat,
                ),
                64,
            ) && e.len() == env.len() && (forall|i: int| 0 <= i < n + 2 ==> #[trigger] e[i] == env[i])
                && e[n + 2] == Some(i32_bits(0))
        }),
{
    let n = coefs.len() as int;
    let taps = fir_tap_samples(x, regs);
    let ic = seq![
        const_at(i32_bits(0), WireTy::Signed(32), n + 2),
        const_at(same_bits(64, false), WireTy::Signed(64), n + 3),
    ];
    lemma_fir_taps_len(n, coefs, n as nat);
    assert(fir_wires(coefs.len(), shift).len() >= fir_chain_end(n));
    let e1a = env.update(n + 2, Some(i32_bits(0)));
    let e1 = e1a.update(n + 3, Some(same_bits(64, false)));
    assert(ic.subrange(0, 0) =~= Seq::<InstrView>::empty());
    assert(run(env, ic.subrange(0, 0)) == Some(env));
    assert(run(env, ic.subrange(0, 1)) == Some(e1a)) by {
        assert(ic.subrange(0, 1).drop_last() =~= ic.subrange(0, 0));
        assert(ic.subrange(0, 1).last() == ic[0]);
        assert(read_wires(env, ic[0].inputs) == Some(Seq::<Seq<bool>>::empty()));
    }
    assert(run(env, ic.subrange(0, 2)) == Some(e1)) by {
        assert(ic.subrange(0, 2).drop_last() =~= ic.subrange(0, 1));
        assert(ic.subrange(0, 2).last() == ic[1]);
        assert(read_wires(e1a, ic[1].inputs) == Some(Seq::<Seq<bool>>::empty()));
    }
    assert(ic.subrange(0, 2) =~= ic);
    assert forall|j: int| 0 <= j < n implies e1[(#[trigger] fir_tap_src(n, j)).0 as int] == Some(taps[j]) by {
        if j > 0 {
            assert(e1[j - 1] == env[j - 1]);
        }
    }
    assert forall|j: int| 0 <= j < n implies (#[trigger] taps[j]).len() == 32 by {}
    lemma_fir_taps_run(e1, n, coefs, taps, n as nat);
    lemma_run_append(env, ic, fir_taps_instrs(n, coefs, n as nat));
    let e2 = run(e1, fir_taps_instrs(n, coefs, n as nat))->Some_0;
    assert(fir_acc_after(n, n) == fir_chain_end(n) - 1);
    assert(e2[n + 2] == e1[n + 2]);
    assert(forall|i: int| 0 <= i < n + 2 ==> #[trigger] e2[i] == e1[i]);
}

/// One pass of a filter's graph, with registers `regs`, sample `x` and
/// valid flag `valid`: on valid input the output is `fir_value` of the new
/// sample followed by the registers, otherwise zero; the valid flag
/// passes through; the registers shift on valid input.
#[verifier::spinoff_prover]
#[verifier::rlimit(100)]
pub proof fn lemma_fir_cycle(
    env: Seq<Option<Seq<bool>>>,
    coefs: Seq<i32>,
    shift: u32,
    regs: Seq<Seq<bool>>,
    x: Seq<bool>,
    valid: bool,
)
    requires
        coefs.len() >= 1,
        regs.len() == coefs.len(),
        env.len() == fir_wires(coefs.len(), shift).len(),
        env.len() <= usize::MAX,
        forall|j: int| 0 <= j < coefs.len() ==> #[trigger] env[j] == Some(regs[j]),
        forall|j: int| 0 <= j < coefs.len() ==> (#[trigger] regs[j]).len() == 32,
        x.len() == 32,
        env[coefs.len() as int] == Some(x),
        env[coefs.len() as int + 1] == Some(seq![valid]),
    ensures
        ({
            let n = coefs.len() as int;
            let o = fir_out(n, shift);
            run(env, fir_instrs(coefs, shift)) matches Some(e) && e[o] matches Some(out) && (valid ==> out.len()
                == 32 && signed_value(out) == fir_value(fir_tap_samples(x, regs), coefs, shift)) && (!valid ==> out
                == i32_bits(0)) && e[n + 1] == Some(seq![valid]) && e.len() == env.len() && (forall|j: int|
                0 <= j < n ==> #[trigger] e[o + 1 + j] == Some(shifted_regs(regs, x, valid)[j]))
        }),
{
    let n = coefs.len() as int;
    let m = fir_chain_end(n);
    let o = fir_out(n, shift);
    let sw = arith_shr_wires(shift, 64).len() as int;
    lemma_fir_taps_len(n, coefs, n as nat);
    assert(fir_wires(coefs.len(), shift).len() == 15 * n + 6 + sw);
    let front = seq![
        const_at(i32_bits(0), WireTy::Signed(32), n + 2),
        const_at(same_bits(64, false), WireTy::Signed(64), n + 3),
    ] + fir_taps_instrs(n, coefs, n as nat);
    lemma_fir_front(env, coefs, shift, regs, x, valid);
    let e2 = run(env, front)->Some_0;
    let acc = e2[m - 1]->Some_0;
    // The shift.
    let ish = arith_shr_instrs(wire_at(m - 1), shift, 64, m);
    lemma_arith_shr_divides(e2, wire_at(m - 1), shift, 64, m, acc);
    assert(writes_from(ish, m)) by {
        assert forall|k: int| 0 <= k < ish.len() implies (#[trigger] ish[k]).output.0 >= m by {}
    }
    lemma_run_frame(e2, ish, m);
    let e3 = run(e2, ish)->Some_0;
    let sout = arith_shr_out(wire_at(m - 1), shift, 64, m);
    let z = e3[sout.0 as int]->Some_0;
    lemma_run_append(env, front, ish);
    // The truncation and the output gate.
    let it = seq![
        InstrView { op: OpView::Slice { lo: 0, hi: 32 }, inputs: seq![sout], output: wire_at(o - 1) },
        mux_at(n + 1, n + 2, o - 1, o),
    ];
    let y = z.subrange(0, 32);
    let out = if valid {
        y
    } else {
        i32_bits(0)
    };
    let e4a = e3.update(o - 1, Some(y));
    let e4 = e4a.update(o, Some(out));
    assert(it.subrange(0, 0) =~= Seq::<InstrView>::empty());
    assert(run(e3, it.subrange(0, 0)) == Some(e3));
    assert(run(e3, it.subrange(0, 1)) == Some(e4a)) by {
        assert(it.subrange(0, 1).drop_last() =~= it.subrange(0, 0));
        assert(it.subrange(0, 1).last() == it[0]);
        assert(read_wires(e3, it[0].inputs) == Some(seq![z]));
    }
    assert(run(e3, it.subrange(0, 2)) == Some(e4)) by {
        assert(it.subrange(0, 2).drop_last() =~= it.subrange(0, 1));
        assert(it.subrange(0, 2).last() == it[1]);
        assert(e3[n + 1] == e2[n + 1]);
        assert(e3[n + 2] == e2[n + 2]);
        assert(read_wires(e4a, it[1].inputs) == Some(seq![seq![valid], i32_bits(0), y]));
    }
    assert(it.subrange(0, 2) =~= it);
    lemma_run_append(env, front + ish, it);
    lemma_low_bits_wrap(z, 32);
    // The shift register.
    assert forall|j: int| 0 <= j < n implies #[trigger] e4[j] == Some(regs[j]) by {
        assert(e4[j] == e3[j]);
        assert(e3[j] == e2[j]);
    }
    assert(e4[n] == Some(x));
    assert(e4[n + 1] == Some(seq![valid]));
    let im = shift_muxes(wire_at(n + 1), Seq::new(n as nat, |k: int| wire_at(k)), wire_at(n), o + 1);
    lemma_shift_muxes_run(e4, n as nat, n + 1, n, o + 1, regs, x, valid, n as nat);
    assert(im.subrange(0, n) =~= im);
    lemma_run_append(env, front + ish + it, im);
    assert(fir_instrs(coefs, shift) =~= front + ish + it + im);
    let e5 = run(e4, im)->Some_0;
    assert(e5[o] == e4[o]);
    assert(e5[n + 1] == e4[n + 1]);
}

/// One clock cycle of the FIR block with registers `regs`.
pub proof fn lemma_fir_block_cycle(
    b: RawDspBlock,
    coefs: Seq<i32>,
    shift: u32,
    regs: Seq<Seq<bool>>,
    x: Seq<bool>,
    valid: bool,
)
    requires
        fir_block(b, coefs, shift),
        coefs.len() >= 1,
        regs.len() == coefs.len(),
        forall|j: int| 0 <= j < coefs.len() ==> (#[trigger] regs[j]).len() == 32,
        x.len() == 32,
    ensures
        block_cycle(b, regs, seq![x, seq![valid]]) matches Some((next, out)) && next == shifted_regs(regs, x, valid)
            && out.len() == 2 && out[1] == seq![valid] && (valid ==> out[0].len() == 32 && signed_value(out[0])
            == fir_value(fir_tap_samples(x, regs), coefs, shift)) && (!valid ==> out[0] == i32_bits(0)),
{
    let n = coefs.len() as int;
    let o = fir_out(n, shift);
    let len = fir_wires(coefs.len(), shift).len();
    assert(b.graph.wires.len() == b.graph.wires@.len());
    let ins = regs + seq![x, seq![valid]];
    assert forall|j: int| 0 <= j < b.input_wires@.len() implies (#[trigger] b.input_wires@[j]).0 == j by {
        if j < n {
            assert(b.input_wires@[j] == wire_at(j));
        }
    }
    lemma_input_env_in_order(len, b.input_wires@, ins);
    let env = input_env(len, b.input_wires@, ins);
    lemma_fir_taps_len(n, coefs, n as nat);
    assert forall|j: int| 0 <= j < n implies #[trigger] env[j] == Some(regs[j]) by {
        assert(ins[j] == regs[j]);
    }
    assert(ins[n] == x);
    assert(ins[n + 1] == seq![valid]);
    lemma_fir_cycle(env, coefs, shift, regs, x, valid);
    let e = run(env, fir_instrs(coefs, shift))->Some_0;
    let sr = shifted_regs(regs, x, valid);
    let dout = e[o]->Some_0;
    let outs = sr + seq![dout, seq![valid]];
    let ows = b.output_wires@;
    assert forall|k: int| 0 <= k < ows.len() implies (#[trigger] ows[k]).0 < e.len() && e[ows[k].0 as int] == Some(outs[k]) by {
        if k < n {
            assert(ows[k] == wire_at(o + 1 + k));
        }
    }
    assert(read_wires(e, ows) == Some(outs)) by {
        assert(Seq::new(ows.len(), |k: int| e[ows[k].0 as int]->Some_0) =~= outs);
    }
    assert(outs.subrange(0, n) =~= sr);
    assert(outs.subrange(n, n + 2) =~= seq![dout, seq![valid]]);
}

/// The registers of a filter after the valid samples `s` have entered
/// registers `regs`.
pub open spec fn fir_window(s: Seq<Seq<bool>>, regs: Seq<Seq<bool>>) -> Seq<Seq<bool>> {
    Seq::new(regs.len(), |j: int| line_at(s, regs, j))
}

/// Every cycle input is a 32-bit sample followed by a one-bit valid flag.
pub open spec fn fir_inputs_ok(inputs: Seq<Seq<Seq<bool>>>) -> bool {
    forall|i: int|
        0 <= i < inputs.len() ==> (#[trigger] inputs[i]).len() == 2 && inputs[i][0].len() == 32
            && inputs[i][1].len() == 1
}

/// The FIR block clocked over a stream from registers `regs`: each valid
/// cycle outputs `fir_value` of its sample followed by the earlier valid
/// samples (then the registers); an invalid cycle outputs zero; the valid
/// flag passes through.
pub proof fn lemma_fir_stream(
    b: RawDspBlock,
    coefs: Seq<i32>,
    shift: u32,
    regs: Seq<Seq<bool>>,
    inputs: Seq<Seq<Seq<bool>>>,
)
    requires
        fir_block(b, coefs, shift),
        coefs.len() >= 1,
        regs.len() == coefs.len(),
        forall|j: int| 0 <= j < coefs.len() ==> (#[trigger] regs[j]).len() == 32,
        fir_inputs_ok(inputs),
    ensures
        block_stream(b, regs, inputs) matches Some(outs) && outs.len() == inputs.len() && forall|i: int|
            0 <= i < inputs.len() ==> (#[trigger] outs[i]).len() == 2 && outs[i][1] == seq![inputs[i][1][0]] && if inputs[i][1][0] {
                outs[i][0].len() == 32 && signed_value(outs[i][0]) == fir_value(
                    fir_tap_samples(inputs[i][0], fir_window(valid_samples(inputs.subrange(0, i)), regs)),
                    coefs,
                    shift,
                )
            } else {
                outs[i][0] == i32_bits(0)
            },
    decreases inputs.len(),
{
    let n = coefs.len() as int;
    if inputs.len() > 0 {
        let x = inputs[0][0];
        let v = inputs[0][1][0];
        assert(inputs[0].len() == 2 && inputs[0][0].len() == 32 && inputs[0][1].len() == 1);
        assert(inputs[0][1] =~= seq![v]);
        assert(inputs[0] =~= seq![x, seq![v]]);
        lemma_fir_block_cycle(b, coefs, shift, regs, x, v);
        let (next, out) = block_cycle(b, regs, seq![x, seq![v]])->Some_0;
        let rest = inputs.drop_first();
        assert(fir_inputs_ok(rest)) by {
            assert forall|i: int| 0 <= i < rest.len() implies (#[trigger] rest[i]).len() == 2 && rest[i][0].len()
                == 32 && rest[i][1].len() == 1 by {
                assert(rest[i] == inputs[i + 1]);
            }
        }
        assert forall|j: int| 0 <= j < coefs.len() implies (#[trigger] next[j]).len() == 32 by {
            if v && j > 0 {
                assert(next[j] == regs[j - 1]);
            }
        }
        lemma_fir_stream(b, coefs, shift, next, rest);
        let outs_rest = block_stream(b, next, rest)->Some_0;
        let outs = seq![out] + outs_rest;
        assert(block_stream(b, regs, inputs) == Some(outs));
        let c0 = if v {
            seq![x]
        } else {
            Seq::<Seq<bool>>::empty()
        };
        assert forall|i: int| 0 <= i < inputs.len() implies (#[trigger] outs[i]).len() == 2 && outs[i][1] == seq![inputs[i][1][0]] && if inputs[i][1][0] {
            outs[i][0].len() == 32 && signed_value(outs[i][0]) == fir_value(
                fir_tap_samples(inputs[i][0], fir_window(valid_samples(inputs.subrange(0, i)), regs)),
                coefs,
                shift,
            )
        } else {
            outs[i][0] == i32_bits(0)
        } by {
            if i == 0 {
                assert(inputs.subrange(0, 0) =~= Seq::<Seq<Seq<bool>>>::empty());
                assert(valid_samples(inputs.subrange(0, 0)) =~= Seq::<Seq<bool>>::empty());
                assert(fir_window(Seq::<Seq<bool>>::empty(), regs) =~= regs);
            } else {
                let j = i - 1;
                assert(outs[i] == outs_rest[j]);
                assert(rest[j] == inputs[i]);
                let p = inputs.subrange(0, i);
                assert(p.drop_first() =~= rest.subrange(0, j));
                assert(p[0] == inputs[0]);
                let s2 = valid_samples(rest.subrange(0, j));
                assert(valid_samples(p) == c0 + s2);
                assert(fir_window(s2, next) =~= fir_window(c0 + s2, regs)) by {
                    assert forall|k: int| 0 <= k < n implies #[trigger] fir_window(s2, next)[k] == fir_window(c0 + s2, regs)[k] by {
                        lemma_line_after_shift(s2, regs, x, v, k);
                    }
                }
            }
        }
    }
}

/// The FIR filter convolves the stream of valid samples: clocked from its
/// zero initial state, each valid cycle outputs, as a 32-bit value, the
/// 64-bit wrapped sum of each coefficient times its tap sample (the
/// cycle's sample, then the earlier valid samples, newest first, zero
/// before the start), shifted right by `shift` rounding down; an invalid
/// cycle outputs zero; the valid flag passes through.
pub proof fn lemma_fir_convolves(b: RawDspBlock, coefs: Seq<i32>, shift: u32, inputs: Seq<Seq<Seq<bool>>>)
    requires
        fir_block(b, coefs, shift),
        coefs.len() >= 1,
        fir_inputs_ok(inputs),
    ensures
        ({
            let n = coefs.len();
            let init = b.initial_state.0@;
            let zeros = Seq::new(n, |k: int| zero_bits(32));
            block_stream(b, Seq::new(n, |k: int| init.subrange(32 * k, 32 * k + 32)), inputs) matches Some(outs)
                && outs.len() == inputs.len() && forall|i: int|
                0 <= i < inputs.len() ==> (#[trigger] outs[i]).len() == 2 && outs[i][1] == seq![inputs[i][1][0]] && if inputs[i][1][0] {
                    signed_value(outs[i][0]) == fir_value(
                        fir_tap_samples(inputs[i][0], fir_window(valid_samples(inputs.subrange(0, i)), zeros)),
                        coefs,
                        shift,
                    )
                } else {
                    outs[i][0] == i32_bits(0)
                }
        }),
{
    let n = coefs.len();
    let init = b.initial_state.0@;
    let regs = Seq::new(n, |k: int| init.subrange(32 * k, 32 * k + 32));
    let zeros = Seq::new(n, |k: int| zero_bits(32));
    assert(regs =~= zeros) by {
        assert forall|k: int| 0 <= k < n implies #[trigger] regs[k] == zeros[k] by {
            assert(regs[k] =~= zero_bits(32));
        }
    }
    lemma_fir_stream(b, coefs, shift, regs, inputs);
}

} // verus!
