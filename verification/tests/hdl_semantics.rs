use dsp_cat::hdl::common::{arith_shr, sign_extend};
use dsp_cat::hdl::decimator::build_decimator;
use dsp_cat::hdl::ir::{BinOp, BitSeq, HdlGraph, HdlGraphBuilder, Op, WireId, WireTy};

fn wire_ty(ty: &WireTy) -> hdl_cat::ir::WireTy {
    match ty {
        WireTy::Bit => hdl_cat::ir::WireTy::Bit,
        WireTy::Bits(n) => hdl_cat::ir::WireTy::Bits(*n),
        WireTy::Signed(n) => hdl_cat::ir::WireTy::Signed(*n),
        WireTy::Array {
            element_width,
            depth,
        } => hdl_cat::ir::WireTy::Array {
            element_width: *element_width,
            depth: *depth,
        },
    }
}

fn bits(b: &BitSeq) -> hdl_cat::kind::BitSeq {
    hdl_cat::kind::BitSeq::from_vec(b.0.clone())
}

fn bin_op(op: BinOp) -> hdl_cat::ir::BinOp {
    match op {
        BinOp::And => hdl_cat::ir::BinOp::And,
        BinOp::Or => hdl_cat::ir::BinOp::Or,
        BinOp::Xor => hdl_cat::ir::BinOp::Xor,
        BinOp::Add => hdl_cat::ir::BinOp::Add,
        BinOp::Sub => hdl_cat::ir::BinOp::Sub,
        BinOp::Mul => hdl_cat::ir::BinOp::Mul,
        BinOp::Eq => hdl_cat::ir::BinOp::Eq,
        BinOp::Lt => hdl_cat::ir::BinOp::Lt,
    }
}

fn op(op: &Op) -> hdl_cat::ir::Op {
    match op {
        Op::Not => hdl_cat::ir::Op::Not,
        Op::Bin(b) => hdl_cat::ir::Op::Bin(bin_op(*b)),
        Op::Mux => hdl_cat::ir::Op::Mux,
        Op::Const { bits: b, ty } => hdl_cat::ir::Op::Const {
            bits: bits(b),
            ty: wire_ty(ty),
        },
        Op::Reg { init, ty } => hdl_cat::ir::Op::Reg {
            init: bits(init),
            ty: wire_ty(ty),
        },
        Op::Concat {
            low_width,
            high_width,
        } => hdl_cat::ir::Op::Concat {
            low_width: *low_width,
            high_width: *high_width,
        },
        Op::Slice { lo, hi } => hdl_cat::ir::Op::Slice { lo: *lo, hi: *hi },
        Op::ArrayShiftIn {
            element_width,
            depth,
        } => hdl_cat::ir::Op::ArrayShiftIn {
            element_width: *element_width,
            depth: *depth,
        },
        Op::ArrayTail {
            element_width,
            depth,
        } => hdl_cat::ir::Op::ArrayTail {
            element_width: *element_width,
            depth: *depth,
        },
    }
}

fn to_hdl_cat(graph: &HdlGraph) -> hdl_cat::ir::HdlGraph {
    let mut builder = hdl_cat::ir::HdlGraphBuilder::new();
    for ty in graph.wires() {
        builder = builder.with_wire(wire_ty(ty)).0;
    }
    for instr in graph.instructions() {
        let inputs = instr
            .inputs
            .iter()
            .map(|w| hdl_cat::ir::WireId::new(w.index()))
            .collect();
        builder = builder
            .with_instruction(op(&instr.op), inputs, hdl_cat::ir::WireId::new(instr.output.index()))
            .expect("arity matches");
    }
    builder.build()
}

fn to_bits(v: i64, width: u32) -> hdl_cat::kind::BitSeq {
    hdl_cat::kind::BitSeq::from_vec((0..width).map(|i| (v >> i.min(63)) & 1 == 1).collect())
}

fn signed(b: &hdl_cat::kind::BitSeq) -> i64 {
    let n = b.len();
    let mut v: i64 = 0;
    for i in 0..n {
        if b.bit(i) {
            v |= 1i64 << i;
        }
    }
    if n > 0 && n < 64 && b.bit(n - 1) {
        v -= 1i64 << n;
    }
    v
}

fn eval_one(graph: &HdlGraph, input: WireId, value: hdl_cat::kind::BitSeq, output: WireId) -> hdl_cat::kind::BitSeq {
    let g = to_hdl_cat(graph);
    let env = hdl_cat::sim::interp::interpret(&g, &[hdl_cat::ir::WireId::new(input.index())], &[value])
        .expect("graph runs");
    env[output.index()].clone().expect("output written")
}

fn sign_extended(v: i64, from: u32, to: u32) -> (i64, usize) {
    let (b, w) = HdlGraphBuilder::new().with_wire(WireTy::Signed(from));
    let (b, out) = sign_extend(b, w, from, to).expect("sign extension builds");
    let result = eval_one(&b.build(), w, to_bits(v, from), out);
    (signed(&result), result.len())
}

fn shifted(v: i64, shift: u32, width: u32) -> (i64, usize) {
    let (b, w) = HdlGraphBuilder::new().with_wire(WireTy::Signed(width));
    let (b, out) = arith_shr(b, w, shift, width).expect("shift builds");
    let result = eval_one(&b.build(), w, to_bits(v, width), out);
    (signed(&result), result.len())
}

#[test]
fn sign_extension_keeps_the_signed_value() {
    assert_eq!(sign_extended(-3, 4, 8), (-3, 8));
    assert_eq!(sign_extended(5, 4, 8), (5, 8));
    assert_eq!(sign_extended(-8, 4, 12), (-8, 12));
    assert_eq!(sign_extended(-1_000_000, 32, 48), (-1_000_000, 48));
}

#[test]
fn arithmetic_shift_divides_rounding_down() {
    assert_eq!(shifted(-7, 1, 8), (-4, 8));
    assert_eq!(shifted(7, 1, 8), (3, 8));
    assert_eq!(shifted(-1, 3, 8), (-1, 8));
    assert_eq!(shifted(100, 0, 8), (100, 8));
    assert_eq!(shifted(-100, 8, 8), (-1, 8));
    assert_eq!(shifted(100, 12, 8), (0, 8));
    assert_eq!(shifted(-1_000_001, 4, 32), (-62_501, 32));
}

#[test]
fn decimator_keeps_every_factor_th_valid_sample() {
    let block = build_decimator(3).expect("factor 3 is accepted");
    let g = to_hdl_cat(block.graph());
    let ids: Vec<hdl_cat::ir::WireId> =
        block.input_wires().iter().map(|w| hdl_cat::ir::WireId::new(w.index())).collect();
    let valids = [true, false, true, true, true, false, true, true, true];
    let mut state = bits(block.initial_state());
    let mut kept = Vec::new();
    for (i, v) in valids.iter().enumerate() {
        let inputs = vec![
            state.clone(),
            to_bits(i as i64 * 10, 32),
            hdl_cat::kind::BitSeq::from_vec(vec![*v]),
        ];
        let env = hdl_cat::sim::interp::interpret(&g, &ids, &inputs).expect("cycle runs");
        let out = |k: usize| env[block.output_wires()[k].index()].clone().expect("output written");
        assert_eq!(signed(&out(1)), i as i64 * 10);
        if out(2).bit(0) {
            kept.push(i);
        }
        state = out(0);
    }
    // Valid samples sit at cycles 0, 2, 3, 4, 6, 7, 8; every third one is kept.
    assert_eq!(kept, vec![0, 4, 8]);
}

fn width(ty: &WireTy) -> usize {
    match ty {
        WireTy::Bit => 1,
        WireTy::Bits(n) | WireTy::Signed(n) => *n as usize,
        WireTy::Array {
            element_width,
            depth,
        } => *element_width as usize * *depth,
    }
}

/// Clock a block over `(sample, valid)` inputs with `hdl_cat`'s
/// interpreter, from its initial state; returns each cycle's
/// `(data_out, valid_out)`.
fn clock(block: &dsp_cat::hdl::raw::RawDspBlock, inputs: &[(i64, bool)]) -> Vec<(i64, bool)> {
    let g = to_hdl_cat(block.graph());
    let ids: Vec<hdl_cat::ir::WireId> =
        block.input_wires().iter().map(|w| hdl_cat::ir::WireId::new(w.index())).collect();
    let sc = block.state_wire_count();
    let init = &block.initial_state().0;
    let mut state = Vec::new();
    let mut at = 0;
    for w in &block.input_wires()[..sc] {
        let n = width(&block.graph().wires()[w.index()]);
        state.push(hdl_cat::kind::BitSeq::from_vec(init[at..at + n].to_vec()));
        at += n;
    }
    let mut outs = Vec::new();
    for (x, v) in inputs {
        let mut all = state.clone();
        all.push(to_bits(*x, 32));
        all.push(hdl_cat::kind::BitSeq::from_vec(vec![*v]));
        let env = hdl_cat::sim::interp::interpret(&g, &ids, &all).expect("cycle runs");
        let out = |k: usize| env[block.output_wires()[k].index()].clone().expect("output written");
        state = (0..sc).map(out).collect();
        outs.push((signed(&out(sc)), out(sc + 1).bit(0)));
    }
    outs
}

#[test]
fn gain_scales_one_cycle_late() {
    let block = dsp_cat::hdl::gain::build_gain(3, 1).expect("gain builds");
    let outs = clock(&block, &[(10, true), (-7, true), (5, false)]);
    assert_eq!(outs, vec![(0, false), (15, true), (-11, true)]);
}

#[test]
fn accumulator_keeps_a_running_sum() {
    let block = dsp_cat::hdl::accumulator::build_accumulator().expect("accumulator builds");
    let outs = clock(&block, &[(1, true), (2, true), (3, false), (4, true)]);
    assert_eq!(outs, vec![(1, false), (3, true), (6, true), (7, false)]);
}

#[test]
fn delay_line_delays_valid_samples() {
    let block = dsp_cat::hdl::delay::build_delay(2).expect("delay builds");
    let outs = clock(&block, &[(1, true), (2, true), (3, true), (4, false), (5, true)]);
    assert_eq!(outs, vec![(0, false), (0, false), (1, true), (0, false), (2, true)]);
}

#[test]
fn interpolator_stuffs_zeros_after_each_sample() {
    let block = dsp_cat::hdl::interpolator::build_interpolator(3).expect("interpolator builds");
    let outs = clock(&block, &[(7, true), (8, true), (9, true), (1, false), (5, true)]);
    assert_eq!(outs, vec![(7, true), (0, true), (0, true), (0, false), (5, true)]);
}

#[test]
fn fir_block_gives_its_impulse_response() {
    let block = dsp_cat::hdl::fir::build_fir(&[1, 2, 3], 0).expect("fir builds");
    let outs = clock(&block, &[(1, true), (0, true), (0, true), (0, true), (9, false)]);
    assert_eq!(outs, vec![(1, true), (2, true), (3, true), (0, true), (0, false)]);
}

#[test]
fn cic_block_integrates_decimates_and_combs() {
    let block = dsp_cat::hdl::cic::build_cic(1, 2).expect("cic builds");
    let outs = clock(&block, &[(1, true), (1, true), (1, true), (1, true)]);
    assert_eq!(outs, vec![(1, true), (0, false), (2, true), (0, false)]);
}
