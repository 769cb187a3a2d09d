//! Type-erased DSP block representation and raw composition.
//!
//! [`RawDspBlock`] stores the IR graph, wire layout, and initial state
//! for a single DSP block (or a composed pipeline) without encoding the
//! state type at the type level.  This enables runtime pipeline
//! construction from descriptors.
//!
//! [`compose_raw`] merges two blocks' graphs so that the first block's
//! data output feeds the second block's data input, enabling N-ary folded
//! composition.

use vstd::prelude::*;

use crate::error::Error;
use crate::hdl::common::{sample_wire, valid_wire, wires_below};
use crate::hdl::ir::{
    graph_wf, instr_view, instrs_view, lemma_arity_view, op_view, spec_storage_bits,
    view_arity, view_wf, BitSeq, HdlGraph, HdlGraphBuilder, InstrView, Op,
    WireId, WireTy,
};

verus! {

/// A type-erased DSP block backed by an [`HdlGraph`].
///
/// The first `state_wire_count` entries of both `input_wires` and
/// `output_wires` are state-carrying wires.  The remaining entries are
/// the data I/O (one `Signed(32)` sample and one `Bit` valid flag each).
#[derive(Debug)]
pub struct RawDspBlock {
    pub graph: HdlGraph,
    pub input_wires: Vec<WireId>,
    pub output_wires: Vec<WireId>,
    pub initial_state: BitSeq,
    pub state_wire_count: usize,
}

impl RawDspBlock {
    /// Construct a new raw block from its constituent parts.
    pub fn new(
        graph: HdlGraph,
        input_wires: Vec<WireId>,
        output_wires: Vec<WireId>,
        initial_state: BitSeq,
        state_wire_count: usize,
    ) -> (r: Self)
        ensures
            r == (RawDspBlock { graph, input_wires, output_wires, initial_state, state_wire_count }),
    {
        RawDspBlock { graph, input_wires, output_wires, initial_state, state_wire_count }
    }

    /// The combinational IR graph.
    pub fn graph(&self) -> (r: &HdlGraph)
        ensures
            *r == self.graph,
    {
        &self.graph
    }

    /// Input wires: `[state..., data_in, valid_in]`.
    pub fn input_wires(&self) -> (r: &[WireId])
        ensures
            r@ == self.input_wires@,
    {
        self.input_wires.as_slice()
    }

    /// Output wires: `[next_state..., data_out, valid_out]`.
    pub fn output_wires(&self) -> (r: &[WireId])
        ensures
            r@ == self.output_wires@,
    {
        self.output_wires.as_slice()
    }

    /// The initial-state bit pattern (LSB-first).
    pub fn initial_state(&self) -> (r: &BitSeq)
        ensures
            *r == self.initial_state,
    {
        &self.initial_state
    }

    /// Number of state wires.
    pub fn state_wire_count(&self) -> (r: usize)
        ensures
            r == self.state_wire_count,
    {
        self.state_wire_count
    }

    /// Consume and return owned parts.
    pub fn into_parts(self) -> (r: (HdlGraph, Vec<WireId>, Vec<WireId>, BitSeq, usize))
        ensures
            r == (self.graph, self.input_wires, self.output_wires, self.initial_state, self.state_wire_count),
    {
        (self.graph, self.input_wires, self.output_wires, self.initial_state, self.state_wire_count)
    }
}

/// The type of wire `w` in the wire list `tys`.
pub open spec fn ty_of(tys: Seq<WireTy>, w: WireId) -> WireTy {
    tys[w.0 as int]
}

/// The total number of stored bits of the wires `ws`, typed by `tys`.
pub open spec fn state_bits(tys: Seq<WireTy>, ws: Seq<WireId>) -> nat
    decreases ws.len(),
{
    if ws.len() == 0 {
        0
    } else {
        state_bits(tys, ws.drop_last()) + spec_storage_bits(ty_of(tys, ws.last()))
    }
}

/// The data type carried on data port `k` (0: sample, 1: valid flag).
pub open spec fn data_port_ty(k: int) -> WireTy {
    if k == 0 {
        WireTy::Signed(32)
    } else {
        WireTy::Bit
    }
}

/// A block has the standard DSP interface: its graph is well formed; its
/// inputs are the state wires followed by a `Signed(32)` sample and a
/// `Bit` valid flag, and its outputs the next state followed by the same
/// two data ports; each next-state wire has the type of its state wire;
/// and the initial state holds exactly the bits of the state wires.
pub open spec fn dsp_interface(b: RawDspBlock) -> bool {
    let tys = b.graph.wires@;
    let sc = b.state_wire_count as int;
    let ins = b.input_wires@;
    let outs = b.output_wires@;
    &&& graph_wf(b.graph)
    &&& ins.len() == sc + 2
    &&& outs.len() == sc + 2
    &&& wires_below(ins, tys.len())
    &&& wires_below(outs, tys.len())
    &&& forall|k: int| 0 <= k < sc ==> ty_of(tys, #[trigger] ins[k]) == ty_of(tys, outs[k])
    &&& forall|k: int| 0 <= k < 2 ==> ty_of(tys, #[trigger] ins[sc + k]) == data_port_ty(k)
    &&& forall|k: int| 0 <= k < 2 ==> ty_of(tys, #[trigger] outs[sc + k]) == data_port_ty(k)
    &&& b.initial_state.0@.len() == state_bits(tys, ins.subrange(0, sc))
}

/// `b` is the identity block: a sample wire and a valid wire, no
/// instructions, the two wires as both inputs and outputs, and no state.
pub open spec fn identity_block(b: RawDspBlock) -> bool {
    &&& b.graph.wires@ == seq![WireTy::Signed(32), WireTy::Bit]
    &&& b.graph.instructions@.len() == 0
    &&& b.input_wires@ == seq![WireId(0), WireId(1)]
    &&& b.output_wires@ == b.input_wires@
    &&& b.initial_state.0@.len() == 0
    &&& b.state_wire_count == 0
    &&& dsp_interface(b)
}

/// An identity (passthrough) DSP block: output equals input; no state.
pub fn identity_raw() -> (r: Result<RawDspBlock, Error>)
    ensures
        r matches Ok(b) && identity_block(b),
{
    let (builder, data) = HdlGraphBuilder::new().with_wire(sample_wire());
    let (builder, valid) = builder.with_wire(valid_wire());
    let graph = builder.build();
    let inputs = vec![data, valid];
    let outputs = vec![data, valid];
    let b = RawDspBlock::new(graph, inputs, outputs, BitSeq::new(), 0);
    proof {
        assert(b.graph.wires@ =~= seq![WireTy::Signed(32), WireTy::Bit]);
        assert(instrs_view(b.graph.instructions@) =~= Seq::<InstrView>::empty());
        assert(b.input_wires@.subrange(0, 0) =~= Seq::<WireId>::empty());
    }
    Ok(b)
}

/// Every instruction of a list has the arity of its operation.
pub open spec fn arities_ok(s: Seq<InstrView>) -> bool {
    forall|j: int| 0 <= j < s.len() ==> (#[trigger] s[j]).inputs.len() == view_arity(s[j].op)
}

/// Every wire of `ws` is one of the `n` wires of its graph or has an
/// index of at most `m`.
pub open spec fn ids_fit(ws: Seq<WireId>, n: nat, m: int) -> bool {
    forall|k: int| 0 <= k < ws.len() ==> (#[trigger] ws[k]).0 < n || ws[k].0 <= m
}

/// Every wire the instructions read or write is one of the `n` wires of
/// their graph or has an index of at most `m`.
pub open spec fn instr_ids_fit(s: Seq<InstrView>, n: nat, m: int) -> bool {
    forall|j: int| 0 <= j < s.len() ==> ids_fit((#[trigger] s[j]).inputs, n, m) && (s[j].output.0 < n
        || s[j].output.0 <= m)
}

/// Wire `w` moved past the `n` wires of another graph.
pub open spec fn shift_wire(w: WireId, n: nat) -> WireId {
    WireId((w.0 + n) as usize)
}

/// `w` of the second graph, moved past the `n` wires of the first, unless
/// it is one of the data inputs `gin` at or after position `k`: then the
/// matching data output of `fout` (the first match wins).
pub open spec fn remap_from(gin: Seq<WireId>, fout: Seq<WireId>, w: WireId, n: nat, k: nat) -> WireId
    decreases gin.len() - k,
{
    if k >= gin.len() || k >= fout.len() {
        shift_wire(w, n)
    } else if gin[k as int] == w {
        fout[k as int]
    } else {
        remap_from(gin, fout, w, n, k + 1)
    }
}

/// Where wire `w` of the second block lands in the composed graph.
pub open spec fn remap_wire(gin: Seq<WireId>, fout: Seq<WireId>, w: WireId, n: nat) -> WireId {
    remap_from(gin, fout, w, n, 0)
}

/// An instruction of the second block, rewired into the composed graph.
pub open spec fn remap_instr(iv: InstrView, gin: Seq<WireId>, fout: Seq<WireId>, n: nat) -> InstrView {
    InstrView {
        op: iv.op,
        inputs: iv.inputs.map_values(|w: WireId| remap_wire(gin, fout, w, n)),
        output: remap_wire(gin, fout, iv.output, n),
    }
}

/// The instructions of the second block, rewired into the composed graph.
pub open spec fn remap_instrs(s: Seq<InstrView>, gin: Seq<WireId>, fout: Seq<WireId>, n: nat) -> Seq<InstrView> {
    s.map_values(|iv: InstrView| remap_instr(iv, gin, fout, n))
}

/// The wires `ws`, each moved past `n` wires.
pub open spec fn shift_wires(ws: Seq<WireId>, n: nat) -> Seq<WireId> {
    ws.map_values(|w: WireId| shift_wire(w, n))
}

/// The data inputs of a block (after its state inputs).
pub open spec fn data_inputs(b: RawDspBlock) -> Seq<WireId> {
    b.input_wires@.subrange(b.state_wire_count as int, b.input_wires@.len() as int)
}

/// The data outputs of a block (after its next-state outputs).
pub open spec fn data_outputs(b: RawDspBlock) -> Seq<WireId> {
    b.output_wires@.subrange(b.state_wire_count as int, b.output_wires@.len() as int)
}

/// The state inputs of a block.
pub open spec fn state_inputs(b: RawDspBlock) -> Seq<WireId> {
    b.input_wires@.subrange(0, b.state_wire_count as int)
}

/// The next-state outputs of a block.
pub open spec fn state_outputs(b: RawDspBlock) -> Seq<WireId> {
    b.output_wires@.subrange(0, b.state_wire_count as int)
}

/// `compose_raw` can take `f` and `g`: their state counts fit their wire
/// lists, every instruction has the arity of its operation, and no wire
/// `g` mentions outside its graph overflows when moved past the wires of
/// `f`.
pub open spec fn composable(f: RawDspBlock, g: RawDspBlock) -> bool {
    let n = f.graph.wires@.len();
    let gn = g.graph.wires@.len();
    let m = usize::MAX - n;
    &&& f.state_wire_count <= f.input_wires@.len()
    &&& f.state_wire_count <= f.output_wires@.len()
    &&& g.state_wire_count <= g.input_wires@.len()
    &&& g.state_wire_count <= g.output_wires@.len()
    &&& arities_ok(instrs_view(f.graph.instructions@))
    &&& arities_ok(instrs_view(g.graph.instructions@))
    &&& instr_ids_fit(instrs_view(g.graph.instructions@), gn, m)
    &&& ids_fit(g.input_wires@, gn, m)
    &&& ids_fit(g.output_wires@, gn, m)
}

/// `c` is the sequential composition of `f` then `g`: the wires of `g`
/// follow those of `f`; `g`'s data inputs are replaced by `f`'s data
/// outputs; the state is `f`'s state followed by `g`'s; the data input is
/// `f`'s and the data output `g`'s.
pub open spec fn composes_raw(f: RawDspBlock, g: RawDspBlock, c: RawDspBlock) -> bool {
    let n = f.graph.wires@.len();
    let gin = data_inputs(g);
    let fout = data_outputs(f);
    &&& c.graph.wires@ == f.graph.wires@ + g.graph.wires@
    &&& instrs_view(c.graph.instructions@) == instrs_view(f.graph.instructions@) + remap_instrs(
        instrs_view(g.graph.instructions@),
        gin,
        fout,
        n,
    )
    &&& c.input_wires@ == state_inputs(f) + shift_wires(state_inputs(g), n) + data_inputs(f)
    &&& c.output_wires@ == state_outputs(f) + shift_wires(state_outputs(g), n) + data_outputs(g).map_values(
        |w: WireId| remap_wire(gin, fout, w, n),
    )
    &&& c.initial_state.0@ == f.initial_state.0@ + g.initial_state.0@
    &&& c.state_wire_count == f.state_wire_count + g.state_wire_count
}

/// A copy of an operation.
fn copy_op(op: &Op) -> (r: Op)
    ensures
        op_view(r) == op_view(*op),
{
    match op {
        Op::Not => Op::Not,
        Op::Bin(b) => Op::Bin(*b),
        Op::Mux => Op::Mux,
        Op::Const { bits, ty } => Op::Const { bits: bits.duplicate(), ty: *ty },
        Op::Reg { init, ty } => Op::Reg { init: init.duplicate(), ty: *ty },
        Op::Concat { low_width, high_width } => Op::Concat { low_width: *low_width, high_width: *high_width },
        Op::Slice { lo, hi } => Op::Slice { lo: *lo, hi: *hi },
        Op::ArrayShiftIn { element_width, depth } => Op::ArrayShiftIn { element_width: *element_width, depth: *depth },
        Op::ArrayTail { element_width, depth } => Op::ArrayTail { element_width: *element_width, depth: *depth },
    }
}

/// Where wire `w` of the second block lands in the composed graph.
fn remap_g(w: WireId, gin: &[WireId], fout: &[WireId], n: usize) -> (r: WireId)
    requires
        w.0 + n <= usize::MAX,
    ensures
        r == remap_wire(gin@, fout@, w, n as nat),
{
    let mut k: usize = 0;
    while k < gin.len() && k < fout.len()
        invariant
            k <= gin@.len(),
            remap_wire(gin@, fout@, w, n as nat) == remap_from(gin@, fout@, w, n as nat, k as nat),
        decreases gin@.len() - k,
    {
        if gin[k] == w {
            return fout[k];
        }
        k = k + 1;
    }
    WireId::new(w.index() + n)
}

/// Copy `f`'s and `g`'s wires and instructions into one graph, rewiring
/// `g`'s instructions with `remap_wire`.
fn merge_graphs(f_graph: &HdlGraph, g_graph: &HdlGraph, gin: &[WireId], fout: &[WireId]) -> (r: Result<
    HdlGraph,
    Error,
>)
    requires
        arities_ok(instrs_view(f_graph.instructions@)),
        arities_ok(instrs_view(g_graph.instructions@)),
        instr_ids_fit(
            instrs_view(g_graph.instructions@),
            g_graph.wires@.len(),
            usize::MAX - f_graph.wires@.len(),
        ),
    ensures
        r matches Ok(c) && c.wires@ == f_graph.wires@ + g_graph.wires@ && instrs_view(c.instructions@)
            == instrs_view(f_graph.instructions@) + remap_instrs(
            instrs_view(g_graph.instructions@),
            gin@,
            fout@,
            f_graph.wires@.len(),
        ),
{
    let ghost fv = instrs_view(f_graph.instructions@);
    let ghost gv = instrs_view(g_graph.instructions@);
    let n = f_graph.wires.len();
    let mut builder = HdlGraphBuilder::new();
    let mut i: usize = 0;
    while i < f_graph.wires.len()
        invariant
            i <= f_graph.wires@.len(),
            builder.wires@ == f_graph.wires@.subrange(0, i as int),
            builder.instructions@.len() == 0,
        decreases f_graph.wires@.len() - i,
    {
        let (b, _w) = builder.with_wire(f_graph.wires[i]);
        builder = b;
        i = i + 1;
        assert(builder.wires@ =~= f_graph.wires@.subrange(0, i as int));
    }
    let mut i: usize = 0;
    while i < g_graph.wires.len()
        invariant
            i <= g_graph.wires@.len(),
            builder.wires@ == f_graph.wires@ + g_graph.wires@.subrange(0, i as int),
            builder.instructions@.len() == 0,
        decreases g_graph.wires@.len() - i,
    {
        let (b, _w) = builder.with_wire(g_graph.wires[i]);
        builder = b;
        i = i + 1;
        assert(builder.wires@ =~= f_graph.wires@ + g_graph.wires@.subrange(0, i as int));
    }
    assert(builder.wires@ =~= f_graph.wires@ + g_graph.wires@);
    let total = builder.wires.len();
    assert(instrs_view(builder.instructions@) =~= fv.subrange(0, 0));
    let mut i: usize = 0;
    while i < f_graph.instructions.len()
        invariant
            i <= f_graph.instructions@.len(),
            fv == instrs_view(f_graph.instructions@),
            arities_ok(fv),
            builder.wires@ == f_graph.wires@ + g_graph.wires@,
            instrs_view(builder.instructions@) == fv.subrange(0, i as int),
        decreases f_graph.instructions@.len() - i,
    {
        let instr = &f_graph.instructions[i];
        let op = copy_op(&instr.op);
        let mut inputs: Vec<WireId> = Vec::new();
        let mut k: usize = 0;
        while k < instr.inputs.len()
            invariant
                k <= instr.inputs@.len(),
                inputs@ == instr.inputs@.subrange(0, k as int),
            decreases instr.inputs@.len() - k,
        {
            inputs.push(instr.inputs[k]);
            k = k + 1;
            assert(inputs@ =~= instr.inputs@.subrange(0, k as int));
        }
        assert(inputs@ =~= instr.inputs@);
        proof {
            assert(fv[i as int] == instr_view(*instr));
            lemma_arity_view(op);
            lemma_arity_view(instr.op);
        }
        let ghost before = builder;
        builder = match builder.with_instruction(op, inputs, instr.output) {
            Ok(b) => b,
            Err(e) => {
                return Err(Error::Hdl(e));
            },
        };
        i = i + 1;
        proof {
            assert(instrs_view(builder.instructions@) =~= instrs_view(before.instructions@).push(
                fv[i - 1],
            ));
            assert(fv.subrange(0, i as int) =~= fv.subrange(0, i - 1).push(fv[i - 1]));
        }
    }
    assert(fv.subrange(0, fv.len() as int) =~= fv);
    let ghost rv = remap_instrs(gv, gin@, fout@, n as nat);
    let mut i: usize = 0;
    while i < g_graph.instructions.len()
        invariant
            i <= g_graph.instructions@.len(),
            n == f_graph.wires@.len(),
            gv == instrs_view(g_graph.instructions@),
            rv == remap_instrs(gv, gin@, fout@, n as nat),
            arities_ok(gv),
            instr_ids_fit(gv, g_graph.wires@.len(), usize::MAX - n),
            n + g_graph.wires@.len() <= usize::MAX,
            builder.wires@ == f_graph.wires@ + g_graph.wires@,
            instrs_view(builder.instructions@) == fv + rv.subrange(0, i as int),
        decreases g_graph.instructions@.len() - i,
    {
        let instr = &g_graph.instructions[i];
        proof {
            assert(gv[i as int] == instr_view(*instr));
        }
        let op = copy_op(&instr.op);
        let mut inputs: Vec<WireId> = Vec::new();
        let mut k: usize = 0;
        while k < instr.inputs.len()
            invariant
                k <= instr.inputs@.len(),
                n == f_graph.wires@.len(),
                n + g_graph.wires@.len() <= usize::MAX,
                ids_fit(instr.inputs@, g_graph.wires@.len(), usize::MAX - n),
                inputs@ == instr.inputs@.subrange(0, k as int).map_values(
                    |w: WireId| remap_wire(gin@, fout@, w, n as nat),
                ),
            decreases instr.inputs@.len() - k,
        {
            let w = remap_g(instr.inputs[k], gin, fout, n);
            inputs.push(w);
            k = k + 1;
            assert(inputs@ =~= instr.inputs@.subrange(0, k as int).map_values(
                |w: WireId| remap_wire(gin@, fout@, w, n as nat),
            ));
        }
        assert(instr.inputs@.subrange(0, k as int) =~= instr.inputs@);
        let output = remap_g(instr.output, gin, fout, n);
        proof {
            lemma_arity_view(op);
            lemma_arity_view(instr.op);
            assert(rv[i as int] == remap_instr(gv[i as int], gin@, fout@, n as nat));
        }
        let ghost before = builder;
        let ghost new_inputs = inputs@;
        builder = match builder.with_instruction(op, inputs, output) {
            Ok(b) => b,
            Err(e) => {
                return Err(Error::Hdl(e));
            },
        };
        i = i + 1;
        proof {
            assert(instrs_view(builder.instructions@) =~= instrs_view(before.instructions@).push(
                InstrView { op: op_view(op), inputs: new_inputs, output },
            ));
            assert(rv.subrange(0, i as int) =~= rv.subrange(0, i - 1).push(rv[i - 1]));
        }
    }
    assert(rv.subrange(0, rv.len() as int) =~= rv);
    Ok(builder.build())
}

/// Sequentially compose two [`RawDspBlock`]s.
///
/// The first block's data output is wired into the second block's data
/// input.  State becomes the concatenation of both blocks' state.
pub fn compose_raw(f: RawDspBlock, g: RawDspBlock) -> (r: Result<RawDspBlock, Error>)
    requires
        composable(f, g),
    ensures
        r matches Ok(c) && composes_raw(f, g, c),
{
    let ghost f0 = f;
    let ghost g0 = g;
    let (f_graph, f_inputs, f_outputs, f_init, f_sc) = f.into_parts();
    let (g_graph, g_inputs, g_outputs, g_init, g_sc) = g.into_parts();
    let n = f_graph.wires.len();
    let (state_f_input, data_f_input) = f_inputs.as_slice().split_at(f_sc);
    let (state_f_output, data_f_output) = f_outputs.as_slice().split_at(f_sc);
    let (state_g_input, data_g_input) = g_inputs.as_slice().split_at(g_sc);
    let (state_g_output, data_g_output) = g_outputs.as_slice().split_at(g_sc);
    let merged = match merge_graphs(&f_graph, &g_graph, data_g_input, data_f_output) {
        Ok(m) => m,
        Err(e) => {
            return Err(e);
        },
    };
    let total = merged.wires.len();
    let ghost fin = f_inputs@;
    let ghost gi = g_inputs@;
    let mut combined_inputs: Vec<WireId> = Vec::new();
    let mut k: usize = 0;
    while k < state_f_input.len()
        invariant
            k <= state_f_input@.len(),
            combined_inputs@ == state_f_input@.subrange(0, k as int),
        decreases state_f_input@.len() - k,
    {
        combined_inputs.push(state_f_input[k]);
        k = k + 1;
        assert(combined_inputs@ =~= state_f_input@.subrange(0, k as int));
    }
    assert(state_f_input@.subrange(0, k as int) =~= state_f_input@);
    let mut k: usize = 0;
    while k < state_g_input.len()
        invariant
            k <= state_g_input@.len(),
            state_g_input@ == gi.subrange(0, g_sc as int),
            g_sc <= gi.len(),
            ids_fit(gi, g_graph.wires@.len(), usize::MAX - n),
            n + g_graph.wires@.len() <= usize::MAX,
            combined_inputs@ == state_f_input@ + shift_wires(state_g_input@.subrange(0, k as int), n as nat),
        decreases state_g_input@.len() - k,
    {
        assert(gi[k as int] == state_g_input@[k as int]);
        combined_inputs.push(WireId::new(state_g_input[k].index() + n));
        k = k + 1;
        assert(combined_inputs@ =~= state_f_input@ + shift_wires(
            state_g_input@.subrange(0, k as int),
            n as nat,
        ));
    }
    assert(state_g_input@.subrange(0, k as int) =~= state_g_input@);
    let state_count = combined_inputs.len();
    let mut k: usize = 0;
    while k < data_f_input.len()
        invariant
            k <= data_f_input@.len(),
            combined_inputs@ == state_f_input@ + shift_wires(state_g_input@, n as nat)
                + data_f_input@.subrange(0, k as int),
        decreases data_f_input@.len() - k,
    {
        combined_inputs.push(data_f_input[k]);
        k = k + 1;
        assert(combined_inputs@ =~= state_f_input@ + shift_wires(state_g_input@, n as nat)
            + data_f_input@.subrange(0, k as int));
    }
    assert(data_f_input@.subrange(0, k as int) =~= data_f_input@);
    let ghost go = g_outputs@;
    let mut combined_outputs: Vec<WireId> = Vec::new();
    let mut k: usize = 0;
    while k < state_f_output.len()
        invariant
            k <= state_f_output@.len(),
            combined_outputs@ == state_f_output@.subrange(0, k as int),
        decreases state_f_output@.len() - k,
    {
        combined_outputs.push(state_f_output[k]);
        k = k + 1;
        assert(combined_outputs@ =~= state_f_output@.subrange(0, k as int));
    }
    assert(state_f_output@.subrange(0, k as int) =~= state_f_output@);
    let mut k: usize = 0;
    while k < state_g_output.len()
        invariant
            k <= state_g_output@.len(),
            state_g_output@ == go.subrange(0, g_sc as int),
            g_sc <= go.len(),
            ids_fit(go, g_graph.wires@.len(), usize::MAX - n),
            n + g_graph.wires@.len() <= usize::MAX,
            combined_outputs@ == state_f_output@ + shift_wires(state_g_output@.subrange(0, k as int), n as nat),
        decreases state_g_output@.len() - k,
    {
        assert(go[k as int] == state_g_output@[k as int]);
        combined_outputs.push(WireId::new(state_g_output[k].index() + n));
        k = k + 1;
        assert(combined_outputs@ =~= state_f_output@ + shift_wires(
            state_g_output@.subrange(0, k as int),
            n as nat,
        ));
    }
    assert(state_g_output@.subrange(0, k as int) =~= state_g_output@);
    let mut k: usize = 0;
    while k < data_g_output.len()
        invariant
            k <= data_g_output@.len(),
            data_g_output@ == go.subrange(g_sc as int, go.len() as int),
            g_sc <= go.len(),
            ids_fit(go, g_graph.wires@.len(), usize::MAX - n),
            n + g_graph.wires@.len() <= usize::MAX,
            combined_outputs@ == state_f_output@ + shift_wires(state_g_output@, n as nat)
                + data_g_output@.subrange(0, k as int).map_values(
                |w: WireId| remap_wire(data_g_input@, data_f_output@, w, n as nat),
            ),
        decreases data_g_output@.len() - k,
    {
        assert(go[g_sc + k] == data_g_output@[k as int]);
        let w = remap_g(data_g_output[k], data_g_input, data_f_output, n);
        combined_outputs.push(w);
        k = k + 1;
        assert(combined_outputs@ =~= state_f_output@ + shift_wires(state_g_output@, n as nat)
            + data_g_output@.subrange(0, k as int).map_values(
            |w: WireId| remap_wire(data_g_input@, data_f_output@, w, n as nat),
        ));
    }
    assert(data_g_output@.subrange(0, k as int) =~= data_g_output@);
    let combined_state = f_init.concat(g_init);
    let c = RawDspBlock::new(merged, combined_inputs, combined_outputs, combined_state, state_count);
    Ok(c)
}

/// Stored bits add up over a concatenation of wire lists.
pub proof fn lemma_state_bits_append(tys: Seq<WireTy>, a: Seq<WireId>, b: Seq<WireId>)
    ensures
        state_bits(tys, a + b) == state_bits(tys, a) + state_bits(tys, b),
    decreases b.len(),
{
    if b.len() == 0 {
        assert(a + b =~= a);
    } else {
        assert((a + b).drop_last() =~= a + b.drop_last());
        lemma_state_bits_append(tys, a, b.drop_last());
    }
}

/// Wires all of one type store that type's bits once each.
pub proof fn lemma_state_bits_uniform(tys: Seq<WireTy>, ws: Seq<WireId>, t: WireTy)
    requires
        forall|k: int| 0 <= k < ws.len() ==> ty_of(tys, #[trigger] ws[k]) == t,
    ensures
        state_bits(tys, ws) == ws.len() * spec_storage_bits(t),
    decreases ws.len(),
{
    if ws.len() > 0 {
        lemma_state_bits_uniform(tys, ws.drop_last(), t);
        assert(ty_of(tys, ws[ws.len() - 1]) == t);
        let c = spec_storage_bits(t);
        let l = ws.len();
        assert((l - 1) * c + c == l * c) by (nonlinear_arith);
    }
}

/// Appending wire types after `fw` keeps the stored bits of wires of `fw`.
proof fn lemma_state_bits_extend(fw: Seq<WireTy>, gw: Seq<WireTy>, a: Seq<WireId>)
    requires
        wires_below(a, fw.len()),
    ensures
        state_bits(fw + gw, a) == state_bits(fw, a),
    decreases a.len(),
{
    if a.len() > 0 {
        assert(wires_below(a.drop_last(), fw.len()));
        lemma_state_bits_extend(fw, gw, a.drop_last());
        assert(a.last() == a[a.len() - 1]);
    }
}

/// Moving wires of `gw` past the wires of `fw` keeps their stored bits.
proof fn lemma_state_bits_shift(fw: Seq<WireTy>, gw: Seq<WireTy>, a: Seq<WireId>)
    requires
        wires_below(a, gw.len()),
        fw.len() + gw.len() <= usize::MAX,
    ensures
        state_bits(fw + gw, shift_wires(a, fw.len())) == state_bits(gw, a),
    decreases a.len(),
{
    if a.len() > 0 {
        assert(wires_below(a.drop_last(), gw.len()));
        assert(shift_wires(a, fw.len()).drop_last() =~= shift_wires(a.drop_last(), fw.len()));
        lemma_state_bits_shift(fw, gw, a.drop_last());
        assert(a.last() == a[a.len() - 1]);
    }
}

/// A wire of the second block lands on a wire of the composed graph with
/// the same type, provided each data input it may be replaced by has the
/// type of its replacement.
proof fn lemma_remap_from(
    gin: Seq<WireId>,
    fout: Seq<WireId>,
    w: WireId,
    fw: Seq<WireTy>,
    gw: Seq<WireTy>,
    k: nat,
)
    requires
        w.0 < gw.len(),
        fw.len() + gw.len() <= usize::MAX,
        wires_below(fout, fw.len()),
        forall|j: int| 0 <= j < gin.len() && j < fout.len() ==> ty_of(fw, #[trigger] fout[j]) == ty_of(gw, gin[j]),
    ensures
        remap_from(gin, fout, w, fw.len(), k).0 < fw.len() + gw.len(),
        ty_of(fw + gw, remap_from(gin, fout, w, fw.len(), k)) == ty_of(gw, w),
    decreases gin.len() - k,
{
    if k >= gin.len() || k >= fout.len() {
    } else if gin[k as int] == w {
        assert(fout[k as int].0 < fw.len());
    } else {
        lemma_remap_from(gin, fout, w, fw, gw, k + 1);
    }
}

/// Two blocks with the standard DSP interface can be composed.
pub proof fn lemma_interfaces_composable(f: RawDspBlock, g: RawDspBlock)
    requires
        dsp_interface(f),
        dsp_interface(g),
    ensures
        composable(f, g),
{
    let m = usize::MAX - f.graph.wires@.len();
    let gv = instrs_view(g.graph.instructions@);
    let fv = instrs_view(f.graph.instructions@);
    assert forall|j: int| 0 <= j < fv.len() implies (#[trigger] fv[j]).inputs.len() == view_arity(fv[j].op) by {
        assert(view_wf(fv[j], f.graph.wires@.len()));
    }
    assert forall|j: int| 0 <= j < gv.len() implies (#[trigger] gv[j]).inputs.len() == view_arity(gv[j].op) by {
        assert(view_wf(gv[j], g.graph.wires@.len()));
    }
    let gn = g.graph.wires@.len();
    assert forall|j: int| 0 <= j < gv.len() implies ids_fit((#[trigger] gv[j]).inputs, gn, m) && (gv[j].output.0 < gn || gv[j].output.0 <= m) by {
        assert(view_wf(gv[j], gn));
    }
}

/// Composing two blocks with the standard DSP interface gives a block
/// with the standard DSP interface.
pub proof fn lemma_compose_keeps_interface(f: RawDspBlock, g: RawDspBlock, c: RawDspBlock)
    requires
        dsp_interface(f),
        dsp_interface(g),
        composes_raw(f, g, c),
    ensures
        dsp_interface(c),
{
    assert(c.graph.wires.len() == c.graph.wires@.len());
    let fw = f.graph.wires@;
    let gw = g.graph.wires@;
    let n = fw.len();
    let tys = c.graph.wires@;
    let gin = data_inputs(g);
    let fout = data_outputs(f);
    let fsc = f.state_wire_count as int;
    let gsc = g.state_wire_count as int;
    let sc = c.state_wire_count as int;
    assert(tys == fw + gw);
    assert forall|j: int| 0 <= j < gin.len() && j < fout.len() implies ty_of(fw, #[trigger] fout[j]) == ty_of(gw, gin[j]) by {
        assert(fout[j] == f.output_wires@[fsc + j]);
        assert(gin[j] == g.input_wires@[gsc + j]);
    }
    assert(wires_below(fout, n)) by {
        assert forall|k: int| 0 <= k < fout.len() implies (#[trigger] fout[k]).0 < n by {
            assert(fout[k] == f.output_wires@[fsc + k]);
        }
    }
    // The graph is well formed.
    let fv = instrs_view(f.graph.instructions@);
    let gv = instrs_view(g.graph.instructions@);
    let rv = remap_instrs(gv, gin, fout, n);
    let cv = instrs_view(c.graph.instructions@);
    assert(cv == fv + rv);
    assert forall|j: int| 0 <= j < cv.len() implies view_wf(#[trigger] cv[j], tys.len()) by {
        if j < fv.len() {
            assert(cv[j] == fv[j]);
            assert(view_wf(fv[j], n));
        } else {
            let i = j - fv.len();
            assert(cv[j] == rv[i]);
            assert(view_wf(gv[i], gw.len()));
            let iv = gv[i];
            assert(rv[i] == remap_instr(iv, gin, fout, n));
            lemma_remap_from(gin, fout, iv.output, fw, gw, 0);
            assert forall|k: int| 0 <= k < rv[i].inputs.len() implies (#[trigger] rv[i].inputs[k]).0 < tys.len() by {
                assert(rv[i].inputs[k] == remap_wire(gin, fout, iv.inputs[k], n));
                lemma_remap_from(gin, fout, iv.inputs[k], fw, gw, 0);
            }
        }
    }
    // Inputs and outputs.
    let ins = c.input_wires@;
    let outs = c.output_wires@;
    let sf_in = state_inputs(f);
    let sg_in = shift_wires(state_inputs(g), n);
    let sf_out = state_outputs(f);
    let sg_out = shift_wires(state_outputs(g), n);
    let dout = data_outputs(g).map_values(|w: WireId| remap_wire(gin, fout, w, n));
    assert(ins == sf_in + sg_in + data_inputs(f));
    assert(outs == sf_out + sg_out + dout);
    assert forall|k: int| 0 <= k < ins.len() implies (#[trigger] ins[k]).0 < tys.len() by {
        if k < fsc {
            assert(ins[k] == f.input_wires@[k]);
        } else if k < sc {
            assert(ins[k] == shift_wire(g.input_wires@[k - fsc], n));
        } else {
            assert(ins[k] == f.input_wires@[k - gsc]);
        }
    }
    assert forall|k: int| 0 <= k < outs.len() implies (#[trigger] outs[k]).0 < tys.len() by {
        if k < fsc {
            assert(outs[k] == f.output_wires@[k]);
        } else if k < sc {
            assert(outs[k] == shift_wire(g.output_wires@[k - fsc], n));
        } else {
            assert(outs[k] == remap_wire(gin, fout, g.output_wires@[k - fsc], n));
            lemma_remap_from(gin, fout, g.output_wires@[k - fsc], fw, gw, 0);
        }
    }
    assert forall|k: int| 0 <= k < sc implies ty_of(tys, #[trigger] ins[k]) == ty_of(tys, outs[k]) by {
        if k < fsc {
            assert(ins[k] == f.input_wires@[k]);
            assert(outs[k] == f.output_wires@[k]);
            assert(ty_of(fw, f.input_wires@[k]) == ty_of(fw, f.output_wires@[k]));
        } else {
            assert(ins[k] == shift_wire(g.input_wires@[k - fsc], n));
            assert(outs[k] == shift_wire(g.output_wires@[k - fsc], n));
            assert(ty_of(gw, g.input_wires@[k - fsc]) == ty_of(gw, g.output_wires@[k - fsc]));
        }
    }
    assert forall|k: int| 0 <= k < 2 implies ty_of(tys, #[trigger] ins[sc + k]) == data_port_ty(k) by {
        assert(ins[sc + k] == f.input_wires@[fsc + k]);
        assert(ty_of(fw, f.input_wires@[fsc + k]) == data_port_ty(k));
    }
    assert forall|k: int| 0 <= k < 2 implies ty_of(tys, #[trigger] outs[sc + k]) == data_port_ty(k) by {
        assert(outs[sc + k] == remap_wire(gin, fout, g.output_wires@[gsc + k], n));
        lemma_remap_from(gin, fout, g.output_wires@[gsc + k], fw, gw, 0);
        assert(ty_of(gw, g.output_wires@[gsc + k]) == data_port_ty(k));
    }
    // The initial state.
    assert(ins.subrange(0, sc) =~= sf_in + sg_in);
    lemma_state_bits_append(tys, sf_in, sg_in);
    assert(wires_below(sf_in, n)) by {
        assert forall|k: int| 0 <= k < sf_in.len() implies (#[trigger] sf_in[k]).0 < n by {
            assert(sf_in[k] == f.input_wires@[k]);
        }
    }
    assert(wires_below(state_inputs(g), gw.len())) by {
        assert forall|k: int| 0 <= k < gsc implies (#[trigger] state_inputs(g)[k]).0 < gw.len() by {
            assert(state_inputs(g)[k] == g.input_wires@[k]);
        }
    }
    lemma_state_bits_extend(fw, gw, sf_in);
    lemma_state_bits_shift(fw, gw, state_inputs(g));
}

} // verus!
