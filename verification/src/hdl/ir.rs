//! The hardware IR that DSP blocks are built in: typed wires and
//! gate instructions, assembled by a functional builder.
//!
//! The IR has the shape of `hdl_cat`'s IR (wires identified by their
//! position, instructions checked for arity on insertion), so that a
//! graph can be handed to `hdl_cat` one wire and one instruction at a
//! time.

use vstd::prelude::*;

use crate::text::{decimal, framed_decimal, join, usize_to_decimal};

verus! {

/// An ordered, LSB-first sequence of bits.
#[derive(Debug)]
pub struct BitSeq(pub Vec<bool>);

impl BitSeq {
    /// Construct an empty sequence.
    pub fn new() -> (r: Self)
        ensures
            r.0@ == Seq::<bool>::empty(),
    {
        BitSeq(Vec::new())
    }

    /// Construct from a `Vec<bool>`.
    pub fn from_vec(v: Vec<bool>) -> (r: Self)
        ensures
            r.0@ == v@,
    {
        BitSeq(v)
    }

    /// The number of bits in the sequence.
    pub fn len(&self) -> (r: usize)
        ensures
            r == self.0@.len(),
    {
        self.0.len()
    }

    /// Whether the sequence is empty.
    pub fn is_empty(&self) -> (r: bool)
        ensures
            r == (self.0@.len() == 0),
    {
        self.0.len() == 0
    }

    /// The bit at index `i`, or `false` if out of bounds.
    pub fn bit(&self, i: usize) -> (r: bool)
        ensures
            r == (if i < self.0@.len() { self.0@[i as int] } else { false }),
    {
        if i < self.0.len() {
            self.0[i]
        } else {
            false
        }
    }

    /// A copy of the sequence.
    pub fn duplicate(&self) -> (r: Self)
        ensures
            r.0@ == self.0@,
    {
        let mut v: Vec<bool> = Vec::new();
        let mut i: usize = 0;
        while i < self.0.len()
            invariant
                i <= self.0@.len(),
                v@ == self.0@.subrange(0, i as int),
            decreases self.0@.len() - i,
        {
            v.push(self.0[i]);
            i = i + 1;
            assert(v@ =~= self.0@.subrange(0, i as int));
        }
        assert(v@ =~= self.0@);
        BitSeq(v)
    }

    /// The concatenation of `self` followed by `other`.
    pub fn concat(self, other: Self) -> (r: Self)
        ensures
            r.0@ == self.0@ + other.0@,
    {
        let mut a = self.0;
        let mut b = other.0;
        a.append(&mut b);
        BitSeq(a)
    }
}

/// An identifier for a wire: its position in the graph's wire list.
#[derive(Debug, Clone, Copy, PartialEq, Eq, Hash, Structural)]
pub struct WireId(pub usize);

impl WireId {
    /// Construct a `WireId` from a raw index.
    pub fn new(index: usize) -> (r: Self)
        ensures
            r.0 == index,
    {
        WireId(index)
    }

    /// The underlying index.
    pub fn index(self) -> (r: usize)
        ensures
            r == self.0,
    {
        self.0
    }
}

/// The type carried on a hardware wire.
#[derive(Debug, Clone, Copy, PartialEq, Eq, Hash, Structural)]
pub enum WireTy {
    /// A single bit.
    Bit,
    /// An unsigned `n`-bit bus.
    Bits(u32),
    /// A two's-complement signed `n`-bit bus.
    Signed(u32),
    /// A fixed-depth array of `element_width`-bit elements.
    Array { element_width: u32, depth: usize },
}

/// Bit width of a wire type (per element for arrays).
pub open spec fn spec_width(t: WireTy) -> nat {
    match t {
        WireTy::Bit => 1,
        WireTy::Bits(n) => n as nat,
        WireTy::Signed(n) => n as nat,
        WireTy::Array { element_width, .. } => element_width as nat,
    }
}

/// The number of bits a wire of this type stores (all elements of an array).
pub open spec fn spec_storage_bits(t: WireTy) -> nat {
    match t {
        WireTy::Array { element_width, depth } => (element_width * depth) as nat,
        _ => spec_width(t),
    }
}

impl WireTy {
    /// The per-element bit width of this wire.
    pub fn width(&self) -> (r: u32)
        ensures
            r == spec_width(*self),
    {
        match self {
            WireTy::Bit => 1,
            WireTy::Bits(n) => *n,
            WireTy::Signed(n) => *n,
            WireTy::Array { element_width, .. } => *element_width,
        }
    }
}

/// A binary gate operation.
#[derive(Debug, Clone, Copy, PartialEq, Eq, Hash, Structural)]
pub enum BinOp {
    /// Bitwise AND.
    And,
    /// Bitwise OR.
    Or,
    /// Bitwise XOR.
    Xor,
    /// Wrap-around addition.
    Add,
    /// Wrap-around subtraction.
    Sub,
    /// Wrap-around multiplication.
    Mul,
    /// Equality comparison (1-bit output).
    Eq,
    /// Unsigned less-than comparison (1-bit output).
    Lt,
}

/// A primitive hardware operation.
#[derive(Debug)]
pub enum Op {
    /// Bitwise NOT.
    Not,
    /// A binary gate.
    Bin(BinOp),
    /// 2:1 multiplexer.  Inputs: `[selector, false_arm, true_arm]`.
    Mux,
    /// A literal constant.  Zero inputs.
    Const { bits: BitSeq, ty: WireTy },
    /// A one-cycle delay register.
    Reg { init: BitSeq, ty: WireTy },
    /// Bus concatenation.  Inputs: `[low, high]`.
    Concat { low_width: u32, high_width: u32 },
    /// Bus slice: bits `[lo, hi)` of the single input.
    Slice { lo: u32, hi: u32 },
    /// Shift a new element into an array.  Inputs: `[array, new_element]`.
    ArrayShiftIn { element_width: u32, depth: usize },
    /// Read the oldest element of an array.
    ArrayTail { element_width: u32, depth: usize },
}

/// The number of inputs an operation consumes.
pub open spec fn spec_arity(op: Op) -> nat {
    match op {
        Op::Not => 1,
        Op::Reg { .. } => 1,
        Op::Slice { .. } => 1,
        Op::ArrayTail { .. } => 1,
        Op::Bin(_) => 2,
        Op::Concat { .. } => 2,
        Op::ArrayShiftIn { .. } => 2,
        Op::Mux => 3,
        Op::Const { .. } => 0,
    }
}

impl Op {
    /// The number of inputs this op consumes.
    pub fn arity(&self) -> (r: usize)
        ensures
            r == spec_arity(*self),
    {
        match self {
            Op::Not => 1,
            Op::Reg { .. } => 1,
            Op::Slice { .. } => 1,
            Op::ArrayTail { .. } => 1,
            Op::Bin(_) => 2,
            Op::Concat { .. } => 2,
            Op::ArrayShiftIn { .. } => 2,
            Op::Mux => 3,
            Op::Const { .. } => 0,
        }
    }
}

/// A single gate invocation: inputs, operation, one output wire.
#[derive(Debug)]
pub struct Instruction {
    pub op: Op,
    pub inputs: Vec<WireId>,
    pub output: WireId,
}

/// Errors raised while building the IR.
#[derive(Debug, Clone, Copy, PartialEq, Eq, Structural)]
pub enum IrError {
    /// An instruction was given a number of inputs different from its op's arity.
    TypeMismatch { expected: usize, actual: usize },
}

/// The IR graph: a flat list of typed wires and a flat list of instructions.
#[derive(Debug)]
pub struct HdlGraph {
    pub wires: Vec<WireTy>,
    pub instructions: Vec<Instruction>,
}

/// A graph is well formed: every instruction has the arity of its
/// operation and refers to existing wires only.
pub open spec fn graph_wf(g: HdlGraph) -> bool {
    views_wf(instrs_view(g.instructions@), g.wires@.len())
}

impl HdlGraph {
    /// The wire types by index.
    pub fn wires(&self) -> (r: &[WireTy])
        ensures
            r@ == self.wires@,
    {
        self.wires.as_slice()
    }

    /// The instructions in declaration order.
    pub fn instructions(&self) -> (r: &[Instruction])
        ensures
            r@ == self.instructions@,
    {
        self.instructions.as_slice()
    }
}

/// An accumulating builder for an `HdlGraph`.
#[derive(Debug)]
pub struct HdlGraphBuilder {
    pub wires: Vec<WireTy>,
    pub instructions: Vec<Instruction>,
}

/// A builder is well formed: every instruction has the arity of its
/// operation and refers to existing wires only.
pub open spec fn builder_wf(b: HdlGraphBuilder) -> bool {
    views_wf(instrs_view(b.instructions@), b.wires@.len())
}

/// Appending well-formed instructions and any wires keeps a builder well
/// formed.
pub proof fn lemma_appends_wf(b: HdlGraphBuilder, b2: HdlGraphBuilder, wires: Seq<WireTy>, instrs: Seq<InstrView>)
    requires
        builder_wf(b),
        appends(b, b2, wires, instrs),
        views_wf(instrs, b2.wires@.len()),
    ensures
        builder_wf(b2),
{
    let old_v = instrs_view(b.instructions@);
    let new_v = instrs_view(b2.instructions@);
    assert forall|j: int| 0 <= j < new_v.len() implies view_wf(#[trigger] new_v[j], b2.wires@.len()) by {
        if j < old_v.len() {
            assert(new_v[j] == old_v[j]);
            assert(view_wf(old_v[j], b.wires@.len()));
        } else {
            assert(new_v[j] == instrs[j - old_v.len()]);
        }
    }
}

impl HdlGraphBuilder {
    /// Start an empty builder.
    pub fn new() -> (r: Self)
        ensures
            r.wires@ == Seq::<WireTy>::empty(),
            r.instructions@ == Seq::<Instruction>::empty(),
            builder_wf(r),
    {
        let b = HdlGraphBuilder { wires: Vec::new(), instructions: Vec::new() };
        assert(instrs_view(b.instructions@) =~= Seq::<InstrView>::empty());
        b
    }

    /// Append a new wire of the given type, returning its id (its position).
    pub fn with_wire(self, ty: WireTy) -> (r: (Self, WireId))
        ensures
            r.0.wires@ == self.wires@.push(ty),
            r.0.instructions@ == self.instructions@,
            r.1.0 == self.wires@.len(),
            builder_wf(self) ==> builder_wf(r.0),
    {
        proof {
            if builder_wf(self) {
                lemma_views_wf_mono(instrs_view(self.instructions@), self.wires@.len(), self.wires@.len() + 1);
            }
        }
        let id = WireId::new(self.wires.len());
        let HdlGraphBuilder { wires: mut wires, instructions } = self;
        wires.push(ty);
        (HdlGraphBuilder { wires, instructions }, id)
    }

    /// Append an instruction, validating arity: `TypeMismatch` when the
    /// number of inputs differs from the op's arity.
    pub fn with_instruction(self, op: Op, inputs: Vec<WireId>, output: WireId) -> (r: Result<Self, IrError>)
        ensures
            inputs@.len() == spec_arity(op) ==> (r matches Ok(b) && b.wires@ == self.wires@
                && b.instructions@ == self.instructions@.push(Instruction { op, inputs, output })),
            inputs@.len() != spec_arity(op) ==> r == Err::<Self, IrError>(IrError::TypeMismatch {
                expected: spec_arity(op) as usize,
                actual: inputs@.len() as usize,
            }),
    {
        let arity = op.arity();
        let provided = inputs.len();
        if arity != provided {
            return Err(IrError::TypeMismatch { expected: arity, actual: provided });
        }
        let HdlGraphBuilder { wires, instructions: mut instructions } = self;
        instructions.push(Instruction { op, inputs, output });
        Ok(HdlGraphBuilder { wires, instructions })
    }

    /// Finalize the builder into an `HdlGraph`.
    pub fn build(self) -> (g: HdlGraph)
        ensures
            g.wires@ == self.wires@,
            g.instructions@ == self.instructions@,
    {
        HdlGraph { wires: self.wires, instructions: self.instructions }
    }
}

/// The content of an operation, with bit patterns as sequences.
pub ghost enum OpView {
    Not,
    Bin(BinOp),
    Mux,
    Const { bits: Seq<bool>, ty: WireTy },
    Reg { init: Seq<bool>, ty: WireTy },
    Concat { low_width: u32, high_width: u32 },
    Slice { lo: u32, hi: u32 },
    ArrayShiftIn { element_width: u32, depth: usize },
    ArrayTail { element_width: u32, depth: usize },
}

/// The content of an operation.
pub open spec fn op_view(op: Op) -> OpView {
    match op {
        Op::Not => OpView::Not,
        Op::Bin(b) => OpView::Bin(b),
        Op::Mux => OpView::Mux,
        Op::Const { bits, ty } => OpView::Const { bits: bits.0@, ty },
        Op::Reg { init, ty } => OpView::Reg { init: init.0@, ty },
        Op::Concat { low_width, high_width } => OpView::Concat { low_width, high_width },
        Op::Slice { lo, hi } => OpView::Slice { lo, hi },
        Op::ArrayShiftIn { element_width, depth } => OpView::ArrayShiftIn { element_width, depth },
        Op::ArrayTail { element_width, depth } => OpView::ArrayTail { element_width, depth },
    }
}

/// The content of an instruction.
pub ghost struct InstrView {
    pub op: OpView,
    pub inputs: Seq<WireId>,
    pub output: WireId,
}

/// The content of an instruction.
pub open spec fn instr_view(i: Instruction) -> InstrView {
    InstrView { op: op_view(i.op), inputs: i.inputs@, output: i.output }
}

/// The contents of a list of instructions.
pub open spec fn instrs_view(s: Seq<Instruction>) -> Seq<InstrView> {
    s.map_values(|i: Instruction| instr_view(i))
}

/// The builder `b2` is `b` with the given wires and instructions appended.
pub open spec fn appends(b: HdlGraphBuilder, b2: HdlGraphBuilder, wires: Seq<WireTy>, instrs: Seq<InstrView>) -> bool {
    &&& b2.wires@ == b.wires@ + wires
    &&& instrs_view(b2.instructions@) == instrs_view(b.instructions@) + instrs
}

/// The number of inputs an operation takes.
pub open spec fn view_arity(op: OpView) -> nat {
    match op {
        OpView::Not => 1,
        OpView::Reg { .. } => 1,
        OpView::Slice { .. } => 1,
        OpView::ArrayTail { .. } => 1,
        OpView::Bin(_) => 2,
        OpView::Concat { .. } => 2,
        OpView::ArrayShiftIn { .. } => 2,
        OpView::Mux => 3,
        OpView::Const { .. } => 0,
    }
}

/// An instruction has the arity of its operation and reads and writes
/// only wires below `n`.
pub open spec fn view_wf(i: InstrView, n: nat) -> bool {
    &&& i.inputs.len() == view_arity(i.op)
    &&& i.output.0 < n
    &&& forall|k: int| 0 <= k < i.inputs.len() ==> (#[trigger] i.inputs[k]).0 < n
}

/// Every instruction of the list is well formed over `n` wires.
pub open spec fn views_wf(s: Seq<InstrView>, n: nat) -> bool {
    forall|j: int| 0 <= j < s.len() ==> view_wf(#[trigger] s[j], n)
}

/// Instructions well formed over `n` wires are well formed over more wires.
pub proof fn lemma_views_wf_mono(s: Seq<InstrView>, n: nat, m: nat)
    requires
        views_wf(s, n),
        n <= m,
    ensures
        views_wf(s, m),
{
    assert forall|j: int| 0 <= j < s.len() implies view_wf(#[trigger] s[j], m) by {
        assert(view_wf(s[j], n));
    }
}

/// The arity of an operation is that of its content.
pub proof fn lemma_arity_view(op: Op)
    ensures
        spec_arity(op) == view_arity(op_view(op)),
{
}

/// Appending in two steps appends the concatenation.
pub proof fn lemma_appends_trans(
    b0: HdlGraphBuilder,
    b1: HdlGraphBuilder,
    b2: HdlGraphBuilder,
    w1: Seq<WireTy>,
    i1: Seq<InstrView>,
    w2: Seq<WireTy>,
    i2: Seq<InstrView>,
)
    requires
        appends(b0, b1, w1, i1),
        appends(b1, b2, w2, i2),
    ensures
        appends(b0, b2, w1 + w2, i1 + i2),
{
    assert(b0.wires@ + w1 + w2 =~= b0.wires@ + (w1 + w2));
    assert(instrs_view(b0.instructions@) + i1 + i2 =~= instrs_view(b0.instructions@) + (i1 + i2));
}

/// A builder appends nothing to itself.
pub proof fn lemma_appends_refl(b: HdlGraphBuilder)
    ensures
        appends(b, b, Seq::empty(), Seq::empty()),
{
    assert(b.wires@ + Seq::<WireTy>::empty() =~= b.wires@);
    assert(instrs_view(b.instructions@) + Seq::<InstrView>::empty() =~= instrs_view(b.instructions@));
}

/// The text form of an IR error.
pub open spec fn ir_error_text(e: IrError) -> Seq<char> {
    match e {
        IrError::TypeMismatch { expected, actual } => "type mismatch: expected "@ + decimal(expected as nat)
            + " inputs, got "@ + decimal(actual as nat) + " inputs"@,
    }
}

impl IrError {
    /// The text form of this error.
    pub fn to_string(&self) -> (s: String)
        ensures
            s@ == ir_error_text(*self),
    {
        match self {
            IrError::TypeMismatch { expected, actual } => {
                let s = framed_decimal("type mismatch: expected ", *expected, " inputs, got ");
                join(join(s, usize_to_decimal(*actual).as_str()), " inputs")
            },
        }
    }
}

} // verus!
