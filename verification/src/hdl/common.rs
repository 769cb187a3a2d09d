//! Shared constants and IR helper functions for DSP block construction.
//!
//! Every DSP block shares the same I/O interface: a signed 32-bit data
//! wire paired with a one-bit valid wire.

use vstd::prelude::*;
use vstd::string::StringExecFns;

use crate::error::Error;
use crate::hdl::ir::{
    appends, builder_wf, instrs_view, lemma_appends_refl, lemma_appends_trans, lemma_appends_wf, lemma_arity_view, op_view, spec_arity,
    views_wf, BinOp, BitSeq, HdlGraphBuilder, InstrView, Op, OpView, WireId, WireTy,
};
use crate::interpret::morphism::{bit_length, bit_length_of};
use crate::text::{decimal, usize_to_decimal};

verus! {

/// The width of a single DSP sample in bits.
pub const SAMPLE_WIDTH: u32 = 32;

/// Number of data wires in the standard DSP I/O interface
/// (one sample wire + one valid wire).
pub const DSP_IO_WIRE_COUNT: usize = 2;

/// The wire type for a DSP sample (signed 32-bit).
pub fn sample_wire() -> (t: WireTy)
    ensures
        t == WireTy::Signed(32),
{
    WireTy::Signed(SAMPLE_WIDTH)
}

/// The wire type for a valid flag (single bit).
pub fn valid_wire() -> (t: WireTy)
    ensures
        t == WireTy::Bit,
{
    WireTy::Bit
}

/// The 32 bits of an `i32`, least significant first.
pub open spec fn i32_bits(v: i32) -> Seq<bool> {
    Seq::new(32, |i: int| ((v as u32) >> (i as u32)) & 1u32 == 1u32)
}

/// `n` zero bits.
pub open spec fn zero_bits(n: nat) -> Seq<bool> {
    Seq::new(n, |i: int| false)
}

/// The `u32` whose low `k` bits are the first `k` bits of `s`.
pub open spec fn bits_u32(s: Seq<bool>, k: nat) -> u32
    decreases k,
{
    if k == 0 {
        0u32
    } else {
        bits_u32(s, (k - 1) as nat) | (if s[k - 1] {
            1u32 << ((k - 1) as u32)
        } else {
            0u32
        })
    }
}

/// The `i32` encoded by 32 bits, least significant first.
pub open spec fn spec_bits_to_i32(s: Seq<bool>) -> i32 {
    bits_u32(s, 32) as i32
}

/// The bits of the low `k` positions of `x`.
spec fn low_mask(k: u32) -> u32 {
    if k >= 32 {
        0xffff_ffffu32
    } else {
        ((1u32 << k) - 1) as u32
    }
}

/// Encode an `i32` as a 32-bit LSB-first bit sequence.
pub fn i32_to_bit_seq(value: i32) -> (r: BitSeq)
    ensures
        r.0@ == i32_bits(value),
{
    let bits = value as u32;
    let mut v: Vec<bool> = Vec::new();
    let mut i: u32 = 0;
    while i < 32
        invariant
            bits == value as u32,
            i <= 32,
            v@.len() == i,
            forall|j: int| 0 <= j < i ==> #[trigger] v@[j] == (((value as u32) >> (j as u32)) & 1u32 == 1u32),
        decreases 32 - i,
    {
        v.push((bits >> i) & 1 == 1);
        i = i + 1;
    }
    assert(v@ =~= i32_bits(value));
    BitSeq::from_vec(v)
}

/// One decoding step adds bit `k` of `x` to the low `k` bits of `x`.
proof fn lemma_decode_step(x: u32, k: u32)
    requires
        k < 32,
    ensures
        (x & low_mask(k)) | (if ((x >> k) & 1u32 == 1u32) {
            1u32 << k
        } else {
            0u32
        }) == x & low_mask((k + 1) as u32),
{
    if k + 1 < 32 {
        assert((x & (((1u32 << k) - 1) as u32)) | (if ((x >> k) & 1u32 == 1u32) {
            1u32 << k
        } else {
            0u32
        }) == x & (((1u32 << ((k + 1) as u32)) - 1) as u32)) by (bit_vector)
            requires
                k < 31,
        ;
    } else {
        assert((x & (((1u32 << k) - 1) as u32)) | (if ((x >> k) & 1u32 == 1u32) {
            1u32 << k
        } else {
            0u32
        }) == x & 0xffff_ffffu32) by (bit_vector)
            requires
                k == 31,
        ;
    }
}

/// Decoding the first `k` encoded bits of `v` gives the low `k` bits of `v`.
proof fn lemma_decode_prefix(v: i32, k: nat)
    requires
        k <= 32,
    ensures
        bits_u32(i32_bits(v), k) == (v as u32) & low_mask(k as u32),
    decreases k,
{
    if k == 0 {
        let x = v as u32;
        assert(x & (((1u32 << 0u32) - 1) as u32) == 0u32) by (bit_vector);
    } else {
        lemma_decode_prefix(v, (k - 1) as nat);
        lemma_decode_step(v as u32, (k - 1) as u32);
    }
}

/// Decoding an encoded `i32` gives it back.
pub proof fn lemma_bit_seq_round_trip(v: i32)
    ensures
        spec_bits_to_i32(i32_bits(v)) == v,
{
    lemma_decode_prefix(v, 32);
    let x = v as u32;
    assert(x & 0xffff_ffffu32 == x) by (bit_vector);
    assert((x as i32) == v) by (bit_vector)
        requires
            x == v as u32,
    ;
}

/// The message for a bit sequence of the wrong length.
pub open spec fn bit_count_message(n: nat) -> Seq<char> {
    "expected 32-bit sequence, got "@ + decimal(n) + " bits"@
}

/// Decode a 32-bit LSB-first bit sequence back to `i32`.
///
/// Returns `Error::Sample` if the sequence length is not 32.
pub fn bit_seq_to_i32(seq: &BitSeq) -> (r: Result<i32, Error>)
    ensures
        seq.0@.len() == 32 ==> r == Ok::<i32, Error>(spec_bits_to_i32(seq.0@)),
        seq.0@.len() != 32 ==> (r matches Err(Error::Sample(m)) && m@ == bit_count_message(
            seq.0@.len(),
        )),
{
    if seq.len() != 32 {
        let mut m = String::from_str("expected 32-bit sequence, got ");
        let count = usize_to_decimal(seq.len());
        m.append(count.as_str());
        m.append(" bits");
        return Err(Error::Sample(m));
    }
    let mut acc: u32 = 0;
    let mut i: u32 = 0;
    while i < 32
        invariant
            seq.0@.len() == 32,
            i <= 32,
            acc == bits_u32(seq.0@, i as nat),
        decreases 32 - i,
    {
        let bit = seq.bit(i as usize);
        let b: u32 = if bit {
            1
        } else {
            0
        };
        assert(b << i == (if bit {
            1u32 << i
        } else {
            0u32
        })) by (bit_vector)
            requires
                b == (if bit {
                    1u32
                } else {
                    0u32
                }),
        ;
        acc = acc | (b << i);
        i = i + 1;
    }
    Ok(acc as i32)
}

/// A zero-valued 32-bit initial state suitable for a sample register.
pub fn zero_sample_init() -> (r: BitSeq)
    ensures
        r.0@ == zero_bits(32),
{
    let r = i32_to_bit_seq(0);
    assert forall|i: int| 0 <= i < 32 implies #[trigger] r.0@[i] == false by {
        let k = i as u32;
        assert(((0i32 as u32) >> k) & 1u32 == 0u32) by (bit_vector);
    }
    assert(r.0@ =~= zero_bits(32));
    r
}

/// A zero-valued 1-bit initial state suitable for a valid register.
pub fn zero_valid_init() -> (r: BitSeq)
    ensures
        r.0@ == zero_bits(1),
{
    let mut v: Vec<bool> = Vec::new();
    v.push(false);
    assert(v@ =~= zero_bits(1));
    BitSeq::from_vec(v)
}

/// Minimum number of bits to represent `value`, at least 1.
pub open spec fn spec_bits_for_value(value: nat) -> nat {
    if value == 0 {
        1
    } else {
        bit_length(value)
    }
}

/// Minimum number of bits to represent `value`.
///
/// Returns at least 1 (a single-bit bus), even for `value == 0`.
pub fn bits_for_value(value: usize) -> (r: u32)
    ensures
        r == spec_bits_for_value(value as nat),
        1 <= r <= 64,
{
    if value == 0 {
        1
    } else {
        let r = bit_length_of(value);
        proof {
            reveal_with_fuel(bit_length, 2);
        }
        r
    }
}

/// The bits of the low `width` positions of `value`, least significant first.
pub open spec fn u128_bits(value: u128, width: nat) -> Seq<bool> {
    Seq::new(width, |i: int| (value >> (i as u128)) & 1u128 == 1u128)
}

/// `n` copies of the bit `b`.
pub fn repeat_bit(n: u32, b: bool) -> (r: BitSeq)
    ensures
        r.0@ == same_bits(n as nat, b),
{
    let mut v: Vec<bool> = Vec::new();
    let mut i: u32 = 0;
    while i < n
        invariant
            i <= n,
            v@ == same_bits(i as nat, b),
        decreases n - i,
    {
        v.push(b);
        i = i + 1;
        assert(v@ =~= same_bits(i as nat, b));
    }
    BitSeq::from_vec(v)
}

/// Every wire of `ws` lies below `n`.
pub open spec fn wires_below(ws: Seq<WireId>, n: nat) -> bool {
    forall|k: int| 0 <= k < ws.len() ==> (#[trigger] ws[k]).0 < n
}

/// Add one output wire of type `ty` and one instruction writing it.
fn add_gate(builder: HdlGraphBuilder, op: Op, inputs: Vec<WireId>, ty: WireTy) -> (r: Result<(HdlGraphBuilder, WireId), Error>)
    requires
        inputs@.len() == spec_arity(op),
    ensures
        r matches Ok((b, w)) && w.0 == builder.wires@.len() && appends(
            builder,
            b,
            seq![ty],
            seq![InstrView { op: op_view(op), inputs: inputs@, output: w }],
        ) && (builder_wf(builder) && wires_below(inputs@, builder.wires@.len()) ==> builder_wf(b)),
{
    let ghost op_v = op_view(op);
    let ghost ins = inputs@;
    let (b2, wire) = builder.with_wire(ty);
    let b3 = match b2.with_instruction(op, inputs, wire) {
        Ok(b) => b,
        Err(e) => {
            return Err(Error::Hdl(e));
        },
    };
    proof {
        let iv = InstrView { op: op_v, inputs: ins, output: wire };
        assert(b3.wires@ =~= builder.wires@ + seq![ty]);
        assert(instrs_view(b3.instructions@) =~= instrs_view(builder.instructions@) + seq![iv]);
        if builder_wf(builder) && wires_below(ins, builder.wires@.len()) {
            lemma_arity_view(op);
            assert(views_wf(seq![iv], b3.wires@.len()));
            lemma_appends_wf(builder, b3, seq![ty], seq![iv]);
        }
    }
    Ok((b3, wire))
}

/// Insert a constant `i32` value as a `Signed(32)` wire.
pub fn const_signed_32(builder: HdlGraphBuilder, value: i32) -> (r: Result<(HdlGraphBuilder, WireId), Error>)
    ensures
        r matches Ok((b, w)) && w.0 == builder.wires@.len() && appends(
            builder,
            b,
            seq![WireTy::Signed(32)],
            seq![InstrView { op: OpView::Const { bits: i32_bits(value), ty: WireTy::Signed(32) }, inputs: seq![], output: w }],
        ) && (builder_wf(builder) ==> builder_wf(b)),
{
    let inputs: Vec<WireId> = Vec::new();
    assert(inputs@ =~= Seq::<WireId>::empty());
    add_gate(builder, Op::Const { bits: i32_to_bit_seq(value), ty: WireTy::Signed(32) }, inputs, WireTy::Signed(32))
}

/// A constant wire of type `ty` holding `bits`.
pub(crate) fn const_value(builder: HdlGraphBuilder, bits: BitSeq, ty: WireTy) -> (r: Result<(HdlGraphBuilder, WireId), Error>)
    ensures
        r matches Ok((b, w)) && w.0 == builder.wires@.len() && appends(
            builder,
            b,
            seq![ty],
            seq![InstrView { op: OpView::Const { bits: bits.0@, ty }, inputs: seq![], output: w }],
        ) && (builder_wf(builder) ==> builder_wf(b)),
{
    let inputs: Vec<WireId> = Vec::new();
    assert(inputs@ =~= Seq::<WireId>::empty());
    add_gate(builder, Op::Const { bits, ty }, inputs, ty)
}

/// Insert a constant unsigned value as a `Bits(width)` wire.
pub fn const_unsigned(builder: HdlGraphBuilder, value: u128, width: u32) -> (r: Result<(HdlGraphBuilder, WireId), Error>)
    requires
        width <= 128,
    ensures
        r matches Ok((b, w)) && w.0 == builder.wires@.len() && appends(
            builder,
            b,
            seq![WireTy::Bits(width)],
            seq![InstrView { op: OpView::Const { bits: u128_bits(value, width as nat), ty: WireTy::Bits(width) }, inputs: seq![], output: w }],
        ) && (builder_wf(builder) ==> builder_wf(b)),
{
    let mut v: Vec<bool> = Vec::new();
    let mut i: u32 = 0;
    while i < width
        invariant
            i <= width,
            width <= 128,
            v@.len() == i,
            forall|j: int| 0 <= j < i ==> #[trigger] v@[j] == ((value >> (j as u128)) & 1u128 == 1u128),
        decreases width - i,
    {
        v.push((value >> i) & 1 == 1);
        i = i + 1;
    }
    assert(v@ =~= u128_bits(value, width as nat));
    const_value(builder, BitSeq::from_vec(v), WireTy::Bits(width))
}

/// Insert a constant bit (bool) wire.
pub fn const_bit(builder: HdlGraphBuilder, value: bool) -> (r: Result<(HdlGraphBuilder, WireId), Error>)
    ensures
        r matches Ok((b, w)) && w.0 == builder.wires@.len() && appends(
            builder,
            b,
            seq![WireTy::Bit],
            seq![InstrView { op: OpView::Const { bits: seq![value], ty: WireTy::Bit }, inputs: seq![], output: w }],
        ) && (builder_wf(builder) ==> builder_wf(b)),
{
    let mut v: Vec<bool> = Vec::new();
    v.push(value);
    assert(v@ =~= seq![value]);
    const_value(builder, BitSeq::from_vec(v), WireTy::Bit)
}

/// Insert a 2:1 MUX instruction: the output is `true_arm` when
/// `selector` is set, `false_arm` otherwise.
pub fn mux(
    builder: HdlGraphBuilder,
    selector: WireId,
    false_arm: WireId,
    true_arm: WireId,
    out_ty: WireTy,
) -> (r: Result<(HdlGraphBuilder, WireId), Error>)
    ensures
        r matches Ok((b, w)) && w.0 == builder.wires@.len() && appends(
            builder,
            b,
            seq![out_ty],
            seq![InstrView { op: OpView::Mux, inputs: seq![selector, false_arm, true_arm], output: w }],
        ) && (builder_wf(builder) && selector.0 < builder.wires@.len() && false_arm.0 < builder.wires@.len()
            && true_arm.0 < builder.wires@.len() ==> builder_wf(b)),
{
    let inputs = vec![selector, false_arm, true_arm];
    assert(inputs@ =~= seq![selector, false_arm, true_arm]);
    add_gate(builder, Op::Mux, inputs, out_ty)
}

/// Insert a binary operation instruction.
pub fn bin_op(builder: HdlGraphBuilder, op: BinOp, lhs: WireId, rhs: WireId, out_ty: WireTy) -> (r: Result<
    (HdlGraphBuilder, WireId),
    Error,
>)
    ensures
        r matches Ok((b, w)) && w.0 == builder.wires@.len() && appends(
            builder,
            b,
            seq![out_ty],
            seq![InstrView { op: OpView::Bin(op), inputs: seq![lhs, rhs], output: w }],
        ) && (builder_wf(builder) && lhs.0 < builder.wires@.len() && rhs.0 < builder.wires@.len() ==> builder_wf(b)),
{
    let inputs = vec![lhs, rhs];
    assert(inputs@ =~= seq![lhs, rhs]);
    add_gate(builder, Op::Bin(op), inputs, out_ty)
}

/// A one-input gate: `op` applied to `wire`.
fn unary_gate(builder: HdlGraphBuilder, op: Op, wire: WireId, ty: WireTy) -> (r: Result<(HdlGraphBuilder, WireId), Error>)
    requires
        spec_arity(op) == 1,
    ensures
        r matches Ok((b, w)) && w.0 == builder.wires@.len() && appends(
            builder,
            b,
            seq![ty],
            seq![InstrView { op: op_view(op), inputs: seq![wire], output: w }],
        ) && (builder_wf(builder) && wire.0 < builder.wires@.len() ==> builder_wf(b)),
{
    let inputs = vec![wire];
    assert(inputs@ =~= seq![wire]);
    add_gate(builder, op, inputs, ty)
}

/// Truncate a wide signed wire to `Signed(to_width)` by slicing the low bits.
pub fn truncate(builder: HdlGraphBuilder, wire: WireId, to_width: u32) -> (r: Result<(HdlGraphBuilder, WireId), Error>)
    ensures
        r matches Ok((b, w)) && w.0 == builder.wires@.len() && appends(
            builder,
            b,
            seq![WireTy::Signed(to_width)],
            seq![InstrView { op: OpView::Slice { lo: 0, hi: to_width }, inputs: seq![wire], output: w }],
        ) && (builder_wf(builder) && wire.0 < builder.wires@.len() ==> builder_wf(b)),
{
    unary_gate(builder, Op::Slice { lo: 0, hi: to_width }, wire, WireTy::Signed(to_width))
}

/// A bitwise NOT of `wire`, typed `ty`.
pub(crate) fn not_gate(builder: HdlGraphBuilder, wire: WireId, ty: WireTy) -> (r: Result<(HdlGraphBuilder, WireId), Error>)
    ensures
        r matches Ok((b, w)) && w.0 == builder.wires@.len() && appends(
            builder,
            b,
            seq![ty],
            seq![InstrView { op: OpView::Not, inputs: seq![wire], output: w }],
        ) && (builder_wf(builder) && wire.0 < builder.wires@.len() ==> builder_wf(b)),
{
    unary_gate(builder, Op::Not, wire, ty)
}

/// `n` copies of the bit `b`, as a sequence.
pub open spec fn same_bits(n: nat, b: bool) -> Seq<bool> {
    Seq::new(n, |i: int| b)
}

/// The wire with index `i`.
pub open spec fn wire_at(i: int) -> WireId {
    WireId(i as usize)
}

/// A mux gate reading wires `sel`, `f`, `t` and writing wire `out`.
pub open spec fn mux_at(sel: int, f: int, t: int, out: int) -> InstrView {
    InstrView { op: OpView::Mux, inputs: seq![wire_at(sel), wire_at(f), wire_at(t)], output: wire_at(out) }
}

/// A binary gate reading wires `a`, `b` and writing wire `out`.
pub open spec fn bin_at(op: BinOp, a: int, b: int, out: int) -> InstrView {
    InstrView { op: OpView::Bin(op), inputs: seq![wire_at(a), wire_at(b)], output: wire_at(out) }
}

/// A constant gate writing `bits` of type `ty` to wire `out`.
pub open spec fn const_at(bits: Seq<bool>, ty: WireTy, out: int) -> InstrView {
    InstrView { op: OpView::Const { bits, ty }, inputs: seq![], output: wire_at(out) }
}

/// The wires `sign_extend` appends when widening from `from` to `to` bits.
pub open spec fn sign_extend_wires(from: u32, to: u32) -> Seq<WireTy> {
    let fill = (to - from) as u32;
    seq![WireTy::Bit, WireTy::Bits(fill), WireTy::Bits(fill), WireTy::Bits(fill), WireTy::Signed(to)]
}

/// The gates `sign_extend` appends, its first new wire having index `n`:
/// the sign bit, all-ones and all-zeros fills, the fill chosen by the sign
/// bit, and the original bits below the fill.
pub open spec fn sign_extend_instrs(wire: WireId, from: u32, to: u32, n: int) -> Seq<InstrView> {
    let fill = (to - from) as u32;
    seq![
        InstrView { op: OpView::Slice { lo: (from - 1) as u32, hi: from }, inputs: seq![wire], output: wire_at(n) },
        InstrView { op: OpView::Const { bits: same_bits(fill as nat, true), ty: WireTy::Bits(fill) }, inputs: seq![], output: wire_at(n + 1) },
        InstrView { op: OpView::Const { bits: same_bits(fill as nat, false), ty: WireTy::Bits(fill) }, inputs: seq![], output: wire_at(n + 2) },
        InstrView { op: OpView::Mux, inputs: seq![wire_at(n), wire_at(n + 2), wire_at(n + 1)], output: wire_at(n + 3) },
        InstrView { op: OpView::Concat { low_width: from, high_width: fill }, inputs: seq![wire, wire_at(n + 3)], output: wire_at(n + 4) },
    ]
}

/// Sign-extend a `Signed(from_width)` wire to `Signed(to_width)`.
///
/// Extracts the sign bit, replicates it into a fill bus, and
/// concatenates `[original_bits, sign_fill]`.  A wire that is already at
/// least `to_width` wide is returned as is.
pub fn sign_extend(builder: HdlGraphBuilder, wire: WireId, from_width: u32, to_width: u32) -> (r: Result<
    (HdlGraphBuilder, WireId),
    Error,
>)
    requires
        from_width < to_width ==> from_width > 0,
    ensures
        from_width >= to_width ==> (r matches Ok((b, w)) && b == builder && w == wire),
        from_width < to_width ==> (r matches Ok((b, w)) && w.0 == builder.wires@.len() + 4 && appends(
            builder,
            b,
            sign_extend_wires(from_width, to_width),
            sign_extend_instrs(wire, from_width, to_width, builder.wires@.len() as int),
        ) && (builder_wf(builder) && wire.0 < builder.wires@.len() ==> builder_wf(b))),
{
    if from_width >= to_width {
        return Ok((builder, wire));
    }
    let ghost b0 = builder;
    let fill_width = to_width - from_width;
    let (b1, sign_bit) = match unary_gate(builder, Op::Slice { lo: from_width - 1, hi: from_width }, wire, WireTy::Bit) {
        Ok(p) => p,
        Err(e) => {
            return Err(e);
        },
    };
    let (b2, ones) = match const_value(b1, repeat_bit(fill_width, true), WireTy::Bits(fill_width)) {
        Ok(p) => p,
        Err(e) => {
            return Err(e);
        },
    };
    let (b3, zeros) = match const_value(b2, repeat_bit(fill_width, false), WireTy::Bits(fill_width)) {
        Ok(p) => p,
        Err(e) => {
            return Err(e);
        },
    };
    let (b4, fill) = match mux(b3, sign_bit, zeros, ones, WireTy::Bits(fill_width)) {
        Ok(p) => p,
        Err(e) => {
            return Err(e);
        },
    };
    let inputs = vec![wire, fill];
    assert(inputs@ =~= seq![wire, fill]);
    let (b5, extended) = match add_gate(
        b4,
        Op::Concat { low_width: from_width, high_width: fill_width },
        inputs,
        WireTy::Signed(to_width),
    ) {
        Ok(p) => p,
        Err(e) => {
            return Err(e);
        },
    };
    proof {
        let n = b0.wires@.len() as int;
        lemma_appends_trans(b0, b1, b2, seq![WireTy::Bit], seq![InstrView { op: OpView::Slice { lo: (from_width - 1) as u32, hi: from_width }, inputs: seq![wire], output: sign_bit }],
            seq![WireTy::Bits(fill_width)], seq![InstrView { op: OpView::Const { bits: same_bits(fill_width as nat, true), ty: WireTy::Bits(fill_width) }, inputs: seq![], output: ones }]);
        lemma_appends_trans(b0, b2, b3, seq![WireTy::Bit] + seq![WireTy::Bits(fill_width)],
            seq![InstrView { op: OpView::Slice { lo: (from_width - 1) as u32, hi: from_width }, inputs: seq![wire], output: sign_bit }]
                + seq![InstrView { op: OpView::Const { bits: same_bits(fill_width as nat, true), ty: WireTy::Bits(fill_width) }, inputs: seq![], output: ones }],
            seq![WireTy::Bits(fill_width)], seq![InstrView { op: OpView::Const { bits: same_bits(fill_width as nat, false), ty: WireTy::Bits(fill_width) }, inputs: seq![], output: zeros }]);
        let w3 = seq![WireTy::Bit] + seq![WireTy::Bits(fill_width)] + seq![WireTy::Bits(fill_width)];
        let i3 = seq![InstrView { op: OpView::Slice { lo: (from_width - 1) as u32, hi: from_width }, inputs: seq![wire], output: sign_bit }]
                + seq![InstrView { op: OpView::Const { bits: same_bits(fill_width as nat, true), ty: WireTy::Bits(fill_width) }, inputs: seq![], output: ones }]
                + seq![InstrView { op: OpView::Const { bits: same_bits(fill_width as nat, false), ty: WireTy::Bits(fill_width) }, inputs: seq![], output: zeros }];
        let i4 = seq![InstrView { op: OpView::Mux, inputs: seq![sign_bit, zeros, ones], output: fill }];
        lemma_appends_trans(b0, b3, b4, w3, i3, seq![WireTy::Bits(fill_width)], i4);
        let i5 = seq![InstrView { op: OpView::Concat { low_width: from_width, high_width: fill_width }, inputs: seq![wire, fill], output: extended }];
        lemma_appends_trans(b0, b4, b5, w3 + seq![WireTy::Bits(fill_width)], i3 + i4, seq![WireTy::Signed(to_width)], i5);
        assert(w3 + seq![WireTy::Bits(fill_width)] + seq![WireTy::Signed(to_width)] =~= sign_extend_wires(from_width, to_width));
        assert(i3 + i4 + i5 =~= sign_extend_instrs(wire, from_width, to_width, n));
    }
    Ok((b5, extended))
}

/// The wires `arith_shr` appends.
pub open spec fn arith_shr_wires(shift: u32, width: u32) -> Seq<WireTy> {
    if shift == 0 {
        seq![]
    } else if shift >= width {
        seq![WireTy::Bit, WireTy::Signed(width), WireTy::Signed(width), WireTy::Signed(width)]
    } else {
        seq![
            WireTy::Bits((width - shift) as u32),
            WireTy::Bit,
            WireTy::Bits(shift),
            WireTy::Bits(shift),
            WireTy::Bits(shift),
            WireTy::Signed(width),
        ]
    }
}

/// The gates `arith_shr` appends, its first new wire having index `n`.
///
/// A shift of the whole width or more gives the sign bit repeated; a
/// smaller one keeps the high bits and fills the top with the sign bit.
pub open spec fn arith_shr_instrs(wire: WireId, shift: u32, width: u32, n: int) -> Seq<InstrView> {
    if shift == 0 {
        seq![]
    } else if shift >= width {
        seq![
            InstrView { op: OpView::Slice { lo: (width - 1) as u32, hi: width }, inputs: seq![wire], output: wire_at(n) },
            InstrView { op: OpView::Const { bits: same_bits(width as nat, true), ty: WireTy::Signed(width) }, inputs: seq![], output: wire_at(n + 1) },
            InstrView { op: OpView::Const { bits: same_bits(width as nat, false), ty: WireTy::Signed(width) }, inputs: seq![], output: wire_at(n + 2) },
            InstrView { op: OpView::Mux, inputs: seq![wire_at(n), wire_at(n + 2), wire_at(n + 1)], output: wire_at(n + 3) },
        ]
    } else {
        seq![
            InstrView { op: OpView::Slice { lo: shift, hi: width }, inputs: seq![wire], output: wire_at(n) },
            InstrView { op: OpView::Slice { lo: (width - 1) as u32, hi: width }, inputs: seq![wire], output: wire_at(n + 1) },
            InstrView { op: OpView::Const { bits: same_bits(shift as nat, true), ty: WireTy::Bits(shift) }, inputs: seq![], output: wire_at(n + 2) },
            InstrView { op: OpView::Const { bits: same_bits(shift as nat, false), ty: WireTy::Bits(shift) }, inputs: seq![], output: wire_at(n + 3) },
            InstrView { op: OpView::Mux, inputs: seq![wire_at(n + 1), wire_at(n + 3), wire_at(n + 2)], output: wire_at(n + 4) },
            InstrView { op: OpView::Concat { low_width: (width - shift) as u32, high_width: shift }, inputs: seq![wire_at(n), wire_at(n + 4)], output: wire_at(n + 5) },
        ]
    }
}

/// The wire holding the result of `arith_shr`.
pub open spec fn arith_shr_out(wire: WireId, shift: u32, width: u32, n: int) -> WireId {
    if shift == 0 {
        wire
    } else if shift >= width {
        wire_at(n + 3)
    } else {
        wire_at(n + 5)
    }
}

/// Arithmetic right-shift a `Signed(width)` wire by a constant amount.
///
/// Implements `x >>> shift` by slicing out the upper bits and
/// concatenating sign-extension fill.
pub fn arith_shr(builder: HdlGraphBuilder, wire: WireId, shift: u32, width: u32) -> (r: Result<
    (HdlGraphBuilder, WireId),
    Error,
>)
    requires
        shift > 0 ==> width > 0,
    ensures
        r matches Ok((b, w)) && w == arith_shr_out(wire, shift, width, builder.wires@.len() as int)
            && appends(
            builder,
            b,
            arith_shr_wires(shift, width),
            arith_shr_instrs(wire, shift, width, builder.wires@.len() as int),
        ) && (builder_wf(builder) && wire.0 < builder.wires@.len() ==> builder_wf(b)),
{
    let ghost b0 = builder;
    if shift == 0 {
        proof {
            lemma_appends_refl(builder);
        }
        return Ok((builder, wire));
    }
    if shift >= width {
        let (b1, sign_bit) = match unary_gate(builder, Op::Slice { lo: width - 1, hi: width }, wire, WireTy::Bit) {
            Ok(p) => p,
            Err(e) => {
                return Err(e);
            },
        };
        let (b2, ones) = match const_value(b1, repeat_bit(width, true), WireTy::Signed(width)) {
            Ok(p) => p,
            Err(e) => {
                return Err(e);
            },
        };
        let (b3, zeros) = match const_value(b2, repeat_bit(width, false), WireTy::Signed(width)) {
            Ok(p) => p,
            Err(e) => {
                return Err(e);
            },
        };
        let (b4, out) = match mux(b3, sign_bit, zeros, ones, WireTy::Signed(width)) {
            Ok(p) => p,
            Err(e) => {
                return Err(e);
            },
        };
        proof {
            let i1 = seq![InstrView { op: OpView::Slice { lo: (width - 1) as u32, hi: width }, inputs: seq![wire], output: sign_bit }];
            let i2 = seq![InstrView { op: OpView::Const { bits: same_bits(width as nat, true), ty: WireTy::Signed(width) }, inputs: seq![], output: ones }];
            let i3 = seq![InstrView { op: OpView::Const { bits: same_bits(width as nat, false), ty: WireTy::Signed(width) }, inputs: seq![], output: zeros }];
            let i4 = seq![InstrView { op: OpView::Mux, inputs: seq![sign_bit, zeros, ones], output: out }];
            lemma_appends_trans(b0, b1, b2, seq![WireTy::Bit], i1, seq![WireTy::Signed(width)], i2);
            lemma_appends_trans(b0, b2, b3, seq![WireTy::Bit] + seq![WireTy::Signed(width)], i1 + i2, seq![WireTy::Signed(width)], i3);
            lemma_appends_trans(b0, b3, b4, seq![WireTy::Bit] + seq![WireTy::Signed(width)] + seq![WireTy::Signed(width)], i1 + i2 + i3, seq![WireTy::Signed(width)], i4);
            assert(seq![WireTy::Bit] + seq![WireTy::Signed(width)] + seq![WireTy::Signed(width)] + seq![WireTy::Signed(width)] =~= arith_shr_wires(shift, width));
            assert(i1 + i2 + i3 + i4 =~= arith_shr_instrs(wire, shift, width, b0.wires@.len() as int));
        }
        return Ok((b4, out));
    }
    let kept = width - shift;
    let (b1, sliced) = match unary_gate(builder, Op::Slice { lo: shift, hi: width }, wire, WireTy::Bits(kept)) {
        Ok(p) => p,
        Err(e) => {
            return Err(e);
        },
    };
    let (b2, sign_bit) = match unary_gate(b1, Op::Slice { lo: width - 1, hi: width }, wire, WireTy::Bit) {
        Ok(p) => p,
        Err(e) => {
            return Err(e);
        },
    };
    let (b3, ones) = match const_value(b2, repeat_bit(shift, true), WireTy::Bits(shift)) {
        Ok(p) => p,
        Err(e) => {
            return Err(e);
        },
    };
    let (b4, zeros) = match const_value(b3, repeat_bit(shift, false), WireTy::Bits(shift)) {
        Ok(p) => p,
        Err(e) => {
            return Err(e);
        },
    };
    let (b5, fill) = match mux(b4, sign_bit, zeros, ones, WireTy::Bits(shift)) {
        Ok(p) => p,
        Err(e) => {
            return Err(e);
        },
    };
    let inputs = vec![sliced, fill];
    assert(inputs@ =~= seq![sliced, fill]);
    let (b6, result) = match add_gate(b5, Op::Concat { low_width: kept, high_width: shift }, inputs, WireTy::Signed(width)) {
        Ok(p) => p,
        Err(e) => {
            return Err(e);
        },
    };
    proof {
        let i1 = seq![InstrView { op: OpView::Slice { lo: shift, hi: width }, inputs: seq![wire], output: sliced }];
        let i2 = seq![InstrView { op: OpView::Slice { lo: (width - 1) as u32, hi: width }, inputs: seq![wire], output: sign_bit }];
        let i3 = seq![InstrView { op: OpView::Const { bits: same_bits(shift as nat, true), ty: WireTy::Bits(shift) }, inputs: seq![], output: ones }];
        let i4 = seq![InstrView { op: OpView::Const { bits: same_bits(shift as nat, false), ty: WireTy::Bits(shift) }, inputs: seq![], output: zeros }];
        let i5 = seq![InstrView { op: OpView::Mux, inputs: seq![sign_bit, zeros, ones], output: fill }];
        let i6 = seq![InstrView { op: OpView::Concat { low_width: kept, high_width: shift }, inputs: seq![sliced, fill], output: result }];
        let w1 = seq![WireTy::Bits(kept)];
        let w2 = seq![WireTy::Bit];
        let ws = seq![WireTy::Bits(shift)];
        lemma_appends_trans(b0, b1, b2, w1, i1, w2, i2);
        lemma_appends_trans(b0, b2, b3, w1 + w2, i1 + i2, ws, i3);
        lemma_appends_trans(b0, b3, b4, w1 + w2 + ws, i1 + i2 + i3, ws, i4);
        lemma_appends_trans(b0, b4, b5, w1 + w2 + ws + ws, i1 + i2 + i3 + i4, ws, i5);
        lemma_appends_trans(b0, b5, b6, w1 + w2 + ws + ws + ws, i1 + i2 + i3 + i4 + i5, seq![WireTy::Signed(width)], i6);
        assert(w1 + w2 + ws + ws + ws + seq![WireTy::Signed(width)] =~= arith_shr_wires(shift, width));
        assert(i1 + i2 + i3 + i4 + i5 + i6 =~= arith_shr_instrs(wire, shift, width, b0.wires@.len() as int));
    }
    Ok((b6, result))
}

/// Declare `count` sample wires, returning their ids in order.
pub(crate) fn sample_wires(builder: HdlGraphBuilder, count: usize) -> (r: (HdlGraphBuilder, Vec<WireId>))
    ensures
        r.0.wires@ == builder.wires@ + Seq::new(count as nat, |k: int| WireTy::Signed(32)),
        r.0.instructions@ == builder.instructions@,
        r.1@ == Seq::new(count as nat, |k: int| wire_at(builder.wires@.len() + k)),
        builder_wf(builder) ==> builder_wf(r.0),
{
    let ghost b0 = builder;
    let mut builder = builder;
    let mut ids: Vec<WireId> = Vec::new();
    let mut i: usize = 0;
    while i < count
        invariant
            i <= count,
            builder.wires@ == b0.wires@ + Seq::new(i as nat, |k: int| WireTy::Signed(32)),
            builder.instructions@ == b0.instructions@,
            builder_wf(b0) ==> builder_wf(builder),
            ids@ == Seq::new(i as nat, |k: int| wire_at(b0.wires@.len() + k)),
        decreases count - i,
    {
        let (b, w) = builder.with_wire(sample_wire());
        builder = b;
        ids.push(w);
        i = i + 1;
        assert(builder.wires@ =~= b0.wires@ + Seq::new(i as nat, |k: int| WireTy::Signed(32)));
        assert(ids@ =~= Seq::new(i as nat, |k: int| wire_at(b0.wires@.len() + k)));
    }
    (builder, ids)
}

/// The next-state muxes of a shift register whose muxes write wires from
/// index `n` on: register `k` takes its predecessor (`first` for register
/// 0) when `valid` is set, and holds otherwise.
pub open spec fn shift_muxes(valid: WireId, regs: Seq<WireId>, first: WireId, n: int) -> Seq<InstrView> {
    Seq::new(
        regs.len(),
        |k: int|
            InstrView {
                op: OpView::Mux,
                inputs: seq![valid, regs[k], if k == 0 { first } else { regs[k - 1] }],
                output: wire_at(n + k),
            },
    )
}

/// Add the next-state muxes of a shift register, returning the
/// next-state wires in register order.
pub(crate) fn shift_register_next(builder: HdlGraphBuilder, valid: WireId, regs: &Vec<WireId>, first: WireId) -> (r:
    Result<(HdlGraphBuilder, Vec<WireId>), Error>)
    ensures
        r matches Ok((b, nexts)) && appends(
            builder,
            b,
            Seq::new(regs@.len(), |k: int| WireTy::Signed(32)),
            shift_muxes(valid, regs@, first, builder.wires@.len() as int),
        ) && nexts@ == Seq::new(regs@.len(), |k: int| wire_at(builder.wires@.len() + k)) && (builder_wf(
            builder,
        ) && valid.0 < builder.wires@.len() && first.0 < builder.wires@.len() && wires_below(
            regs@,
            builder.wires@.len(),
        ) ==> builder_wf(b)),
{
    let ghost b0 = builder;
    let ghost n = builder.wires@.len() as int;
    let ghost wf0 = builder_wf(builder) && valid.0 < builder.wires@.len() && first.0 < builder.wires@.len()
        && wires_below(regs@, builder.wires@.len());
    let mut builder = builder;
    let mut nexts: Vec<WireId> = Vec::new();
    let mut k: usize = 0;
    while k < regs.len()
        invariant
            k <= regs@.len(),
            n == b0.wires@.len(),
            builder.wires@ == b0.wires@ + Seq::new(k as nat, |j: int| WireTy::Signed(32)),
            instrs_view(builder.instructions@) == instrs_view(b0.instructions@) + shift_muxes(
                valid,
                regs@,
                first,
                n,
            ).subrange(0, k as int),
            nexts@ == Seq::new(k as nat, |j: int| wire_at(n + j)),
            wf0 == (builder_wf(b0) && valid.0 < b0.wires@.len() && first.0 < b0.wires@.len() && wires_below(
                regs@,
                b0.wires@.len(),
            )),
            wf0 ==> builder_wf(builder),
        decreases regs@.len() - k,
    {
        let source = if k == 0 {
            first
        } else {
            regs[k - 1]
        };
        let (b, nr) = mux(builder, valid, regs[k], source, sample_wire())?;
        builder = b;
        nexts.push(nr);
        k = k + 1;
        proof {
            assert(builder.wires@ =~= b0.wires@ + Seq::new(k as nat, |j: int| WireTy::Signed(32)));
            assert(shift_muxes(valid, regs@, first, n).subrange(0, k as int) =~= shift_muxes(
                valid,
                regs@,
                first,
                n,
            ).subrange(0, k - 1).push(shift_muxes(valid, regs@, first, n)[k - 1]));
            assert(instrs_view(builder.instructions@) =~= instrs_view(b0.instructions@) + shift_muxes(
                valid,
                regs@,
                first,
                n,
            ).subrange(0, k as int));
            assert(nexts@ =~= Seq::new(k as nat, |j: int| wire_at(n + j)));
        }
    }
    assert(shift_muxes(valid, regs@, first, n).subrange(0, k as int) =~= shift_muxes(valid, regs@, first, n));
    Ok((builder, nexts))
}

/// `count` zero samples of initial state.
pub(crate) fn zero_samples(count: usize) -> (r: BitSeq)
    ensures
        r.0@ == zero_bits(32 * count as nat),
{
    let mut state = BitSeq::new();
    let mut k: usize = 0;
    while k < count
        invariant
            k <= count,
            state.0@ == zero_bits(32 * k as nat),
        decreases count - k,
    {
        state = state.concat(zero_sample_init());
        k = k + 1;
        assert(state.0@ =~= zero_bits(32 * k as nat));
    }
    state
}

/// Append the wires `ws` to `v`.
pub(crate) fn push_all(v: &mut Vec<WireId>, ws: &Vec<WireId>)
    ensures
        final(v)@ == old(v)@ + ws@,
{
    let mut k: usize = 0;
    while k < ws.len()
        invariant
            k <= ws@.len(),
            v@ == old(v)@ + ws@.subrange(0, k as int),
        decreases ws@.len() - k,
    {
        v.push(ws[k]);
        k = k + 1;
        assert(v@ =~= old(v)@ + ws@.subrange(0, k as int));
    }
    assert(ws@.subrange(0, k as int) =~= ws@);
}

/// The wire each stage of a chain reads from its predecessor: `start` for
/// stage 0, else the previous stage's output (stages write from index `n`).
pub open spec fn chain_prevs(start: WireId, len: nat, n: int) -> Seq<WireId> {
    Seq::new(len, |k: int| if k == 0 { start } else { wire_at(n + k - 1) })
}

/// The gates of a chain of binary operations writing wires from index
/// `n` on: stage `k` combines its predecessor with `operands[k]`, the
/// predecessor on the left when `prev_left` holds.
pub open spec fn chain_instrs(op: BinOp, start: WireId, operands: Seq<WireId>, prev_left: bool, n: int) -> Seq<
    InstrView,
> {
    Seq::new(
        operands.len(),
        |k: int|
            InstrView {
                op: OpView::Bin(op),
                inputs: if prev_left {
                    seq![chain_prevs(start, operands.len(), n)[k], operands[k]]
                } else {
                    seq![operands[k], chain_prevs(start, operands.len(), n)[k]]
                },
                output: wire_at(n + k),
            },
    )
}

/// Add a chain of binary operations: stage `k` combines the previous
/// stage's output (`start` for stage 0) with `operands[k]`.  Returns the
/// stages' outputs and the wires each stage read from its predecessor.
pub(crate) fn op_chain(builder: HdlGraphBuilder, op: BinOp, start: WireId, operands: &Vec<WireId>, prev_left: bool) -> (r:
    Result<(HdlGraphBuilder, Vec<WireId>, Vec<WireId>), Error>)
    ensures
        r matches Ok((b, outs, prevs)) && appends(
            builder,
            b,
            Seq::new(operands@.len(), |k: int| WireTy::Signed(32)),
            chain_instrs(op, start, operands@, prev_left, builder.wires@.len() as int),
        ) && outs@ == Seq::new(operands@.len(), |k: int| wire_at(builder.wires@.len() + k)) && prevs@
            == chain_prevs(start, operands@.len(), builder.wires@.len() as int) && (builder_wf(builder)
            && start.0 < builder.wires@.len() && wires_below(operands@, builder.wires@.len()) ==> builder_wf(
            b,
        )),
{
    let ghost b0 = builder;
    let ghost n = builder.wires@.len() as int;
    let ghost ci = chain_instrs(op, start, operands@, prev_left, n);
    let ghost wf0 = builder_wf(builder) && start.0 < builder.wires@.len() && wires_below(
        operands@,
        builder.wires@.len(),
    );
    let mut builder = builder;
    let mut outs: Vec<WireId> = Vec::new();
    let mut prevs: Vec<WireId> = Vec::new();
    let mut k: usize = 0;
    while k < operands.len()
        invariant
            k <= operands@.len(),
            n == b0.wires@.len(),
            ci == chain_instrs(op, start, operands@, prev_left, n),
            builder.wires@ == b0.wires@ + Seq::new(k as nat, |j: int| WireTy::Signed(32)),
            instrs_view(builder.instructions@) == instrs_view(b0.instructions@) + ci.subrange(0, k as int),
            outs@ == Seq::new(k as nat, |j: int| wire_at(n + j)),
            prevs@ == chain_prevs(start, operands@.len(), n).subrange(0, k as int),
            wf0 == (builder_wf(b0) && start.0 < b0.wires@.len() && wires_below(operands@, b0.wires@.len())),
            wf0 ==> builder_wf(builder),
        decreases operands@.len() - k,
    {
        let prev = if k == 0 {
            start
        } else {
            outs[k - 1]
        };
        let (b, out) = if prev_left {
            bin_op(builder, op, prev, operands[k], sample_wire())?
        } else {
            bin_op(builder, op, operands[k], prev, sample_wire())?
        };
        builder = b;
        outs.push(out);
        prevs.push(prev);
        k = k + 1;
        proof {
            assert(builder.wires@ =~= b0.wires@ + Seq::new(k as nat, |j: int| WireTy::Signed(32)));
            assert(ci.subrange(0, k as int) =~= ci.subrange(0, k - 1).push(ci[k - 1]));
            assert(instrs_view(builder.instructions@) =~= instrs_view(b0.instructions@) + ci.subrange(
                0,
                k as int,
            ));
            assert(outs@ =~= Seq::new(k as nat, |j: int| wire_at(n + j)));
            assert(prevs@ =~= chain_prevs(start, operands@.len(), n).subrange(0, k as int));
        }
    }
    assert(ci.subrange(0, k as int) =~= ci);
    assert(chain_prevs(start, operands@.len(), n).subrange(0, k as int) =~= chain_prevs(
        start,
        operands@.len(),
        n,
    ));
    Ok((builder, outs, prevs))
}

/// The gates of a row of muxes writing wires from index `n` on: mux `k`
/// gives `ys[k]` when `sel` is set, `xs[k]` otherwise.
pub open spec fn mux_row(sel: WireId, xs: Seq<WireId>, ys: Seq<WireId>, n: int) -> Seq<InstrView> {
    Seq::new(
        xs.len(),
        |k: int| InstrView { op: OpView::Mux, inputs: seq![sel, xs[k], ys[k]], output: wire_at(n + k) },
    )
}

/// Add a row of sample muxes, `sel ? ys[k] : xs[k]` for each `k`.
pub(crate) fn mux_each(builder: HdlGraphBuilder, sel: WireId, xs: &Vec<WireId>, ys: &Vec<WireId>) -> (r: Result<
    (HdlGraphBuilder, Vec<WireId>),
    Error,
>)
    requires
        xs@.len() == ys@.len(),
    ensures
        r matches Ok((b, outs)) && appends(
            builder,
            b,
            Seq::new(xs@.len(), |k: int| WireTy::Signed(32)),
            mux_row(sel, xs@, ys@, builder.wires@.len() as int),
        ) && outs@ == Seq::new(xs@.len(), |k: int| wire_at(builder.wires@.len() + k)) && (builder_wf(
            builder,
        ) && sel.0 < builder.wires@.len() && wires_below(xs@, builder.wires@.len()) && wires_below(
            ys@,
            builder.wires@.len(),
        ) ==> builder_wf(b)),
{
    let ghost b0 = builder;
    let ghost n = builder.wires@.len() as int;
    let ghost mr = mux_row(sel, xs@, ys@, n);
    let ghost wf0 = builder_wf(builder) && sel.0 < builder.wires@.len() && wires_below(xs@, builder.wires@.len())
        && wires_below(ys@, builder.wires@.len());
    let mut builder = builder;
    let mut outs: Vec<WireId> = Vec::new();
    let mut k: usize = 0;
    while k < xs.len()
        invariant
            k <= xs@.len(),
            xs@.len() == ys@.len(),
            n == b0.wires@.len(),
            mr == mux_row(sel, xs@, ys@, n),
            builder.wires@ == b0.wires@ + Seq::new(k as nat, |j: int| WireTy::Signed(32)),
            instrs_view(builder.instructions@) == instrs_view(b0.instructions@) + mr.subrange(0, k as int),
            outs@ == Seq::new(k as nat, |j: int| wire_at(n + j)),
            wf0 == (builder_wf(b0) && sel.0 < b0.wires@.len() && wires_below(xs@, b0.wires@.len())
                && wires_below(ys@, b0.wires@.len())),
            wf0 ==> builder_wf(builder),
        decreases xs@.len() - k,
    {
        let (b, out) = mux(builder, sel, xs[k], ys[k], sample_wire())?;
        builder = b;
        outs.push(out);
        k = k + 1;
        proof {
            assert(builder.wires@ =~= b0.wires@ + Seq::new(k as nat, |j: int| WireTy::Signed(32)));
            assert(mr.subrange(0, k as int) =~= mr.subrange(0, k - 1).push(mr[k - 1]));
            assert(instrs_view(builder.instructions@) =~= instrs_view(b0.instructions@) + mr.subrange(
                0,
                k as int,
            ));
            assert(outs@ =~= Seq::new(k as nat, |j: int| wire_at(n + j)));
        }
    }
    assert(mr.subrange(0, k as int) =~= mr);
    Ok((builder, outs))
}

} // verus!
