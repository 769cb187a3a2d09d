//! What an IR graph computes: each operation evaluated on LSB-first bit
//! sequences, instructions run in order over an environment that holds
//! the value of each wire (or nothing, before the wire is written).
//!
//! With these definitions the library states what its gate sequences
//! compute: sign extension keeps the signed value, and the arithmetic
//! right shift divides by a power of two, rounding down.

use vstd::arithmetic::div_mod::lemma_fundamental_div_mod_converse;
use vstd::arithmetic::mul::{lemma_mul_is_distributive_add, lemma_mul_is_distributive_sub};
use vstd::arithmetic::power2::{
    lemma_pow2_adds, lemma_pow2_pos, lemma_pow2_strictly_increases, lemma_pow2_unfold, pow2,
};
use vstd::prelude::*;

use crate::hdl::common::{
    arith_shr_instrs, arith_shr_out, arith_shr_wires, i32_bits, same_bits, sign_extend_instrs, u128_bits,
};
use crate::hdl::ir::{BinOp, InstrView, OpView, WireId};

verus! {

/// The unsigned value of an LSB-first bit sequence.
pub open spec fn unsigned_value(b: Seq<bool>) -> nat
    decreases b.len(),
{
    if b.len() == 0 {
        0
    } else {
        unsigned_value(b.drop_last()) + if b.last() {
            pow2((b.len() - 1) as nat)
        } else {
            0
        }
    }
}

/// The two's-complement value of an LSB-first bit sequence: its top bit
/// weighs `-2^(len-1)`.
pub open spec fn signed_value(b: Seq<bool>) -> int {
    if b.len() > 0 && b.last() {
        unsigned_value(b) - pow2(b.len())
    } else {
        unsigned_value(b) as int
    }
}

/// Bit `i` of `b`, or `false` past its end.
pub open spec fn bit_or_false(b: Seq<bool>, i: int) -> bool {
    if 0 <= i < b.len() {
        b[i]
    } else {
        false
    }
}

/// A binary gate on two operands of the same width `n`.  Arithmetic wraps
/// to `n` bits (the result's low `n` bits, LSB first); comparisons give one bit and read the operands unsigned.
/// Arithmetic and comparison are defined up to 128 bits.
pub open spec fn eval_bin(op: BinOp, a: Seq<bool>, b: Seq<bool>) -> Option<Seq<bool>> {
    let n = a.len();
    let ua = unsigned_value(a) as int;
    let ub = unsigned_value(b) as int;
    match op {
        BinOp::And => Some(Seq::new(n, |i: int| a[i] && b[i])),
        BinOp::Or => Some(Seq::new(n, |i: int| a[i] || b[i])),
        BinOp::Xor => Some(Seq::new(n, |i: int| a[i] != b[i])),
        BinOp::Add => if n <= 128 {
            Some(u128_bits(((ua + ub) % pow2(n) as int) as u128, n))
        } else {
            None
        },
        BinOp::Sub => if n <= 128 {
            Some(u128_bits(((ua - ub) % pow2(n) as int) as u128, n))
        } else {
            None
        },
        BinOp::Mul => if n <= 128 {
            Some(u128_bits(((ua * ub) % pow2(n) as int) as u128, n))
        } else {
            None
        },
        BinOp::Eq => if n <= 128 {
            Some(seq![ua == ub])
        } else {
            None
        },
        BinOp::Lt => if n <= 128 {
            Some(seq![ua < ub])
        } else {
            None
        },
    }
}

/// The value an operation gives on its operands, or `None` where the
/// operands do not fit it (wrong count or width).
pub open spec fn eval_op(op: OpView, args: Seq<Seq<bool>>) -> Option<Seq<bool>> {
    match op {
        OpView::Not => if args.len() == 1 {
            Some(args[0].map_values(|x: bool| !x))
        } else {
            None
        },
        OpView::Bin(b) => if args.len() == 2 && args[0].len() == args[1].len() {
            eval_bin(b, args[0], args[1])
        } else {
            None
        },
        OpView::Mux => if args.len() == 3 {
            Some(
                if bit_or_false(args[0], 0) {
                    args[2]
                } else {
                    args[1]
                },
            )
        } else {
            None
        },
        OpView::Const { bits, .. } => if args.len() == 0 {
            Some(bits)
        } else {
            None
        },
        OpView::Reg { .. } => if args.len() == 1 {
            Some(args[0])
        } else {
            None
        },
        OpView::Concat { low_width, high_width } => if args.len() == 2 && args[0].len() == low_width
            && args[1].len() == high_width {
            Some(args[0] + args[1])
        } else {
            None
        },
        OpView::Slice { lo, hi } => if args.len() == 1 && lo <= hi && hi <= args[0].len() {
            Some(args[0].subrange(lo as int, hi as int))
        } else {
            None
        },
        OpView::ArrayShiftIn { element_width, depth } => if args.len() >= 2 && depth > 0
            && args[0].len() == element_width * depth && args[1].len() == element_width {
            Some(args[1] + args[0].subrange(0, (depth - 1) * element_width))
        } else {
            None
        },
        OpView::ArrayTail { element_width, depth } => if args.len() >= 1 && depth > 0 && args[0].len()
            == element_width * depth {
            Some(args[0].subrange((depth - 1) * element_width, depth * element_width))
        } else {
            None
        },
    }
}

/// The values of the wires `ws` in `env`, if every one has been written.
pub open spec fn read_wires(env: Seq<Option<Seq<bool>>>, ws: Seq<WireId>) -> Option<Seq<Seq<bool>>> {
    if forall|k: int| 0 <= k < ws.len() ==> (#[trigger] ws[k]).0 < env.len() && env[ws[k].0 as int] is Some {
        Some(Seq::new(ws.len(), |k: int| env[ws[k].0 as int]->Some_0))
    } else {
        None
    }
}

/// One instruction run on `env`: its result is written to its output
/// wire.  `None` where an input is unwritten or the operation refuses its
/// operands.
pub open spec fn step(env: Seq<Option<Seq<bool>>>, iv: InstrView) -> Option<Seq<Option<Seq<bool>>>> {
    match read_wires(env, iv.inputs) {
        Some(args) => match eval_op(iv.op, args) {
            Some(v) => Some(
                if iv.output.0 < env.len() {
                    env.update(iv.output.0 as int, Some(v))
                } else {
                    env
                },
            ),
            None => None,
        },
        None => None,
    }
}

/// The instructions `s` run in order on `env`.
pub open spec fn run(env: Seq<Option<Seq<bool>>>, s: Seq<InstrView>) -> Option<Seq<Option<Seq<bool>>>>
    decreases s.len(),
{
    if s.len() == 0 {
        Some(env)
    } else {
        match run(env, s.drop_last()) {
            Some(e) => step(e, s.last()),
            None => None,
        }
    }
}

/// Running two instruction lists one after the other runs their
/// concatenation.
pub proof fn lemma_run_append(env: Seq<Option<Seq<bool>>>, a: Seq<InstrView>, b: Seq<InstrView>)
    ensures
        run(env, a + b) == (match run(env, a) {
            Some(e) => run(e, b),
            None => None,
        }),
    decreases b.len(),
{
    if b.len() == 0 {
        assert(a + b =~= a);
    } else {
        lemma_run_append(env, a, b.drop_last());
        assert((a + b).drop_last() =~= a + b.drop_last());
    }
}

/// Running instructions keeps the number of wires.
pub proof fn lemma_run_len(env: Seq<Option<Seq<bool>>>, s: Seq<InstrView>)
    ensures
        run(env, s) matches Some(e) ==> e.len() == env.len(),
    decreases s.len(),
{
    if s.len() > 0 {
        lemma_run_len(env, s.drop_last());
    }
}

/// An unsigned value is below two to the power of the width.
pub proof fn lemma_unsigned_bound(b: Seq<bool>)
    ensures
        unsigned_value(b) < pow2(b.len()),
    decreases b.len(),
{
    if b.len() > 0 {
        lemma_unsigned_bound(b.drop_last());
        lemma_pow2_unfold(b.len());
    } else {
        lemma_pow2_pos(0);
    }
}

/// The value of a concatenation: the high part weighs `2^(low width)`.
pub proof fn lemma_unsigned_concat(a: Seq<bool>, b: Seq<bool>)
    ensures
        unsigned_value(a + b) == unsigned_value(a) + pow2(a.len()) * unsigned_value(b),
    decreases b.len(),
{
    if b.len() == 0 {
        assert(a + b =~= a);
        let pa = pow2(a.len()) as int;
        let ub = unsigned_value(b) as int;
        assert(pa * ub == 0) by (nonlinear_arith)
            requires
                ub == 0,
        ;
    } else {
        let bp = b.drop_last();
        lemma_unsigned_concat(a, bp);
        assert((a + b).drop_last() =~= a + bp);
        assert((a + b).last() == b.last());
        let t: nat = if b.last() {
            pow2((b.len() - 1) as nat)
        } else {
            0
        };
        let pa = pow2(a.len()) as int;
        let tt: int = if b.last() {
            pow2((a.len() + b.len() - 1) as nat) as int
        } else {
            0
        };
        assert(unsigned_value(a + b) == unsigned_value(a + bp) + tt);
        assert(unsigned_value(b) == unsigned_value(bp) + t);
        if b.last() {
            lemma_pow2_adds(a.len(), (b.len() - 1) as nat);
            assert(tt == pa * t);
        } else {
            assert(pa * t == 0) by (nonlinear_arith)
                requires
                    t == 0,
            ;
        }
        lemma_mul_is_distributive_add(pa, unsigned_value(bp) as int, t as int);
    }
}

/// `k` copies of a bit: all ones are worth `2^k - 1`, all zeros nothing.
pub proof fn lemma_unsigned_same_bits(k: nat, bit: bool)
    ensures
        unsigned_value(same_bits(k, bit)) == if bit {
            pow2(k) - 1
        } else {
            0
        },
    decreases k,
{
    if k == 0 {
        vstd::arithmetic::power2::lemma2_to64();
    } else {
        lemma_unsigned_same_bits((k - 1) as nat, bit);
        assert(same_bits(k, bit).drop_last() =~= same_bits((k - 1) as nat, bit));
        lemma_pow2_unfold(k);
    }
}

/// Appending `k > 0` copies of the top bit keeps the signed value.
pub proof fn lemma_sign_fill_keeps_value(x: Seq<bool>, k: nat)
    requires
        x.len() > 0,
        k > 0,
    ensures
        signed_value(x + same_bits(k, x.last())) == signed_value(x),
{
    let fill = same_bits(k, x.last());
    let y = x + fill;
    lemma_unsigned_concat(x, fill);
    lemma_unsigned_same_bits(k, x.last());
    assert(y.last() == x.last());
    assert(y.len() == x.len() + k);
    assert(unsigned_value(y) == unsigned_value(x) + pow2(x.len()) * unsigned_value(fill));
    if x.last() {
        lemma_pow2_adds(x.len(), k);
        lemma_mul_is_distributive_sub(pow2(x.len()) as int, pow2(k) as int, 1);
        assert(pow2(x.len()) * unsigned_value(fill) == pow2(x.len() + k) - pow2(x.len()));
        assert(signed_value(y) == unsigned_value(y) - pow2(y.len()));
        assert(signed_value(x) == unsigned_value(x) - pow2(x.len()));
        assert(signed_value(y) == signed_value(x));
    } else {
        let p = pow2(x.len()) as int;
        let f = unsigned_value(fill) as int;
        assert(p * f == 0) by (nonlinear_arith)
            requires
                f == 0,
        ;
        assert(signed_value(y) == unsigned_value(y));
        assert(signed_value(y) == signed_value(x));
    }
}

/// The gates `sign_extend` appends, run where the `from`-bit input wire
/// holds `x`, write to their last wire a `to`-bit value with the signed
/// value of `x`.
pub proof fn lemma_sign_extend_keeps_value(
    env: Seq<Option<Seq<bool>>>,
    wire: WireId,
    from: u32,
    to: u32,
    n: int,
    x: Seq<bool>,
)
    requires
        0 < from < to,
        0 <= wire.0 < n,
        n + 5 <= env.len(),
        n + 5 <= usize::MAX,
        env[wire.0 as int] == Some(x),
        x.len() == from,
    ensures
        run(env, sign_extend_instrs(wire, from, to, n)) matches Some(e) && e[n + 4] matches Some(y)
            && y.len() == to && signed_value(y) == signed_value(x),
{
    let s = sign_extend_instrs(wire, from, to, n);
    let fill = (to - from) as u32;
    let sign = x.last();
    let e1 = env.update(n, Some(seq![sign]));
    let e2 = e1.update(n + 1, Some(same_bits(fill as nat, true)));
    let e3 = e2.update(n + 2, Some(same_bits(fill as nat, false)));
    let e4 = e3.update(n + 3, Some(same_bits(fill as nat, sign)));
    let e5 = e4.update(n + 4, Some(x + same_bits(fill as nat, sign)));
    assert(x.subrange((from - 1) as int, from as int) =~= seq![sign]);
    assert(s.subrange(0, 0) =~= Seq::<InstrView>::empty());
    assert(run(env, s.subrange(0, 0)) == Some(env));
    assert(run(env, s.subrange(0, 1)) == Some(e1)) by {
        assert(s.subrange(0, 1).drop_last() =~= s.subrange(0, 0));
        assert(s.subrange(0, 1).last() == s[0]);
        assert(read_wires(env, s[0].inputs) == Some(seq![x]));
    }
    assert(run(env, s.subrange(0, 2)) == Some(e2)) by {
        assert(s.subrange(0, 2).drop_last() =~= s.subrange(0, 1));
        assert(s.subrange(0, 2).last() == s[1]);
        assert(read_wires(e1, s[1].inputs) == Some(Seq::<Seq<bool>>::empty()));
    }
    assert(run(env, s.subrange(0, 3)) == Some(e3)) by {
        assert(s.subrange(0, 3).drop_last() =~= s.subrange(0, 2));
        assert(s.subrange(0, 3).last() == s[2]);
        assert(read_wires(e2, s[2].inputs) == Some(Seq::<Seq<bool>>::empty()));
    }
    assert(run(env, s.subrange(0, 4)) == Some(e4)) by {
        assert(s.subrange(0, 4).drop_last() =~= s.subrange(0, 3));
        assert(s.subrange(0, 4).last() == s[3]);
        let args = seq![seq![sign], same_bits(fill as nat, false), same_bits(fill as nat, true)];
        assert(read_wires(e3, s[3].inputs) == Some(args));
        if sign {
            assert(same_bits(fill as nat, true) == same_bits(fill as nat, sign));
        } else {
            assert(same_bits(fill as nat, false) == same_bits(fill as nat, sign));
        }
    }
    assert(run(env, s.subrange(0, 5)) == Some(e5)) by {
        assert(s.subrange(0, 5).drop_last() =~= s.subrange(0, 4));
        assert(s.subrange(0, 5).last() == s[4]);
        let args = seq![x, same_bits(fill as nat, sign)];
        assert(read_wires(e4, s[4].inputs) == Some(args));
    }
    assert(s.subrange(0, 5) =~= s);
    lemma_sign_fill_keeps_value(x, fill as nat);
}

/// A `w`-bit signed value lies in `[-2^(w-1), 2^(w-1))`.
pub proof fn lemma_signed_bounds(x: Seq<bool>)
    requires
        x.len() > 0,
    ensures
        -pow2((x.len() - 1) as nat) <= signed_value(x) < pow2((x.len() - 1) as nat),
{
    lemma_unsigned_bound(x.drop_last());
    lemma_pow2_unfold(x.len());
}

/// Splitting a signed value at bit `s`: the low bits count unsigned, the
/// high bits signed, weighed by `2^s`.
pub proof fn lemma_signed_split(x: Seq<bool>, s: nat)
    requires
        0 < s < x.len(),
    ensures
        signed_value(x) == unsigned_value(x.subrange(0, s as int)) + pow2(s) * signed_value(
            x.subrange(s as int, x.len() as int),
        ),
{
    let lo = x.subrange(0, s as int);
    let hi = x.subrange(s as int, x.len() as int);
    assert(lo + hi =~= x);
    lemma_unsigned_concat(lo, hi);
    assert(hi.last() == x.last());
    if x.last() {
        lemma_pow2_adds(s, hi.len());
        assert(s + hi.len() == x.len());
        lemma_mul_is_distributive_sub(pow2(s) as int, unsigned_value(hi) as int, pow2(hi.len()) as int);
    }
}

/// A shift by the whole width or more leaves only the sign: -1 or 0.
#[verifier::spinoff_prover]
proof fn lemma_arith_shr_wide(
    env: Seq<Option<Seq<bool>>>,
    wire: WireId,
    shift: u32,
    width: u32,
    n: int,
    x: Seq<bool>,
)
    requires
        width > 0,
        0 <= wire.0 < n,
        n + 4 <= env.len(),
        n + 4 <= usize::MAX,
        env[wire.0 as int] == Some(x),
        x.len() == width,
        shift >= width,
    ensures
        run(env, arith_shr_instrs(wire, shift, width, n)) matches Some(e) && e[arith_shr_out(
            wire,
            shift,
            width,
            n,
        ).0 as int] matches Some(y) && y.len() == width && signed_value(y) == signed_value(x) / (pow2(
            shift as nat,
        ) as int),
{
    let s = arith_shr_instrs(wire, shift, width, n);
    let sign = x.last();
    let v = signed_value(x);
    lemma_signed_bounds(x);
    lemma_pow2_pos(shift as nat);
    assert(s.subrange(0, 0) =~= Seq::<InstrView>::empty());
    assert(run(env, s.subrange(0, 0)) == Some(env));
    let e1 = env.update(n, Some(seq![sign]));
    let e2 = e1.update(n + 1, Some(same_bits(width as nat, true)));
    let e3 = e2.update(n + 2, Some(same_bits(width as nat, false)));
    let e4 = e3.update(n + 3, Some(same_bits(width as nat, sign)));
    assert(x.subrange((width - 1) as int, width as int) =~= seq![sign]);
    assert(run(env, s.subrange(0, 1)) == Some(e1)) by {
        assert(s.subrange(0, 1).drop_last() =~= s.subrange(0, 0));
        assert(s.subrange(0, 1).last() == s[0]);
        assert(read_wires(env, s[0].inputs) == Some(seq![x]));
    }
    assert(run(env, s.subrange(0, 2)) == Some(e2)) by {
        assert(s.subrange(0, 2).drop_last() =~= s.subrange(0, 1));
        assert(s.subrange(0, 2).last() == s[1]);
        assert(read_wires(e1, s[1].inputs) == Some(Seq::<Seq<bool>>::empty()));
    }
    assert(run(env, s.subrange(0, 3)) == Some(e3)) by {
        assert(s.subrange(0, 3).drop_last() =~= s.subrange(0, 2));
        assert(s.subrange(0, 3).last() == s[2]);
        assert(read_wires(e2, s[2].inputs) == Some(Seq::<Seq<bool>>::empty()));
    }
    assert(run(env, s.subrange(0, 4)) == Some(e4)) by {
        assert(s.subrange(0, 4).drop_last() =~= s.subrange(0, 3));
        assert(s.subrange(0, 4).last() == s[3]);
        let args = seq![seq![sign], same_bits(width as nat, false), same_bits(width as nat, true)];
        assert(read_wires(e3, s[3].inputs) == Some(args));
        if sign {
            assert(same_bits(width as nat, true) == same_bits(width as nat, sign));
        } else {
            assert(same_bits(width as nat, false) == same_bits(width as nat, sign));
        }
    }
    assert(s.subrange(0, 4) =~= s);
    let y = same_bits(width as nat, sign);
    lemma_unsigned_same_bits(width as nat, sign);
    assert(y.last() == sign);
    lemma_pow2_strictly_increases((width - 1) as nat, shift as nat);
    if sign {
        assert(signed_value(y) == -1);
        assert(v < 0) by {
            lemma_unsigned_bound(x.drop_last());
            lemma_pow2_unfold(x.len());
        }
        lemma_fundamental_div_mod_converse(v, pow2(shift as nat) as int, -1, v + pow2(shift as nat));
    } else {
        assert(signed_value(y) == 0);
        lemma_fundamental_div_mod_converse(v, pow2(shift as nat) as int, 0, v);
    }
}

/// A shift by less than the width keeps the high bits under a sign fill.
#[verifier::spinoff_prover]
proof fn lemma_arith_shr_narrow(
    env: Seq<Option<Seq<bool>>>,
    wire: WireId,
    shift: u32,
    width: u32,
    n: int,
    x: Seq<bool>,
)
    requires
        width > 0,
        0 <= wire.0 < n,
        n + 6 <= env.len(),
        n + 6 <= usize::MAX,
        env[wire.0 as int] == Some(x),
        x.len() == width,
        0 < shift < width,
    ensures
        run(env, arith_shr_instrs(wire, shift, width, n)) matches Some(e) && e[arith_shr_out(
            wire,
            shift,
            width,
            n,
        ).0 as int] matches Some(y) && y.len() == width && signed_value(y) == signed_value(x) / (pow2(
            shift as nat,
        ) as int),
{
    let s = arith_shr_instrs(wire, shift, width, n);
    let sign = x.last();
    let v = signed_value(x);
    lemma_signed_bounds(x);
    lemma_pow2_pos(shift as nat);
    assert(s.subrange(0, 0) =~= Seq::<InstrView>::empty());
    assert(run(env, s.subrange(0, 0)) == Some(env));
    let kept = (width - shift) as u32;
    let hi = x.subrange(shift as int, width as int);
    let lo = x.subrange(0, shift as int);
    let e1 = env.update(n, Some(hi));
    let e2 = e1.update(n + 1, Some(seq![sign]));
    let e3 = e2.update(n + 2, Some(same_bits(shift as nat, true)));
    let e4 = e3.update(n + 3, Some(same_bits(shift as nat, false)));
    let e5 = e4.update(n + 4, Some(same_bits(shift as nat, sign)));
    let y = hi + same_bits(shift as nat, sign);
    let e6 = e5.update(n + 5, Some(y));
    assert(x.subrange((width - 1) as int, width as int) =~= seq![sign]);
    assert(run(env, s.subrange(0, 1)) == Some(e1)) by {
        assert(s.subrange(0, 1).drop_last() =~= s.subrange(0, 0));
        assert(s.subrange(0, 1).last() == s[0]);
        assert(read_wires(env, s[0].inputs) == Some(seq![x]));
    }
    assert(run(env, s.subrange(0, 2)) == Some(e2)) by {
        assert(s.subrange(0, 2).drop_last() =~= s.subrange(0, 1));
        assert(s.subrange(0, 2).last() == s[1]);
        assert(read_wires(e1, s[1].inputs) == Some(seq![x]));
    }
    assert(run(env, s.subrange(0, 3)) == Some(e3)) by {
        assert(s.subrange(0, 3).drop_last() =~= s.subrange(0, 2));
        assert(s.subrange(0, 3).last() == s[2]);
        assert(read_wires(e2, s[2].inputs) == Some(Seq::<Seq<bool>>::empty()));
    }
    assert(run(env, s.subrange(0, 4)) == Some(e4)) by {
        assert(s.subrange(0, 4).drop_last() =~= s.subrange(0, 3));
        assert(s.subrange(0, 4).last() == s[3]);
        assert(read_wires(e3, s[3].inputs) == Some(Seq::<Seq<bool>>::empty()));
    }
    assert(run(env, s.subrange(0, 5)) == Some(e5)) by {
        assert(s.subrange(0, 5).drop_last() =~= s.subrange(0, 4));
        assert(s.subrange(0, 5).last() == s[4]);
        let args = seq![seq![sign], same_bits(shift as nat, false), same_bits(shift as nat, true)];
        assert(read_wires(e4, s[4].inputs) == Some(args));
        if sign {
            assert(same_bits(shift as nat, true) == same_bits(shift as nat, sign));
        } else {
            assert(same_bits(shift as nat, false) == same_bits(shift as nat, sign));
        }
    }
    assert(run(env, s.subrange(0, 6)) == Some(e6)) by {
        assert(s.subrange(0, 6).drop_last() =~= s.subrange(0, 5));
        assert(s.subrange(0, 6).last() == s[5]);
        let args = seq![hi, same_bits(shift as nat, sign)];
        assert(read_wires(e5, s[5].inputs) == Some(args));
    }
    assert(s.subrange(0, 6) =~= s);
    assert(hi.last() == sign);
    lemma_sign_fill_keeps_value(hi, shift as nat);
    lemma_signed_split(x, shift as nat);
    lemma_unsigned_bound(lo);
    lemma_fundamental_div_mod_converse(
        v,
        pow2(shift as nat) as int,
        signed_value(y),
        unsigned_value(lo) as int,
    );
}

/// The gates `arith_shr` appends, run where the `width`-bit input wire
/// holds `x`, leave on the result wire a `width`-bit value that is the
/// signed value of `x` divided by `2^shift`, rounded down.
pub proof fn lemma_arith_shr_divides(
    env: Seq<Option<Seq<bool>>>,
    wire: WireId,
    shift: u32,
    width: u32,
    n: int,
    x: Seq<bool>,
)
    requires
        width > 0,
        0 <= wire.0 < n,
        n + arith_shr_wires(shift, width).len() <= env.len(),
        n + arith_shr_wires(shift, width).len() <= usize::MAX,
        env[wire.0 as int] == Some(x),
        x.len() == width,
    ensures
        run(env, arith_shr_instrs(wire, shift, width, n)) matches Some(e) && e[arith_shr_out(
            wire,
            shift,
            width,
            n,
        ).0 as int] matches Some(y) && y.len() == width && signed_value(y) == signed_value(x) / (pow2(
            shift as nat,
        ) as int),
{
    if shift == 0 {
        let s = arith_shr_instrs(wire, shift, width, n);
        vstd::arithmetic::power2::lemma2_to64();
        assert(s =~= Seq::<InstrView>::empty());
        assert(run(env, s) == Some(env));
        lemma_fundamental_div_mod_converse(signed_value(x), 1, signed_value(x), 0);
    } else if shift >= width {
        lemma_arith_shr_wide(env, wire, shift, width, n, x);
    } else {
        lemma_arith_shr_narrow(env, wire, shift, width, n, x);
    }
}

/// The low `w` bits of a `u128` are worth the value modulo `2^w`.
pub proof fn lemma_u128_bits_value(value: u128, w: nat)
    requires
        w <= 128,
    ensures
        unsigned_value(u128_bits(value, w)) == value as nat % pow2(w),
    decreases w,
{
    if w == 0 {
        vstd::arithmetic::power2::lemma2_to64();
        assert(u128_bits(value, w) =~= Seq::<bool>::empty());
    } else {
        let k = (w - 1) as nat;
        lemma_u128_bits_value(value, k);
        assert(u128_bits(value, w).drop_last() =~= u128_bits(value, k));
        let sh = value >> (k as u128);
        vstd::bits::lemma_u128_shr_is_div(value, k as u128);
        assert(sh & 1u128 == sh % 2) by (bit_vector);
        lemma_pow2_pos(k);
        lemma_pow2_unfold(w);
        vstd::arithmetic::div_mod::lemma_mod_breakdown(value as int, pow2(k) as int, 2);
        assert(pow2(k) * 2 == pow2(w));
        let p = pow2(k) as int;
        let q = (value as int / p) % 2;
        assert(sh == value as int / p);
        assert(u128_bits(value, w).last() == (q == 1));
        assert(value as int % (p * 2) == p * q + value as int % p);
        if q == 1 {
            assert(p * q == p);
        } else {
            assert(q == 0);
            assert(p * q == 0) by (nonlinear_arith)
                requires
                    q == 0,
            ;
        }
    }
}

/// The `n`-bit two's-complement value congruent to `z` modulo `2^n`: what
/// an `n`-bit wire holds after wrap-around arithmetic produces `z`.
pub open spec fn wrap_signed(z: int, n: nat) -> int {
    let m = z % (pow2(n) as int);
    if m >= pow2((n - 1) as nat) {
        m - pow2(n)
    } else {
        m
    }
}

/// Values congruent modulo `2^n` wrap to the same `n`-bit value.
pub proof fn lemma_wrap_congruent(z: int, w: int, n: nat)
    requires
        z % (pow2(n) as int) == w % (pow2(n) as int),
    ensures
        wrap_signed(z, n) == wrap_signed(w, n),
{
}

/// A wrapped value lies in the `n`-bit signed range and is congruent to
/// what was wrapped.
pub proof fn lemma_wrap_range(z: int, n: nat)
    requires
        n > 0,
    ensures
        -pow2((n - 1) as nat) <= wrap_signed(z, n) < pow2((n - 1) as nat),
        wrap_signed(z, n) % (pow2(n) as int) == z % (pow2(n) as int),
{
    let p = pow2(n) as int;
    lemma_pow2_unfold(n);
    lemma_pow2_pos(n);
    let m = z % p;
    vstd::arithmetic::div_mod::lemma_mod_twice(z, p);
    if m >= pow2((n - 1) as nat) {
        vstd::arithmetic::div_mod::lemma_mod_multiples_vanish(-1, m, p);
    }
}

/// A value already in the `n`-bit signed range wraps to itself.
pub proof fn lemma_wrap_small(z: int, n: nat)
    requires
        n > 0,
        -pow2((n - 1) as nat) <= z < pow2((n - 1) as nat),
    ensures
        wrap_signed(z, n) == z,
{
    let p = pow2(n) as int;
    lemma_pow2_unfold(n);
    lemma_pow2_pos(n);
    if z >= 0 {
        vstd::arithmetic::div_mod::lemma_small_mod(z as nat, p as nat);
    } else {
        vstd::arithmetic::div_mod::lemma_mod_multiples_vanish(-1, z + p, p);
        vstd::arithmetic::div_mod::lemma_small_mod((z + p) as nat, p as nat);
    }
}

/// The signed value of a bit sequence is its unsigned value wrapped, and
/// the two are congruent modulo `2^len`.
pub proof fn lemma_signed_wraps_unsigned(b: Seq<bool>)
    requires
        b.len() > 0,
    ensures
        signed_value(b) == wrap_signed(unsigned_value(b) as int, b.len()),
        signed_value(b) % (pow2(b.len()) as int) == unsigned_value(b) as int % (pow2(b.len()) as int),
        signed_value(b) == wrap_signed(signed_value(b), b.len()),
{
    let n = b.len();
    let p = pow2(n) as int;
    let u = unsigned_value(b) as int;
    lemma_unsigned_bound(b);
    lemma_unsigned_bound(b.drop_last());
    lemma_pow2_unfold(n);
    vstd::arithmetic::div_mod::lemma_small_mod(u as nat, p as nat);
    if b.last() {
        vstd::arithmetic::div_mod::lemma_mod_multiples_vanish(-1, u, p);
    }
    lemma_signed_bounds(b);
    lemma_wrap_small(signed_value(b), n);
}

/// Wrap-around addition: adding two `n`-bit values modulo `2^n` gives the
/// wrapped sum of their signed values.
pub proof fn lemma_wrapping_add(a: Seq<bool>, b: Seq<bool>)
    requires
        0 < a.len() <= 128,
        a.len() == b.len(),
    ensures
        eval_bin(BinOp::Add, a, b) matches Some(r) && r.len() == a.len() && signed_value(r)
            == wrap_signed(signed_value(a) + signed_value(b), a.len()),
{
    let n = a.len();
    let p = pow2(n) as int;
    let ua = unsigned_value(a) as int;
    let ub = unsigned_value(b) as int;
    lemma_pow2_pos(n);
    vstd::arithmetic::power2::lemma2_to64();
    lemma_pow2_adds(64, 64);
    lemma_pow2_strictly_increases_or_eq(n, 128);
    let m = (ua + ub) % p;
    assert(0 <= m < p);
    let r = u128_bits(m as u128, n);
    lemma_u128_bits_value(m as u128, n);
    vstd::arithmetic::div_mod::lemma_mod_twice(ua + ub, p);
    lemma_signed_wraps_unsigned(a);
    lemma_signed_wraps_unsigned(b);
    lemma_signed_wraps_unsigned(r);
    vstd::arithmetic::div_mod::lemma_add_mod_noop(ua, ub, p);
    vstd::arithmetic::div_mod::lemma_add_mod_noop(signed_value(a), signed_value(b), p);
    let sa = signed_value(a);
    let sb = signed_value(b);
    vstd::arithmetic::div_mod::lemma_small_mod(m as nat, p as nat);
    assert(unsigned_value(r) == m);
    assert(signed_value(r) % p == m);
    assert((ua % p + ub % p) % p == m);
    assert((sa % p + sb % p) % p == (sa + sb) % p);
    lemma_wrap_congruent(signed_value(r), sa + sb, n);
}

/// `2^n <= 2^m` when `n <= m`.
proof fn lemma_pow2_strictly_increases_or_eq(n: nat, m: nat)
    requires
        n <= m,
    ensures
        pow2(n) <= pow2(m),
{
    if n < m {
        lemma_pow2_strictly_increases(n, m);
    }
}

/// Zero bits are worth zero.
pub proof fn lemma_unsigned_zero(n: nat)
    ensures
        unsigned_value(crate::hdl::common::zero_bits(n)) == 0,
        signed_value(crate::hdl::common::zero_bits(n)) == 0,
    decreases n,
{
    if n > 0 {
        lemma_unsigned_zero((n - 1) as nat);
        assert(crate::hdl::common::zero_bits(n).drop_last() =~= crate::hdl::common::zero_bits((n - 1) as nat));
    }
}

/// Casting an `i32` to `u32` adds `2^32` to a negative value.
pub proof fn lemma_i32_as_u32(v: i32)
    ensures
        (#[verifier::truncate] (v as u32)) as int == if v >= 0 {
            v as int
        } else {
            v as int + 0x1_0000_0000
        },
{
    #[verifier::truncate]
    let u = v as u32;
    assert(v >= 0 ==> u as i64 == v as i64) by (bit_vector)
        requires
            u == v as u32,
    ;
    assert(v < 0 ==> u as i64 == v as i64 + 0x1_0000_0000i64) by (bit_vector)
        requires
            u == v as u32,
    ;
}

/// The bits of an `i32` have its signed value.
pub proof fn lemma_i32_bits_signed(v: i32)
    ensures
        signed_value(i32_bits(v)) == v,
        i32_bits(v).len() == 32,
{
    #[verifier::truncate]
    let u = v as u32;
    let x = u as u128;
    assert(i32_bits(v) =~= u128_bits(x, 32)) by {
        assert forall|i: int| 0 <= i < 32 implies i32_bits(v)[i] == u128_bits(x, 32)[i] by {
            let k = i as u32;
            assert(((u >> k) & 1u32 == 1u32) == ((x >> (k as u128)) & 1u128 == 1u128)) by (bit_vector)
                requires
                    x == u as u128,
                    k < 32,
            ;
        }
    }
    vstd::arithmetic::power2::lemma2_to64();
    lemma_u128_bits_value(x, 32);
    vstd::arithmetic::div_mod::lemma_small_mod(x as nat, pow2(32));
    lemma_i32_as_u32(v);
    lemma_signed_wraps_unsigned(i32_bits(v));
    if v < 0 {
        vstd::arithmetic::div_mod::lemma_mod_multiples_vanish(1, v as int, pow2(32) as int);
    }
    lemma_wrap_congruent(x as int, v as int, 32);
    lemma_wrap_small(v as int, 32);
}

/// Wrap-around multiplication: the product of two `n`-bit values modulo
/// `2^n` is the wrapped product of their signed values.
pub proof fn lemma_wrapping_mul(a: Seq<bool>, b: Seq<bool>)
    requires
        0 < a.len() <= 128,
        a.len() == b.len(),
    ensures
        eval_bin(BinOp::Mul, a, b) matches Some(r) && r.len() == a.len() && signed_value(r)
            == wrap_signed(signed_value(a) * signed_value(b), a.len()),
{
    let n = a.len();
    let p = pow2(n) as int;
    let ua = unsigned_value(a) as int;
    let ub = unsigned_value(b) as int;
    lemma_pow2_pos(n);
    vstd::arithmetic::power2::lemma2_to64();
    lemma_pow2_adds(64, 64);
    lemma_pow2_strictly_increases_or_eq(n, 128);
    let m = (ua * ub) % p;
    assert(0 <= m < p);
    let r = u128_bits(m as u128, n);
    lemma_u128_bits_value(m as u128, n);
    lemma_signed_wraps_unsigned(a);
    lemma_signed_wraps_unsigned(b);
    lemma_signed_wraps_unsigned(r);
    let sa = signed_value(a);
    let sb = signed_value(b);
    vstd::arithmetic::div_mod::lemma_small_mod(m as nat, p as nat);
    vstd::arithmetic::div_mod::lemma_mul_mod_noop(ua, ub, p);
    vstd::arithmetic::div_mod::lemma_mul_mod_noop(sa, sb, p);
    assert(unsigned_value(r) == m);
    assert(signed_value(r) % p == m);
    assert((ua % p) * (ub % p) % p == m);
    assert((sa % p) * (sb % p) % p == (sa * sb) % p);
    lemma_wrap_congruent(signed_value(r), sa * sb, n);
}

/// The low `k` bits of a sequence hold its signed value wrapped to `k` bits.
pub proof fn lemma_low_bits_wrap(b: Seq<bool>, k: nat)
    requires
        0 < k <= b.len(),
    ensures
        signed_value(b.subrange(0, k as int)) == wrap_signed(signed_value(b), k),
{
    let lo = b.subrange(0, k as int);
    let hi = b.subrange(k as int, b.len() as int);
    assert(lo + hi =~= b);
    lemma_unsigned_concat(lo, hi);
    lemma_unsigned_bound(lo);
    let pk = pow2(k) as int;
    let pn = pow2(b.len()) as int;
    lemma_pow2_pos(k);
    lemma_pow2_adds(k, hi.len());
    let u = unsigned_value(b) as int;
    let ul = unsigned_value(lo) as int;
    vstd::arithmetic::div_mod::lemma_mod_multiples_vanish(unsigned_value(hi) as int, ul, pk);
    vstd::arithmetic::div_mod::lemma_small_mod(ul as nat, pk as nat);
    assert(u % pk == ul);
    lemma_signed_wraps_unsigned(lo);
    lemma_signed_wraps_unsigned(b);
    let sb = signed_value(b);
    // signed_value(b) differs from u by 0 or 2^len, a multiple of 2^k.
    if b.last() {
        assert(sb == u - pn);
        vstd::arithmetic::div_mod::lemma_mod_multiples_vanish(-(pow2(hi.len()) as int), u, pk);
        assert(pk * -(pow2(hi.len()) as int) + u == u - pn) by (nonlinear_arith)
            requires
                pn == pk * pow2(hi.len()),
        ;
    } else {
        assert(sb == u);
    }
    assert(sb % pk == ul % pk);
    lemma_wrap_congruent(ul, sb, k);
}

/// Every instruction of `s` writes a wire with index `n` or more.
pub open spec fn writes_from(s: Seq<InstrView>, n: int) -> bool {
    forall|k: int| 0 <= k < s.len() ==> (#[trigger] s[k]).output.0 >= n
}

/// Running instructions that write only wires from `n` on keeps the number
/// of wires and every wire below `n`.
pub proof fn lemma_run_frame(env: Seq<Option<Seq<bool>>>, s: Seq<InstrView>, n: int)
    requires
        writes_from(s, n),
    ensures
        run(env, s) matches Some(e) ==> e.len() == env.len() && forall|i: int|
            0 <= i < n && i < env.len() ==> #[trigger] e[i] == env[i],
    decreases s.len(),
{
    if s.len() > 0 {
        let sp = s.drop_last();
        assert(writes_from(sp, n)) by {
            assert forall|k: int| 0 <= k < sp.len() implies (#[trigger] sp[k]).output.0 >= n by {
                assert(sp[k] == s[k]);
            }
        }
        lemma_run_frame(env, sp, n);
        assert(s.last() == s[s.len() - 1]);
    }
}

/// A single instruction runs as one step.
pub proof fn lemma_run_single(env: Seq<Option<Seq<bool>>>, iv: InstrView)
    ensures
        run(env, seq![iv]) == step(env, iv),
{
    assert(seq![iv].drop_last() =~= Seq::<InstrView>::empty());
    assert(run(env, Seq::<InstrView>::empty()) == Some(env));
}

/// Wrap-around subtraction: subtracting two `n`-bit values modulo `2^n`
/// gives the wrapped difference of their signed values.
pub proof fn lemma_wrapping_sub(a: Seq<bool>, b: Seq<bool>)
    requires
        0 < a.len() <= 128,
        a.len() == b.len(),
    ensures
        eval_bin(BinOp::Sub, a, b) matches Some(r) && r.len() == a.len() && signed_value(r)
            == wrap_signed(signed_value(a) - signed_value(b), a.len()),
{
    let n = a.len();
    let p = pow2(n) as int;
    let ua = unsigned_value(a) as int;
    let ub = unsigned_value(b) as int;
    lemma_pow2_pos(n);
    vstd::arithmetic::power2::lemma2_to64();
    lemma_pow2_adds(64, 64);
    lemma_pow2_strictly_increases_or_eq(n, 128);
    let m = (ua - ub) % p;
    assert(0 <= m < p);
    let r = u128_bits(m as u128, n);
    lemma_u128_bits_value(m as u128, n);
    lemma_signed_wraps_unsigned(a);
    lemma_signed_wraps_unsigned(b);
    lemma_signed_wraps_unsigned(r);
    let sa = signed_value(a);
    let sb = signed_value(b);
    vstd::arithmetic::div_mod::lemma_small_mod(m as nat, p as nat);
    vstd::arithmetic::div_mod::lemma_sub_mod_noop(ua, ub, p);
    vstd::arithmetic::div_mod::lemma_sub_mod_noop(sa, sb, p);
    assert(unsigned_value(r) == m);
    assert(signed_value(r) % p == m);
    assert((ua % p - ub % p) % p == m);
    assert((sa % p - sb % p) % p == (sa - sb) % p);
    lemma_wrap_congruent(signed_value(r), sa - sb, n);
}

} // verus!
