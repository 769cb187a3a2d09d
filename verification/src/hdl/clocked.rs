//! A block clocked cycle by cycle: each cycle the graph runs once on the
//! state and data inputs, and the next-state outputs become the state of
//! the following cycle.

use vstd::prelude::*;

use crate::hdl::eval::{read_wires, run};
use crate::hdl::ir::{instrs_view, WireId};
use crate::hdl::raw::RawDspBlock;

verus! {

/// The value wire `i` starts with when the wires `ws` are given the
/// values `vals`: that of the first of `ws` (from position `k` on) with
/// index `i`, or none.
pub open spec fn input_value(ws: Seq<WireId>, vals: Seq<Seq<bool>>, i: int, k: nat) -> Option<Seq<bool>>
    decreases ws.len() - k,
{
    if k >= ws.len() {
        None
    } else if ws[k as int].0 == i {
        Some(vals[k as int])
    } else {
        input_value(ws, vals, i, k + 1)
    }
}

/// The environment of a graph with `n` wires before any instruction runs:
/// the input wires `ws` hold `vals`, every other wire is unwritten.
pub open spec fn input_env(n: nat, ws: Seq<WireId>, vals: Seq<Seq<bool>>) -> Seq<Option<Seq<bool>>> {
    Seq::new(n, |i: int| input_value(ws, vals, i, 0))
}

/// One clock cycle of a block: given the value of each state wire and
/// each data input, the graph runs once; the result is the value of each
/// next-state output and each data output.
pub open spec fn block_cycle(b: RawDspBlock, state: Seq<Seq<bool>>, data: Seq<Seq<bool>>) -> Option<
    (Seq<Seq<bool>>, Seq<Seq<bool>>),
> {
    let ins = state + data;
    let sc = b.state_wire_count as int;
    if ins.len() != b.input_wires@.len() {
        None
    } else {
        match run(input_env(b.graph.wires@.len(), b.input_wires@, ins), instrs_view(b.graph.instructions@)) {
            Some(e) => match read_wires(e, b.output_wires@) {
                Some(outs) => if sc <= outs.len() {
                    Some((outs.subrange(0, sc), outs.subrange(sc, outs.len() as int)))
                } else {
                    None
                },
                None => None,
            },
            None => None,
        }
    }
}

/// A block clocked over a stream of data inputs from the given state: the
/// data outputs of each cycle, each cycle's next state carried into the
/// next cycle.
pub open spec fn block_stream(b: RawDspBlock, state: Seq<Seq<bool>>, inputs: Seq<Seq<Seq<bool>>>) -> Option<
    Seq<Seq<Seq<bool>>>,
>
    decreases inputs.len(),
{
    if inputs.len() == 0 {
        Some(Seq::empty())
    } else {
        match block_cycle(b, state, inputs[0]) {
            Some((next, out)) => match block_stream(b, next, inputs.drop_first()) {
                Some(rest) => Some(seq![out] + rest),
                None => None,
            },
            None => None,
        }
    }
}

/// Input wires listed in order from wire 0 bring their values in order:
/// the first value from position `k` on for wire `i`.
proof fn lemma_input_value_in_order(ws: Seq<WireId>, vals: Seq<Seq<bool>>, i: int, k: nat)
    requires
        forall|j: int| 0 <= j < ws.len() ==> (#[trigger] ws[j]).0 == j,
        k <= i,
    ensures
        input_value(ws, vals, i, k) == if i < ws.len() {
            Some(vals[i])
        } else {
            None::<Seq<bool>>
        },
    decreases ws.len() - k,
{
    if k < ws.len() && ws[k as int].0 != i {
        lemma_input_value_in_order(ws, vals, i, k + 1);
    }
}

/// When the input wires are wires `0, 1, ...` in order, the starting
/// environment holds the input values on those wires and nothing else.
pub proof fn lemma_input_env_in_order(n: nat, ws: Seq<WireId>, vals: Seq<Seq<bool>>)
    requires
        forall|j: int| 0 <= j < ws.len() ==> (#[trigger] ws[j]).0 == j,
    ensures
        input_env(n, ws, vals).len() == n,
        forall|i: int| 0 <= i < n ==> #[trigger] input_env(n, ws, vals)[i] == if i < ws.len() {
            Some(vals[i])
        } else {
            None::<Seq<bool>>
        },
{
    assert forall|i: int| 0 <= i < n implies #[trigger] input_env(n, ws, vals)[i] == if i < ws.len() {
        Some(vals[i])
    } else {
        None::<Seq<bool>>
    } by {
        lemma_input_value_in_order(ws, vals, i, 0);
    }
}

} // verus!
