//! Sequential cascade composition via descriptor composition.
//!
//! Composes a sequence of `BlockConfig` values into a single
//! `DspBlockDescriptor` by interpreting the full path of the
//! pipeline graph.

use vstd::prelude::*;

use crate::error::Error;
use crate::graph::pipeline_graph::{edge_range, full_pipeline_path, PipelineGraph};
use crate::interpret::descriptor::{flat, is_leaf, DspBlockDescriptor};
use crate::interpret::morphism::{
    config_ok, describes, interpret, interprets_as, kept_edges, same_config, BlockConfig,
    DspPipelineInterpretation,
};
use crate::interpret::signal::{BitWidth, FractionalBits};
use crate::sample::format::SampleFormat;

verus! {

/// `d` is the composition, in order, of the descriptors of `configs`,
/// block `i` at index `i`.
pub open spec fn cascade_of(configs: Seq<BlockConfig>, d: DspBlockDescriptor) -> bool {
    &&& d is Identity <==> configs.len() == 0
    &&& configs.len() == 1 ==> is_leaf(d)
    &&& flat(d).len() == configs.len()
    &&& forall|i: int| 0 <= i < configs.len() ==> describes(configs[i], i as usize, #[trigger] flat(d)[i])
}

/// A configuration describes the same descriptor as any copy of it.
proof fn lemma_describes_same_config(a: BlockConfig, b: BlockConfig, idx: usize, d: DspBlockDescriptor)
    requires
        same_config(a, b),
        describes(a, idx, d),
    ensures
        describes(b, idx, d),
{
}

/// Every edge of the range `0..n` is kept when there are `n` blocks.
proof fn lemma_kept_full_range(n: nat, k: int)
    requires
        0 <= k <= n,
        n <= usize::MAX,
    ensures
        kept_edges(edge_range(0, k), n) == edge_range(0, k),
    decreases k,
{
    if k > 0 {
        lemma_kept_full_range(n, k - 1);
        assert(edge_range(0, k).drop_last() =~= edge_range(0, k - 1));
        assert(edge_range(0, k - 1) + seq![edge_range(0, k).last()] =~= edge_range(0, k));
    } else {
        assert(edge_range(0, 0) =~= Seq::<usize>::empty());
    }
}

/// Copy a slice of configurations.
fn copy_configs(configs: &[BlockConfig]) -> (r: Vec<BlockConfig>)
    ensures
        r.len() == configs.len(),
        forall|i: int| 0 <= i < configs.len() ==> same_config(#[trigger] r@[i], configs@[i]),
{
    let mut out: Vec<BlockConfig> = Vec::new();
    let mut i: usize = 0;
    while i < configs.len()
        invariant
            i <= configs.len(),
            out.len() == i,
            forall|j: int| 0 <= j < i ==> same_config(#[trigger] out@[j], configs@[j]),
        decreases configs.len() - i,
    {
        out.push(configs[i].clone());
        i = i + 1;
    }
    out
}

/// Compose a sequence of block configs into a single descriptor via the
/// free category interpretation of the full pipeline path.
///
/// The result is `Identity` for no blocks, the single block's descriptor
/// for one block, and otherwise a `Composed` holding the descriptor of
/// each block in order, block `i` at index `i`.
pub fn cascade(configs: &[BlockConfig]) -> (r: Result<DspBlockDescriptor, Error>)
    requires
        forall|i: int| 0 <= i < configs.len() ==> config_ok(#[trigger] configs@[i]),
    ensures
        r matches Ok(d) && cascade_of(configs@, d),
{
    let graph = PipelineGraph::new(configs.len());
    let copies = copy_configs(configs);
    let interp = DspPipelineInterpretation::new(
        copies,
        SampleFormat::new(BitWidth::new(32), FractionalBits::new(15)),
    );
    let path = match full_pipeline_path(&graph) {
        Ok(p) => p,
        Err(e) => {
            return Err(Error::Graph(e));
        },
    };
    proof {
        assert forall|i: int| 0 <= i < path@.edges.len() implies interp.edge_ok(#[trigger] path@.edges[i]) by {
            assert(path@.edges[i] == i);
            lemma_describes_same_config_ok(interp.block_configs@[i], configs@[i]);
        }
        if path@.edges.len() == 0 {
            assert(crate::interpret::morphism::blocks_before(interp.block_configs@, 0) == 0);
            assert forall|k: int| 0 <= k <= 0 implies #[trigger] crate::interpret::morphism::rate_product(
                interp.block_configs@,
                k,
            ) <= usize::MAX by {}
        }
    }
    let d = interpret(&interp, &path);
    proof {
        let n = configs.len() as nat;
        lemma_kept_full_range(n, n as int);
        assert forall|i: int| 0 <= i < configs.len() implies describes(
            configs@[i],
            i as usize,
            #[trigger] flat(d)[i],
        ) by {
            assert(kept_edges(path@.edges, n)[i] == i);
            lemma_describes_same_config(interp.block_configs@[i], configs@[i], i as usize, flat(d)[i]);
        }
    }
    Ok(d)
}

/// Copies are equally fit to become descriptors.
proof fn lemma_describes_same_config_ok(a: BlockConfig, b: BlockConfig)
    requires
        same_config(a, b),
        config_ok(b),
    ensures
        config_ok(a),
{
}

/// Interpreting the full path of the pipeline graph of some blocks gives
/// their cascade.
pub proof fn lemma_full_interpretation_is_cascade(interp: DspPipelineInterpretation, r: DspBlockDescriptor)
    requires
        interp.block_configs@.len() <= usize::MAX,
        interprets_as(interp, edge_range(0, interp.block_configs@.len() as int), r),
    ensures
        cascade_of(interp.block_configs@, r),
{
    let n = interp.block_configs@.len();
    lemma_kept_full_range(n, n as int);
    assert forall|i: int| 0 <= i < n implies describes(interp.block_configs@[i], i as usize, #[trigger] flat(r)[i]) by {
        assert(edge_range(0, n as int)[i] == i);
    }
}

} // verus!
