//! Top-level pipeline topology graph.
//!
//! A linear chain of DSP blocks: N+1 vertices (inter-block boundaries)
//! connected by N edges (DSP blocks).  Edge k connects vertex k to
//! vertex k+1.

use vstd::prelude::*;

use crate::free_category::{Edge, FreeCategoryError, Graph, Path, PathView, Vertex};

verus! {

/// A linear pipeline graph with `block_count` edges.
///
/// Vertex k represents the signal boundary after k processing blocks.
/// Edge k represents the k-th DSP block.
#[derive(Debug, Clone, Copy)]
pub struct PipelineGraph {
    pub block_count: usize,
}

impl PipelineGraph {
    /// Create a pipeline graph with the given number of blocks.
    pub fn new(block_count: usize) -> (r: Self)
        ensures
            r.block_count == block_count,
    {
        PipelineGraph { block_count }
    }

    /// The number of blocks (edges) in this pipeline.
    pub fn block_count(&self) -> (r: usize)
        ensures
            r == self.block_count,
    {
        self.block_count
    }
}

impl Graph for PipelineGraph {
    open spec fn spec_vertex_count(&self) -> nat {
        (self.block_count + 1) as nat
    }

    open spec fn spec_edge_count(&self) -> usize {
        self.block_count
    }

    open spec fn spec_source(&self, e: usize) -> usize {
        e
    }

    open spec fn spec_target(&self, e: usize) -> usize {
        (e + 1) as usize
    }

    fn vertex_count(&self) -> (r: usize) {
        self.block_count + 1
    }

    fn edge_count(&self) -> (r: usize) {
        self.block_count
    }

    fn source(&self, edge: Edge) -> (r: Result<Vertex, FreeCategoryError>) {
        if edge.index() < self.block_count {
            Ok(Vertex::new(edge.index()))
        } else {
            Err(FreeCategoryError::EdgeOutOfBounds { edge, count: self.block_count })
        }
    }

    fn target(&self, edge: Edge) -> (r: Result<Vertex, FreeCategoryError>) {
        if edge.index() < self.block_count {
            Ok(Vertex::new(edge.index() + 1))
        } else {
            Err(FreeCategoryError::EdgeOutOfBounds { edge, count: self.block_count })
        }
    }
}

/// The edges `start, start + 1, ..., end - 1`.
pub open spec fn edge_range(start: int, end: int) -> Seq<usize> {
    Seq::new((end - start) as nat, |i: int| (start + i) as usize)
}

/// Build the full pipeline path through all blocks, from vertex 0 to
/// vertex `block_count`.
pub fn full_pipeline_path(graph: &PipelineGraph) -> (r: Result<Path, FreeCategoryError>)
    ensures
        r matches Ok(p) && p@ == (PathView {
            source: 0,
            edges: edge_range(0, graph.block_count as int),
            target: graph.block_count,
        }),
{
    sub_pipeline_path(graph, 0, graph.block_count())
}

/// Build a sub-pipeline path from block `start` to block `end` (exclusive).
///
/// An empty range gives the identity path at `start`.  Otherwise the
/// first edge index not in the graph, if any, is reported as
/// `EdgeOutOfBounds`.
pub fn sub_pipeline_path(graph: &PipelineGraph, start: usize, end: usize) -> (r: Result<
    Path,
    FreeCategoryError,
>)
    ensures
        (start >= end || end <= graph.block_count) ==> (r matches Ok(p) && p@ == (PathView {
            source: start,
            edges: edge_range(start as int, if start < end { end as int } else { start as int }),
            target: if start < end { end } else { start },
        })),
        (start < end && end > graph.block_count) ==> (r matches Err(e) && e
            == (FreeCategoryError::EdgeOutOfBounds {
            edge: Edge(if start > graph.block_count { start } else { graph.block_count }),
            count: graph.block_count,
        })),
{
    let mut acc = Path::identity(Vertex::new(start));
    assert(acc@.edges =~= edge_range(start as int, start as int));
    if start >= end {
        return Ok(acc);
    }
    let mut k: usize = start;
    while k < end
        invariant
            start < end,
            start <= k <= end,
            k <= graph.block_count || k == start,
            acc@ == (PathView { source: start, edges: edge_range(start as int, k as int), target: k }),
        decreases end - k,
    {
        let single = match Path::singleton(graph, Edge::new(k)) {
            Ok(p) => p,
            Err(e) => {
                return Err(e);
            },
        };
        acc = match acc.compose(single) {
            Ok(p) => p,
            Err(e) => {
                return Err(e);
            },
        };
        assert(acc@.edges =~= edge_range(start as int, k + 1));
        k = k + 1;
    }
    Ok(acc)
}

/// Consecutive sub-pipeline paths compose to the path over the whole range:
/// the edges of `start..mid` followed by those of `mid..end` are the edges of `start..end`.
pub proof fn lemma_sub_paths_compose(start: int, mid: int, end: int)
    requires
        start <= mid <= end,
    ensures
        edge_range(start, mid) + edge_range(mid, end) == edge_range(start, end),
{
    assert(edge_range(start, mid) + edge_range(mid, end) =~= edge_range(start, end));
}

} // verus!
