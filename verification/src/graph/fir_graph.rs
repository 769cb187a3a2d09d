//! FIR filter internal FSM graph: idle, load, shift, multiply-accumulate
//! over all taps, check, output.

use vstd::prelude::*;

use crate::free_category::{path_along, walk, Edge, FreeCategoryError, Graph, Path, PathView, Vertex};

verus! {

/// Number of vertices in the graph.
pub const FIR_VERTICES: usize = 6;

/// Number of edges in the graph.
pub const FIR_EDGES: usize = 7;

/// Edge table: `(source, target)` of each in-range edge.
pub open spec fn spec_edge(k: usize) -> (usize, usize) {
    match k {
        0 => (0, 1),
        1 => (1, 2),
        2 => (2, 3),
        3 => (3, 4),
        4 => (4, 2),
        5 => (4, 5),
        6 => (5, 0),
        _ => (0, 0),
    }
}

/// Look up an edge in the edge table.
fn edge_endpoints(k: usize) -> (r: Option<(usize, usize)>)
    ensures
        k < FIR_EDGES ==> r == Some(spec_edge(k)),
        k >= FIR_EDGES ==> r is None,
{
    match k {
        0 => Some((0, 1)),
        1 => Some((1, 2)),
        2 => Some((2, 3)),
        3 => Some((3, 4)),
        4 => Some((4, 2)),
        5 => Some((4, 5)),
        6 => Some((5, 0)),
        _ => None,
    }
}

/// The internal FSM graph.
#[derive(Debug, Clone, Copy)]
pub struct FirGraph;

impl Graph for FirGraph {
    open spec fn spec_vertex_count(&self) -> nat {
        FIR_VERTICES as nat
    }

    open spec fn spec_edge_count(&self) -> usize {
        FIR_EDGES
    }

    open spec fn spec_source(&self, e: usize) -> usize {
        spec_edge(e).0
    }

    open spec fn spec_target(&self, e: usize) -> usize {
        spec_edge(e).1
    }

    fn vertex_count(&self) -> (r: usize) {
        FIR_VERTICES
    }

    fn edge_count(&self) -> (r: usize) {
        FIR_EDGES
    }

    fn source(&self, edge: Edge) -> (r: Result<Vertex, FreeCategoryError>) {
        match edge_endpoints(edge.index()) {
            Some((s, _)) => Ok(Vertex::new(s)),
            None => Err(FreeCategoryError::EdgeOutOfBounds { edge, count: FIR_EDGES }),
        }
    }

    fn target(&self, edge: Edge) -> (r: Result<Vertex, FreeCategoryError>) {
        match edge_endpoints(edge.index()) {
            Some((_, t)) => Ok(Vertex::new(t)),
            None => Err(FreeCategoryError::EdgeOutOfBounds { edge, count: FIR_EDGES }),
        }
    }
}

/// The single-sample processing path without the MAC loop:
/// Idle -> Load -> Shift -> Mac -> Check -> Output -> Idle.
pub fn single_pass_path() -> (r: Result<Path, FreeCategoryError>)
    ensures
        r matches Ok(p) && p@ == (PathView { source: 0, edges: seq![0usize, 1usize, 2usize, 3usize, 5usize, 6usize], target: 0 }),
{
    let g = FirGraph;
    let edges: [usize; 6] = [0usize, 1usize, 2usize, 3usize, 5usize, 6usize];
    let r = path_along(&g, Vertex::new(0), edges.as_slice());
    proof {
        assert(edges@ == seq![0usize, 1usize, 2usize, 3usize, 5usize, 6usize]);
        assert(seq![0usize].drop_last() =~= Seq::<usize>::empty());
        assert(walk(g, 0, Seq::<usize>::empty()) == Ok::<PathView, FreeCategoryError>(
            PathView { source: 0, edges: Seq::<usize>::empty(), target: 0 },
        ));
        assert(seq![0usize].last() == 0usize);
        assert(walk(g, 0, seq![0usize]) == Ok::<PathView, FreeCategoryError>(
            PathView { source: 0, edges: Seq::<usize>::empty().push(0usize), target: 1 },
        ));
        assert(Seq::<usize>::empty().push(0usize) =~= seq![0usize]);
        assert(seq![0usize, 1usize].drop_last() =~= seq![0usize]);
        assert(seq![0usize, 1usize].last() == 1usize);
        assert(walk(g, 0, seq![0usize, 1usize]) == Ok::<PathView, FreeCategoryError>(
            PathView { source: 0, edges: seq![0usize].push(1usize), target: 2 },
        ));
        assert(seq![0usize].push(1usize) =~= seq![0usize, 1usize]);
        assert(seq![0usize, 1usize, 2usize].drop_last() =~= seq![0usize, 1usize]);
        assert(seq![0usize, 1usize, 2usize].last() == 2usize);
        assert(walk(g, 0, seq![0usize, 1usize, 2usize]) == Ok::<PathView, FreeCategoryError>(
            PathView { source: 0, edges: seq![0usize, 1usize].push(2usize), target: 3 },
        ));
        assert(seq![0usize, 1usize].push(2usize) =~= seq![0usize, 1usize, 2usize]);
        assert(seq![0usize, 1usize, 2usize, 3usize].drop_last() =~= seq![0usize, 1usize, 2usize]);
        assert(seq![0usize, 1usize, 2usize, 3usize].last() == 3usize);
        assert(walk(g, 0, seq![0usize, 1usize, 2usize, 3usize]) == Ok::<PathView, FreeCategoryError>(
            PathView { source: 0, edges: seq![0usize, 1usize, 2usize].push(3usize), target: 4 },
        ));
        assert(seq![0usize, 1usize, 2usize].push(3usize) =~= seq![0usize, 1usize, 2usize, 3usize]);
        assert(seq![0usize, 1usize, 2usize, 3usize, 5usize].drop_last() =~= seq![0usize, 1usize, 2usize, 3usize]);
        assert(seq![0usize, 1usize, 2usize, 3usize, 5usize].last() == 5usize);
        assert(walk(g, 0, seq![0usize, 1usize, 2usize, 3usize, 5usize]) == Ok::<PathView, FreeCategoryError>(
            PathView { source: 0, edges: seq![0usize, 1usize, 2usize, 3usize].push(5usize), target: 5 },
        ));
        assert(seq![0usize, 1usize, 2usize, 3usize].push(5usize) =~= seq![0usize, 1usize, 2usize, 3usize, 5usize]);
        assert(seq![0usize, 1usize, 2usize, 3usize, 5usize, 6usize].drop_last() =~= seq![0usize, 1usize, 2usize, 3usize, 5usize]);
        assert(seq![0usize, 1usize, 2usize, 3usize, 5usize, 6usize].last() == 6usize);
        assert(walk(g, 0, seq![0usize, 1usize, 2usize, 3usize, 5usize, 6usize]) == Ok::<PathView, FreeCategoryError>(
            PathView { source: 0, edges: seq![0usize, 1usize, 2usize, 3usize, 5usize].push(6usize), target: 0 },
        ));
        assert(seq![0usize, 1usize, 2usize, 3usize, 5usize].push(6usize) =~= seq![0usize, 1usize, 2usize, 3usize, 5usize, 6usize]);
    }
    r
}

/// The MAC loop sub-path: Check -> Shift -> Mac -> Check.
pub fn mac_loop_path() -> (r: Result<Path, FreeCategoryError>)
    ensures
        r matches Ok(p) && p@ == (PathView { source: 4, edges: seq![4usize, 2usize, 3usize], target: 4 }),
{
    let g = FirGraph;
    let edges: [usize; 3] = [4usize, 2usize, 3usize];
    let r = path_along(&g, Vertex::new(4), edges.as_slice());
    proof {
        assert(edges@ == seq![4usize, 2usize, 3usize]);
        assert(seq![4usize].drop_last() =~= Seq::<usize>::empty());
        assert(walk(g, 4, Seq::<usize>::empty()) == Ok::<PathView, FreeCategoryError>(
            PathView { source: 4, edges: Seq::<usize>::empty(), target: 4 },
        ));
        assert(seq![4usize].last() == 4usize);
        assert(walk(g, 4, seq![4usize]) == Ok::<PathView, FreeCategoryError>(
            PathView { source: 4, edges: Seq::<usize>::empty().push(4usize), target: 2 },
        ));
        assert(Seq::<usize>::empty().push(4usize) =~= seq![4usize]);
        assert(seq![4usize, 2usize].drop_last() =~= seq![4usize]);
        assert(seq![4usize, 2usize].last() == 2usize);
        assert(walk(g, 4, seq![4usize, 2usize]) == Ok::<PathView, FreeCategoryError>(
            PathView { source: 4, edges: seq![4usize].push(2usize), target: 3 },
        ));
        assert(seq![4usize].push(2usize) =~= seq![4usize, 2usize]);
        assert(seq![4usize, 2usize, 3usize].drop_last() =~= seq![4usize, 2usize]);
        assert(seq![4usize, 2usize, 3usize].last() == 3usize);
        assert(walk(g, 4, seq![4usize, 2usize, 3usize]) == Ok::<PathView, FreeCategoryError>(
            PathView { source: 4, edges: seq![4usize, 2usize].push(3usize), target: 4 },
        ));
        assert(seq![4usize, 2usize].push(3usize) =~= seq![4usize, 2usize, 3usize]);
    }
    r
}

} // verus!
