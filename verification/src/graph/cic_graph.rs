//! CIC filter internal FSM graph: cascaded integrators, decimation check,
//! then cascaded combs.

use vstd::prelude::*;

use crate::free_category::{path_along, walk, Edge, FreeCategoryError, Graph, Path, PathView, Vertex};

verus! {

/// Number of vertices in the graph.
pub const CIC_VERTICES: usize = 7;

/// Number of edges in the graph.
pub const CIC_EDGES: usize = 8;

/// Edge table: `(source, target)` of each in-range edge.
pub open spec fn spec_edge(k: usize) -> (usize, usize) {
    match k {
        0 => (0, 1),
        1 => (1, 2),
        2 => (2, 1),
        3 => (2, 3),
        4 => (3, 4),
        5 => (4, 5),
        6 => (5, 4),
        7 => (5, 6),
        _ => (0, 0),
    }
}

/// Look up an edge in the edge table.
fn edge_endpoints(k: usize) -> (r: Option<(usize, usize)>)
    ensures
        k < CIC_EDGES ==> r == Some(spec_edge(k)),
        k >= CIC_EDGES ==> r is None,
{
    match k {
        0 => Some((0, 1)),
        1 => Some((1, 2)),
        2 => Some((2, 1)),
        3 => Some((2, 3)),
        4 => Some((3, 4)),
        5 => Some((4, 5)),
        6 => Some((5, 4)),
        7 => Some((5, 6)),
        _ => None,
    }
}

/// The internal FSM graph.
#[derive(Debug, Clone, Copy)]
pub struct CicGraph;

impl Graph for CicGraph {
    open spec fn spec_vertex_count(&self) -> nat {
        CIC_VERTICES as nat
    }

    open spec fn spec_edge_count(&self) -> usize {
        CIC_EDGES
    }

    open spec fn spec_source(&self, e: usize) -> usize {
        spec_edge(e).0
    }

    open spec fn spec_target(&self, e: usize) -> usize {
        spec_edge(e).1
    }

    fn vertex_count(&self) -> (r: usize) {
        CIC_VERTICES
    }

    fn edge_count(&self) -> (r: usize) {
        CIC_EDGES
    }

    fn source(&self, edge: Edge) -> (r: Result<Vertex, FreeCategoryError>) {
        match edge_endpoints(edge.index()) {
            Some((s, _)) => Ok(Vertex::new(s)),
            None => Err(FreeCategoryError::EdgeOutOfBounds { edge, count: CIC_EDGES }),
        }
    }

    fn target(&self, edge: Edge) -> (r: Result<Vertex, FreeCategoryError>) {
        match edge_endpoints(edge.index()) {
            Some((_, t)) => Ok(Vertex::new(t)),
            None => Err(FreeCategoryError::EdgeOutOfBounds { edge, count: CIC_EDGES }),
        }
    }
}

/// The single-sample path without loops:
/// Input -> Integrate -> CheckInt -> Decimate -> Comb -> CheckComb -> Output.
pub fn single_pass_path() -> (r: Result<Path, FreeCategoryError>)
    ensures
        r matches Ok(p) && p@ == (PathView { source: 0, edges: seq![0usize, 1usize, 3usize, 4usize, 5usize, 7usize], target: 6 }),
{
    let g = CicGraph;
    let edges: [usize; 6] = [0usize, 1usize, 3usize, 4usize, 5usize, 7usize];
    let r = path_along(&g, Vertex::new(0), edges.as_slice());
    proof {
        assert(edges@ == seq![0usize, 1usize, 3usize, 4usize, 5usize, 7usize]);
        assert(seq![0usize].drop_last() =~= Seq::<usize>::empty());
        assert(walk(g, 0, Seq::<usize>::empty()) == Ok::<PathView, FreeCategoryError>(
            PathView { source: 0, edges: Seq::<usize>::empty(), target: 0 },
        ));
        assert(seq![0usize].last() == 0usize);
        assert(walk(g, 0, seq![0usize]) == Ok::<PathView, FreeCategoryError>(
            PathView { source: 0, edges: Seq::<usize>::empty().push(0usize), target: 1 },
        ));
        assert(Seq::<usize>::empty().push(0usize) =~= seq![0usize]);
        assert(seq![0usize, 1usize].drop_last() =~= seq![0usize]);
        assert(seq![0usize, 1usize].last() == 1usize);
        assert(walk(g, 0, seq![0usize, 1usize]) == Ok::<PathView, FreeCategoryError>(
            PathView { source: 0, edges: seq![0usize].push(1usize), target: 2 },
        ));
        assert(seq![0usize].push(1usize) =~= seq![0usize, 1usize]);
        assert(seq![0usize, 1usize, 3usize].drop_last() =~= seq![0usize, 1usize]);
        assert(seq![0usize, 1usize, 3usize].last() == 3usize);
        assert(walk(g, 0, seq![0usize, 1usize, 3usize]) == Ok::<PathView, FreeCategoryError>(
            PathView { source: 0, edges: seq![0usize, 1usize].push(3usize), target: 3 },
        ));
        assert(seq![0usize, 1usize].push(3usize) =~= seq![0usize, 1usize, 3usize]);
        assert(seq![0usize, 1usize, 3usize, 4usize].drop_last() =~= seq![0usize, 1usize, 3usize]);
        assert(seq![0usize, 1usize, 3usize, 4usize].last() == 4usize);
        assert(walk(g, 0, seq![0usize, 1usize, 3usize, 4usize]) == Ok::<PathView, FreeCategoryError>(
            PathView { source: 0, edges: seq![0usize, 1usize, 3usize].push(4usize), target: 4 },
        ));
        assert(seq![0usize, 1usize, 3usize].push(4usize) =~= seq![0usize, 1usize, 3usize, 4usize]);
        assert(seq![0usize, 1usize, 3usize, 4usize, 5usize].drop_last() =~= seq![0usize, 1usize, 3usize, 4usize]);
        assert(seq![0usize, 1usize, 3usize, 4usize, 5usize].last() == 5usize);
        assert(walk(g, 0, seq![0usize, 1usize, 3usize, 4usize, 5usize]) == Ok::<PathView, FreeCategoryError>(
            PathView { source: 0, edges: seq![0usize, 1usize, 3usize, 4usize].push(5usize), target: 5 },
        ));
        assert(seq![0usize, 1usize, 3usize, 4usize].push(5usize) =~= seq![0usize, 1usize, 3usize, 4usize, 5usize]);
        assert(seq![0usize, 1usize, 3usize, 4usize, 5usize, 7usize].drop_last() =~= seq![0usize, 1usize, 3usize, 4usize, 5usize]);
        assert(seq![0usize, 1usize, 3usize, 4usize, 5usize, 7usize].last() == 7usize);
        assert(walk(g, 0, seq![0usize, 1usize, 3usize, 4usize, 5usize, 7usize]) == Ok::<PathView, FreeCategoryError>(
            PathView { source: 0, edges: seq![0usize, 1usize, 3usize, 4usize, 5usize].push(7usize), target: 6 },
        ));
        assert(seq![0usize, 1usize, 3usize, 4usize, 5usize].push(7usize) =~= seq![0usize, 1usize, 3usize, 4usize, 5usize, 7usize]);
    }
    r
}

/// The integrator loop sub-path: CheckInt -> Integrate -> CheckInt.
pub fn integrator_loop_path() -> (r: Result<Path, FreeCategoryError>)
    ensures
        r matches Ok(p) && p@ == (PathView { source: 2, edges: seq![2usize, 1usize], target: 2 }),
{
    let g = CicGraph;
    let edges: [usize; 2] = [2usize, 1usize];
    let r = path_along(&g, Vertex::new(2), edges.as_slice());
    proof {
        assert(edges@ == seq![2usize, 1usize]);
        assert(seq![2usize].drop_last() =~= Seq::<usize>::empty());
        assert(walk(g, 2, Seq::<usize>::empty()) == Ok::<PathView, FreeCategoryError>(
            PathView { source: 2, edges: Seq::<usize>::empty(), target: 2 },
        ));
        assert(seq![2usize].last() == 2usize);
        assert(walk(g, 2, seq![2usize]) == Ok::<PathView, FreeCategoryError>(
            PathView { source: 2, edges: Seq::<usize>::empty().push(2usize), target: 1 },
        ));
        assert(Seq::<usize>::empty().push(2usize) =~= seq![2usize]);
        assert(seq![2usize, 1usize].drop_last() =~= seq![2usize]);
        assert(seq![2usize, 1usize].last() == 1usize);
        assert(walk(g, 2, seq![2usize, 1usize]) == Ok::<PathView, FreeCategoryError>(
            PathView { source: 2, edges: seq![2usize].push(1usize), target: 2 },
        ));
        assert(seq![2usize].push(1usize) =~= seq![2usize, 1usize]);
    }
    r
}

/// The comb loop sub-path: CheckComb -> Comb -> CheckComb.
pub fn comb_loop_path() -> (r: Result<Path, FreeCategoryError>)
    ensures
        r matches Ok(p) && p@ == (PathView { source: 5, edges: seq![6usize, 5usize], target: 5 }),
{
    let g = CicGraph;
    let edges: [usize; 2] = [6usize, 5usize];
    let r = path_along(&g, Vertex::new(5), edges.as_slice());
    proof {
        assert(edges@ == seq![6usize, 5usize]);
        assert(seq![6usize].drop_last() =~= Seq::<usize>::empty());
        assert(walk(g, 5, Seq::<usize>::empty()) == Ok::<PathView, FreeCategoryError>(
            PathView { source: 5, edges: Seq::<usize>::empty(), target: 5 },
        ));
        assert(seq![6usize].last() == 6usize);
        assert(walk(g, 5, seq![6usize]) == Ok::<PathView, FreeCategoryError>(
            PathView { source: 5, edges: Seq::<usize>::empty().push(6usize), target: 4 },
        ));
        assert(Seq::<usize>::empty().push(6usize) =~= seq![6usize]);
        assert(seq![6usize, 5usize].drop_last() =~= seq![6usize]);
        assert(seq![6usize, 5usize].last() == 5usize);
        assert(walk(g, 5, seq![6usize, 5usize]) == Ok::<PathView, FreeCategoryError>(
            PathView { source: 5, edges: seq![6usize].push(5usize), target: 5 },
        ));
        assert(seq![6usize].push(5usize) =~= seq![6usize, 5usize]);
    }
    r
}

} // verus!
