//! Free categories over directed graphs: vertices, edges, paths.
//!
//! Objects are the vertices of a graph, morphisms are directed paths
//! (including the empty path), composition is path concatenation.

use vstd::prelude::*;

use crate::text::{decimal, framed_decimal, join, usize_to_decimal};

verus! {

/// A vertex identifier in a graph.
#[derive(Debug, Clone, Copy, PartialEq, Eq, Hash, Structural)]
pub struct Vertex(pub usize);

impl Vertex {
    /// Create a new vertex identifier.
    pub fn new(index: usize) -> (r: Self)
        ensures
            r.0 == index,
    {
        Vertex(index)
    }

    /// The underlying index.
    pub fn index(self) -> (r: usize)
        ensures
            r == self.0,
    {
        self.0
    }
}

/// An edge identifier in a graph.
#[derive(Debug, Clone, Copy, PartialEq, Eq, Hash, Structural)]
pub struct Edge(pub usize);

impl Edge {
    /// Create a new edge identifier.
    pub fn new(index: usize) -> (r: Self)
        ensures
            r.0 == index,
    {
        Edge(index)
    }

    /// The underlying index.
    pub fn index(self) -> (r: usize)
        ensures
            r == self.0,
    {
        self.0
    }
}

/// Errors arising from free category operations.
#[derive(Debug, Clone, Copy, PartialEq, Eq, Structural)]
pub enum FreeCategoryError {
    /// An edge index was out of bounds.
    EdgeOutOfBounds { edge: Edge, count: usize },
    /// A vertex index was out of bounds.
    VertexOutOfBounds { vertex: Vertex, count: usize },
    /// Path composition failed: target of first path does not match source of second.
    CompositionMismatch { target: Vertex, source: Vertex },
}

/// A directed graph: the generating data for a free category.
pub trait Graph {
    /// The number of vertices.
    spec fn spec_vertex_count(&self) -> nat;

    /// The number of edges.
    spec fn spec_edge_count(&self) -> usize;

    /// The source vertex of an in-range edge.
    spec fn spec_source(&self, e: usize) -> usize;

    /// The target vertex of an in-range edge.
    spec fn spec_target(&self, e: usize) -> usize;

    /// The number of vertices.
    fn vertex_count(&self) -> (r: usize)
        requires
            self.spec_vertex_count() <= usize::MAX,
        ensures
            r == self.spec_vertex_count(),
    ;

    /// The number of edges.
    fn edge_count(&self) -> (r: usize)
        ensures
            r == self.spec_edge_count(),
    ;

    /// The source vertex of an edge; `EdgeOutOfBounds` for an edge not in the graph.
    fn source(&self, edge: Edge) -> (r: Result<Vertex, FreeCategoryError>)
        ensures
            edge.0 < self.spec_edge_count() ==> r == Ok::<Vertex, FreeCategoryError>(
                Vertex(self.spec_source(edge.0)),
            ),
            edge.0 >= self.spec_edge_count() ==> r == Err::<Vertex, FreeCategoryError>(
                FreeCategoryError::EdgeOutOfBounds { edge, count: self.spec_edge_count() },
            ),
    ;

    /// The target vertex of an edge; `EdgeOutOfBounds` for an edge not in the graph.
    fn target(&self, edge: Edge) -> (r: Result<Vertex, FreeCategoryError>)
        ensures
            edge.0 < self.spec_edge_count() ==> r == Ok::<Vertex, FreeCategoryError>(
                Vertex(self.spec_target(edge.0)),
            ),
            edge.0 >= self.spec_edge_count() ==> r == Err::<Vertex, FreeCategoryError>(
                FreeCategoryError::EdgeOutOfBounds { edge, count: self.spec_edge_count() },
            ),
    ;
}

/// The abstract content of a path: its endpoints and its edge indices.
pub ghost struct PathView {
    pub source: usize,
    pub edges: Seq<usize>,
    pub target: usize,
}

/// A path in the free category: a morphism from `source` to `target`.
///
/// The empty path (no edges) is the identity morphism.
pub struct Path {
    source: Vertex,
    edges: Vec<Edge>,
    target: Vertex,
}

/// The indices of a sequence of edges.
pub open spec fn edge_indices(s: Seq<Edge>) -> Seq<usize> {
    s.map_values(|e: Edge| e.0)
}

impl View for Path {
    type V = PathView;

    closed spec fn view(&self) -> PathView {
        PathView { source: self.source.0, edges: edge_indices(self.edges@), target: self.target.0 }
    }
}

impl Path {
    /// The identity path on a vertex (empty path).
    pub fn identity(v: Vertex) -> (p: Self)
        ensures
            p@ == (PathView { source: v.0, edges: Seq::<usize>::empty(), target: v.0 }),
    {
        let p = Path { source: v, edges: Vec::new(), target: v };
        assert(p@.edges =~= Seq::<usize>::empty());
        p
    }

    /// A path consisting of a single edge; `EdgeOutOfBounds` for an edge not in the graph.
    pub fn singleton<G: Graph>(graph: &G, edge: Edge) -> (r: Result<Self, FreeCategoryError>)
        ensures
            edge.0 < graph.spec_edge_count() ==> (r matches Ok(p) && p@ == (PathView {
                source: graph.spec_source(edge.0),
                edges: seq![edge.0],
                target: graph.spec_target(edge.0),
            })),
            edge.0 >= graph.spec_edge_count() ==> (r matches Err(e) && e
                == (FreeCategoryError::EdgeOutOfBounds { edge, count: graph.spec_edge_count() })),
    {
        let src = match graph.source(edge) {
            Ok(v) => v,
            Err(e) => {
                return Err(e);
            },
        };
        let tgt = match graph.target(edge) {
            Ok(v) => v,
            Err(e) => {
                return Err(e);
            },
        };
        let mut edges = Vec::new();
        edges.push(edge);
        let p = Path { source: src, edges, target: tgt };
        assert(p@.edges =~= seq![edge.0]);
        Ok(p)
    }

    /// The source vertex of this path.
    pub fn source(&self) -> (r: Vertex)
        ensures
            r.0 == self@.source,
    {
        self.source
    }

    /// The target vertex of this path.
    pub fn target(&self) -> (r: Vertex)
        ensures
            r.0 == self@.target,
    {
        self.target
    }

    /// The edges in this path.
    pub fn edges(&self) -> (r: &[Edge])
        ensures
            edge_indices(r@) == self@.edges,
    {
        self.edges.as_slice()
    }

    /// The length of this path (number of edges).
    pub fn len(&self) -> (r: usize)
        ensures
            r == self@.edges.len(),
    {
        self.edges.len()
    }

    /// Whether this path is empty (the identity morphism).
    pub fn is_empty(&self) -> (r: bool)
        ensures
            r == (self@.edges.len() == 0),
    {
        self.edges.len() == 0
    }

    /// Whether this is the identity (empty) path.
    pub fn is_identity(&self) -> (r: bool)
        ensures
            r == (self@.edges.len() == 0),
    {
        self.is_empty()
    }

    /// Compose two paths: `self` followed by `other`.
    ///
    /// `CompositionMismatch` when the target of `self` is not the source of `other`.
    pub fn compose(self, other: Self) -> (r: Result<Self, FreeCategoryError>)
        ensures
            self@.target == other@.source ==> (r matches Ok(p) && p@ == (PathView {
                source: self@.source,
                edges: self@.edges + other@.edges,
                target: other@.target,
            })),
            self@.target != other@.source ==> (r matches Err(e) && e
                == (FreeCategoryError::CompositionMismatch {
                target: Vertex(self@.target),
                source: Vertex(other@.source),
            })),
    {
        if self.target == other.source {
            let ghost e1 = self.edges@;
            let ghost e2 = other.edges@;
            let Path { source, edges: mut first, target: _ } = self;
            let Path { source: _, edges: mut second, target } = other;
            first.append(&mut second);
            let p = Path { source, edges: first, target };
            assert(edge_indices(e1 + e2) =~= edge_indices(e1) + edge_indices(e2));
            Ok(p)
        } else {
            Err(FreeCategoryError::CompositionMismatch { target: self.target, source: other.source })
        }
    }
}

/// Path composition is associative and the empty path is neutral on the view level.
pub proof fn lemma_path_views_compose_associative(a: PathView, b: PathView, c: PathView)
    ensures
        (a.edges + b.edges) + c.edges == a.edges + (b.edges + c.edges),
        a.edges + Seq::<usize>::empty() == a.edges,
        Seq::<usize>::empty() + a.edges == a.edges,
{
    assert((a.edges + b.edges) + c.edges =~= a.edges + (b.edges + c.edges));
    assert(a.edges + Seq::<usize>::empty() =~= a.edges);
    assert(Seq::<usize>::empty() + a.edges =~= a.edges);
}

/// Walk a graph from `start` along the given edges, one singleton path
/// composed after another: the first edge not in the graph, or the first
/// edge that does not start where the walk stands, is the error.
pub open spec fn walk<G: Graph>(g: G, start: usize, es: Seq<usize>) -> Result<PathView, FreeCategoryError>
    decreases es.len(),
{
    if es.len() == 0 {
        Ok(PathView { source: start, edges: Seq::empty(), target: start })
    } else {
        match walk(g, start, es.drop_last()) {
            Ok(p) => {
                let e = es.last();
                if e >= g.spec_edge_count() {
                    Err(FreeCategoryError::EdgeOutOfBounds { edge: Edge(e), count: g.spec_edge_count() })
                } else if p.target != g.spec_source(e) {
                    Err(FreeCategoryError::CompositionMismatch {
                        target: Vertex(p.target),
                        source: Vertex(g.spec_source(e)),
                    })
                } else {
                    Ok(PathView { source: p.source, edges: p.edges.push(e), target: g.spec_target(e) })
                }
            },
            Err(err) => Err(err),
        }
    }
}

/// The view of a path result.
pub open spec fn path_result_view(r: Result<Path, FreeCategoryError>) -> Result<PathView, FreeCategoryError> {
    match r {
        Ok(p) => Ok(p@),
        Err(e) => Err(e),
    }
}

/// Build the path from `start` along the given edges by composing singleton paths.
pub fn path_along<G: Graph>(graph: &G, start: Vertex, edges: &[usize]) -> (r: Result<Path, FreeCategoryError>)
    ensures
        path_result_view(r) == walk(*graph, start.0, edges@),
{
    let mut acc = Path::identity(start);
    let mut i: usize = 0;
    assert(edges@.subrange(0, 0) =~= Seq::<usize>::empty());
    while i < edges.len()
        invariant
            i <= edges.len(),
            walk(*graph, start.0, edges@.subrange(0, i as int)) == Ok::<PathView, FreeCategoryError>(acc@),
        decreases edges.len() - i,
    {
        let ghost pre = edges@.subrange(0, i + 1);
        assert(pre.drop_last() =~= edges@.subrange(0, i as int));
        let single = match Path::singleton(graph, Edge::new(edges[i])) {
            Ok(p) => p,
            Err(e) => {
                proof {
                    lemma_walk_error_persists(*graph, start.0, edges@, i + 1);
                }
                return Err(e);
            },
        };
        acc = match acc.compose(single) {
            Ok(p) => p,
            Err(e) => {
                proof {
                    lemma_walk_error_persists(*graph, start.0, edges@, i + 1);
                }
                return Err(e);
            },
        };
        assert(acc@.edges =~= walk(*graph, start.0, pre)->Ok_0.edges);
        i = i + 1;
    }
    assert(edges@.subrange(0, edges@.len() as int) =~= edges@);
    Ok(acc)
}

/// Once a walk fails on a prefix, it fails the same way on the whole sequence.
pub proof fn lemma_walk_error_persists<G: Graph>(g: G, start: usize, es: Seq<usize>, k: int)
    requires
        0 <= k <= es.len(),
        walk(g, start, es.subrange(0, k)) is Err,
    ensures
        walk(g, start, es) == walk(g, start, es.subrange(0, k)),
    decreases es.len() - k,
{
    if k == es.len() {
        assert(es.subrange(0, k) =~= es);
    } else {
        let t = es.subrange(0, k + 1);
        assert(t.drop_last() =~= es.subrange(0, k));
        lemma_walk_error_persists(g, start, es, k + 1);
    }
}

/// The text form of a free-category error.
pub open spec fn free_category_error_text(e: FreeCategoryError) -> Seq<char> {
    match e {
        FreeCategoryError::EdgeOutOfBounds { edge, count } => "edge index "@ + decimal(edge.0 as nat)
            + " out of bounds (count: "@ + decimal(count as nat) + ")"@,
        FreeCategoryError::VertexOutOfBounds { vertex, count } => "vertex index "@ + decimal(vertex.0 as nat)
            + " out of bounds (count: "@ + decimal(count as nat) + ")"@,
        FreeCategoryError::CompositionMismatch { target, source } => "composition mismatch: target vertex "@
            + decimal(target.0 as nat) + " != source vertex "@ + decimal(source.0 as nat),
    }
}

impl FreeCategoryError {
    /// The text form of this error.
    pub fn to_string(&self) -> (s: String)
        ensures
            s@ == free_category_error_text(*self),
    {
        match self {
            FreeCategoryError::EdgeOutOfBounds { edge, count } => {
                let s = framed_decimal("edge index ", edge.0, " out of bounds (count: ");
                join(join(s, usize_to_decimal(*count).as_str()), ")")
            },
            FreeCategoryError::VertexOutOfBounds { vertex, count } => {
                let s = framed_decimal("vertex index ", vertex.0, " out of bounds (count: ");
                join(join(s, usize_to_decimal(*count).as_str()), ")")
            },
            FreeCategoryError::CompositionMismatch { target, source } => {
                let s = framed_decimal("composition mismatch: target vertex ", target.0, " != source vertex ");
                join(s, usize_to_decimal(source.0).as_str())
            },
        }
    }
}

} // verus!
