use dsp_cat::free_category::{Edge, FreeCategoryError, Graph, Vertex};
use dsp_cat::graph::cic_graph::{self, CicGraph, CIC_EDGES, CIC_VERTICES};
use dsp_cat::graph::fir_graph::{self, FirGraph, FIR_EDGES, FIR_VERTICES};
use dsp_cat::graph::pipeline_graph::{full_pipeline_path, sub_pipeline_path, PipelineGraph};

// ---- CIC graph ----

#[test]
fn cic_graph_graph_has_correct_dimensions() {
    let g = CicGraph;
    assert_eq!(g.vertex_count(), CIC_VERTICES);
    assert_eq!(g.edge_count(), CIC_EDGES);
}

#[test]
fn cic_graph_all_edges_have_valid_endpoints() -> Result<(), FreeCategoryError> {
    let g = CicGraph;
    (0..CIC_EDGES).try_for_each(|k| {
        let s = g.source(Edge::new(k))?;
        let t = g.target(Edge::new(k))?;
        assert!(s.index() < CIC_VERTICES);
        assert!(t.index() < CIC_VERTICES);
        Ok(())
    })
}

#[test]
fn cic_graph_out_of_bounds_edge_is_error() {
    let g = CicGraph;
    assert!(g.source(Edge::new(CIC_EDGES)).is_err());
}

#[test]
fn single_pass_goes_input_to_output() -> Result<(), FreeCategoryError> {
    let path = cic_graph::single_pass_path()?;
    assert_eq!(path.source().index(), 0);
    assert_eq!(path.target().index(), 6);
    Ok(())
}

#[test]
fn integrator_loop_is_round_trip() -> Result<(), FreeCategoryError> {
    let path = cic_graph::integrator_loop_path()?;
    assert_eq!(path.source().index(), 2);
    assert_eq!(path.target().index(), 2);
    Ok(())
}

#[test]
fn comb_loop_is_round_trip() -> Result<(), FreeCategoryError> {
    let path = cic_graph::comb_loop_path()?;
    assert_eq!(path.source().index(), 5);
    assert_eq!(path.target().index(), 5);
    Ok(())
}

#[test]
fn cic_graph_out_of_bounds_reports_edge_and_count() {
    let g = CicGraph;
    assert_eq!(
        g.target(Edge::new(9)),
        Err(FreeCategoryError::EdgeOutOfBounds {
            edge: Edge::new(9),
            count: CIC_EDGES
        })
    );
}

// ---- FIR graph ----

#[test]
fn fir_graph_graph_has_correct_dimensions() {
    let g = FirGraph;
    assert_eq!(g.vertex_count(), FIR_VERTICES);
    assert_eq!(g.edge_count(), FIR_EDGES);
}

#[test]
fn fir_graph_all_edges_have_valid_endpoints() -> Result<(), FreeCategoryError> {
    let g = FirGraph;
    (0..FIR_EDGES).try_for_each(|k| {
        let s = g.source(Edge::new(k))?;
        let t = g.target(Edge::new(k))?;
        assert!(s.index() < FIR_VERTICES);
        assert!(t.index() < FIR_VERTICES);
        Ok(())
    })
}

#[test]
fn fir_graph_out_of_bounds_edge_is_error() {
    let g = FirGraph;
    assert!(g.source(Edge::new(FIR_EDGES)).is_err());
}

#[test]
fn single_pass_is_round_trip() -> Result<(), FreeCategoryError> {
    let path = fir_graph::single_pass_path()?;
    assert_eq!(path.source().index(), 0);
    assert_eq!(path.target().index(), 0);
    Ok(())
}

#[test]
fn mac_loop_starts_and_ends_at_check() -> Result<(), FreeCategoryError> {
    let path = fir_graph::mac_loop_path()?;
    assert_eq!(path.source().index(), 4);
    assert_eq!(path.target().index(), 4);
    Ok(())
}

// ---- pipeline graph ----

#[test]
fn zero_blocks_has_one_vertex() {
    let g = PipelineGraph::new(0);
    assert_eq!(g.vertex_count(), 1);
    assert_eq!(g.edge_count(), 0);
}

#[test]
fn edge_connects_adjacent_vertices() -> Result<(), FreeCategoryError> {
    let g = PipelineGraph::new(5);
    (0..5).try_for_each(|k| {
        let s = g.source(Edge::new(k))?;
        let t = g.target(Edge::new(k))?;
        assert_eq!(s.index(), k);
        assert_eq!(t.index(), k + 1);
        Ok(())
    })
}

#[test]
fn pipeline_graph_out_of_bounds_edge_is_error() {
    let g = PipelineGraph::new(3);
    assert!(g.source(Edge::new(3)).is_err());
    assert!(g.target(Edge::new(5)).is_err());
}

#[test]
fn full_path_spans_all_blocks() -> Result<(), FreeCategoryError> {
    let g = PipelineGraph::new(4);
    let path = full_pipeline_path(&g)?;
    assert_eq!(path.source().index(), 0);
    assert_eq!(path.target().index(), 4);
    assert_eq!(path.len(), 4);
    Ok(())
}

#[test]
fn sub_path_spans_range() -> Result<(), FreeCategoryError> {
    let g = PipelineGraph::new(6);
    let path = sub_pipeline_path(&g, 2, 5)?;
    assert_eq!(path.source().index(), 2);
    assert_eq!(path.target().index(), 5);
    assert_eq!(path.len(), 3);
    Ok(())
}

#[test]
fn empty_pipeline_full_path_is_identity() -> Result<(), FreeCategoryError> {
    let g = PipelineGraph::new(0);
    let path = full_pipeline_path(&g)?;
    assert!(path.is_identity());
    Ok(())
}

#[test]
fn sub_paths_compose_to_full() -> Result<(), FreeCategoryError> {
    let g = PipelineGraph::new(6);
    let left = sub_pipeline_path(&g, 0, 3)?;
    let right = sub_pipeline_path(&g, 3, 6)?;
    let composed = left.compose(right)?;
    let full = full_pipeline_path(&g)?;
    assert_eq!(composed.source(), full.source());
    assert_eq!(composed.target(), full.target());
    assert_eq!(composed.len(), full.len());
    Ok(())
}

#[test]
fn sub_path_past_the_end_is_error() {
    let g = PipelineGraph::new(3);
    assert_eq!(
        sub_pipeline_path(&g, 1, 4).err(),
        Some(FreeCategoryError::EdgeOutOfBounds {
            edge: Edge::new(3),
            count: 3
        })
    );
}

#[test]
fn empty_sub_path_is_identity_at_start() -> Result<(), FreeCategoryError> {
    let g = PipelineGraph::new(3);
    let path = sub_pipeline_path(&g, 2, 2)?;
    assert!(path.is_identity());
    assert_eq!(path.source().index(), 2);
    Ok(())
}

#[test]
fn mismatched_paths_do_not_compose() -> Result<(), FreeCategoryError> {
    let g = PipelineGraph::new(6);
    let left = sub_pipeline_path(&g, 0, 2)?;
    let right = sub_pipeline_path(&g, 3, 6)?;
    assert_eq!(
        left.compose(right).err(),
        Some(FreeCategoryError::CompositionMismatch {
            target: Vertex::new(2),
            source: Vertex::new(3)
        })
    );
    Ok(())
}

#[test]
fn free_category_error_text() {
    let e = FreeCategoryError::EdgeOutOfBounds {
        edge: Edge::new(7),
        count: 3,
    };
    assert_eq!(e.to_string(), "edge index 7 out of bounds (count: 3)");
    let e = FreeCategoryError::CompositionMismatch {
        target: Vertex::new(2),
        source: Vertex::new(3),
    };
    assert_eq!(e.to_string(), "composition mismatch: target vertex 2 != source vertex 3");
}

#[test]
fn path_composition_is_associative() -> Result<(), FreeCategoryError> {
    let g = PipelineGraph::new(6);
    let a = || sub_pipeline_path(&g, 0, 2);
    let b = || sub_pipeline_path(&g, 2, 3);
    let c = || sub_pipeline_path(&g, 3, 6);
    let left = a()?.compose(b()?)?.compose(c()?)?;
    let right = a()?.compose(b()?.compose(c()?)?)?;
    assert_eq!(left.edges(), right.edges());
    assert_eq!(left.source(), right.source());
    assert_eq!(left.target(), right.target());
    let with_identity = left.compose(dsp_cat::free_category::Path::identity(Vertex::new(6)))?;
    assert_eq!(with_identity.edges(), right.edges());
    Ok(())
}
