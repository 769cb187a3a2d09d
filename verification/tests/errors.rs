use dsp_cat::error::{empty_coefficients_error, zero_order_error, Error};
use dsp_cat::free_category::{Edge, FreeCategoryError, Vertex};
use dsp_cat::hdl::ir::IrError;

#[test]
fn error_text_forms() {
    assert_eq!(Error::Sample("bad".to_string()).to_string(), "sample error: bad");
    assert_eq!(Error::Fir("x".to_string()).to_string(), "FIR error: x");
    assert_eq!(Error::Cic("y".to_string()).to_string(), "CIC error: y");
    assert_eq!(Error::Simulation("z".to_string()).to_string(), "simulation error: z");
    assert_eq!(Error::InvalidRateFactor { factor: 3 }.to_string(), "invalid rate factor: 3");
    assert_eq!(Error::EmptyPipeline.to_string(), "pipeline has no blocks");
}

#[test]
fn mismatch_error_text() {
    let e = Error::VerificationMismatch {
        block_index: 2,
        sample_index: 7,
        expected: -4,
        actual: 9,
    };
    assert_eq!(
        e.to_string(),
        "verification mismatch at block 2, sample 7: expected -4, got 9"
    );
}

#[test]
fn nested_error_text() {
    let g = Error::Graph(FreeCategoryError::VertexOutOfBounds {
        vertex: Vertex::new(5),
        count: 2,
    });
    assert_eq!(g.to_string(), "graph error: vertex index 5 out of bounds (count: 2)");
    let h = Error::Hdl(IrError::TypeMismatch {
        expected: 3,
        actual: 0,
    });
    assert_eq!(h.to_string(), "HDL error: type mismatch: expected 3 inputs, got 0 inputs");
    let e = Error::Graph(FreeCategoryError::EdgeOutOfBounds {
        edge: Edge::new(1),
        count: 0,
    });
    assert_eq!(e.to_string(), "graph error: edge index 1 out of bounds (count: 0)");
}

#[test]
fn configuration_error_messages() {
    assert!(matches!(empty_coefficients_error(), Error::Fir(ref m) if m == "empty coefficient set"));
    assert!(matches!(zero_order_error(), Error::Cic(ref m) if m == "order must be at least 1"));
}
