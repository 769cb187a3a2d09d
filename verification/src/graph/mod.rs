//! Free category graphs for DSP block FSMs and pipeline topology.

pub mod cic_graph;
pub mod fir_graph;
pub mod pipeline_graph;
