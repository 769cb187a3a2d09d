//! Composable DSP signal processing pipeline with verified golden models.

pub mod composition;
pub mod error;
pub mod free_category;
pub mod golden;
pub mod graph;
pub mod hdl;
pub mod interpret;
pub mod sample;
pub mod sim;
pub mod text;
