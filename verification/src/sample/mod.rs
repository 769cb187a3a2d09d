//! Fixed-point sample types for DSP processing.

pub mod element;
pub mod format;
