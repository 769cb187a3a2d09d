//! Hardware IR construction of DSP blocks.
//!
//! Each block is a function returning a `RawDspBlock` built from pure IR
//! graph construction.  The composed pipeline chains blocks by folding
//! with `compose_raw`.

pub mod accumulator;
pub mod cic;
pub mod clocked;
pub mod common;
pub mod decimator;
pub mod delay;
pub mod eval;
pub mod fir;
pub mod gain;
pub mod interpolator;
pub mod ir;
pub mod pipeline;
pub mod raw;
