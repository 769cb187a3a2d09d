//! Pure golden reference models for all DSP blocks.

pub mod accumulator;
pub mod cic;
pub mod decimator;
pub mod delay;
pub mod fir;
pub mod gain;
pub mod interpolator;
pub mod pipeline;
