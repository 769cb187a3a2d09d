//! Configuration of a behavioral pipeline simulation.

use vstd::prelude::*;

use crate::interpret::descriptor::DspBlockDescriptor;
use crate::sample::element::Sample;

verus! {

/// Configuration for a behavioral pipeline simulation: the input samples
/// and the pipeline descriptor they are fed through.
#[derive(Debug, Clone)]
pub struct SimConfig {
    pub input: Vec<Sample>,
    pub descriptor: DspBlockDescriptor,
}

impl SimConfig {
    /// Create a simulation configuration.
    pub fn new(input: Vec<Sample>, descriptor: DspBlockDescriptor) -> (r: Self)
        ensures
            r == (SimConfig { input, descriptor }),
    {
        SimConfig { input, descriptor }
    }

    /// The input samples.
    pub fn input(&self) -> (r: &[Sample])
        ensures
            r@ == self.input@,
    {
        self.input.as_slice()
    }

    /// The pipeline descriptor.
    pub fn descriptor(&self) -> (r: &DspBlockDescriptor)
        ensures
            *r == self.descriptor,
    {
        &self.descriptor
    }
}

} // verus!
