//! Pipeline interpretation: descriptors, newtypes, and graph morphisms.

pub mod descriptor;
pub mod morphism;
pub mod signal;
