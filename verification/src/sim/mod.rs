//! Behavioral simulation configuration.

pub mod runner;
