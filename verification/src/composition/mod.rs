//! Pipeline composition operators: sequential cascade and parallel channels.

pub mod cascade;
pub mod parallel;
