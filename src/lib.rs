//! Staff shift rostering: a fitness evaluator that scores a roster against
//! personal constraints and operational targets, and an evolutionary driver
//! that searches for a high-scoring roster.
use vstd::prelude::*;

pub mod constraints;
pub mod fitness;
pub mod ranking;
mod entropy;
pub mod evolution;
pub mod laws;
