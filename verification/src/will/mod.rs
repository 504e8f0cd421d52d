//! The will: evaluation of states and the certificates of the search.

pub mod evaluator;
pub mod tracer;
