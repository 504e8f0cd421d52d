//! The body: materialization of the algebraic state into logic, by exact
//! projection of the state into digits and adaptation of digits into proof
//! actions, and the topological guard on clouds of projected states.

pub mod adapter;
pub mod projection;
pub mod decoder;
pub mod topology;
pub mod skeleton;
pub mod homology;
pub mod row_space;
pub mod simplices;
