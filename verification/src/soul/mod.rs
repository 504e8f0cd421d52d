//! The soul: the non-commutative arithmetic of definite quaternions and the
//! governance of the prime that defines the algebra.

pub mod algebra;
pub mod laws;
pub mod governor;
