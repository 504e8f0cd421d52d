//! Evolver: an algebraic logic generator over the definite quaternion
//! algebra B_{p, inf}, with the soul (algebra), the will (search and
//! governance) and the body (projection into logic) kept apart.

pub mod soul;
pub mod body;
pub mod dsl;
pub mod will;
