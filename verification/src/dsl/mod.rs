//! The logic kernel: compilation of logical text into constraints and the
//! numeric predicates the kernel checks.

pub mod math_kernel;
pub mod stp_bridge;
