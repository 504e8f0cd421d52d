//! The bridge from logical text to the semi-tensor-product representation.

use vstd::prelude::*;

verus! {

/// The bridge that compiles logic into its STP representation.
pub struct StpBridge;

impl StpBridge {
    /// Compiles a logical string into its list of axiom definitions: the
    /// whole text is one axiom.
    pub fn compile(logic: &str) -> (axioms: Vec<String>)
        ensures
            axioms@.len() == 1,
            axioms@[0]@ == logic@,
    {
        let mut axioms = Vec::new();
        axioms.push(logic.to_owned());
        axioms
    }
}

} // verus!
