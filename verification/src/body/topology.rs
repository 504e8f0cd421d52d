//! The topological guard: Betti numbers of the Vietoris-Rips complex of a
//! cloud of projected states, computed from its 1-skeleton, and the energy
//! penalty for a topology that differs from the target.

use vstd::prelude::*;

verus! {

/// The layout of a v-PuNN decision path: its depth and the base of its
/// digits.
pub struct VPuNNConfig {
    pub depth: usize,
    pub p_base: u64,
}

/// The algebraic-topological features of a point cloud at one scale.
#[derive(Debug, Clone, Copy, PartialEq, Eq, Structural)]
pub struct TopologicalSignature {
    /// Betti-0: the number of connected components.
    pub betti_0: usize,
    /// Betti-1: the number of independent one-dimensional holes.
    pub betti_1: usize,
}

pub open spec fn abs_diff(x: int, y: int) -> int {
    if x >= y {
        x - y
    } else {
        y - x
    }
}

/// The topology penalty 10 |db0| + 100 |db1|.
pub open spec fn spec_topology_penalty(
    current: TopologicalSignature,
    target: TopologicalSignature,
) -> int {
    10 * abs_diff(current.betti_0 as int, target.betti_0 as int) + 100 * abs_diff(
        current.betti_1 as int,
        target.betti_1 as int,
    )
}

/// The energy penalty for the current topology against the target: 10 per
/// connected component of difference and 100 per hole of difference, the
/// latter marking a change of the logical structure itself.
pub fn topology_penalty(
    sig_current: &TopologicalSignature,
    sig_target: &TopologicalSignature,
) -> (penalty: u128)
    ensures
        penalty == spec_topology_penalty(*sig_current, *sig_target),
{
    let diff_b0: u128 = if sig_current.betti_0 >= sig_target.betti_0 {
        (sig_current.betti_0 - sig_target.betti_0) as u128
    } else {
        (sig_target.betti_0 - sig_current.betti_0) as u128
    };
    let diff_b1: u128 = if sig_current.betti_1 >= sig_target.betti_1 {
        (sig_current.betti_1 - sig_target.betti_1) as u128
    } else {
        (sig_target.betti_1 - sig_current.betti_1) as u128
    };
    10 * diff_b0 + 100 * diff_b1
}

} // verus!

verus! {

/// The topology penalty vanishes exactly on equal signatures and does not
/// depend on which signature is the target.
pub proof fn lemma_topology_penalty_metric(a: TopologicalSignature, b: TopologicalSignature)
    ensures
        spec_topology_penalty(a, b) == spec_topology_penalty(b, a),
        spec_topology_penalty(a, b) >= 0,
        spec_topology_penalty(a, b) == 0 <==> a == b,
{
}

/// The penalty's weights: a signature that differs from the target by one
/// component only costs 10; one that differs by one hole only costs 100.
pub proof fn lemma_topology_penalty_unit_costs(b0: usize, b1: usize)
    ensures
        b0 < usize::MAX ==> spec_topology_penalty(
            (TopologicalSignature { betti_0: (b0 + 1) as usize, betti_1: b1 }),
            (TopologicalSignature { betti_0: b0, betti_1: b1 }),
        ) == 10,
        b1 < usize::MAX ==> spec_topology_penalty(
            (TopologicalSignature { betti_0: b0, betti_1: (b1 + 1) as usize }),
            (TopologicalSignature { betti_0: b0, betti_1: b1 }),
        ) == 100,
{
}

/// The penalty adds up: it is the cost of the components' difference plus
/// the cost of the holes' difference, and along either Betti number the
/// cost of a difference is the sum of the costs of its steps.
pub proof fn lemma_topology_penalty_additive(a: TopologicalSignature, b: TopologicalSignature, x: usize, y: usize, z: usize)
    ensures
        spec_topology_penalty(a, b) == spec_topology_penalty(
            (TopologicalSignature { betti_0: a.betti_0, betti_1: b.betti_1 }),
            b,
        ) + spec_topology_penalty((TopologicalSignature { betti_0: b.betti_0, betti_1: a.betti_1 }), b),
        x <= y <= z ==> spec_topology_penalty(
            (TopologicalSignature { betti_0: x, betti_1: a.betti_1 }),
            (TopologicalSignature { betti_0: z, betti_1: a.betti_1 }),
        ) == spec_topology_penalty(
            (TopologicalSignature { betti_0: x, betti_1: a.betti_1 }),
            (TopologicalSignature { betti_0: y, betti_1: a.betti_1 }),
        ) + spec_topology_penalty(
            (TopologicalSignature { betti_0: y, betti_1: a.betti_1 }),
            (TopologicalSignature { betti_0: z, betti_1: a.betti_1 }),
        ),
        x <= y <= z ==> spec_topology_penalty(
            (TopologicalSignature { betti_0: a.betti_0, betti_1: x }),
            (TopologicalSignature { betti_0: a.betti_0, betti_1: z }),
        ) == spec_topology_penalty(
            (TopologicalSignature { betti_0: a.betti_0, betti_1: x }),
            (TopologicalSignature { betti_0: a.betti_0, betti_1: y }),
        ) + spec_topology_penalty(
            (TopologicalSignature { betti_0: a.betti_0, betti_1: y }),
            (TopologicalSignature { betti_0: a.betti_0, betti_1: z }),
        ),
{
}

} // verus!
