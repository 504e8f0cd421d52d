//! The evaluators of the will. The energies themselves are real-valued
//! and computed outside this library; here stand the evaluators' data and
//! the exact unfolding that the rigorous evaluator checks.

use vstd::prelude::*;
use crate::soul::algebra::{IdealClass, Quat, mul_fits};
use crate::body::decoder::square_iter;
use crate::body::projection::{Projector, exact_digit};

verus! {

/// The intuitive evaluator: the energy of a state is its scalar part.
pub struct GeometricEvaluator;

/// The rigorous evaluator: unfolds a state into `action_count` proof
/// actions of `digits_per_action` exact digits each and checks them.
pub struct StpEvaluator {
    projector: Projector,
    action_count: usize,
    digits_per_action: usize,
}

/// Every squaring of the first `steps` steps of the unfolding stays within
/// `i64`.
pub open spec fn squarings_fit(q: Quat, steps: nat) -> bool {
    forall|k: nat| k < steps ==> mul_fits(#[trigger] square_iter(q, k), square_iter(q, k))
}

impl StpEvaluator {
    /// An evaluator that unfolds `action_count` actions of three digits.
    pub fn new(projector: Projector, action_count: usize) -> (e: Self)
        ensures
            e.base() == projector.p_base,
            e.action_count() == action_count,
            e.digits_per_action() == 3,
    {
        StpEvaluator { projector, action_count, digits_per_action: 3 }
    }

    pub closed spec fn base(&self) -> u64 {
        self.projector.p_base
    }

    pub closed spec fn action_count(&self) -> usize {
        self.action_count
    }

    pub closed spec fn digits_per_action(&self) -> usize {
        self.digits_per_action
    }

    /// The exact path the evaluator checks: digit `t` is the exact
    /// projection at time `t` of the state squared `t` times.
    pub fn exact_path(&self, state: &IdealClass) -> (path: Vec<u64>)
        requires
            self.base() > 0,
            self.action_count() * self.digits_per_action() <= usize::MAX,
            squarings_fit(state.value@, (self.action_count() * self.digits_per_action()) as nat),
        ensures
            path@.len() == self.action_count() * self.digits_per_action(),
            forall|t: int|
                0 <= t < path@.len() ==> #[trigger] path@[t] == exact_digit(
                    square_iter(state.value@, t as nat),
                    t as u64,
                    self.base(),
                ),
    {
        let total_digits = self.action_count * self.digits_per_action;
        let mut current_state = *state;
        let mut path: Vec<u64> = Vec::new();
        let mut t: usize = 0;
        while t < total_digits
            invariant
                total_digits == self.action_count() * self.digits_per_action(),
                self.base() > 0,
                t <= total_digits,
                squarings_fit(state.value@, total_digits as nat),
                current_state.value@ == square_iter(state.value@, t as nat),
                path@.len() == t,
                forall|t2: int|
                    0 <= t2 < t ==> #[trigger] path@[t2] == exact_digit(
                        square_iter(state.value@, t2 as nat),
                        t2 as u64,
                        self.base(),
                    ),
            decreases total_digits - t,
        {
            path.push(self.projector.project_exact(&current_state, t as u64));
            proof {
                assert(mul_fits(
                    square_iter(state.value@, t as nat),
                    square_iter(state.value@, t as nat),
                ));
            }
            current_state = current_state.apply_hecke(&current_state.value);
            t = t + 1;
        }
        path
    }
}

} // verus!
