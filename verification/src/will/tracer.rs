//! Proof of evolution: replaying the perturbations of an optimization
//! trace through the system's dynamics.

use vstd::prelude::*;

verus! {

/// The verifier of optimization traces.
pub struct TraceVerifier;

/// `states` is a replay of `perturbations` under `dynamics`: each state is
/// the outcome the dynamics gives for the previous state and perturbation.
pub open spec fn is_replay<S, P, F: Fn(&S, &P) -> Option<S>>(
    dynamics: F,
    states: Seq<S>,
    perturbations: Seq<P>,
) -> bool {
    &&& states.len() == perturbations.len() + 1
    &&& forall|k: int|
        0 <= k < perturbations.len() ==> #[trigger] dynamics.ensures(
            (&states[k], &perturbations[k]),
            Some(states[k + 1]),
        )
}

/// `states` replays the first `step` perturbations from `initial`, and the
/// dynamics reject perturbation `step` in the last of them.
pub open spec fn rejected_at<S, P, F: Fn(&S, &P) -> Option<S>>(
    dynamics: F,
    initial: S,
    states: Seq<S>,
    perturbations: Seq<P>,
    step: int,
) -> bool {
    &&& is_replay(dynamics, states, perturbations.take(step))
    &&& states[0] == initial
    &&& dynamics.ensures((&states.last(), &perturbations[step]), None)
}

impl TraceVerifier {
    /// Replays the evolution from `initial` through `perturbations`: `Ok`
    /// with the final state when every step is valid, `Err(step)` with the
    /// first step at which the dynamics reject the perturbation.
    pub fn replay<S, P, F: Fn(&S, &P) -> Option<S>>(
        initial: S,
        perturbations: &Vec<P>,
        dynamics: F,
    ) -> (r: Result<S, usize>)
        requires
            forall|s: &S, p: &P| #[trigger] dynamics.requires((s, p)),
        ensures
            r matches Ok(last) ==> exists|states: Seq<S>|
                #[trigger] is_replay(dynamics, states, perturbations@) && states[0] == initial
                    && states.last() == last,
            r matches Err(step) ==> step < perturbations@.len(),
            r is Err ==> exists|states: Seq<S>|
                #[trigger] rejected_at(dynamics, initial, states, perturbations@, r->Err_0 as int),
    {
        let mut current = initial;
        let ghost mut states: Seq<S> = seq![initial];
        let mut i: usize = 0;
        while i < perturbations.len()
            invariant
                forall|s: &S, p: &P| #[trigger] dynamics.requires((s, p)),
                i <= perturbations@.len(),
                is_replay(dynamics, states, perturbations@.take(i as int)),
                states[0] == initial,
                states.last() == current,
            decreases perturbations@.len() - i,
        {
            let step = dynamics(&current, &perturbations[i]);
            assert(dynamics.ensures((&current, &perturbations@[i as int]), step));
            match step {
                Some(next) => {
                    proof {
                        let old_states = states;
                        states = states.push(next);
                        let pre = perturbations@.take(i as int);
                        let post = perturbations@.take(i + 1);
                        assert forall|k: int| 0 <= k < post.len() implies #[trigger] dynamics.ensures(
                            (&states[k], &post[k]),
                            Some(states[k + 1]),
                        ) by {
                            if k < pre.len() {
                                assert(states[k] == old_states[k] && states[k + 1] == old_states[k + 1]);
                                assert(post[k] == pre[k]);
                            } else {
                                assert(states[k] == current && states[k + 1] == next);
                                assert(post[k] == perturbations@[i as int]);
                            }
                        }
                    }
                    current = next;
                },
                None => {
                    let ghost w = states;
                    let r: Result<S, usize> = Err(i);
                    proof {
                        assert(is_replay(dynamics, w, perturbations@.take(i as int)));
                        assert(w[0] == initial);
                        assert(dynamics.ensures((&w.last(), &perturbations@[i as int]), None));
                        assert(rejected_at(dynamics, initial, w, perturbations@, i as int));
                        assert(r->Err_0 == i);
                        assert(exists|states: Seq<S>|
                            #[trigger] rejected_at(dynamics, initial, states, perturbations@, r->Err_0 as int));
                    }
                    return r;
                },
            }
            i = i + 1;
        }
        proof {
            assert(perturbations@.take(i as int) =~= perturbations@);
            assert(is_replay(dynamics, states, perturbations@));
        }
        Ok(current)
    }
}

} // verus!
