//! Path materialization: unfolding an algebraic seed into a decision path
//! by projecting and then squaring the state, layer after layer.

use vstd::prelude::*;
use crate::soul::algebra::{IdealClass, Quat, q_mul, mul_fits};
use crate::body::projection::{Projector, exact_digit, project_to_digit};
use crate::body::topology::VPuNNConfig;

verus! {

/// The state after `k` self-compositions S -> S * S.
pub open spec fn square_iter(q: Quat, k: nat) -> Quat
    decreases k,
{
    if k == 0 {
        q
    } else {
        q_mul(square_iter(q, (k - 1) as nat), square_iter(q, (k - 1) as nat))
    }
}

/// Every self-composition of the unfolding of `depth` layers stays within
/// `i64`.
pub open spec fn unfolding_fits(q: Quat, depth: nat) -> bool {
    forall|k: nat| k < depth ==> mul_fits(#[trigger] square_iter(q, k), square_iter(q, k))
}

/// Unfolds a seed into a decision path of `config.depth` digits: the digit
/// of layer `k` is the exact projection, in base `config.p_base`, of the
/// seed composed with itself `k` times.
pub fn materialize_path(state: &IdealClass, config: &VPuNNConfig) -> (path: Vec<u64>)
    requires
        config.p_base > 0,
        unfolding_fits(state.value@, config.depth as nat),
    ensures
        path@.len() == config.depth,
        forall|k: int|
            0 <= k < config.depth ==> #[trigger] path@[k] == exact_digit(
                square_iter(state.value@, k as nat),
                0,
                config.p_base,
            ),
{
    let mut current_state = *state;
    let mut path: Vec<u64> = Vec::new();
    let mut layer: usize = 0;
    while layer < config.depth
        invariant
            layer <= config.depth,
            config.p_base > 0,
            unfolding_fits(state.value@, config.depth as nat),
            current_state.value@ == square_iter(state.value@, layer as nat),
            path@.len() == layer,
            forall|k: int|
                0 <= k < layer ==> #[trigger] path@[k] == exact_digit(
                    square_iter(state.value@, k as nat),
                    0,
                    config.p_base,
                ),
        decreases config.depth - layer,
    {
        let digit = project_to_digit(&current_state, config.p_base);
        path.push(digit);
        proof {
            assert(mul_fits(
                square_iter(state.value@, layer as nat),
                square_iter(state.value@, layer as nat),
            ));
        }
        let next_state = current_state.apply_hecke(&current_state.value);
        current_state = next_state;
        layer = layer + 1;
    }
    path
}

/// The `squarings` self-compositions that follow layer `t` of an unfolding
/// (those from step `t * squarings` on) all stay within `i64`.
pub open spec fn layer_fits(q: Quat, squarings: nat, t: nat) -> bool {
    forall|j: nat| j < squarings ==> mul_fits(
        #[trigger] square_iter(q, t * squarings + j),
        square_iter(q, t * squarings + j),
    )
}

proof fn lemma_next_layer(t: nat, squarings: nat)
    ensures
        t * squarings + squarings == (t + 1) * squarings,
{
    assert(t * squarings + squarings == (t + 1) * squarings) by (nonlinear_arith);
}

/// Unfolds a state into `depth` digits in base `p_base`, as the evolver's
/// dynamics do: digit `t` is the exact projection at time `t` of the
/// state, which is then composed with itself `squarings` times (zero for
/// the instantaneous dynamics). `Err(t)` names the first layer whose
/// squarings would leave `i64`.
pub fn unfold_path(state: &IdealClass, p_base: u64, depth: usize, squarings: usize) -> (r: Result<Vec<u64>, usize>)
    requires
        p_base > 0,
    ensures
        match r {
            Ok(path) => {
                &&& path@.len() == depth
                &&& forall|t: int| 0 <= t < depth ==> #[trigger] layer_fits(state.value@, squarings as nat, t as nat)
                &&& forall|t: int|
                    0 <= t < depth ==> #[trigger] path@[t] == exact_digit(
                        square_iter(state.value@, (t * squarings) as nat),
                        t as u64,
                        p_base,
                    )
            },
            Err(t) => {
                &&& t < depth
                &&& !layer_fits(state.value@, squarings as nat, t as nat)
                &&& forall|t2: int| 0 <= t2 < t ==> #[trigger] layer_fits(state.value@, squarings as nat, t2 as nat)
            },
        },
{
    let ghost q = state.value@;
    let ghost sq = squarings as nat;
    let projector = Projector::new(p_base);
    let mut current_state = *state;
    let mut path: Vec<u64> = Vec::new();
    let mut t: usize = 0;
    while t < depth
        invariant
            t <= depth,
            projector.p_base == p_base,
            p_base > 0,
            q == state.value@,
            sq == squarings as nat,
            current_state.value@ == square_iter(q, t as nat * sq),
            path@.len() == t,
            forall|t2: int| 0 <= t2 < t ==> #[trigger] layer_fits(q, sq, t2 as nat),
            forall|t2: int|
                0 <= t2 < t ==> #[trigger] path@[t2] == exact_digit(square_iter(q, (t2 * sq) as nat), t2 as u64, p_base),
        decreases depth - t,
    {
        path.push(projector.project_exact(&current_state, t as u64));
        let mut j: usize = 0;
        while j < squarings
            invariant
                j <= squarings,
                t < depth,
                sq == squarings as nat,
                q == state.value@,
                projector.p_base == p_base,
                p_base > 0,
                path@.len() == t + 1,
                forall|t2: int| 0 <= t2 < t ==> #[trigger] layer_fits(q, sq, t2 as nat),
                forall|t2: int|
                    0 <= t2 < t + 1 ==> #[trigger] path@[t2] == exact_digit(square_iter(q, (t2 * sq) as nat), t2 as u64, p_base),
                current_state.value@ == square_iter(q, t as nat * sq + j as nat),
                forall|j2: nat| j2 < j ==> mul_fits(
                    #[trigger] square_iter(q, t as nat * sq + j2),
                    square_iter(q, t as nat * sq + j2),
                ),
            decreases squarings - j,
        {
            if !current_state.value.can_mul(&current_state.value) {
                proof {
                    assert(!mul_fits(square_iter(q, t as nat * sq + j as nat), square_iter(q, t as nat * sq + j as nat)));
                    assert(!layer_fits(q, sq, t as nat));
                }
                return Err(t);
            }
            current_state = current_state.apply_hecke(&current_state.value);
            j = j + 1;
        }
        proof {
            lemma_next_layer(t as nat, sq);
            assert(layer_fits(q, sq, t as nat));
        }
        t = t + 1;
    }
    Ok(path)
}

} // verus!
