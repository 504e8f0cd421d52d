//! The exact projection of algebraic states into digits: a hash of the
//! canonical coefficients, so that any change in the state gives a
//! pseudo-random shift of the digit (the avalanche property the proof
//! trace relies on).

use std::collections::hash_map::DefaultHasher;
use std::hash::{Hash, Hasher};
use vstd::prelude::*;
use crate::soul::algebra::{IdealClass, Quat};

verus! {

/// Name for the `u64` that `DefaultHasher::new()` yields after being fed
/// each of `words` in turn (no length prefix) and then `time`.
/// `DefaultHasher::new` uses fixed keys, so the value depends on its
/// arguments alone.
pub uninterp spec fn default_hash_of(words: Seq<i64>, time: u64) -> u64;

/// Calls `DefaultHasher` (std): `i64::hash_slice` feeds the words one after
/// the other, with no length prefix, then `time` is hashed and the hasher
/// finished. Trusted: the result is [`default_hash_of`] of the two.
#[verifier::external_body]
fn default_hash(words: &[i64], time: u64) -> (h: u64)
    ensures
        h == default_hash_of(words@, time),
{
    let mut hasher = DefaultHasher::new();
    i64::hash_slice(words, &mut hasher);
    time.hash(&mut hasher);
    hasher.finish()
}

/// The four coefficients of a quaternion, in the order a, b, c, d.
pub open spec fn quat_words(q: Quat) -> Seq<i64> {
    seq![q.a as i64, q.b as i64, q.c as i64, q.d as i64]
}

/// The exact digit of a state at `time` in base `p_base`.
pub open spec fn exact_digit(q: Quat, time: u64, p_base: u64) -> u64 {
    (default_hash_of(quat_words(q), time) % p_base) as u64
}

/// The projector of states into digits in base `p_base`.
pub struct Projector {
    pub p_base: u64,
}

impl Projector {
    pub fn new(p_base: u64) -> (p: Self)
        ensures
            p.p_base == p_base,
    {
        Projector { p_base }
    }

    /// [Truth layer] The exact projection (avalanche): the hash of the
    /// state's coefficients and the time, reduced modulo the base.
    pub fn project_exact(&self, state: &IdealClass, time: u64) -> (digit: u64)
        requires
            self.p_base > 0,
        ensures
            digit == exact_digit(state.value@, time, self.p_base),
            digit < self.p_base,
    {
        let words = vec![state.value.a, state.value.b, state.value.c, state.value.d];
        assert(words@ =~= quat_words(state.value@));
        default_hash(words.as_slice(), time) % self.p_base
    }

    /// [Will layer] The heuristic projection: the hash of the bucketed
    /// navigation features (cos x, sin x, log y, scaled and truncated to
    /// integers) and the time, reduced modulo the base.
    pub fn project_heuristic(&self, buckets: [i64; 3], time: u64) -> (digit: u64)
        requires
            self.p_base > 0,
        ensures
            digit == (default_hash_of(buckets@, time) % self.p_base) as u64,
            digit < self.p_base,
    {
        default_hash(buckets.as_slice(), time) % self.p_base
    }
}

/// The digit a layer of the decision path shows: the exact projection of
/// the state at time 0 in base `p_base`.
pub fn project_to_digit(state: &IdealClass, p_base: u64) -> (digit: u64)
    requires
        p_base > 0,
    ensures
        digit == exact_digit(state.value@, 0, p_base),
{
    Projector::new(p_base).project_exact(state, 0)
}

} // verus!
