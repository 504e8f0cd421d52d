//! Conversion of raw projection values into semantic proof actions. Every
//! dispatch uses the Euclidean remainder, so negative raw values land in
//! the same table as positive ones.

use vstd::prelude::*;

verus! {

#[derive(Debug, Clone, PartialEq)]
pub enum ProofAction {
    Assert(String),
    Transform(String),
    Check(String),
    NoOp,
}

/// The two's-complement reading of a `u64` as an `i64` (Rust's `as i64`).
pub open spec fn wrap_to_i64(x: u64) -> int {
    if x < 0x8000_0000_0000_0000 {
        x as int
    } else {
        x - 0x1_0000_0000_0000_0000
    }
}

/// The sum `raw_val + context_seed as i64` stays within `i64`. It is formed
/// only on the parity branch (dispatch code 0).
pub open spec fn adapt_fits(raw_val: i64, context_seed: u64) -> bool {
    i64::MIN <= raw_val + wrap_to_i64(context_seed) <= i64::MAX
}

/// What [`Adapter::adapt`] produces for `raw_val` and `context_seed`: the
/// dispatch code `raw_val rem_euclid 4` selects the branch; branch 0 asserts
/// the parity of `raw_val + context_seed as i64`, branch 1 transforms by the
/// parity of `raw_val`, branch 2 checks types, branch 3 does nothing.
pub open spec fn adapt_spec(raw_val: int, context_seed: u64, action: ProofAction) -> bool {
    let op_code = raw_val % 4;
    if op_code == 0 {
        let check_val = (raw_val + wrap_to_i64(context_seed)) % 2;
        if check_val == 0 {
            action matches ProofAction::Assert(s) && s@ == "IsEven"@
        } else {
            action matches ProofAction::Assert(s) && s@ == "IsOdd"@
        }
    } else if op_code == 1 {
        if raw_val % 2 == 0 {
            action matches ProofAction::Transform(s) && s@ == "Identity"@
        } else {
            action matches ProofAction::Transform(s) && s@ == "Increment"@
        }
    } else if op_code == 2 {
        action matches ProofAction::Check(s) && s@ == "TypeMatch"@
    } else {
        action is NoOp
    }
}

/// Converts raw projection values into proof actions.
pub struct Adapter {
    modulus: u64,
}

impl Adapter {
    pub fn new(modulus: u64) -> (a: Self)
        ensures
            a.modulus() == modulus,
    {
        Adapter { modulus }
    }

    pub closed spec fn modulus(&self) -> u64 {
        self.modulus
    }

    /// Converts a raw digit from the projection into a logical action (see
    /// [`adapt_spec`]).
    pub fn adapt(&self, raw_val: i64, context_seed: u64) -> (action: ProofAction)
        requires
            (raw_val as int) % 4 == 0 ==> adapt_fits(raw_val, context_seed),
        ensures
            adapt_spec(raw_val as int, context_seed, action),
            !(action matches ProofAction::Transform(s) && s@ == "Identity"@),
    {
        let op_code = euclid_rem(raw_val, 4);
        if op_code == 0 {
            // Parity of raw_val + context_seed as i64, computed without the
            // sum: the wrap of the seed changes it by a multiple of 2^64.
            let parity = (euclid_rem(raw_val, 2) + (context_seed % 2) as i64) % 2;
            proof {
                lemma_sum_parity(raw_val as int, context_seed);
            }
            if parity == 0 {
                ProofAction::Assert("IsEven".to_owned())
            } else {
                ProofAction::Assert("IsOdd".to_owned())
            }
        } else if op_code == 1 {
            let trans_type = euclid_rem(raw_val, 2);
            proof {
                // An odd code keeps `raw_val` odd, so the transform is the increment.
                let x = raw_val as int;
                assert(x % 4 == 1 ==> x % 2 == 1) by (nonlinear_arith);
                reveal_strlit("Increment");
                reveal_strlit("Identity");
                assert("Increment"@[1] != "Identity"@[1]);
            }
            if trans_type == 0 {
                ProofAction::Transform("Identity".to_owned())
            } else {
                ProofAction::Transform("Increment".to_owned())
            }
        } else if op_code == 2 {
            ProofAction::Check("TypeMatch".to_owned())
        } else {
            ProofAction::NoOp
        }
    }

    /// `val` is even (Euclidean remainder by 2 is zero).
    pub fn is_structurally_even(val: i64) -> (r: bool)
        ensures
            r == ((val as int) % 2 == 0),
    {
        euclid_rem(val, 2) == 0
    }
}

/// The Euclidean remainder of `x` by a positive `m` (`i64::rem_euclid`).
fn euclid_rem(x: i64, m: i64) -> (r: i64)
    requires
        m == 2 || m == 4,
    ensures
        r == (x as int) % (m as int),
        0 <= r < m,
{
    let t = x % m;
    if t < 0 {
        t + m
    } else {
        t
    }
}

proof fn lemma_sum_parity(raw: int, seed: u64)
    ensures
        (raw % 2 + (seed as int) % 2) % 2 == (raw + wrap_to_i64(seed)) % 2,
{
    let w = wrap_to_i64(seed);
    assert(w == seed || w == seed - 0x1_0000_0000_0000_0000);
    assert((raw % 2 + (seed as int) % 2) % 2 == (raw + seed) % 2) by (nonlinear_arith);
    assert((raw + seed) % 2 == (raw + seed - 0x1_0000_0000_0000_0000) % 2) by (nonlinear_arith);
}

/// The dispatch table in plain terms, whatever the modulus: for `raw_val`
/// = 0 (mod 4) the action asserts "IsEven" exactly when `raw_val +
/// context_seed` is even and "IsOdd" exactly when it is odd (the seed taken
/// as a `u64` or as the `i64` it wraps to: they differ by 2^64); for 1 it is
/// the transform "Increment"; for 2 the check "TypeMatch"; for 3 nothing.
pub proof fn lemma_adapt_table(raw_val: i64, context_seed: u64, action: ProofAction)
    requires
        adapt_spec(raw_val as int, context_seed, action),
    ensures
        (raw_val as int) % 4 == 0 ==> ((action matches ProofAction::Assert(s) && s@ == "IsEven"@)
            <==> (raw_val + context_seed) % 2 == 0),
        (raw_val as int) % 4 == 0 ==> ((action matches ProofAction::Assert(s) && s@ == "IsOdd"@)
            <==> (raw_val + context_seed) % 2 == 1),
        (raw_val as int) % 4 == 1 ==> (action matches ProofAction::Transform(s) && s@ == "Increment"@),
        (raw_val as int) % 4 == 2 ==> (action matches ProofAction::Check(s) && s@ == "TypeMatch"@),
        (raw_val as int) % 4 == 3 ==> action is NoOp,
{
    let x = raw_val as int;
    let s = context_seed as int;
    let w = wrap_to_i64(context_seed);
    assert(w == s || w == s - 0x1_0000_0000_0000_0000);
    assert((x + w) % 2 == (x + s) % 2) by (nonlinear_arith)
        requires
            w == s || w == s - 0x1_0000_0000_0000_0000,
    ;
    assert(x % 4 == 1 ==> x % 2 == 1) by (nonlinear_arith);
    reveal_strlit("IsEven");
    reveal_strlit("IsOdd");
    assert("IsEven"@[2] != "IsOdd"@[2]);
}

} // verus!
