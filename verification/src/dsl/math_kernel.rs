//! Numeric predicates of the logic kernel.

use vstd::prelude::*;
use crate::soul::governor::spec_is_prime;

verus! {

/// Primality of a signed integer by trial division: integers below 2 are
/// not prime.
pub fn is_prime_basic(n: i64) -> (r: bool)
    ensures
        r == spec_is_prime(n as int),
{
    if n <= 1 {
        return false;
    }
    let mut i: i64 = 2;
    while i <= n / i
        invariant
            n > 1,
            2 <= i,
            i <= 0x1_0000_0000,
            forall|d: int| 1 < d < i ==> #[trigger] ((n as int) % d) != 0,
        decreases n - i,
    {
        proof {
            crate::soul::governor::lemma_quotient_bound(n as int, i as int);
            assert(i < 0x1_0000_0000) by (nonlinear_arith)
                requires
                    i * i <= n,
                    n <= i64::MAX,
                    i >= 2,
            ;
            assert(i < n) by (nonlinear_arith)
                requires
                    i * i <= n,
                    i >= 2,
            ;
        }
        if n % i == 0 {
            return false;
        }
        i = i + 1;
    }
    proof {
        crate::soul::governor::lemma_quotient_bound(n as int, i as int);
        crate::soul::governor::lemma_prime_when_no_small_divisor(n as int, i as int);
    }
    true
}

} // verus!
