//! Algebra migration: when the spectral gap of the explored subgraph
//! closes, the governor moves the algebra to a larger prime p' = 1 mod 4.

use vstd::prelude::*;

verus! {

/// `n` is prime: greater than 1 with no divisor strictly between 1 and `n`.
pub open spec fn spec_is_prime(n: int) -> bool {
    n > 1 && forall|d: int| 1 < d < n ==> #[trigger] (n % d) != 0
}

proof fn lemma_divides_transitive(n: int, d: int, k: int)
    requires
        n >= 0,
        d > 0,
        k > 0,
        n % d == 0,
        d % k == 0,
    ensures
        n % k == 0,
{
    let q = n / d;
    let r = d / k;
    assert(n == d * q) by (nonlinear_arith)
        requires
            n % d == 0,
            d > 0,
            q == n / d,
    ;
    assert(d == k * r) by (nonlinear_arith)
        requires
            d % k == 0,
            k > 0,
            r == d / k,
    ;
    assert(n == k * (r * q)) by (nonlinear_arith)
        requires
            n == d * q,
            d == k * r,
    ;
    assert((k * (r * q)) % k == 0) by (nonlinear_arith)
        requires
            k > 0,
    ;
}

/// A composite `n` has a divisor `m` with 1 < m and m * m <= n.
proof fn lemma_small_divisor(n: int, d: int) -> (m: int)
    requires
        1 < d < n,
        n % d == 0,
    ensures
        1 < m,
        m * m <= n,
        n % m == 0,
{
    let e = n / d;
    assert(n == d * e && 1 < e && e < n && n % e == 0) by (nonlinear_arith)
        requires
            1 < d < n,
            n % d == 0,
            e == n / d,
    ;
    if d <= e {
        assert(d * d <= n) by (nonlinear_arith)
            requires
                n == d * e,
                d <= e,
                d > 1,
        ;
        d
    } else {
        assert(e * e <= n) by (nonlinear_arith)
            requires
                n == d * e,
                e < d,
                e > 1,
        ;
        e
    }
}

/// When every divisor `m > 1` of `n` with `m * m <= n` is at least `i`, and
/// `i * i > n`, then `n` is prime.
pub proof fn lemma_prime_when_no_small_divisor(n: int, i: int)
    requires
        n > 1,
        i > 1,
        i * i > n,
        forall|d: int| 1 < d < i ==> #[trigger] (n % d) != 0,
    ensures
        spec_is_prime(n),
{
    assert forall|d: int| 1 < d < n implies #[trigger] (n % d) != 0 by {
        if n % d == 0 {
            let m = lemma_small_divisor(n, d);
            if m >= i {
                assert(m * m >= i * i) by (nonlinear_arith)
                    requires
                        m >= i,
                        i > 1,
                ;
            }
            assert(n % m != 0);
        }
    }
}

pub proof fn lemma_quotient_bound(n: int, i: int)
    requires
        n >= 0,
        i > 0,
    ensures
        i <= n / i ==> i * i <= n,
        i > n / i ==> i * i > n,
{
    assert(i <= n / i ==> i * i <= n) by (nonlinear_arith)
        requires
            n >= 0,
            i > 0,
    ;
    assert(i > n / i ==> i * i > n) by (nonlinear_arith)
        requires
            n >= 0,
            i > 0,
    ;
}

/// Primality by trial division over 2, 3 and the numbers 6k +- 1.
pub fn is_prime(n: u64) -> (r: bool)
    ensures
        r == spec_is_prime(n as int),
{
    if n <= 1 {
        return false;
    }
    if n <= 3 {
        assert(n == 2 || n == 3);
        assert forall|d: int| 1 < d < n implies #[trigger] ((n as int) % d) != 0 by {
            assert(d == 2);
            assert(3int % 2 == 1);
        }
        return true;
    }
    if n % 2 == 0 {
        assert((n as int) % 2 == 0);
        return false;
    }
    if n % 3 == 0 {
        assert((n as int) % 3 == 0);
        return false;
    }
    let mut i: u64 = 5;
    assert(forall|d: int| 1 < d < 5 ==> #[trigger] ((n as int) % d) != 0) by {
        assert forall|d: int| 1 < d < 5 implies #[trigger] ((n as int) % d) != 0 by {
            if d == 4 && (n as int) % 4 == 0 {
                lemma_divides_transitive(n as int, 4, 2);
            }
        }
    }
    while i <= n / i
        invariant
            n > 3,
            (n as int) % 2 != 0,
            (n as int) % 3 != 0,
            5 <= i,
            i % 6 == 5,
            i <= 0x1_0000_0010,
            forall|d: int| 1 < d < i ==> #[trigger] ((n as int) % d) != 0,
        decreases n - i,
    {
        proof {
            lemma_quotient_bound(n as int, i as int);
            assert(i * i <= n);
            assert(i < 0x1_0000_0000) by (nonlinear_arith)
                requires
                    i * i <= n,
                    n <= u64::MAX,
                    i >= 5,
            ;
            assert(i + 2 < n) by (nonlinear_arith)
                requires
                    i * i <= n,
                    i >= 5,
            ;
        }
        if n % i == 0 || n % (i + 2) == 0 {
            proof {
                if (n as int) % (i as int) != 0 {
                    assert((n as int) % ((i + 2) as int) == 0);
                }
            }
            return false;
        }
        proof {
            let ii = i as int;
            let nn = n as int;
            assert forall|d: int| 1 < d < ii + 6 implies #[trigger] (nn % d) != 0 by {
                if d >= ii && nn % d == 0 {
                    if d == ii + 1 || d == ii + 3 || d == ii + 5 {
                        assert(d % 2 == 0);
                        lemma_divides_transitive(nn, d, 2);
                    } else if d == ii + 4 {
                        assert(d % 3 == 0);
                        lemma_divides_transitive(nn, d, 3);
                    }
                }
            }
        }
        i = i + 6;
    }
    proof {
        lemma_quotient_bound(n as int, i as int);
        lemma_prime_when_no_small_divisor(n as int, i as int);
    }
    true
}

/// The primes the governor may migrate to from `p`: p' = 1 mod 4 and
/// p' > 1.2 p (that is, 5 p' > 6 p), so that the class number, which grows
/// like p, grows by a fifth at least.
pub open spec fn migration_candidate(p: int, c: int) -> bool {
    spec_is_prime(c) && c % 4 == 1 && 5 * c > 6 * p
}

/// The prime the algebra migrates to from `current_p`: the least prime
/// greater than `current_p` with p' = 1 mod 4 and p' > 1.2 p. `None` when
/// no such prime fits in `u64`.
pub fn next_algebra_prime(current_p: u64) -> (r: Option<u64>)
    ensures
        match r {
            Some(c) => c > current_p && migration_candidate(current_p as int, c as int)
                && forall|c2: int|
                current_p < c2 < c ==> !#[trigger] migration_candidate(current_p as int, c2),
            None => forall|c2: int|
                current_p < c2 <= u64::MAX ==> !#[trigger] migration_candidate(
                    current_p as int,
                    c2,
                ),
        },
{
    if current_p == u64::MAX {
        return None;
    }
    let mut candidate: u64 = current_p + 1;
    let threshold: u128 = 6 * (current_p as u128);
    loop
        invariant
            current_p < candidate,
            threshold == 6 * current_p,
            forall|c2: int|
                current_p < c2 < candidate ==> !#[trigger] migration_candidate(
                    current_p as int,
                    c2,
                ),
        decreases u64::MAX - candidate,
    {
        if candidate % 4 == 1 && is_prime(candidate) {
            if 5 * (candidate as u128) > threshold {
                return Some(candidate);
            }
        }
        if candidate == u64::MAX {
            return None;
        }
        candidate = candidate + 1;
    }
}

/// What the migration picks, in plain terms: a prime q (no divisor
/// strictly between 1 and q) with q = 1 (mod 4) and 5q > 6p, hence q > p;
/// and no such prime c, however it is found, lies below it: every prime
/// c = 1 (mod 4) with 5c > 6p that fits in `u64` is at least the result,
/// and its existence rules out `None`.
pub proof fn lemma_next_algebra_prime_is_least_admissible(p: u64, r: Option<u64>, c: int)
    requires
        match r {
            Some(q) => q > p && migration_candidate(p as int, q as int)
                && forall|c2: int| p < c2 < q ==> !#[trigger] migration_candidate(p as int, c2),
            None => forall|c2: int| p < c2 <= u64::MAX ==> !#[trigger] migration_candidate(p as int, c2),
        },
    ensures
        r matches Some(q) ==> {
            &&& q > p
            &&& q > 1
            &&& forall|d: int| 1 < d < q ==> #[trigger] ((q as int) % d) != 0
            &&& q % 4 == 1
            &&& 5 * q > 6 * p
        },
        p < c <= u64::MAX && c > 1 && c % 4 == 1 && 5 * c > 6 * p
            && (forall|d: int| 1 < d < c ==> #[trigger] (c % d) != 0)
            ==> (r matches Some(q) && q <= c),
{
    if p < c <= u64::MAX && c > 1 && c % 4 == 1 && 5 * c > 6 * p && (forall|d: int| 1 < d < c ==> #[trigger] (c % d) != 0) {
        assert(migration_candidate(p as int, c));
        match r {
            Some(q) => {
                if c < q {
                    assert(!migration_candidate(p as int, c));
                }
            },
            None => {
                assert(!migration_candidate(p as int, c));
            },
        }
    }
}

} // verus!
