//! Prime enumeration up to a bound.
//!
//! The crate offers a trial-division primality test, [`is_prime`], and a
//! bounded sieve, [`sieve`], that collects every prime in `[2, upper_bound]`
//! into a `HashSet<u32>`. Both are total over all `u32` inputs.

use vstd::prelude::*;

verus! {

use std::collections::HashSet;

broadcast use vstd::std_specs::hash::group_hash_axioms;

/// A number is prime when it is at least 2 and no integer in `[2, n)`
/// divides it evenly.
pub open spec fn spec_is_prime(n: int) -> bool {
    n >= 2 && forall|d: int| 2 <= d < n ==> #[trigger] (n % d) != 0
}

/// The set of all primes `p` with `2 <= p <= n`.
pub open spec fn spec_primes_up_to(n: int) -> Set<u32> {
    Set::new(|p: u32| (2 <= p as int && p as int <= n && spec_is_prime(p as int)))
}

/// No number below 2 is prime.
pub proof fn lemma_below_two_not_prime(n: u32)
    requires
        n < 2,
    ensures
        !spec_is_prime(n as int),
{
}

/// The sieve is deterministic: its contract pins the result to
/// `spec_primes_up_to`, so any two results for the same bound are equal
/// sets, whatever order their elements were inserted in.
pub proof fn lemma_sieve_idempotent(s1: Set<u32>, s2: Set<u32>, n: u32)
    requires
        s1 == spec_primes_up_to(n as int),
        s2 == spec_primes_up_to(n as int),
    ensures
        s1 == s2,
{
}

/// Raising the bound only adds primes: for `m < n`, every prime counted
/// up to `m` is counted up to `n` as well.
pub proof fn lemma_sieve_monotonic(m: u32, n: u32)
    requires
        m < n,
    ensures
        spec_primes_up_to(m as int).subset_of(spec_primes_up_to(n as int)),
{
    assert forall|p: u32| spec_primes_up_to(m as int).contains(p) implies spec_primes_up_to(
        n as int,
    ).contains(p) by {
    }
}

/// Decides primality by trial division: `num` is tested against every
/// integer in `[2, num)` and rejected on the first divisor found.
pub fn is_prime(num: u32) -> (r: bool)
    ensures
        r == spec_is_prime(num as int),
{
    if num < 2 {
        return false;
    }

    let mut i: u32 = 2;
    while i < num
        invariant
            2 <= i <= num,
            forall|d: int| 2 <= d < i ==> #[trigger] (num as int % d) != 0,
        decreases num - i,
    {
        if num % i == 0 {
            return false;
        }
        i = i + 1;
    }

    true
}

/// The set of primes strictly below `i`: what the sieve's outer loop has
/// collected before it starts work on candidate `i`.
spec fn spec_primes_below(i: int) -> Set<u32> {
    Set::new(|p: u32| (2 <= p as int && (p as int) < i && spec_is_prime(p as int)))
}

/// Collects every prime in `[2, upper_bound]` by walking the multiples
/// `i * j` of each `i` up to the bound, memoizing composites in a second
/// set so that no number is trial-divided twice. The product is formed in
/// `u64`, which holds any product of two `u32` values, so no intermediate
/// overflow can occur.
pub fn sieve(upper_bound: u32) -> (r: HashSet<u32>)
    ensures
        r@ == spec_primes_up_to(upper_bound as int),
{
    if upper_bound == 0 || upper_bound == 1 {
        let r: HashSet<u32> = HashSet::new();
        proof {
            assert(r@ =~= spec_primes_up_to(upper_bound as int));
        }
        return r;
    } else if upper_bound == 2 {
        let mut r: HashSet<u32> = HashSet::new();
        r.insert(2);
        proof {
            assert(r@ =~= spec_primes_up_to(2));
        }
        return r;
    }

    let mut primes: HashSet<u32> = HashSet::new();
    let mut non_primes: HashSet<u32> = HashSet::new();
    let bound: u64 = upper_bound as u64;
    proof {
        assert(primes@ =~= spec_primes_below(2));
    }

    let mut i: u64 = 2;
    while i <= bound
        invariant
            bound == upper_bound as u64,
            2 <= i <= bound + 1,
            primes@ == spec_primes_below(i as int),
            forall|x: u32| non_primes@.contains(x) ==> !spec_is_prime(x as int),
        decreases bound + 1 - i,
    {
        let mut j: u64 = 0;
        while j < i
            invariant
                bound == upper_bound as u64,
                2 <= i <= bound,
                0 <= j <= i,
                primes@ == (if spec_is_prime(i as int) && j >= 2 {
                    spec_primes_below(i as int + 1)
                } else {
                    spec_primes_below(i as int)
                }),
                forall|x: u32| non_primes@.contains(x) ==> !spec_is_prime(x as int),
            decreases i - j,
        {
            proof {
                assert((i as int) * (j as int) <= 0xffff_fffe_0000_0001) by (nonlinear_arith)
                    requires
                        0 <= i as int <= 0xffff_ffff,
                        0 <= j as int <= 0xffff_ffff,
                ;
            }
            let current: u64 = i * j;
            if current <= bound {
                let c: u32 = current as u32;
                proof {
                    if j >= 2 {
                        vstd::arithmetic::div_mod::lemma_mod_multiples_basic(
                            j as int,
                            i as int,
                        );
                        assert((j as int) * (i as int) == (i as int) * (j as int))
                            by (nonlinear_arith);
                        assert((i as int) < (i as int) * (j as int)) by (nonlinear_arith)
                            requires
                                2 <= i as int,
                                2 <= j as int,
                        ;
                        assert(c as int % (i as int) == 0);
                        assert(!spec_is_prime(c as int));
                    }
                }
                if !non_primes.contains(&c) {
                    if is_prime(c) {
                        primes.insert(c);
                        proof {
                            if j == 1 {
                                assert((i as int) * (j as int) == i as int) by (nonlinear_arith)
                                    requires
                                        j as int == 1,
                                ;
                            }
                            assert(c as int == i as int);
                            assert(primes@ =~= spec_primes_below(i as int + 1));
                        }
                    } else {
                        non_primes.insert(c);
                    }
                }
            }
            j = j + 1;
        }
        proof {
            if !spec_is_prime(i as int) {
                assert(spec_primes_below(i as int) =~= spec_primes_below(i as int + 1));
            }
        }
        i = i + 1;
    }

    proof {
        assert(spec_primes_below(upper_bound as int + 1) =~= spec_primes_up_to(
            upper_bound as int,
        ));
    }
    primes
}

} // verus!
