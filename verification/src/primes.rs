//! The arithmetic of primality, and the lemmas that justify certifying a
//! candidate by trial division against the primes already found.

use vstd::arithmetic::div_mod::{lemma_fundamental_div_mod, lemma_mod_multiples_basic};
use vstd::prelude::*;

verus! {

/// `d` divides `n` evenly.
pub open spec fn divides(d: int, n: int) -> bool {
    n % d == 0
}

/// `n` is prime: at least 2, and no smaller value from 2 upward divides it.
pub open spec fn is_prime(n: int) -> bool {
    &&& 2 <= n
    &&& forall|d: int| 2 <= d < n ==> !divides(d, n)
}

/// `q` occurs somewhere in `s`.
pub open spec fn appears(s: Seq<u32>, q: int) -> bool {
    exists|i: int| 0 <= i < s.len() && s[i] == q
}

/// Divisibility is transitive: a divisor of a divisor of `c` divides `c`.
pub proof fn lemma_divides_transitive(a: int, b: int, c: int)
    requires
        1 <= a,
        1 <= b,
        divides(a, b),
        divides(b, c),
    ensures
        divides(a, c),
{
    let k = b / a;
    let m = c / b;
    lemma_fundamental_div_mod(b, a);
    lemma_fundamental_div_mod(c, b);
    assert(c == (m * k) * a) by (nonlinear_arith)
        requires
            b == a * k,
            c == b * m,
    ;
    lemma_mod_multiples_basic(m * k, a);
}

/// Every value from 2 upward has a prime divisor no larger than itself.
pub proof fn lemma_has_prime_factor(n: int)
    requires
        2 <= n,
    ensures
        exists|p: int| is_prime(p) && 2 <= p <= n && #[trigger] divides(p, n),
    decreases n,
{
    if is_prime(n) {
        lemma_fundamental_div_mod(n, n);
        assert(divides(n, n));
    } else {
        let d = choose|d: int| 2 <= d < n && divides(d, n);
        lemma_has_prime_factor(d);
        let p = choose|p: int| is_prime(p) && 2 <= p <= d && #[trigger] divides(p, d);
        lemma_divides_transitive(p, d, n);
        assert(is_prime(p) && 2 <= p <= n && divides(p, n));
    }
}

/// Trial division against a list that contains every prime below `n` is a
/// sound primality test: when no listed value divides `n`, `n` is prime.
pub proof fn lemma_trial_division_certifies(s: Seq<u32>, n: int)
    requires
        2 <= n,
        forall|q: int| 2 <= q < n && #[trigger] is_prime(q) ==> appears(s, q),
        forall|i: int| 0 <= i < s.len() ==> !divides(#[trigger] s[i] as int, n),
    ensures
        is_prime(n),
{
    if !is_prime(n) {
        let d = choose|d: int| 2 <= d < n && divides(d, n);
        lemma_has_prime_factor(d);
        let p = choose|p: int| is_prime(p) && 2 <= p <= d && #[trigger] divides(p, d);
        lemma_divides_transitive(p, d, n);
        assert(appears(s, p));
        let i = choose|i: int| 0 <= i < s.len() && s[i] == p;
        assert(!divides(s[i] as int, n));
        assert(false);
    }
}

/// An ascending, gap-free run of primes: every entry is prime, the entries
/// strictly ascend, and every prime below the last entry appears.
pub open spec fn prime_prefix(s: Seq<u32>) -> bool {
    &&& forall|i: int| 0 <= i < s.len() ==> is_prime(#[trigger] s[i] as int)
    &&& forall|i: int, j: int| 0 <= i < j < s.len() ==> s[i] < s[j]
    &&& forall|q: int| s.len() > 0 && 2 <= q < s.last() && #[trigger] is_prime(q) ==> appears(s, q)
}

proof fn lemma_prime_prefix_agree_upto(s1: Seq<u32>, s2: Seq<u32>, n: int)
    requires
        prime_prefix(s1),
        prime_prefix(s2),
        0 <= n <= s1.len(),
        n <= s2.len(),
    ensures
        forall|j: int| 0 <= j < n ==> s1[j] == s2[j],
    decreases n,
{
    if n > 0 {
        lemma_prime_prefix_agree_upto(s1, s2, n - 1);
        let i = n - 1;
        if s1[i] < s2[i] {
            assert(is_prime(s1[i] as int));
            assert(s2[i] <= s2.last());
            assert(appears(s2, s1[i] as int));
            let j = choose|j: int| 0 <= j < s2.len() && s2[j] == s1[i];
            assert(j < i) by {
                if j > i {
                    assert(s2[i] < s2[j]);
                }
            }
            assert(s1[j] == s2[j]);
            assert(s1[j] < s1[i]);
            assert(false);
        }
        if s2[i] < s1[i] {
            assert(is_prime(s2[i] as int));
            assert(s1[i] <= s1.last());
            assert(appears(s1, s2[i] as int));
            let j = choose|j: int| 0 <= j < s1.len() && s1[j] == s2[i];
            assert(j < i) by {
                if j > i {
                    assert(s1[i] < s1[j]);
                }
            }
            assert(s2[j] < s2[i]);
            assert(false);
        }
    }
}

/// Law: the prime stream is deterministic.  Two ascending, gap-free runs of
/// primes of equal length are the same sequence, whatever produced them.
pub proof fn lemma_prime_run_unique(s1: Seq<u32>, s2: Seq<u32>)
    requires
        prime_prefix(s1),
        prime_prefix(s2),
        s1.len() == s2.len(),
    ensures
        s1 == s2,
{
    lemma_prime_prefix_agree_upto(s1, s2, s1.len() as int);
    assert(s1 =~= s2);
}

/// Law: a newly found prime is not evenly divisible by any of the smaller
/// primes found before it.
pub proof fn lemma_new_prime_indivisible(known: Seq<u32>, p: u32)
    requires
        is_prime(p as int),
        forall|i: int| 0 <= i < known.len() ==> 2 <= #[trigger] known[i] < p,
    ensures
        forall|i: int| 0 <= i < known.len() ==> !divides(#[trigger] known[i] as int, p as int),
{
    assert forall|i: int| 0 <= i < known.len() implies !divides(
        #[trigger] known[i] as int,
        p as int,
    ) by {
        assert(2 <= known[i] as int && (known[i] as int) < p as int);
    }
}

} // verus!
