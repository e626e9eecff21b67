//! The prime generator: a cursor over the ascending stream of primes.
//!
//! `PrimeSieve` holds the next candidate to test and every prime found so
//! far.  A production step times itself with the system clock; a clock
//! failure degrades to an absent duration and never stops the stream.

use crate::primes::{
    appears, divides, is_prime, lemma_prime_run_unique, lemma_trial_division_certifies,
    prime_prefix,
};
use vstd::prelude::*;

verus! {

/// State of the generator: the smallest untested candidate, and the primes
/// discovered so far in ascending order.
pub struct PrimeSieve {
    curr_val: u32,
    prev_primes: Vec<u32>,
}

/// One production step's outcome: the new prime, and the nanoseconds the
/// step took, absent when the clock failed.
#[derive(Clone, Copy)]
pub struct SieveResult {
    pub prime: u32,
    pub duration_ns: Option<u32>,
}

impl PrimeSieve {
    /// The primes discovered so far, in discovery order.
    pub closed spec fn known(self) -> Seq<u32> {
        self.prev_primes@
    }

    /// The smallest value not yet tested for primality.
    pub closed spec fn candidate(self) -> int {
        self.curr_val as int
    }

    /// The generator's invariant: the candidate starts no lower than 2, and
    /// the recorded primes are exactly the primes below it, in ascending
    /// order.
    pub open spec fn well_formed(self) -> bool {
        &&& 2 <= self.candidate()
        &&& forall|i: int| 0 <= i < self.known().len() ==> is_prime(#[trigger] self.known()[i] as int)
        &&& forall|i: int, j: int|
            0 <= i < j < self.known().len() ==> self.known()[i] < self.known()[j]
        &&& forall|i: int| 0 <= i < self.known().len() ==> #[trigger] self.known()[i] < self.candidate()
        &&& forall|q: int| 2 <= q < self.candidate() && #[trigger] is_prime(q) ==> appears(self.known(), q)
    }
}

/// A fresh generator: no primes recorded, first candidate 2.
pub fn init_sieve() -> (g: PrimeSieve)
    ensures
        g.well_formed(),
        g.candidate() == 2,
        g.known() == Seq::<u32>::empty(),
{
    PrimeSieve { curr_val: 2, prev_primes: Vec::new() }
}

/// Whether some listed prime divides `cand` evenly.
fn divides_any(primes: &Vec<u32>, cand: u32) -> (b: bool)
    requires
        forall|i: int| 0 <= i < primes@.len() ==> 2 <= #[trigger] primes@[i],
    ensures
        b <==> exists|i: int| 0 <= i < primes@.len() && divides(#[trigger] primes@[i] as int, cand as int),
{
    let mut k: usize = 0;
    while k < primes.len()
        invariant
            k <= primes@.len(),
            forall|i: int| 0 <= i < primes@.len() ==> 2 <= #[trigger] primes@[i],
            forall|i: int| 0 <= i < k ==> !divides(#[trigger] primes@[i] as int, cand as int),
        decreases primes@.len() - k,
    {
        if cand % primes[k] == 0 {
            assert(divides(primes@[k as int] as int, cand as int));
            return true;
        }
        k = k + 1;
    }
    false
}

/// The largest `u32` is composite, since 3 divides it.
proof fn lemma_u32_max_composite()
    ensures
        !is_prime(u32::MAX as int),
{
    assert(u32::MAX as int % 3 == 0);
    assert(divides(3, u32::MAX as int));
}

/// The smallest prime at or above `start`, certified by trial division
/// against a list holding every prime below `start`; `None` when no `u32`
/// from `start` upward is prime.
fn find_next_prime(primes: &Vec<u32>, start: u32) -> (r: Option<u32>)
    requires
        2 <= start,
        forall|i: int| 0 <= i < primes@.len() ==> is_prime(#[trigger] primes@[i] as int),
        forall|i: int| 0 <= i < primes@.len() ==> #[trigger] primes@[i] < start,
        forall|q: int| 2 <= q < start && #[trigger] is_prime(q) ==> appears(primes@, q),
    ensures
        match r {
            Some(p) => {
                &&& is_prime(p as int)
                &&& start <= p < u32::MAX
                &&& forall|q: int| start <= q < p ==> !is_prime(q)
            },
            None => forall|q: int| start <= q <= u32::MAX ==> !is_prime(q),
        },
{
    proof {
        assert forall|i: int| 0 <= i < primes@.len() implies 2 <= #[trigger] primes@[i] by {
            assert(is_prime(primes@[i] as int));
        }
    }
    let mut c = start;
    loop
        invariant
            2 <= start <= c <= u32::MAX,
            forall|i: int| 0 <= i < primes@.len() ==> is_prime(#[trigger] primes@[i] as int),
            forall|i: int| 0 <= i < primes@.len() ==> 2 <= #[trigger] primes@[i] < start,
            forall|q: int| 2 <= q < start && #[trigger] is_prime(q) ==> appears(primes@, q),
            forall|q: int| start <= q < c ==> !is_prime(q),
        decreases u32::MAX - c,
    {
        if !divides_any(primes, c) {
            proof {
                assert forall|q: int| 2 <= q < c && #[trigger] is_prime(q) implies appears(
                    primes@,
                    q,
                ) by {
                    if q >= start {
                        assert(!is_prime(q));
                    }
                }
                lemma_trial_division_certifies(primes@, c as int);
                if c == u32::MAX {
                    lemma_u32_max_composite();
                }
            }
            return Some(c);
        }
        proof {
            let i = choose|i: int|
                0 <= i < primes@.len() && divides(#[trigger] primes@[i] as int, c as int);
            assert(2 <= primes@[i] < c);
            assert(!is_prime(c as int));
        }
        if c == u32::MAX {
            return None;
        }
        c = c + 1;
    }
}

#[verifier::external_type_specification]
#[verifier::external_body]
pub struct ExSystemTime(std::time::SystemTime);

#[verifier::external_type_specification]
#[verifier::external_body]
pub struct ExSystemTimeError(std::time::SystemTimeError);

/// Relies on std::time::SystemTime::now: a reading of the system clock;
/// nothing is promised of its value.
pub assume_specification[ std::time::SystemTime::now ]() -> std::time::SystemTime;

/// Relies on std::time::SystemTime::elapsed: the time since this reading, or
/// an error when the clock has since gone backwards; nothing is promised of
/// the outcome.
pub assume_specification[ std::time::SystemTime::elapsed ](t: &std::time::SystemTime) -> Result<
    core::time::Duration,
    std::time::SystemTimeError,
>;

/// Relies on core::time::Duration::subsec_nanos: the fractional part of the
/// duration in whole nanoseconds, documented to be less than one billion.
pub assume_specification[ core::time::Duration::subsec_nanos ](d: &core::time::Duration) -> (r:
    u32)
    ensures
        r < 1_000_000_000,
;

/// The sub-second nanoseconds elapsed since `start`, or `None` when the
/// clock reported an error.
fn elapsed_subsec_nanos(start: &std::time::SystemTime) -> (r: Option<u32>)
    ensures
        r matches Some(ns) ==> ns < 1_000_000_000,
{
    match start.elapsed() {
        Ok(d) => Some(d.subsec_nanos()),
        Err(_) => None,
    }
}

/// Appending to a sequence disturbs no occurrence: whatever appeared before
/// still appears, and the new element appears.
proof fn lemma_appears_push(s: Seq<u32>, x: u32, q: int)
    requires
        appears(s, q) || q == x,
    ensures
        appears(s.push(x), q),
{
    if appears(s, q) {
        let i = choose|i: int| 0 <= i < s.len() && s[i] == q;
        assert(s.push(x)[i] == q);
    } else {
        assert(s.push(x)[s.len() as int] == q);
    }
}

impl PrimeSieve {
    /// One production step: find the smallest untested prime, record it, and
    /// time the search.  Returns `None` only when no prime at or above the
    /// current candidate fits in a `u32`, leaving the state unchanged; a
    /// clock failure only leaves the duration absent.
    pub fn next(&mut self) -> (r: Option<SieveResult>)
        requires
            old(self).well_formed(),
        ensures
            final(self).well_formed(),
            match r {
                Some(res) => {
                    &&& is_prime(res.prime as int)
                    &&& old(self).candidate() <= res.prime
                    &&& forall|q: int| old(self).candidate() <= q < res.prime ==> !is_prime(q)
                    &&& final(self).candidate() == res.prime + 1
                    &&& final(self).known() == old(self).known().push(res.prime)
                    &&& res.duration_ns matches Some(ns) ==> ns < 1_000_000_000
                },
                None => {
                    &&& *final(self) == *old(self)
                    &&& forall|q: int| old(self).candidate() <= q <= u32::MAX ==> !is_prime(q)
                },
            },
    {
        let start = std::time::SystemTime::now();
        proof {
            assert forall|i: int| 0 <= i < self.prev_primes@.len() implies is_prime(
                #[trigger] self.prev_primes@[i] as int,
            ) by {
                assert(is_prime(self.known()[i] as int));
            }
            assert forall|i: int| 0 <= i < self.prev_primes@.len() implies #[trigger] self
                .prev_primes@[i] < self.curr_val by {
                assert(self.known()[i] < self.candidate());
            }
        }
        match find_next_prime(&self.prev_primes, self.curr_val) {
            None => None,
            Some(p) => {
                let ghost prior = *self;
                self.curr_val = p + 1;
                self.prev_primes.push(p);
                proof {
                    assert(self.known() == prior.known().push(p));
                    assert forall|i: int| 0 <= i < self.known().len() implies is_prime(
                        #[trigger] self.known()[i] as int,
                    ) by {
                        if i < prior.known().len() {
                            assert(self.known()[i] == prior.known()[i]);
                        } else {
                            assert(self.known()[i] == p);
                        }
                    }
                    assert forall|i: int, j: int|
                        0 <= i < j < self.known().len() implies self.known()[i]
                        < self.known()[j] by {
                        assert(self.known()[i] == prior.known()[i]);
                        assert(prior.known()[i] < prior.candidate());
                        if j < prior.known().len() {
                            assert(self.known()[j] == prior.known()[j]);
                        } else {
                            assert(self.known()[j] == p);
                        }
                    }
                    assert forall|i: int| 0 <= i < self.known().len() implies #[trigger] self
                        .known()[i] < self.candidate() by {
                        if i < prior.known().len() {
                            assert(self.known()[i] == prior.known()[i]);
                            assert(prior.known()[i] < prior.candidate());
                        } else {
                            assert(self.known()[i] == p);
                        }
                    }
                    assert forall|q: int|
                        2 <= q < self.candidate() && #[trigger] is_prime(q) implies appears(
                        self.known(),
                        q,
                    ) by {
                        if q < prior.candidate() {
                            lemma_appears_push(prior.known(), p, q);
                        } else {
                            assert(q == p) by {
                                if q < p {
                                    assert(!is_prime(q));
                                }
                            }
                            lemma_appears_push(prior.known(), p, q);
                        }
                    }
                    assert(self.well_formed());
                }
                let duration_ns = elapsed_subsec_nanos(&start);
                Some(SieveResult { prime: p, duration_ns })
            },
        }
    }

    /// A bounded run: pull up to `count` production results in sequence.
    /// The run falls short of `count` only when no further prime fits in a
    /// `u32`; the primes pulled are appended, in order, to the record.
    pub fn pull(&mut self, count: usize) -> (results: Vec<SieveResult>)
        requires
            old(self).well_formed(),
        ensures
            final(self).well_formed(),
            results@.len() <= count,
            final(self).known() == old(self).known() + results@.map_values(
                |res: SieveResult| res.prime,
            ),
            forall|i: int|
                0 <= i < results@.len() ==> is_prime(#[trigger] results@[i].prime as int),
            forall|i: int|
                0 <= i < results@.len() ==> (#[trigger] results@[i].duration_ns matches Some(ns)
                    ==> ns < 1_000_000_000),
            results@.len() < count ==> forall|q: int|
                final(self).candidate() <= q <= u32::MAX ==> !is_prime(q),
            results@.len() == 0 ==> *final(self) == *old(self),
            results@.len() > 0 ==> final(self).candidate() == results@.last().prime + 1,
    {
        let mut results: Vec<SieveResult> = Vec::new();
        while results.len() < count
            invariant
                self.well_formed(),
                results@.len() <= count,
                self.known() == old(self).known() + results@.map_values(
                    |res: SieveResult| res.prime,
                ),
                forall|i: int|
                    0 <= i < results@.len() ==> is_prime(#[trigger] results@[i].prime as int),
                forall|i: int|
                    0 <= i < results@.len() ==> (#[trigger] results@[i].duration_ns matches Some(
                        ns,
                    ) ==> ns < 1_000_000_000),
                results@.len() == 0 ==> *self == *old(self),
                results@.len() > 0 ==> self.candidate() == results@.last().prime + 1,
            ensures
                self.well_formed(),
                results@.len() <= count,
                self.known() == old(self).known() + results@.map_values(
                    |res: SieveResult| res.prime,
                ),
                forall|i: int|
                    0 <= i < results@.len() ==> is_prime(#[trigger] results@[i].prime as int),
                forall|i: int|
                    0 <= i < results@.len() ==> (#[trigger] results@[i].duration_ns matches Some(
                        ns,
                    ) ==> ns < 1_000_000_000),
                results@.len() < count ==> forall|q: int|
                    self.candidate() <= q <= u32::MAX ==> !is_prime(q),
                results@.len() == 0 ==> *self == *old(self),
                results@.len() > 0 ==> self.candidate() == results@.last().prime + 1,
            decreases count - results@.len(),
        {
            let ghost produced_before = results@;
            match self.next() {
                Some(res) => {
                    results.push(res);
                    proof {
                        assert(results@.map_values(|r: SieveResult| r.prime)
                            =~= produced_before.map_values(|r: SieveResult| r.prime).push(
                            res.prime,
                        ));
                        assert(self.known() =~= old(self).known() + results@.map_values(
                            |r: SieveResult| r.prime,
                        ));
                    }
                },
                None => {
                    break;
                },
            }
        }
        results
    }

    /// The primes discovered so far, in discovery order.
    pub fn known_primes(&self) -> (v: &Vec<u32>)
        ensures
            v@ == self.known(),
    {
        &self.prev_primes
    }
}

/// Law: a well-formed generator's record is the leading run of the primes:
/// every entry prime, the entries strictly ascending (so no duplicates), and
/// no prime below any entry missing.
pub proof fn lemma_known_primes_are_first_primes(g: PrimeSieve)
    requires
        g.well_formed(),
    ensures
        prime_prefix(g.known()),
{
    if g.known().len() > 0 {
        assert forall|q: int|
            2 <= q < g.known().last() && #[trigger] is_prime(q) implies appears(
            g.known(),
            q,
        ) by {
            assert(g.known().last() < g.candidate());
        }
    }
}

/// Law: restarting is idempotent.  Two well-formed generators that have
/// produced the same number of primes have produced the very same primes,
/// whatever the timings of the two runs were.
pub proof fn lemma_restart_deterministic(a: PrimeSieve, b: PrimeSieve)
    requires
        a.well_formed(),
        b.well_formed(),
        a.known().len() == b.known().len(),
    ensures
        a.known() == b.known(),
{
    lemma_known_primes_are_first_primes(a);
    lemma_known_primes_are_first_primes(b);
    lemma_prime_run_unique(a.known(), b.known());
}

} // verus!
