use prime_sieve::sieve::init_sieve;

const FIRST_PRIMES: [u32; 25] = [
    2, 3, 5, 7, 11, 13, 17, 19, 23, 29, 31, 37, 41, 43, 47, 53, 59, 61, 67, 71, 73, 79, 83, 89, 97,
];

#[test]
fn first_five_primes() {
    let mut g = init_sieve();
    let results = g.pull(5);
    let primes: Vec<u32> = results.iter().map(|r| r.prime).collect();
    assert_eq!(primes, vec![2, 3, 5, 7, 11]);
}

#[test]
fn single_pull_from_empty_record_yields_two() {
    let g = init_sieve();
    assert!(g.known_primes().is_empty());
    let mut g = g;
    let results = g.pull(1);
    assert_eq!(results.len(), 1);
    assert_eq!(results[0].prime, 2);
}

#[test]
fn pull_matches_known_prime_table() {
    let mut g = init_sieve();
    let results = g.pull(25);
    let primes: Vec<u32> = results.iter().map(|r| r.prime).collect();
    assert_eq!(primes, FIRST_PRIMES.to_vec());
}

#[test]
fn hundredth_prime_is_541() {
    let mut g = init_sieve();
    let results = g.pull(100);
    assert_eq!(results.len(), 100);
    assert_eq!(results[0].prime, 2);
    assert_eq!(results[99].prime, 541);
    for i in 1..results.len() {
        assert!(results[i - 1].prime < results[i].prime);
    }
}

#[test]
fn restart_yields_same_primes() {
    let mut a = init_sieve();
    let mut b = init_sieve();
    let pa: Vec<u32> = a.pull(40).iter().map(|r| r.prime).collect();
    let pb: Vec<u32> = b.pull(40).iter().map(|r| r.prime).collect();
    assert_eq!(pa, pb);
}

#[test]
fn no_result_divisible_by_earlier_prime() {
    let mut g = init_sieve();
    let primes: Vec<u32> = g.pull(30).iter().map(|r| r.prime).collect();
    for i in 0..primes.len() {
        for j in 0..i {
            assert_ne!(primes[i] % primes[j], 0);
        }
    }
}

#[test]
fn next_advances_record() {
    let mut g = init_sieve();
    let r1 = g.next().unwrap();
    let r2 = g.next().unwrap();
    assert_eq!(r1.prime, 2);
    assert_eq!(r2.prime, 3);
    assert_eq!(g.known_primes().as_slice(), &[2, 3][..]);
}

#[test]
fn duration_when_present_is_subsecond() {
    let mut g = init_sieve();
    let res = g.next().unwrap();
    if let Some(ns) = res.duration_ns {
        assert!(ns < 1_000_000_000);
    }
}

#[test]
fn empty_pull_leaves_record_alone() {
    let mut g = init_sieve();
    g.pull(3);
    let before = g.known_primes().clone();
    let results = g.pull(0);
    assert!(results.is_empty());
    assert_eq!(*g.known_primes(), before);
}

#[test]
fn pull_continues_where_it_stopped() {
    let mut g = init_sieve();
    let first: Vec<u32> = g.pull(3).iter().map(|r| r.prime).collect();
    let second: Vec<u32> = g.pull(2).iter().map(|r| r.prime).collect();
    assert_eq!(first, vec![2, 3, 5]);
    assert_eq!(second, vec![7, 11]);
    assert_eq!(g.known_primes().as_slice(), &[2, 3, 5, 7, 11][..]);
}
