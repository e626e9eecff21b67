use prime_sieve::render::{intro_line, render_result, u32_to_decimal};
use prime_sieve::sieve::{init_sieve, SieveResult};

#[test]
fn renders_timed_result_exactly() {
    let res = SieveResult { prime: 7, duration_ns: Some(500) };
    assert_eq!(render_result(&res), "7 is prime: found in 500ns");
}

#[test]
fn renders_untimed_result_exactly() {
    let res = SieveResult { prime: 13, duration_ns: None };
    assert_eq!(render_result(&res), "13 is prime: Error while calculating timing!");
}

#[test]
fn renders_zero_duration() {
    let res = SieveResult { prime: 2, duration_ns: Some(0) };
    assert_eq!(render_result(&res), "2 is prime: found in 0ns");
}

#[test]
fn decimal_numerals_exact() {
    assert_eq!(u32_to_decimal(0), "0");
    assert_eq!(u32_to_decimal(7), "7");
    assert_eq!(u32_to_decimal(10), "10");
    assert_eq!(u32_to_decimal(500), "500");
    assert_eq!(u32_to_decimal(1048576), "1048576");
    assert_eq!(u32_to_decimal(u32::MAX), "4294967295");
}

#[test]
fn intro_line_exact() {
    assert_eq!(intro_line(), "Initializing prime number sieve...");
}

#[test]
fn produced_results_render_in_line_format() {
    let mut g = init_sieve();
    for res in g.pull(10) {
        let line = render_result(&res);
        match res.duration_ns {
            Some(ns) => {
                assert_eq!(line, format!("{} is prime: found in {}ns", res.prime, ns));
            },
            None => {
                assert_eq!(line, format!("{} is prime: Error while calculating timing!", res.prime));
            },
        }
    }
}
