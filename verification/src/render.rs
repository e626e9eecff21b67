//! Rendering production results as lines of text.
//!
//! A result renders either as `<prime> is prime: found in <duration>ns` or,
//! when the clock failed during its discovery, as
//! `<prime> is prime: Error while calculating timing!`.

use crate::sieve::SieveResult;
use vstd::prelude::*;
use vstd::string::StringExecFns;

verus! {

/// The character for a single decimal digit.
pub open spec fn digit_char(d: int) -> char {
    if d == 0 {
        '0'
    } else if d == 1 {
        '1'
    } else if d == 2 {
        '2'
    } else if d == 3 {
        '3'
    } else if d == 4 {
        '4'
    } else if d == 5 {
        '5'
    } else if d == 6 {
        '6'
    } else if d == 7 {
        '7'
    } else if d == 8 {
        '8'
    } else {
        '9'
    }
}

/// The decimal numeral of `n`: most significant digit first, no leading
/// zeros except for the numeral of zero itself.
pub open spec fn decimal_of(n: int) -> Seq<char>
    decreases n,
{
    if n < 10 {
        seq![digit_char(n)]
    } else {
        decimal_of(n / 10).push(digit_char(n % 10))
    }
}

/// The rendered line for a prime whose discovery was timed.
pub open spec fn found_line(prime: u32, ns: u32) -> Seq<char> {
    decimal_of(prime as int) + " is prime: found in "@ + decimal_of(ns as int) + "ns"@
}

/// The rendered line for a prime whose discovery the clock failed to time.
pub open spec fn error_line(prime: u32) -> Seq<char> {
    decimal_of(prime as int) + " is prime: Error while calculating timing!"@
}

/// The rendered line for a production result.
pub open spec fn rendered(prime: u32, duration_ns: Option<u32>) -> Seq<char> {
    match duration_ns {
        Some(ns) => found_line(prime, ns),
        None => error_line(prime),
    }
}

/// The one-character string for a single decimal digit.
fn digit_str(d: u32) -> (r: &'static str)
    requires
        d < 10,
    ensures
        r@ == seq![digit_char(d as int)],
{
    proof {
        reveal_strlit("0");
        reveal_strlit("1");
        reveal_strlit("2");
        reveal_strlit("3");
        reveal_strlit("4");
        reveal_strlit("5");
        reveal_strlit("6");
        reveal_strlit("7");
        reveal_strlit("8");
        reveal_strlit("9");
    }
    let r = match d {
        0 => "0",
        1 => "1",
        2 => "2",
        3 => "3",
        4 => "4",
        5 => "5",
        6 => "6",
        7 => "7",
        8 => "8",
        _ => "9",
    };
    proof {
        assert(r@ =~= seq![digit_char(d as int)]);
    }
    r
}

/// Appends the decimal numeral of `n` to `s`.
fn push_decimal(s: &mut String, n: u32)
    ensures
        final(s)@ == old(s)@ + decimal_of(n as int),
    decreases n,
{
    if n >= 10 {
        push_decimal(s, n / 10);
    }
    let d = digit_str(n % 10);
    s.append(d);
    proof {
        assert(s@ =~= old(s)@ + decimal_of(n as int));
    }
}

/// The decimal numeral of `n` as a string.
pub fn u32_to_decimal(n: u32) -> (s: String)
    ensures
        s@ == decimal_of(n as int),
{
    let mut s = String::new();
    push_decimal(&mut s, n);
    proof {
        assert(s@ =~= decimal_of(n as int));
    }
    s
}

/// Renders a production result as its line of output: the prime, and either
/// the nanoseconds its discovery took or the timing-error message.
pub fn render_result(res: &SieveResult) -> (line: String)
    ensures
        line@ == rendered(res.prime, res.duration_ns),
{
    let mut line = u32_to_decimal(res.prime);
    match res.duration_ns {
        Some(ns) => {
            line.append(" is prime: found in ");
            let digits = u32_to_decimal(ns);
            line.append(digits.as_str());
            line.append("ns");
            proof {
                assert(line@ =~= found_line(res.prime, ns));
            }
        },
        None => {
            line.append(" is prime: Error while calculating timing!");
            proof {
                assert(line@ =~= error_line(res.prime));
            }
        },
    }
    line
}

/// The introductory line printed before the run starts.
pub fn intro_line() -> (line: String)
    ensures
        line@ == "Initializing prime number sieve..."@,
{
    String::from_str("Initializing prime number sieve...")
}

} // verus!
