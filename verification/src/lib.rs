//! A lazy prime-number generator based on trial division.
//!
//! The generator keeps every prime it has found so far and certifies each new
//! candidate by dividing it against that list alone; because primes are
//! discovered in ascending order with none skipped, the list always contains
//! every prime below the current candidate, which makes the test sound.

pub mod primes;
pub mod render;
pub mod sieve;
