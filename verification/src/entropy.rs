//! Random numbers from the `rand` crate's thread-local generator.

use vstd::prelude::*;

verus! {

/// Calls `rand::random::<usize>()`, which draws from the thread-local
/// generator seeded by the operating system. Any `usize` may come back, so
/// nothing is stated of the result. (The call panics only where the
/// operating system cannot seed the generator; no input rules that out.)
#[verifier::external_body]
pub(crate) fn random_usize() -> (r: usize) {
    rand::random::<usize>()
}

/// Calls `rand::random::<u8>()`, which draws from the thread-local generator
/// seeded by the operating system. Any byte may come back, so nothing is
/// stated of the result.
#[verifier::external_body]
pub(crate) fn random_u8() -> (r: u8) {
    rand::random::<u8>()
}

} // verus!
