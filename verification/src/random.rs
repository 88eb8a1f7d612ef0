//! The thread-local random number generator of the `rand` crate.
//!
//! Nothing in this file is proved. A draw depends on the operating system's
//! entropy, so no contract here says anything about the number that comes
//! back: callers are verified for every `u32`.

use rand::rngs::ThreadRng;
use rand::RngCore;
use vstd::prelude::*;

verus! {

#[verifier::external_type_specification]
#[verifier::external_body]
pub struct ExThreadRng(rand::rngs::ThreadRng);

/// Calls `rand::thread_rng`, which hands out a handle to the calling thread's
/// generator and seeds that generator from the operating system on first use.
/// Nothing is claimed of the handle. `rand` aborts the thread with a panic if
/// the operating system cannot seed the generator.
#[verifier::external_body]
pub(crate) fn thread_rng() -> ThreadRng {
    rand::thread_rng()
}

/// Calls `RngCore::next_u32` on a `ThreadRng`, which returns the generator's
/// next 32 bits. Nothing is claimed of the number: any `u32` may come back, and
/// two calls need not agree.
#[verifier::external_body]
pub(crate) fn next_u32(rng: &mut ThreadRng) -> u32 {
    rng.next_u32()
}

} // verus!
