//! The library's access to the process random number generator.

use vstd::prelude::*;

verus! {

/// Relies on `rand::random`: a machine word drawn from the thread-local
/// generator. Nothing is assumed of its value.
#[verifier::external_body]
pub(crate) fn random_u32() -> u32 {
    rand::random::<u32>()
}

/// Relies on `rand::random`: a wide machine word drawn from the thread-local
/// generator. Nothing is assumed of its value.
#[verifier::external_body]
pub(crate) fn random_u64() -> u64 {
    rand::random::<u64>()
}

} // verus!
