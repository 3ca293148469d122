//! The machine's one source of randomness, behind a trusted wrapper.

use vstd::prelude::*;

verus! {

/// Relies on rand::random: draws one byte from the thread-local generator,
/// uniformly distributed. Nothing can be promised of a random value, so the
/// callers state what holds of every outcome.
#[verifier::external_body]
pub(crate) fn random_byte() -> u8 {
    rand::random::<u8>()
}

} // verus!
