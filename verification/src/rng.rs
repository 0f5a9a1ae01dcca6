//! The randomness source used for grid initialization.

use rand::Rng;
use vstd::prelude::*;

verus! {

/// Relies on `rand::Rng::gen::<u8>` on `rand::thread_rng()`: it returns an
/// arbitrary byte, and nothing is promised of its value.
#[verifier::external_body]
pub(crate) fn random_byte() -> u8 {
    rand::thread_rng().gen::<u8>()
}

} // verus!
