//! System randomness.

use ring::rand;
use vstd::prelude::*;

verus! {

/// `ring::rand::SystemRandom::fill` on an array: random bytes, of which nothing
/// is known, or nothing where the system has none.
#[verifier::external_body]
pub(crate) fn random_array<const N: usize>() -> (r: Option<[u8; N]>)
{
    let mut out = [0u8; N];
    rand::SecureRandom::fill(&rand::SystemRandom::new(), &mut out).ok()?;
    Some(out)
}

} // verus!
