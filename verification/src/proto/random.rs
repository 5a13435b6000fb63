//! The two sources of chance that the protocol draws on.

use vstd::prelude::*;

use rand::Rng;

verus! {

/// Whether the bits of a UUID mark it as a random one: version 4, variant 2 (RFC 9562).
pub open spec fn is_random_id(id: u128) -> bool {
    &&& (id >> 76u128) & 0xf == 4
    &&& (id >> 62u128) & 0x3 == 2
}

/// A new identifier, from `uuid::Uuid::new_v4`.
///
/// Claimed of the outside function: the version and variant bits are those of a random UUID.
/// The other 122 bits are up to chance, and nothing is claimed of them.
#[verifier::external_body]
pub(crate) fn random_id() -> (id: u128)
    ensures
        is_random_id(id),
{
    uuid::Uuid::new_v4().as_u128()
}

/// The toss of a coin, from `rand::Rng::random` on the generator of `rand::rng`.
///
/// Nothing is claimed of the outcome.
#[verifier::external_body]
pub(crate) fn toss() -> (heads: bool) {
    rand::rng().random()
}

} // verus!
