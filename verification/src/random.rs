//! Random bytes.

use vstd::prelude::*;

verus! {

/// Twelve random bytes from `rand::random`. Nothing is said of the result:
/// it is random.
#[verifier::external_body]
pub(crate) fn random_12() -> (bytes: [u8; 12])
{
    rand::random()
}

/// Sixteen random bytes from `rand::random`. Nothing is said of the result:
/// it is random.
#[verifier::external_body]
pub(crate) fn random_16() -> (bytes: [u8; 16])
{
    rand::random()
}

} // verus!
