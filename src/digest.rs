//! SHA-256, as computed by the `sha2` crate.
use vstd::prelude::*;

verus! {

/// The SHA-256 digest of `data`.
pub uninterp spec fn sha256_of(data: Seq<u8>) -> Seq<u8>;

/// Relies on `sha2::Sha256::digest`: the 32-byte SHA-256 digest of `data`,
/// which depends on `data` alone.
#[verifier::external_body]
fn sha256(data: &[u8]) -> (r: [u8; 32])
    ensures
        r@ == sha256_of(data@),
{
    <sha2::Sha256 as sha2::Digest>::digest(data).into()
}

/// The SHA-256 digest of a solution: what a trial's expected hash is compared with.
pub fn hash_solution(solution: &[u8]) -> (r: [u8; 32])
    ensures
        r@ == sha256_of(solution@),
{
    sha256(solution)
}

/// The SHA-256 digest of an attestation message.
pub fn message_digest(message: &[u8]) -> (r: [u8; 32])
    ensures
        r@ == sha256_of(message@),
{
    sha256(message)
}

} // verus!
