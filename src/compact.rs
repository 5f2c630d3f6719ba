//! Compact proof records for on-chain submission.
use vstd::prelude::*;
use crate::bytes::to_vec;

verus! {

/// A proof packed for submission: receipt bytes, journal digest, program fingerprint.
pub struct CompactProof {
    pub receipt: Vec<u8>,
    pub journal_hash: [u8; 32],
    pub image_id: [u32; 8],
}

/// What a verifier needs to know before accepting proofs.
pub struct VerificationParams {
    pub image_id: [u32; 8],
    pub journal_version: u32,
}

/// The journal layout version this library reads and writes.
pub const JOURNAL_VERSION: u32 = 1;

/// Packs a receipt, the digest of its journal and the program fingerprint.
pub fn create_compact_proof(receipt: &[u8], journal_hash: [u8; 32], image_id: [u32; 8]) -> (r: CompactProof)
    ensures
        r.receipt@ == receipt@,
        r.journal_hash == journal_hash,
        r.image_id == image_id,
{
    CompactProof { receipt: to_vec(receipt), journal_hash, image_id }
}

/// The verification parameters for proofs of the program `image_id`.
pub fn get_verification_params(image_id: [u32; 8]) -> (r: VerificationParams)
    ensures
        r.image_id == image_id,
        r.journal_version == JOURNAL_VERSION,
{
    VerificationParams { image_id, journal_version: JOURNAL_VERSION }
}

} // verus!
