//! The proof engine: what a trial proof states, and how one is judged.
//!
//! The guest program proves knowledge of a solution whose SHA-256 digest is
//! compared with an expected hash; the comparison's outcome is committed in the
//! journal rather than aborting, so a wrong answer still yields a proof.
//! Checking a receipt's seal is the host's part: it hands over the journal
//! bytes that the receipt proves, if it does.
use vstd::prelude::*;
use crate::bytes::{same_bytes, same_words};
use crate::digest::{hash_solution, sha256_of};
use crate::journal::{decode_journal, decodes_to, encode_journal, journal_bytes, JournalError, TrialOutput, JOURNAL_LEN};

verus! {

/// A request to prove one trial.
pub struct TrialInput {
    pub trial_id: String,
    pub solution: Vec<u8>,
    pub expected_hash: [u8; 32],
    pub player_address: String,
    pub round_id: u32,
}

/// What the guest program reads: identifiers widened to 32 bytes.
pub struct GuestInput {
    pub trial_id: [u8; 32],
    pub solution: Vec<u8>,
    pub expected_hash: [u8; 32],
    pub player_address: [u8; 32],
    pub round_id: u32,
}

/// A produced proof: the serialized receipt, its journal and the program it ran.
pub struct ProofResult {
    pub receipt: Vec<u8>,
    pub journal: TrialOutput,
    pub image_id: [u32; 8],
}

/// Why a proof is not accepted.
#[derive(Debug, Clone, Copy, PartialEq, Eq, Structural)]
pub enum VerificationError {
    FingerprintMismatch,
    ProofInvalid,
    SolutionRejected,
}

/// The first 32 bytes of `b`, padded with zeros when `b` is shorter.
pub open spec fn pad32(b: Seq<u8>) -> Seq<u8> {
    Seq::new(32, |i: int| if i < b.len() { b[i] } else { 0u8 })
}

/// The UTF-8 bytes of a string.
pub open spec fn utf8(s: String) -> Seq<u8> {
    vstd::utf8::encode_utf8(s@)
}

/// Widens an identifier to 32 bytes: truncated when longer, zero-padded when shorter.
pub fn fixed_id(b: &[u8]) -> (r: [u8; 32])
    ensures
        r@ == pad32(b@),
{
    let mut r = [0u8; 32];
    let n: usize = if b.len() < 32 { b.len() } else { 32 };
    let mut i: usize = 0;
    while i < n
        invariant
            n <= 32,
            n <= b@.len(),
            n == 32 || n == b@.len(),
            i <= n,
            r@.len() == 32,
            forall|k: int| 0 <= k < i ==> r@[k] == b@[k],
            forall|k: int| i <= k < 32 ==> r@[k] == 0u8,
        decreases n - i,
    {
        r[i] = b[i];
        i = i + 1;
    }
    assert(r@ =~= pad32(b@));
    r
}

/// Turns a proving request into what the guest program reads.
pub fn prepare_guest_input(input: TrialInput) -> (r: GuestInput)
    ensures
        r.trial_id@ == pad32(utf8(input.trial_id)),
        r.player_address@ == pad32(utf8(input.player_address)),
        r.solution@ == input.solution@,
        r.expected_hash == input.expected_hash,
        r.round_id == input.round_id,
{
    let trial_id = fixed_id(input.trial_id.as_str().as_bytes());
    let player_address = fixed_id(input.player_address.as_str().as_bytes());
    GuestInput {
        trial_id,
        solution: input.solution,
        expected_hash: input.expected_hash,
        player_address,
        round_id: input.round_id,
    }
}

/// The statement the guest program proves: the digest of the private
/// solution, and whether it equals the expected hash. A wrong solution is
/// not an error: it yields a journal with `is_valid == false`.
pub fn evaluate_trial(input: &GuestInput) -> (r: TrialOutput)
    ensures
        r.solution_hash@ == sha256_of(input.solution@),
        r.trial_id == input.trial_id,
        r.round_id == input.round_id,
        r.is_valid == (sha256_of(input.solution@) == input.expected_hash@),
{
    let solution_hash = hash_solution(input.solution.as_slice());
    let is_valid = same_bytes(&solution_hash, &input.expected_hash);
    TrialOutput { solution_hash, trial_id: input.trial_id, round_id: input.round_id, is_valid }
}

/// Builds a proof result from what the prover returned: the serialized
/// receipt, the journal bytes it committed and the program fingerprint.
pub fn assemble_proof(receipt: Vec<u8>, journal: &[u8], image_id: [u32; 8]) -> (r: Result<ProofResult, JournalError>)
    ensures
        journal@.len() < JOURNAL_LEN <==> r is Err,
        r is Err ==> r == Err::<ProofResult, JournalError>(JournalError::TooShort),
        r is Ok ==> {
            &&& decodes_to(journal@, r->Ok_0.journal)
            &&& r->Ok_0.receipt@ == receipt@
            &&& r->Ok_0.image_id == image_id
        },
{
    match decode_journal(journal) {
        Ok(j) => Ok(ProofResult { receipt, journal: j, image_id }),
        Err(e) => Err(e),
    }
}

/// The judgement of a proof whose receipt proved the journal bytes `proven`
/// (none when the receipt did not verify) for the program `expected`.
pub open spec fn proof_verdict(
    image_id: Seq<u32>,
    journal: TrialOutput,
    expected: Seq<u32>,
    proven: Option<Seq<u8>>,
) -> Result<TrialOutput, VerificationError> {
    if image_id != expected {
        Err(VerificationError::FingerprintMismatch)
    } else if !(proven is Some && proven->Some_0 == journal_bytes(journal)) {
        Err(VerificationError::ProofInvalid)
    } else if !journal.is_valid {
        Err(VerificationError::SolutionRejected)
    } else {
        Ok(journal)
    }
}

/// The view of optional bytes.
pub open spec fn bytes_view(o: Option<Vec<u8>>) -> Option<Seq<u8>> {
    match o {
        Some(v) => Some(v@),
        None => None,
    }
}

/// Verifies a proof against the fingerprint `expected` of the program it
/// must come from, given the journal bytes its receipt was found to prove for
/// that program (none when the receipt does not decode or does not verify),
/// and returns its journal when it shows a correct solution.
pub fn verify_trial_proof(artifact: &ProofResult, expected: &[u32; 8], proven: Option<Vec<u8>>) -> (r: Result<TrialOutput, VerificationError>)
    ensures
        r == proof_verdict(artifact.image_id@, artifact.journal, expected@, bytes_view(proven)),
{
    if !same_words(&artifact.image_id, expected) {
        return Err(VerificationError::FingerprintMismatch);
    }
    match proven {
        None => Err(VerificationError::ProofInvalid),
        Some(bytes) => {
            let claimed = encode_journal(&artifact.journal);
            if !same_bytes(bytes.as_slice(), claimed.as_slice()) {
                Err(VerificationError::ProofInvalid)
            } else if !artifact.journal.is_valid {
                Err(VerificationError::SolutionRejected)
            } else {
                Ok(artifact.journal)
            }
        },
    }
}

} // verus!
