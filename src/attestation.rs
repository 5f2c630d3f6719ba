//! Backend attestations: an Ed25519 signature over the SHA-256 digest of a
//! canonical message `round (4, BE) || player || solution_hash (32) || nonce (8, BE)`.
use vstd::prelude::*;
use crate::digest::{message_digest, sha256_of};
use crate::journal::u32_be;

verus! {

/// The Ed25519 verifying key that belongs to a 32-byte secret key.
pub uninterp spec fn ed25519_public_of(secret: Seq<u8>) -> Seq<u8>;

/// The Ed25519 signature of `message` under a 32-byte secret key.
pub uninterp spec fn ed25519_signature_of(secret: Seq<u8>, message: Seq<u8>) -> Seq<u8>;

/// Whether Ed25519 verification of `signature` over `message` succeeds under `public`.
pub uninterp spec fn ed25519_accepts(public: Seq<u8>, message: Seq<u8>, signature: Seq<u8>) -> bool;

/// Relies on `ed25519_dalek::SigningKey::verifying_key`: the verifying key
/// derived from a secret key, a function of the secret key alone.
#[verifier::external_body]
fn ed25519_public_key(secret: &[u8; 32]) -> (r: [u8; 32])
    ensures
        r@ == ed25519_public_of(secret@),
{
    ed25519_dalek::SigningKey::from_bytes(secret).verifying_key().to_bytes()
}

/// Relies on `ed25519_dalek::Signer::sign` for `SigningKey`: the deterministic
/// Ed25519 signature, which verifies under the key's own verifying key.
#[verifier::external_body]
fn ed25519_sign(secret: &[u8; 32], message: &[u8]) -> (r: [u8; 64])
    ensures
        r@ == ed25519_signature_of(secret@, message@),
        ed25519_accepts(ed25519_public_of(secret@), message@, r@),
{
    let key = ed25519_dalek::SigningKey::from_bytes(secret);
    ed25519_dalek::Signer::sign(&key, message).to_bytes()
}

/// Relies on `ed25519_dalek::VerifyingKey::from_bytes` and
/// `ed25519_dalek::Verifier::verify`: true exactly when the key decodes and
/// the signature verifies over `message`.
#[verifier::external_body]
fn ed25519_verify(public: &[u8; 32], message: &[u8], signature: &[u8; 64]) -> (r: bool)
    ensures
        r == ed25519_accepts(public@, message@, signature@),
{
    match ed25519_dalek::VerifyingKey::from_bytes(public) {
        Ok(key) => {
            let sig = ed25519_dalek::Signature::from_bytes(signature);
            ed25519_dalek::Verifier::verify(&key, message, &sig).is_ok()
        },
        Err(_) => false,
    }
}

/// A backend's statement that `player` solved trial number `trial_round_id`.
pub struct Attestation {
    pub player: Vec<u8>,
    pub solution_hash: [u8; 32],
    pub nonce: u64,
    pub trial_round_id: u32,
    pub signature: [u8; 64],
}

/// The eight big-endian bytes of `x`.
pub open spec fn u64_be(x: u64) -> Seq<u8> {
    seq![
        (x >> 56u64) as u8,
        (x >> 48u64) as u8,
        (x >> 40u64) as u8,
        (x >> 32u64) as u8,
        (x >> 24u64) as u8,
        (x >> 16u64) as u8,
        (x >> 8u64) as u8,
        x as u8,
    ]
}

/// The canonical message that a backend signs (after hashing it).
pub open spec fn message_bytes(round_id: u32, player: Seq<u8>, solution_hash: Seq<u8>, nonce: u64) -> Seq<u8> {
    u32_be(round_id) + player + solution_hash + u64_be(nonce)
}

/// The digest that a signature over the canonical message covers.
pub open spec fn signed_digest(round_id: u32, player: Seq<u8>, solution_hash: Seq<u8>, nonce: u64) -> Seq<u8> {
    sha256_of(message_bytes(round_id, player, solution_hash, nonce))
}

/// `att` carries a valid signature under `public` over its own fields.
pub open spec fn attestation_valid(public: Seq<u8>, att: Attestation) -> bool {
    ed25519_accepts(
        public,
        signed_digest(att.trial_round_id, att.player@, att.solution_hash@, att.nonce),
        att.signature@,
    )
}

/// Builds the canonical message for an attestation.
pub fn attestation_message(round_id: u32, player: &[u8], solution_hash: &[u8; 32], nonce: u64) -> (r: Vec<u8>)
    ensures
        r@ == message_bytes(round_id, player@, solution_hash@, nonce),
{
    let mut r: Vec<u8> = Vec::new();
    r.push((round_id >> 24u32) as u8);
    r.push((round_id >> 16u32) as u8);
    r.push((round_id >> 8u32) as u8);
    r.push(round_id as u8);
    let ghost head = r@;
    let mut i: usize = 0;
    while i < player.len()
        invariant
            i <= player@.len(),
            r@ == head + player@.subrange(0, i as int),
        decreases player@.len() - i,
    {
        r.push(player[i]);
        i = i + 1;
        assert(player@.subrange(0, i as int) =~= player@.subrange(0, i - 1) + seq![player@[i - 1]]);
    }
    assert(player@.subrange(0, player@.len() as int) =~= player@);
    let ghost mid = r@;
    let mut k: usize = 0;
    while k < 32
        invariant
            k <= 32,
            solution_hash@.len() == 32,
            r@ == mid + solution_hash@.subrange(0, k as int),
        decreases 32 - k,
    {
        r.push(solution_hash[k]);
        k = k + 1;
        assert(solution_hash@.subrange(0, k as int) =~= solution_hash@.subrange(0, k - 1) + seq![solution_hash@[k - 1]]);
    }
    assert(solution_hash@.subrange(0, 32) =~= solution_hash@);
    r.push((nonce >> 56u64) as u8);
    r.push((nonce >> 48u64) as u8);
    r.push((nonce >> 40u64) as u8);
    r.push((nonce >> 32u64) as u8);
    r.push((nonce >> 24u64) as u8);
    r.push((nonce >> 16u64) as u8);
    r.push((nonce >> 8u64) as u8);
    r.push(nonce as u8);
    assert(r@ =~= message_bytes(round_id, player@, solution_hash@, nonce));
    r
}

/// The verifying key that belongs to a backend's secret key.
pub fn public_key_of(secret: &[u8; 32]) -> (r: [u8; 32])
    ensures
        r@ == ed25519_public_of(secret@),
{
    ed25519_public_key(secret)
}

/// Signs an attestation: the Ed25519 signature over the SHA-256 digest of the
/// canonical message. The result verifies under the key's verifying key.
pub fn sign_attestation(
    secret: &[u8; 32],
    round_id: u32,
    player: &[u8],
    solution_hash: &[u8; 32],
    nonce: u64,
) -> (r: [u8; 64])
    ensures
        r@ == ed25519_signature_of(secret@, signed_digest(round_id, player@, solution_hash@, nonce)),
        ed25519_accepts(
            ed25519_public_of(secret@),
            signed_digest(round_id, player@, solution_hash@, nonce),
            r@,
        ),
{
    let message = attestation_message(round_id, player, solution_hash, nonce);
    let digest = message_digest(message.as_slice());
    ed25519_sign(secret, &digest)
}

/// Checks an attestation's signature under a backend's verifying key.
pub fn verify_attestation(public: &[u8; 32], att: &Attestation) -> (r: bool)
    ensures
        r == attestation_valid(public@, *att),
{
    let message = attestation_message(att.trial_round_id, att.player.as_slice(), &att.solution_hash, att.nonce);
    let digest = message_digest(message.as_slice());
    ed25519_verify(public, &digest, &att.signature)
}

} // verus!
