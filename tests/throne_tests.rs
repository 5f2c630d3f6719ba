use zk_throne::attestation::{public_key_of, sign_attestation, Attestation};
use zk_throne::engine::{ProofResult, VerificationError};
use zk_throne::journal::{decode_journal, encode_journal, TrialOutput};
use zk_throne::throne::{Error, Event, GameOutcome, Throne};

const ADMIN: &[u8] = b"GADMINADDRESSXXXXXXXXXXXXXXXXXXX";
const PLAYER: &[u8] = b"GPLAYERONEXXXXXXXXXXXXXXXXXXXXXX";
const OTHER: &[u8] = b"GPLAYERTWOXXXXXXXXXXXXXXXXXXXXXX";
const THIRD: &[u8] = b"GPLAYERTHREEXXXXXXXXXXXXXXXXXXXX";
const IMAGE: [u32; 8] = [1u32; 8];
const HUB: &[u8] = b"GHUBADDRESSXXXXXXXXXXXXXXXXXXXXX";

fn ledger(required: u32) -> Throne {
    Throne::initialize(ADMIN, [1u8; 32], IMAGE, required, HUB)
}

fn padded(name: &[u8]) -> [u8; 32] {
    let mut a = [0u8; 32];
    a[..name.len()].copy_from_slice(name);
    a
}

/// Journal bytes: solution hash, trial id, round (big-endian), validity.
fn journal_bytes(hash: [u8; 32], trial: &[u8], round: u32, valid: bool) -> Vec<u8> {
    let mut data = Vec::new();
    data.extend_from_slice(&hash);
    data.extend_from_slice(&padded(trial));
    data.extend_from_slice(&round.to_be_bytes());
    data.push(if valid { 1 } else { 0 });
    data
}

fn journal(trial: &[u8], round: u32) -> TrialOutput {
    decode_journal(&journal_bytes([0u8; 32], trial, round, true)).unwrap()
}

#[test]
fn test_initialization() {
    let t = Throne::initialize(ADMIN, [1u8; 32], IMAGE, 7, HUB);
    let round = t.get_current_round();
    assert_eq!(round, 1);
    assert!(!t.is_locked());
    assert_eq!(t.get_required_trials(), 7);
    assert_eq!(t.get_game_hub(), HUB.to_vec());
}

#[test]
fn test_submit_proof_and_progress() {
    let mut t = ledger(3);
    let data = journal_bytes([42u8; 32], b"colorSigil", 1, true);
    let j = decode_journal(&data).unwrap();
    t.apply_proof_verdict(PLAYER, Ok(j), 1, 100).unwrap();
    let progress = t.get_progress(1, PLAYER).unwrap();
    assert_eq!(progress.trials_completed, 1);
    assert!(!progress.is_king);

    let retrieved = t.get_progress(1, PLAYER);
    assert!(retrieved.is_some());
    assert_eq!(retrieved.unwrap().trials_completed, 1);
}

#[test]
fn duplicate_trial_is_refused() {
    let mut t = ledger(7);
    let j = journal(b"colorSigil", 1);
    t.apply_proof_verdict(PLAYER, Ok(j), 1, 100).unwrap();
    assert_eq!(t.apply_proof_verdict(PLAYER, Ok(j), 1, 101), Err(Error::TrialAlreadyCompleted));
    assert_eq!(t.get_progress(1, PLAYER).unwrap().trials_completed, 1);
}

#[test]
fn test_king_assignment() {
    let mut t = ledger(2);
    t.apply_proof_verdict(PLAYER, Ok(journal(b"trial1", 1)), 1, 100).unwrap();
    let ev = t.apply_proof_verdict(PLAYER, Ok(journal(b"trial2", 1)), 1, 101).unwrap();
    assert_eq!(ev, Event::KingCrowned { round_id: 1, game: None });
    let progress = t.get_progress(1, PLAYER).unwrap();
    assert_eq!(progress.trials_completed, 2);
    assert!(progress.is_king);

    let king = t.get_king(1);
    assert!(king.is_some());
    assert_eq!(king.unwrap(), PLAYER.to_vec());
}

#[test]
fn test_round_management() {
    let mut t = ledger(7);
    let round1 = t.get_current_round();
    assert_eq!(round1, 1);

    let round2 = t.start_new_round(ADMIN);
    assert_eq!(round2, Ok(2));

    let current = t.get_current_round();
    assert_eq!(current, 2);
}

#[test]
fn progress_event_reports_counts() {
    let mut t = ledger(3);
    let ev = t.apply_attestation(PLAYER, 1, 1, 1, true, 10).unwrap();
    assert_eq!(ev, Event::Progress { round_id: 1, completed: 1, required: 3 });
    assert_eq!(t.get_nonce(PLAYER), 1);
    assert_eq!(t.get_progress(1, PLAYER).unwrap().last_trial_timestamp, 10);
}

#[test]
fn out_of_order_trial_is_refused() {
    let mut t = ledger(3);
    assert_eq!(t.apply_attestation(PLAYER, 1, 3, 1, true, 10), Err(Error::OutOfOrderTrial));
    assert_eq!(t.apply_attestation(PLAYER, 2, 2, 1, true, 10), Err(Error::OutOfOrderTrial));
    assert!(t.get_progress(1, PLAYER).is_none());
    assert_eq!(t.get_nonce(PLAYER), 0);
    assert!(t.apply_attestation(PLAYER, 3, 1, 1, true, 10).is_ok());
}

#[test]
fn replayed_nonce_is_refused() {
    let mut t = ledger(3);
    t.apply_attestation(PLAYER, 5, 1, 1, true, 10).unwrap();
    assert_eq!(t.apply_attestation(PLAYER, 5, 1, 1, true, 11), Err(Error::ReplayedNonce));
    assert_eq!(t.apply_attestation(PLAYER, 4, 2, 1, true, 11), Err(Error::ReplayedNonce));
    assert_eq!(t.get_progress(1, PLAYER).unwrap().trials_completed, 1);
    assert_eq!(t.get_nonce(PLAYER), 5);
}

#[test]
fn nonces_are_per_player() {
    let mut t = ledger(3);
    t.apply_attestation(PLAYER, 5, 1, 1, true, 10).unwrap();
    assert!(t.apply_attestation(OTHER, 1, 1, 1, true, 10).is_ok());
    assert_eq!(t.get_nonce(OTHER), 1);
    assert_eq!(t.get_nonce(PLAYER), 5);
}

#[test]
fn unauthentic_attestation_is_refused() {
    let mut t = ledger(3);
    assert_eq!(t.apply_attestation(PLAYER, 1, 1, 1, false, 10), Err(Error::InvalidAttestation));
    assert!(t.get_progress(1, PLAYER).is_none());
    assert_eq!(t.get_nonce(PLAYER), 0);
}

#[test]
fn unknown_round_is_refused() {
    let mut t = ledger(3);
    assert_eq!(t.apply_attestation(PLAYER, 1, 1, 0, true, 10), Err(Error::RoundMismatch));
    assert_eq!(t.apply_attestation(PLAYER, 1, 1, 2, true, 10), Err(Error::RoundMismatch));
    assert_eq!(t.apply_proof_verdict(PLAYER, Ok(journal(b"t", 1)), 2, 10), Err(Error::RoundMismatch));
}

#[test]
fn journal_for_other_round_is_refused() {
    let mut t = ledger(3);
    assert_eq!(t.apply_proof_verdict(PLAYER, Ok(journal(b"t", 2)), 1, 10), Err(Error::RoundMismatch));
}

#[test]
fn failed_verification_is_refused_alike() {
    let mut t = ledger(3);
    for e in [VerificationError::FingerprintMismatch, VerificationError::ProofInvalid, VerificationError::SolutionRejected] {
        assert_eq!(t.apply_proof_verdict(PLAYER, Err(e), 1, 10), Err(Error::SolutionRejected));
    }
    assert!(t.get_progress(1, PLAYER).is_none());
}

#[test]
fn wrong_answer_proof_is_refused() {
    let mut t = ledger(3);
    let journal = decode_journal(&journal_bytes([0u8; 32], b"t", 1, false)).unwrap();
    let artifact = ProofResult { receipt: vec![1, 2, 3], journal, image_id: IMAGE };
    let proven = Some(encode_journal(&journal));
    assert_eq!(t.submit_trial_proof(PLAYER, &artifact, proven.clone(), 1, 10), Err(Error::SolutionRejected));
    assert_eq!(t.submit_trial_proof(PLAYER, &artifact, None, 1, 10), Err(Error::SolutionRejected));
    let other_program = ProofResult { receipt: vec![1, 2, 3], journal, image_id: [2u32; 8] };
    assert_eq!(t.submit_trial_proof(PLAYER, &other_program, proven, 1, 10), Err(Error::SolutionRejected));
    assert!(t.get_progress(1, PLAYER).is_none());
}

#[test]
fn verified_proof_is_credited() {
    let mut t = ledger(3);
    let journal = journal(b"colorSigil", 1);
    let artifact = ProofResult { receipt: vec![1, 2, 3], journal, image_id: IMAGE };
    let ev = t.submit_trial_proof(PLAYER, &artifact, Some(encode_journal(&journal)), 1, 10).unwrap();
    assert_eq!(ev, Event::Progress { round_id: 1, completed: 1, required: 3 });
    assert_eq!(
        t.submit_trial_proof(PLAYER, &artifact, Some(encode_journal(&journal)), 1, 11),
        Err(Error::TrialAlreadyCompleted)
    );
}

#[test]
fn stale_proof_after_new_round_is_refused() {
    let mut t = ledger(3);
    assert_eq!(t.start_new_round(ADMIN), Ok(2));
    assert_eq!(t.apply_proof_verdict(PLAYER, Ok(journal(b"t", 1)), 1, 10), Err(Error::RoundLocked));
    assert_eq!(t.apply_proof_verdict(PLAYER, Ok(journal(b"t", 1)), 2, 10), Err(Error::RoundMismatch));
    assert!(t.get_progress(2, PLAYER).is_none());
}

#[test]
fn king_round_scenario() {
    let mut t = ledger(2);
    let ev = t.apply_attestation(PLAYER, 1, 1, 1, true, 10).unwrap();
    assert_eq!(ev, Event::Progress { round_id: 1, completed: 1, required: 2 });
    assert!(t.get_king(1).is_none());
    let ev = t.apply_attestation(PLAYER, 2, 2, 1, true, 11).unwrap();
    assert_eq!(ev, Event::KingCrowned { round_id: 1, game: None });
    assert_eq!(t.get_progress(1, PLAYER).unwrap().trials_completed, 2);
    assert_eq!(t.get_king(1), Some(PLAYER.to_vec()));
    assert!(t.is_locked());
    // The round is locked once it has a King: a later player is refused, the King stays.
    assert_eq!(t.apply_attestation(THIRD, 1, 1, 1, true, 12), Err(Error::RoundLocked));
    assert!(t.get_progress(1, THIRD).is_none());
    assert_eq!(t.get_king(1), Some(PLAYER.to_vec()));
}

#[test]
fn stale_attestation_after_new_round_is_refused() {
    let mut t = ledger(3);
    t.apply_attestation(PLAYER, 1, 1, 1, true, 10).unwrap();
    t.apply_attestation(PLAYER, 2, 2, 1, true, 11).unwrap();
    assert_eq!(t.start_new_round(ADMIN), Ok(2));
    // Naming the old round: it is locked.
    assert_eq!(t.apply_attestation(PLAYER, 3, 3, 1, true, 12), Err(Error::RoundLocked));
    // Naming the new round: progress starts again at 0.
    assert_eq!(t.apply_attestation(PLAYER, 3, 3, 2, true, 12), Err(Error::OutOfOrderTrial));
    assert!(t.get_progress(2, PLAYER).is_none());
    assert_eq!(t.get_progress(1, PLAYER).unwrap().trials_completed, 2);
    assert_eq!(t.apply_attestation(PLAYER, 3, 1, 2, true, 12).map(|_| ()), Ok(()));
}

#[test]
fn admin_only_operations() {
    let mut t = ledger(3);
    assert_eq!(t.start_new_round(PLAYER), Err(Error::Unauthorized));
    assert_eq!(t.update_required_trials(PLAYER, 1), Err(Error::Unauthorized));
    assert_eq!(t.get_current_round(), 1);
    assert_eq!(t.get_required_trials(), 3);
    assert_eq!(t.update_required_trials(ADMIN, 1), Ok(()));
    assert_eq!(t.get_required_trials(), 1);
}

#[test]
fn lowered_threshold_applies_on_next_submission() {
    let mut t = ledger(5);
    t.apply_attestation(PLAYER, 1, 1, 1, true, 10).unwrap();
    t.apply_attestation(PLAYER, 2, 2, 1, true, 10).unwrap();
    t.update_required_trials(ADMIN, 2).unwrap();
    assert!(t.get_king(1).is_none());
    let ev = t.apply_attestation(OTHER, 1, 1, 1, true, 11).unwrap();
    assert_eq!(ev, Event::Progress { round_id: 1, completed: 1, required: 2 });
    let ev = t.apply_attestation(PLAYER, 3, 3, 1, true, 12).unwrap();
    assert_eq!(ev, Event::KingCrowned { round_id: 1, game: None });
}

#[test]
fn new_round_keeps_threshold_and_clears_session() {
    let mut t = ledger(4);
    let report = t.start_multiplayer_session(9, PLAYER, OTHER);
    assert_eq!(report.game_hub, HUB.to_vec());
    assert_eq!(report.session_id, 9);
    assert_eq!(report.player1, PLAYER.to_vec());
    assert_eq!(report.player2, OTHER.to_vec());
    assert_eq!(t.get_session_id(), 9);
    assert_eq!(t.start_new_round(ADMIN), Ok(2));
    assert_eq!(t.get_session_id(), 0);
    assert_eq!(t.get_required_trials(), 4);
    assert!(!t.is_locked());
}

#[test]
fn king_in_session_ends_game() {
    let mut t = ledger(1);
    t.start_multiplayer_session(9, PLAYER, OTHER);
    let ev = t.apply_attestation(OTHER, 1, 1, 1, true, 10).unwrap();
    assert_eq!(ev, Event::KingCrowned { round_id: 1, game: Some(GameOutcome { session_id: 9, player1_won: false }) });
}

#[test]
fn signed_attestation_is_credited() {
    let secret = [11u8; 32];
    let mut t = Throne::initialize(ADMIN, public_key_of(&secret), IMAGE, 3, HUB);
    assert_eq!(t.get_backend_pubkey(), public_key_of(&secret));
    assert_eq!(t.get_image_id(), IMAGE);
    let hash = [4u8; 32];
    let signature = sign_attestation(&secret, 1, PLAYER, &hash, 1);
    let att = Attestation { player: PLAYER.to_vec(), solution_hash: hash, nonce: 1, trial_round_id: 1, signature };
    assert!(t.submit_proof(&att, 1, 10).is_ok());
    let forged = Attestation { player: PLAYER.to_vec(), solution_hash: hash, nonce: 2, trial_round_id: 2, signature };
    assert_eq!(t.submit_proof(&forged, 1, 11), Err(Error::InvalidAttestation));
    assert_eq!(t.get_progress(1, PLAYER).unwrap().trials_completed, 1);
}
