use zk_throne::compact::{create_compact_proof, get_verification_params, JOURNAL_VERSION};
use zk_throne::digest::hash_solution;
use zk_throne::engine::{
    assemble_proof, evaluate_trial, fixed_id, prepare_guest_input, verify_trial_proof, ProofResult,
    TrialInput, VerificationError,
};
use zk_throne::journal::{encode_journal, JournalError, TrialOutput};

fn input(solution: &[u8], expected_from: &[u8]) -> TrialInput {
    TrialInput {
        trial_id: "colorSigil".to_string(),
        solution: solution.to_vec(),
        expected_hash: hash_solution(expected_from),
        player_address: "GXXXXXXXXXXXXXX".to_string(),
        round_id: 1,
    }
}

#[test]
fn identifiers_are_padded_and_truncated() {
    let short = fixed_id(b"abc");
    assert_eq!(&short[..3], b"abc");
    assert!(short[3..].iter().all(|b| *b == 0));
    let long: Vec<u8> = (0..40u8).collect();
    let cut = fixed_id(&long);
    assert_eq!(cut.to_vec(), (0..32u8).collect::<Vec<u8>>());
}

#[test]
fn guest_input_widens_identifiers() {
    let g = prepare_guest_input(input(b"correct_answer_123", b"correct_answer_123"));
    assert_eq!(&g.trial_id[..10], b"colorSigil");
    assert_eq!(&g.player_address[..15], b"GXXXXXXXXXXXXXX");
    assert_eq!(g.solution, b"correct_answer_123".to_vec());
    assert_eq!(g.round_id, 1);
}

#[test]
fn correct_solution_is_valid() {
    let g = prepare_guest_input(input(b"correct_answer_123", b"correct_answer_123"));
    let out = evaluate_trial(&g);
    assert!(out.is_valid);
    assert_eq!(out.solution_hash, hash_solution(b"correct_answer_123"));
    assert_eq!(out.trial_id, g.trial_id);
}

#[test]
fn wrong_solution_still_yields_journal() {
    let g = prepare_guest_input(input(b"wrong_answer", b"correct_answer"));
    let out = evaluate_trial(&g);
    assert!(!out.is_valid);
    assert_eq!(out.solution_hash, hash_solution(b"wrong_answer"));
    assert_eq!(out.round_id, 1);
}

fn artifact(valid: bool) -> ProofResult {
    let journal = TrialOutput { solution_hash: [1u8; 32], trial_id: [2u8; 32], round_id: 4, is_valid: valid };
    ProofResult { receipt: vec![0u8; 8], journal, image_id: [5u32; 8] }
}

#[test]
fn judge_checks_fingerprint_first() {
    let a = artifact(true);
    let proven = Some(encode_journal(&a.journal));
    assert_eq!(verify_trial_proof(&a, &[6u32; 8], proven).err(), Some(VerificationError::FingerprintMismatch));
}

#[test]
fn judge_rejects_unverified_receipt() {
    let a = artifact(true);
    assert_eq!(verify_trial_proof(&a, &[5u32; 8], None).err(), Some(VerificationError::ProofInvalid));
    let mut other = encode_journal(&a.journal);
    other[0] ^= 1;
    assert_eq!(verify_trial_proof(&a, &[5u32; 8], Some(other)).err(), Some(VerificationError::ProofInvalid));
}

#[test]
fn judge_rejects_wrong_solution() {
    let a = artifact(false);
    let proven = Some(encode_journal(&a.journal));
    assert_eq!(verify_trial_proof(&a, &[5u32; 8], proven).err(), Some(VerificationError::SolutionRejected));
}

#[test]
fn judge_accepts_matching_proof() {
    let a = artifact(true);
    let proven = Some(encode_journal(&a.journal));
    let j = verify_trial_proof(&a, &[5u32; 8], proven).unwrap();
    assert_eq!(j.trial_id, [2u8; 32]);
    assert_eq!(j.round_id, 4);
}

#[test]
fn assemble_decodes_journal() {
    let j = TrialOutput { solution_hash: [8u8; 32], trial_id: [9u8; 32], round_id: 3, is_valid: true };
    let p = assemble_proof(vec![1, 2, 3], &encode_journal(&j), [7u32; 8]).unwrap();
    assert_eq!(p.receipt, vec![1, 2, 3]);
    assert_eq!(p.journal.round_id, 3);
    assert_eq!(p.image_id, [7u32; 8]);
    assert!(matches!(assemble_proof(vec![], &[0u8; 68], [7u32; 8]), Err(JournalError::TooShort)));
}

#[test]
fn compact_proof_keeps_fields() {
    let c = create_compact_proof(&[1, 2, 3], [4u8; 32], [5u32; 8]);
    assert_eq!(c.receipt, vec![1, 2, 3]);
    assert_eq!(c.journal_hash, [4u8; 32]);
    assert_eq!(c.image_id, [5u32; 8]);
    let p = get_verification_params([6u32; 8]);
    assert_eq!(p.image_id, [6u32; 8]);
    assert_eq!(p.journal_version, JOURNAL_VERSION);
    assert_eq!(JOURNAL_VERSION, 1);
}
