use zk_throne::game::{GameError, ThroneGame, TrialResult, LOCKOUT_DURATION};

const PLAYER: &[u8] = b"GPLAYERXXXXXXXXXXXXXXXXXXXXXXXXX";
const HUB: &[u8] = b"GHUBXXXXXXXXXXXXXXXXXXXXXXXXXXXX";

#[test]
fn test_game_flow() {
    let mut client = ThroneGame::initialize(HUB);

    client.start_game(PLAYER, 3, 1000).unwrap();

    let result1 = client.submit_trial(PLAYER, 0, true, 1000).unwrap();
    assert_eq!(result1, TrialResult::Success);

    let (completed, total) = client.get_progress(PLAYER).unwrap();
    assert_eq!(completed, 1);
    assert_eq!(total, 3);

    let result2 = client.submit_trial(PLAYER, 1, false, 1000).unwrap();
    assert_eq!(result2, TrialResult::Failed);

    let (locked, time) = client.check_lockout(PLAYER, 1000).unwrap();
    assert!(locked);
    assert!(time > 0);
}

#[test]
fn lockout_expires() {
    let mut g = ThroneGame::initialize(HUB);
    g.start_game(PLAYER, 1, 50).unwrap();
    assert_eq!(g.submit_trial(PLAYER, 0, false, 100), Ok(TrialResult::Failed));
    assert_eq!(g.check_lockout(PLAYER, 130), Ok((true, 90)));
    assert_eq!(g.submit_trial(PLAYER, 0, true, 219), Ok(TrialResult::Locked));
    assert_eq!(g.check_lockout(PLAYER, 100 + LOCKOUT_DURATION), Ok((false, 0)));
    assert_eq!(g.submit_trial(PLAYER, 0, true, 220), Ok(TrialResult::Success));
    assert_eq!(g.end_game(PLAYER), Ok(true));
}

#[test]
fn game_requests_are_checked() {
    let mut g = ThroneGame::initialize(HUB);
    assert_eq!(g.submit_trial(PLAYER, 0, true, 1), Err(GameError::NoGame));
    assert_eq!(g.start_game(PLAYER, 2, 1), Err(GameError::InvalidMode));
    g.start_game(PLAYER, 1, 1).unwrap();
    assert_eq!(g.start_game(PLAYER, 1, 1), Err(GameError::GameInProgress));
    assert_eq!(g.submit_trial(b"GSOMEONEELSE", 0, true, 1), Err(GameError::NotYourGame));
    assert_eq!(g.check_lockout(b"GSOMEONEELSE", 1), Ok((false, 0)));
    assert_eq!(g.submit_trial(PLAYER, 4, true, 1), Ok(TrialResult::Success));
    assert_eq!(g.submit_trial(PLAYER, 4, true, 1), Err(GameError::TrialAlreadyCompleted));
    assert_eq!(g.submit_trial(PLAYER, 5, true, 1), Err(GameError::AllTrialsCompleted));
    let s = g.get_state(PLAYER).unwrap();
    assert_eq!(s.completed_trials, vec![4]);
    assert_eq!(s.current_trial, 4);
    assert_eq!(g.end_game(b"GSOMEONEELSE"), Err(GameError::NotYourGame));
    assert_eq!(g.end_game(PLAYER), Ok(true));
    assert_eq!(g.get_progress(PLAYER), Err(GameError::NoGame));
}

#[test]
fn unfinished_game_ends_incomplete() {
    let mut g = ThroneGame::initialize(HUB);
    g.start_game(PLAYER, 5, 1).unwrap();
    g.submit_trial(PLAYER, 0, true, 1).unwrap();
    assert_eq!(g.end_game(PLAYER), Ok(false));
}
