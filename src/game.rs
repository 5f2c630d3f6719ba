//! A single-player game: a run of 1, 3 or 5 trials, with a two-minute
//! lockout after each failed attempt.
use vstd::prelude::*;
use crate::bytes::{same_bytes, to_vec};

verus! {

/// Seconds a player stays locked out after a failed trial.
pub const LOCKOUT_DURATION: u64 = 120;

/// The state of the game in progress.
pub struct GameState {
    pub player: Vec<u8>,
    pub mode: u32,
    pub trials_completed: u32,
    pub current_trial: u32,
    pub last_failed_timestamp: u64,
    pub started_at: u64,
    pub completed_trials: Vec<u32>,
}

/// The outcome of one trial submission.
#[derive(Debug, Clone, Copy, PartialEq, Eq, Structural)]
pub enum TrialResult {
    Success,
    Failed,
    Locked,
}

/// Why the game refused a request. A refused request changes nothing.
#[derive(Debug, Clone, Copy, PartialEq, Eq, Structural)]
pub enum GameError {
    InvalidMode,
    GameInProgress,
    NoGame,
    NotYourGame,
    TrialAlreadyCompleted,
    AllTrialsCompleted,
}

/// A game host: the hub it reports to and the game in progress, if any.
pub struct ThroneGame {
    game_hub: Vec<u8>,
    state: Option<GameState>,
}

/// A game as contracts see it.
pub struct GameView {
    pub player: Seq<u8>,
    pub mode: u32,
    pub trials_completed: u32,
    pub current_trial: u32,
    pub last_failed_timestamp: u64,
    pub started_at: u64,
    pub completed_trials: Seq<u32>,
}

impl GameState {
    pub open spec fn view(self) -> GameView {
        GameView {
            player: self.player@,
            mode: self.mode,
            trials_completed: self.trials_completed,
            current_trial: self.current_trial,
            last_failed_timestamp: self.last_failed_timestamp,
            started_at: self.started_at,
            completed_trials: self.completed_trials@,
        }
    }
}

/// Whether `mode` is a number of trials a game can have.
pub open spec fn valid_mode(mode: u32) -> bool {
    mode == 1 || mode == 3 || mode == 5
}

/// Whether a game is in its lockout at time `now`.
pub open spec fn locked_at(g: GameView, now: u64) -> bool {
    g.last_failed_timestamp > 0 && now < g.last_failed_timestamp + LOCKOUT_DURATION
}

/// Whether `v` holds `t`.
fn contains_trial(v: &Vec<u32>, t: u32) -> (r: bool)
    ensures
        r == v@.contains(t),
{
    let mut k: usize = 0;
    while k < v.len()
        invariant
            k <= v@.len(),
            forall|j: int| 0 <= j < k ==> v@[j] != t,
        decreases v@.len() - k,
    {
        if v[k] == t {
            assert(v@[k as int] == t);
            return true;
        }
        k = k + 1;
    }
    false
}

impl ThroneGame {
    pub closed spec fn game(self) -> Option<GameView> {
        match self.state {
            Some(s) => Some(s.view()),
            None => None,
        }
    }

    pub closed spec fn hub(self) -> Seq<u8> {
        self.game_hub@
    }

    /// The game's invariant: progress never passes the mode.
    pub open spec fn wf(self) -> bool {
        self.game() is Some ==> {
            let g = self.game()->Some_0;
            valid_mode(g.mode) && g.trials_completed <= g.mode
        }
    }

    /// A host reporting to `game_hub`, with no game in progress.
    pub fn initialize(game_hub: &[u8]) -> (r: ThroneGame)
        ensures
            r.wf(),
            r.hub() == game_hub@,
            r.game() is None,
    {
        ThroneGame { game_hub: to_vec(game_hub), state: None }
    }

    /// Starts a game of `mode` trials for `player` at time `now`.
    pub fn start_game(&mut self, player: &[u8], mode: u32, now: u64) -> (r: Result<(), GameError>)
        requires
            old(self).wf(),
        ensures
            final(self).wf(),
            final(self).hub() == old(self).hub(),
            !valid_mode(mode) ==> r == Err::<(), GameError>(GameError::InvalidMode) && final(self).game() == old(self).game(),
            valid_mode(mode) && old(self).game() is Some
                ==> r == Err::<(), GameError>(GameError::GameInProgress) && final(self).game() == old(self).game(),
            valid_mode(mode) && old(self).game() is None ==> {
                &&& r == Ok::<(), GameError>(())
                &&& final(self).game() == Some(GameView {
                    player: player@,
                    mode,
                    trials_completed: 0,
                    current_trial: 0,
                    last_failed_timestamp: 0,
                    started_at: now,
                    completed_trials: Seq::empty(),
                })
            },
    {
        if mode != 1 && mode != 3 && mode != 5 {
            return Err(GameError::InvalidMode);
        }
        if self.state.is_some() {
            return Err(GameError::GameInProgress);
        }
        self.state = Some(GameState {
            player: to_vec(player),
            mode,
            trials_completed: 0,
            current_trial: 0,
            last_failed_timestamp: 0,
            started_at: now,
            completed_trials: Vec::new(),
        });
        assert(self.game()->Some_0.completed_trials =~= Seq::empty());
        Ok(())
    }

    /// The game of `player`, or why there is none.
    pub open spec fn game_of(self, player: Seq<u8>) -> Result<GameView, GameError> {
        match self.game() {
            None => Err(GameError::NoGame),
            Some(g) => if g.player != player {
                Err(GameError::NotYourGame)
            } else {
                Ok(g)
            },
        }
    }

    /// Submits trial `trial_id` of `player` at time `now`, whose proof was
    /// found valid or not. A failed trial locks the player out for
    /// `LOCKOUT_DURATION` seconds.
    pub fn submit_trial(&mut self, player: &[u8], trial_id: u32, proof_valid: bool, now: u64) -> (r: Result<TrialResult, GameError>)
        requires
            old(self).wf(),
        ensures
            final(self).wf(),
            final(self).hub() == old(self).hub(),
            match old(self).game_of(player@) {
                Err(e) => r == Err::<TrialResult, GameError>(e) && final(self).game() == old(self).game(),
                Ok(g) => if locked_at(g, now) {
                    r == Ok::<TrialResult, GameError>(TrialResult::Locked) && final(self).game() == old(self).game()
                } else if g.completed_trials.contains(trial_id) {
                    r == Err::<TrialResult, GameError>(GameError::TrialAlreadyCompleted) && final(self).game() == old(self).game()
                } else if g.trials_completed >= g.mode {
                    r == Err::<TrialResult, GameError>(GameError::AllTrialsCompleted) && final(self).game() == old(self).game()
                } else if proof_valid {
                    &&& r == Ok::<TrialResult, GameError>(TrialResult::Success)
                    &&& final(self).game() == Some(GameView {
                        trials_completed: (g.trials_completed + 1) as u32,
                        current_trial: trial_id,
                        completed_trials: g.completed_trials.push(trial_id),
                        ..g
                    })
                } else {
                    &&& r == Ok::<TrialResult, GameError>(TrialResult::Failed)
                    &&& final(self).game() == Some(GameView { last_failed_timestamp: now, ..g })
                },
            },
    {
        let mut state = match self.state.take() {
            Some(s) => s,
            None => {
                return Err(GameError::NoGame);
            },
        };
        if !same_bytes(state.player.as_slice(), player) {
            self.state = Some(state);
            return Err(GameError::NotYourGame);
        }
        let last = state.last_failed_timestamp;
        if last > 0 && (now < last || now - last < LOCKOUT_DURATION) {
            self.state = Some(state);
            return Ok(TrialResult::Locked);
        }
        if contains_trial(&state.completed_trials, trial_id) {
            self.state = Some(state);
            return Err(GameError::TrialAlreadyCompleted);
        }
        if state.trials_completed >= state.mode {
            self.state = Some(state);
            return Err(GameError::AllTrialsCompleted);
        }
        let result = if proof_valid {
            state.trials_completed = state.trials_completed + 1;
            state.current_trial = trial_id;
            state.completed_trials.push(trial_id);
            TrialResult::Success
        } else {
            state.last_failed_timestamp = now;
            TrialResult::Failed
        };
        self.state = Some(state);
        Ok(result)
    }
}

impl ThroneGame {
    /// Ends the game of `player`: whether they completed every trial. The
    /// host is then free for a new game.
    pub fn end_game(&mut self, player: &[u8]) -> (r: Result<bool, GameError>)
        requires
            old(self).wf(),
        ensures
            final(self).wf(),
            final(self).hub() == old(self).hub(),
            match old(self).game_of(player@) {
                Err(e) => r == Err::<bool, GameError>(e) && final(self).game() == old(self).game(),
                Ok(g) => r == Ok::<bool, GameError>(g.trials_completed >= g.mode) && final(self).game() is None,
            },
    {
        match &self.state {
            None => Err(GameError::NoGame),
            Some(state) => {
                if !same_bytes(state.player.as_slice(), player) {
                    return Err(GameError::NotYourGame);
                }
                let completed_all = state.trials_completed >= state.mode;
                self.state = None;
                Ok(completed_all)
            },
        }
    }

    /// A copy of the game of `player`.
    pub fn get_state(&self, player: &[u8]) -> (r: Result<GameState, GameError>)
        ensures
            match self.game_of(player@) {
                Err(e) => r == Err::<GameState, GameError>(e),
                Ok(g) => r is Ok && r->Ok_0.view() == g,
            },
    {
        match &self.state {
            None => Err(GameError::NoGame),
            Some(state) => {
                if !same_bytes(state.player.as_slice(), player) {
                    return Err(GameError::NotYourGame);
                }
                let mut completed_trials: Vec<u32> = Vec::new();
                let mut k: usize = 0;
                while k < state.completed_trials.len()
                    invariant
                        k <= state.completed_trials@.len(),
                        completed_trials@ == state.completed_trials@.subrange(0, k as int),
                    decreases state.completed_trials@.len() - k,
                {
                    completed_trials.push(state.completed_trials[k]);
                    k = k + 1;
                    assert(state.completed_trials@.subrange(0, k as int)
                        =~= state.completed_trials@.subrange(0, k - 1) + seq![state.completed_trials@[k - 1]]);
                }
                assert(state.completed_trials@.subrange(0, state.completed_trials@.len() as int) =~= state.completed_trials@);
                Ok(GameState {
                    player: to_vec(state.player.as_slice()),
                    mode: state.mode,
                    trials_completed: state.trials_completed,
                    current_trial: state.current_trial,
                    last_failed_timestamp: state.last_failed_timestamp,
                    started_at: state.started_at,
                    completed_trials,
                })
            },
        }
    }

    /// Whether `player` is locked out at time `now`, and for how many more
    /// seconds (saturating at `u64::MAX`). Someone else's game never locks.
    pub fn check_lockout(&self, player: &[u8], now: u64) -> (r: Result<(bool, u64), GameError>)
        ensures
            self.game() is None ==> r == Err::<(bool, u64), GameError>(GameError::NoGame),
            self.game() is Some ==> {
                let g = self.game()->Some_0;
                let remaining = g.last_failed_timestamp + LOCKOUT_DURATION - now;
                r == Ok::<(bool, u64), GameError>(
                    if g.player == player@ && locked_at(g, now) {
                        (true, if remaining > u64::MAX { u64::MAX } else { remaining as u64 })
                    } else {
                        (false, 0u64)
                    },
                )
            },
    {
        match &self.state {
            None => Err(GameError::NoGame),
            Some(state) => {
                if !same_bytes(state.player.as_slice(), player) {
                    return Ok((false, 0));
                }
                let last = state.last_failed_timestamp;
                if last == 0 {
                    return Ok((false, 0));
                }
                if now >= last {
                    if now - last >= LOCKOUT_DURATION {
                        Ok((false, 0))
                    } else {
                        Ok((true, LOCKOUT_DURATION - (now - last)))
                    }
                } else if last - now > u64::MAX - LOCKOUT_DURATION {
                    Ok((true, u64::MAX))
                } else {
                    Ok((true, (last - now) + LOCKOUT_DURATION))
                }
            },
        }
    }

    /// The progress of `player`: trials completed, and trials in the game.
    pub fn get_progress(&self, player: &[u8]) -> (r: Result<(u32, u32), GameError>)
        ensures
            match self.game_of(player@) {
                Err(e) => r == Err::<(u32, u32), GameError>(e),
                Ok(g) => r == Ok::<(u32, u32), GameError>((g.trials_completed, g.mode)),
            },
    {
        match &self.state {
            None => Err(GameError::NoGame),
            Some(state) => {
                if !same_bytes(state.player.as_slice(), player) {
                    return Err(GameError::NotYourGame);
                }
                Ok((state.trials_completed, state.mode))
            },
        }
    }
}

} // verus!
