//! The progression ledger: per-player progress, replay protection, round
//! locking and King assignment, fed by either kind of attestation.
use vstd::prelude::*;
use crate::attestation::{attestation_valid, verify_attestation, Attestation};
use crate::bytes::{same_bytes, to_vec};
use crate::engine::{bytes_view, proof_verdict, verify_trial_proof, ProofResult, VerificationError};
use crate::journal::TrialOutput;

verus! {

/// The state of one round.
pub struct RoundState {
    pub round_id: u32,
    pub required_trials: u32,
    pub locked: bool,
    pub king: Option<Vec<u8>>,
}

/// A player's progress in one round.
pub struct PlayerProgress {
    pub player: Vec<u8>,
    pub round_id: u32,
    pub trials_completed: u32,
    pub last_trial_timestamp: u64,
    pub is_king: bool,
}

/// A player's progress together with the trial ids credited by proofs.
struct PlayerRecord {
    progress: PlayerProgress,
    completed: Vec<[u8; 32]>,
}

/// The last nonce accepted from a player.
struct NonceEntry {
    player: Vec<u8>,
    last_nonce: u64,
}

/// A two-player session reported to a game hub.
pub struct Session {
    pub session_id: u32,
    pub player1: Vec<u8>,
    pub player2: Vec<u8>,
}

/// The report of a session's start, for the game hub at `game_hub`: both
/// players start with no points.
pub struct SessionStart {
    pub game_hub: Vec<u8>,
    pub session_id: u32,
    pub player1: Vec<u8>,
    pub player2: Vec<u8>,
}

/// How a session ended: reported when its round gets a King.
#[derive(Debug, Clone, Copy, PartialEq, Eq)]
pub struct GameOutcome {
    pub session_id: u32,
    pub player1_won: bool,
}

/// What an accepted submission brought about.
#[derive(Debug, Clone, Copy, PartialEq, Eq)]
pub enum Event {
    Progress { round_id: u32, completed: u32, required: u32 },
    KingCrowned { round_id: u32, game: Option<GameOutcome> },
}

/// Why the ledger refused an operation. A refused operation changes nothing.
#[derive(Debug, Clone, Copy, PartialEq, Eq, Structural)]
pub enum Error {
    RoundMismatch,
    RoundLocked,
    ReplayedNonce,
    OutOfOrderTrial,
    InvalidAttestation,
    SolutionRejected,
    TrialAlreadyCompleted,
    Unauthorized,
    RoundLimitReached,
}

/// The ledger of a game: configuration, rounds, progress and nonces.
pub struct Throne {
    admin: Vec<u8>,
    backend_pubkey: [u8; 32],
    image_id: [u32; 8],
    rounds: Vec<RoundState>,
    records: Vec<PlayerRecord>,
    nonces: Vec<NonceEntry>,
    session: Option<Session>,
    game_hub: Vec<u8>,
}

/// A round as contracts see it.
pub struct RoundView {
    pub required_trials: u32,
    pub locked: bool,
    pub king: Option<Seq<u8>>,
}

/// A player's record in one round as contracts see it.
pub struct RecordView {
    pub trials_completed: u32,
    pub last_trial_timestamp: u64,
    pub is_king: bool,
    pub completed: Seq<Seq<u8>>,
}

/// The view of an optional player id.
pub open spec fn player_view(p: Option<Vec<u8>>) -> Option<Seq<u8>> {
    match p {
        Some(v) => Some(v@),
        None => None,
    }
}

impl RoundState {
    pub open spec fn view(self) -> RoundView {
        RoundView { required_trials: self.required_trials, locked: self.locked, king: player_view(self.king) }
    }
}

impl PlayerRecord {
    spec fn key(self) -> (u32, Seq<u8>) {
        (self.progress.round_id, self.progress.player@)
    }

    spec fn view(self) -> RecordView {
        RecordView {
            trials_completed: self.progress.trials_completed,
            last_trial_timestamp: self.progress.last_trial_timestamp,
            is_king: self.progress.is_king,
            completed: self.completed@.map_values(|a: [u8; 32]| a@),
        }
    }
}

spec fn records_unique(recs: Seq<PlayerRecord>) -> bool {
    forall|i: int, j: int|
        0 <= i < recs.len() && 0 <= j < recs.len() && #[trigger] recs[i].key() == #[trigger] recs[j].key() ==> i == j
}

spec fn record_lookup(recs: Seq<PlayerRecord>, k: (u32, Seq<u8>)) -> Option<RecordView> {
    if exists|i: int| 0 <= i < recs.len() && #[trigger] recs[i].key() == k {
        Some(recs[choose|i: int| 0 <= i < recs.len() && #[trigger] recs[i].key() == k].view())
    } else {
        None
    }
}

proof fn lemma_record_at(recs: Seq<PlayerRecord>, i: int)
    requires
        records_unique(recs),
        0 <= i < recs.len(),
    ensures
        record_lookup(recs, recs[i].key()) == Some(recs[i].view()),
{
    let k = recs[i].key();
    assert(recs[i].key() == k);
    let j = choose|j: int| 0 <= j < recs.len() && #[trigger] recs[j].key() == k;
    assert(recs[j].key() == recs[i].key());
}

proof fn lemma_record_set(recs: Seq<PlayerRecord>, i: int, r: PlayerRecord)
    requires
        records_unique(recs),
        0 <= i < recs.len(),
        r.key() == recs[i].key(),
    ensures
        records_unique(recs.update(i, r)),
        forall|k: (u32, Seq<u8>)|
            #[trigger] record_lookup(recs.update(i, r), k)
                == if k == r.key() { Some(r.view()) } else { record_lookup(recs, k) },
{
    let s = recs.update(i, r);
    assert forall|a: int, b: int| 0 <= a < s.len() && 0 <= b < s.len() && #[trigger] s[a].key() == #[trigger] s[b].key() implies a == b by {
        assert(s[a].key() == recs[a].key());
        assert(s[b].key() == recs[b].key());
    }
    assert forall|k: (u32, Seq<u8>)|
        #[trigger] record_lookup(s, k) == if k == r.key() { Some(r.view()) } else { record_lookup(recs, k) } by {
        if k == r.key() {
            lemma_record_at(s, i);
        } else {
            if exists|j: int| 0 <= j < recs.len() && #[trigger] recs[j].key() == k {
                let j = choose|j: int| 0 <= j < recs.len() && #[trigger] recs[j].key() == k;
                assert(s[j].key() == k);
                lemma_record_at(s, j);
                lemma_record_at(recs, j);
            } else {
                assert forall|j: int| 0 <= j < s.len() implies #[trigger] s[j].key() != k by {
                    if j != i {
                        assert(s[j] == recs[j]);
                    }
                }
            }
        }
    }
}

proof fn lemma_record_push(recs: Seq<PlayerRecord>, r: PlayerRecord)
    requires
        records_unique(recs),
        forall|j: int| 0 <= j < recs.len() ==> #[trigger] recs[j].key() != r.key(),
    ensures
        records_unique(recs.push(r)),
        forall|k: (u32, Seq<u8>)|
            #[trigger] record_lookup(recs.push(r), k)
                == if k == r.key() { Some(r.view()) } else { record_lookup(recs, k) },
{
    let s = recs.push(r);
    assert forall|a: int, b: int| 0 <= a < s.len() && 0 <= b < s.len() && #[trigger] s[a].key() == #[trigger] s[b].key() implies a == b by {
        if a < recs.len() {
            assert(s[a] == recs[a]);
        }
        if b < recs.len() {
            assert(s[b] == recs[b]);
        }
    }
    assert forall|k: (u32, Seq<u8>)|
        #[trigger] record_lookup(s, k) == if k == r.key() { Some(r.view()) } else { record_lookup(recs, k) } by {
        if k == r.key() {
            lemma_record_at(s, recs.len() as int);
        } else {
            if exists|j: int| 0 <= j < recs.len() && #[trigger] recs[j].key() == k {
                let j = choose|j: int| 0 <= j < recs.len() && #[trigger] recs[j].key() == k;
                assert(s[j] == recs[j]);
                lemma_record_at(s, j);
                lemma_record_at(recs, j);
            } else {
                assert forall|j: int| 0 <= j < s.len() implies #[trigger] s[j].key() != k by {
                    if j < recs.len() {
                        assert(s[j] == recs[j]);
                    }
                }
            }
        }
    }
}

spec fn nonces_unique(ns: Seq<NonceEntry>) -> bool {
    forall|i: int, j: int|
        0 <= i < ns.len() && 0 <= j < ns.len() && #[trigger] ns[i].player@ == #[trigger] ns[j].player@ ==> i == j
}

spec fn nonce_lookup(ns: Seq<NonceEntry>, p: Seq<u8>) -> u64 {
    if exists|i: int| 0 <= i < ns.len() && #[trigger] ns[i].player@ == p {
        ns[choose|i: int| 0 <= i < ns.len() && #[trigger] ns[i].player@ == p].last_nonce
    } else {
        0
    }
}

proof fn lemma_nonce_at(ns: Seq<NonceEntry>, i: int)
    requires
        nonces_unique(ns),
        0 <= i < ns.len(),
    ensures
        nonce_lookup(ns, ns[i].player@) == ns[i].last_nonce,
{
    let p = ns[i].player@;
    assert(ns[i].player@ == p);
    let j = choose|j: int| 0 <= j < ns.len() && #[trigger] ns[j].player@ == p;
    assert(ns[j].player@ == ns[i].player@);
}

proof fn lemma_nonce_set(ns: Seq<NonceEntry>, i: int, e: NonceEntry)
    requires
        nonces_unique(ns),
        0 <= i < ns.len(),
        e.player@ == ns[i].player@,
    ensures
        nonces_unique(ns.update(i, e)),
        forall|p: Seq<u8>|
            #[trigger] nonce_lookup(ns.update(i, e), p) == if p == e.player@ { e.last_nonce } else { nonce_lookup(ns, p) },
{
    let s = ns.update(i, e);
    assert forall|a: int, b: int| 0 <= a < s.len() && 0 <= b < s.len() && #[trigger] s[a].player@ == #[trigger] s[b].player@ implies a == b by {
        assert(s[a].player@ == ns[a].player@);
        assert(s[b].player@ == ns[b].player@);
    }
    assert forall|p: Seq<u8>|
        #[trigger] nonce_lookup(s, p) == if p == e.player@ { e.last_nonce } else { nonce_lookup(ns, p) } by {
        if p == e.player@ {
            lemma_nonce_at(s, i);
        } else {
            if exists|j: int| 0 <= j < ns.len() && #[trigger] ns[j].player@ == p {
                let j = choose|j: int| 0 <= j < ns.len() && #[trigger] ns[j].player@ == p;
                assert(s[j] == ns[j]);
                lemma_nonce_at(s, j);
                lemma_nonce_at(ns, j);
            } else {
                assert forall|j: int| 0 <= j < s.len() implies #[trigger] s[j].player@ != p by {
                    if j != i {
                        assert(s[j] == ns[j]);
                    }
                }
            }
        }
    }
}

proof fn lemma_nonce_push(ns: Seq<NonceEntry>, e: NonceEntry)
    requires
        nonces_unique(ns),
        forall|j: int| 0 <= j < ns.len() ==> #[trigger] ns[j].player@ != e.player@,
    ensures
        nonces_unique(ns.push(e)),
        forall|p: Seq<u8>|
            #[trigger] nonce_lookup(ns.push(e), p) == if p == e.player@ { e.last_nonce } else { nonce_lookup(ns, p) },
{
    let s = ns.push(e);
    assert forall|a: int, b: int| 0 <= a < s.len() && 0 <= b < s.len() && #[trigger] s[a].player@ == #[trigger] s[b].player@ implies a == b by {
        if a < ns.len() {
            assert(s[a] == ns[a]);
        }
        if b < ns.len() {
            assert(s[b] == ns[b]);
        }
    }
    assert forall|p: Seq<u8>|
        #[trigger] nonce_lookup(s, p) == if p == e.player@ { e.last_nonce } else { nonce_lookup(ns, p) } by {
        if p == e.player@ {
            lemma_nonce_at(s, ns.len() as int);
        } else {
            if exists|j: int| 0 <= j < ns.len() && #[trigger] ns[j].player@ == p {
                let j = choose|j: int| 0 <= j < ns.len() && #[trigger] ns[j].player@ == p;
                assert(s[j] == ns[j]);
                lemma_nonce_at(s, j);
                lemma_nonce_at(ns, j);
            } else {
                assert forall|j: int| 0 <= j < s.len() implies #[trigger] s[j].player@ != p by {
                    if j < ns.len() {
                        assert(s[j] == ns[j]);
                    }
                }
            }
        }
    }
}


impl Throne {
    /// The ledger's invariant.
    pub closed spec fn wf(self) -> bool {
        &&& 1 <= self.rounds@.len() <= u32::MAX
        &&& forall|i: int| 0 <= i < self.rounds@.len() ==> #[trigger] self.rounds@[i].round_id == i + 1
        &&& forall|i: int| 0 <= i < self.rounds@.len() - 1 ==> #[trigger] self.rounds@[i].locked
        &&& forall|i: int| 0 <= i < self.rounds@.len() && (#[trigger] self.rounds@[i]).king is Some ==> self.rounds@[i].locked
        &&& records_unique(self.records@)
        &&& forall|i: int| 0 <= i < self.records@.len() ==> {
            let rec = #[trigger] self.records@[i];
            &&& 1 <= rec.progress.round_id <= self.rounds@.len()
            &&& rec.progress.is_king ==> player_view(self.rounds@[rec.progress.round_id - 1].king) == Some(rec.progress.player@)
            &&& rec.completed@.len() <= rec.progress.trials_completed
            &&& forall|a: int, b: int|
                0 <= a < b < rec.completed@.len() ==> rec.completed@[a]@ != rec.completed@[b]@
        }
        &&& nonces_unique(self.nonces@)
    }

    /// The number of the current round; rounds are numbered from 1.
    pub closed spec fn current_round(self) -> u32 {
        self.rounds@.len() as u32
    }

    /// Round `r`, for `1 <= r <= current_round()`.
    pub closed spec fn round_view(self, r: u32) -> RoundView {
        self.rounds@[r - 1].view()
    }

    /// The record of `player` in round `r`, if they have one.
    pub closed spec fn progress_of(self, r: u32, player: Seq<u8>) -> Option<RecordView> {
        record_lookup(self.records@, (r, player))
    }

    /// The number of trials credited to `player` in round `r`.
    pub open spec fn trials_of(self, r: u32, player: Seq<u8>) -> u32 {
        match self.progress_of(r, player) {
            Some(v) => v.trials_completed,
            None => 0,
        }
    }

    /// The trial ids credited by proofs to `player` in round `r`.
    pub open spec fn completed_of(self, r: u32, player: Seq<u8>) -> Seq<Seq<u8>> {
        match self.progress_of(r, player) {
            Some(v) => v.completed,
            None => Seq::empty(),
        }
    }

    /// The last nonce accepted from `player` (0 before any).
    pub closed spec fn nonce_of(self, player: Seq<u8>) -> u64 {
        nonce_lookup(self.nonces@, player)
    }

    pub closed spec fn admin_view(self) -> Seq<u8> {
        self.admin@
    }

    pub closed spec fn backend_key(self) -> Seq<u8> {
        self.backend_pubkey@
    }

    pub closed spec fn fingerprint(self) -> Seq<u32> {
        self.image_id@
    }

    /// The address of the game hub that sessions are reported to.
    pub closed spec fn hub(self) -> Seq<u8> {
        self.game_hub@
    }

    /// The current session: its id and its two players.
    pub closed spec fn session_view(self) -> Option<(u32, Seq<u8>, Seq<u8>)> {
        match self.session {
            Some(s) => Some((s.session_id, s.player1@, s.player2@)),
            None => None,
        }
    }

    /// Whether a submission to round `r` can be credited at all.
    pub open spec fn round_open(self, r: u32) -> Option<Error> {
        if r == 0 || r > self.current_round() {
            Some(Error::RoundMismatch)
        } else if self.round_view(r).locked {
            Some(Error::RoundLocked)
        } else {
            None
        }
    }

    /// Why a backend attestation would be refused, if it would.
    pub open spec fn attestation_rejection(
        self,
        player: Seq<u8>,
        nonce: u64,
        trial_round_id: u32,
        round_id: u32,
        authentic: bool,
    ) -> Option<Error> {
        if self.round_open(round_id) is Some {
            self.round_open(round_id)
        } else if nonce <= self.nonce_of(player) {
            Some(Error::ReplayedNonce)
        } else if trial_round_id as int != self.trials_of(round_id, player) + 1 {
            Some(Error::OutOfOrderTrial)
        } else if !authentic {
            Some(Error::InvalidAttestation)
        } else {
            None
        }
    }

    /// Why a judged proof would be refused, if it would.
    pub open spec fn proof_rejection(
        self,
        player: Seq<u8>,
        verdict: Result<TrialOutput, VerificationError>,
        round_id: u32,
    ) -> Option<Error> {
        if self.round_open(round_id) is Some {
            self.round_open(round_id)
        } else if verdict is Err {
            Some(Error::SolutionRejected)
        } else if verdict->Ok_0.round_id != round_id {
            Some(Error::RoundMismatch)
        } else if self.completed_of(round_id, player).contains(verdict->Ok_0.trial_id@) {
            Some(Error::TrialAlreadyCompleted)
        } else if self.trials_of(round_id, player) == u32::MAX {
            Some(Error::OutOfOrderTrial)
        } else {
            None
        }
    }

    /// The session's outcome when `player` wins.
    pub open spec fn outcome_for(self, player: Seq<u8>) -> Option<GameOutcome> {
        match self.session_view() {
            Some(s) => Some(GameOutcome { session_id: s.0, player1_won: player == s.1 }),
            None => None,
        }
    }

    /// `new` is `self` after crediting one trial (`trial`, when it came with
    /// an id) to `player` in round `r` at time `now`, and `ev` is the event.
    pub open spec fn credited(
        self,
        new: Throne,
        r: u32,
        player: Seq<u8>,
        trial: Option<Seq<u8>>,
        now: u64,
        ev: Event,
    ) -> bool {
        let count = (self.trials_of(r, player) + 1) as u32;
        let rv = self.round_view(r);
        let crown = count >= rv.required_trials;
        let completed = match trial {
            Some(t) => self.completed_of(r, player).push(t),
            None => self.completed_of(r, player),
        };
        &&& rv.king is None
        &&& new.wf()
        &&& new.current_round() == self.current_round()
        &&& new.admin_view() == self.admin_view()
        &&& new.backend_key() == self.backend_key()
        &&& new.fingerprint() == self.fingerprint()
        &&& new.hub() == self.hub()
        &&& new.session_view() == self.session_view()
        &&& forall|q: u32| 1 <= q <= self.current_round() && q != r ==> #[trigger] new.round_view(q) == self.round_view(q)
        &&& new.round_view(r) == if crown {
            RoundView { required_trials: rv.required_trials, locked: true, king: Some(player) }
        } else {
            rv
        }
        &&& new.progress_of(r, player) == Some(RecordView {
            trials_completed: count,
            last_trial_timestamp: now,
            is_king: crown,
            completed,
        })
        &&& forall|q: u32, p: Seq<u8>| (q, p) != (r, player) ==> #[trigger] new.progress_of(q, p) == self.progress_of(q, p)
        &&& ev == if crown {
            Event::KingCrowned { round_id: r, game: self.outcome_for(player) }
        } else {
            Event::Progress { round_id: r, completed: count, required: rv.required_trials }
        }
    }

    fn find_record(&self, r: u32, player: &[u8]) -> (res: Option<usize>)
        ensures
            match res {
                Some(i) => i < self.records@.len() && self.records@[i as int].key() == (r, player@),
                None => forall|j: int| 0 <= j < self.records@.len() ==> #[trigger] self.records@[j].key() != (r, player@),
            },
    {
        let mut i: usize = 0;
        while i < self.records.len()
            invariant
                i <= self.records@.len(),
                forall|j: int| 0 <= j < i ==> #[trigger] self.records@[j].key() != (r, player@),
            decreases self.records@.len() - i,
        {
            let rec = &self.records[i];
            if rec.progress.round_id == r && same_bytes(rec.progress.player.as_slice(), player) {
                return Some(i);
            }
            i = i + 1;
        }
        None
    }

    fn find_nonce(&self, player: &[u8]) -> (res: Option<usize>)
        ensures
            match res {
                Some(i) => i < self.nonces@.len() && self.nonces@[i as int].player@ == player@,
                None => forall|j: int| 0 <= j < self.nonces@.len() ==> #[trigger] self.nonces@[j].player@ != player@,
            },
    {
        let mut i: usize = 0;
        while i < self.nonces.len()
            invariant
                i <= self.nonces@.len(),
                forall|j: int| 0 <= j < i ==> #[trigger] self.nonces@[j].player@ != player@,
            decreases self.nonces@.len() - i,
        {
            if same_bytes(self.nonces[i].player.as_slice(), player) {
                return Some(i);
            }
            i = i + 1;
        }
        None
    }

    /// The last nonce accepted from `player`.
    fn last_nonce(&self, player: &[u8]) -> (n: u64)
        requires
            self.wf(),
        ensures
            n == self.nonce_of(player@),
    {
        match self.find_nonce(player) {
            Some(i) => {
                proof { lemma_nonce_at(self.nonces@, i as int); }
                self.nonces[i].last_nonce
            },
            None => 0,
        }
    }

    /// Records `nonce` as the last one accepted from `player`.
    fn store_nonce(&mut self, player: &[u8], nonce: u64)
        requires
            old(self).wf(),
        ensures
            final(self).wf(),
            final(self).nonce_of(player@) == nonce,
            forall|p: Seq<u8>| p != player@ ==> #[trigger] final(self).nonce_of(p) == old(self).nonce_of(p),
            final(self).rounds == old(self).rounds,
            final(self).records == old(self).records,
            final(self).admin == old(self).admin,
            final(self).backend_pubkey == old(self).backend_pubkey,
            final(self).image_id == old(self).image_id,
            final(self).session == old(self).session,
            final(self).game_hub == old(self).game_hub,
    {
        let e = NonceEntry { player: to_vec(player), last_nonce: nonce };
        match self.find_nonce(player) {
            Some(i) => {
                proof { lemma_nonce_set(self.nonces@, i as int, e); }
                self.nonces.set(i, e);
            },
            None => {
                proof { lemma_nonce_push(self.nonces@, e); }
                self.nonces.push(e);
            },
        }
    }
}

/// The view of an optional trial id.
pub open spec fn id_view(t: Option<[u8; 32]>) -> Option<Seq<u8>> {
    match t {
        Some(a) => Some(a@),
        None => None,
    }
}

fn copy_ids(v: &Vec<[u8; 32]>) -> (r: Vec<[u8; 32]>)
    ensures
        r@ == v@,
{
    let mut r: Vec<[u8; 32]> = Vec::new();
    let mut i: usize = 0;
    while i < v.len()
        invariant
            i <= v@.len(),
            r@ == v@.subrange(0, i as int),
        decreases v@.len() - i,
    {
        r.push(v[i]);
        i = i + 1;
        assert(v@.subrange(0, i as int) =~= v@.subrange(0, i - 1) + seq![v@[i - 1]]);
    }
    assert(v@.subrange(0, v@.len() as int) =~= v@);
    r
}

impl Throne {
    fn session_outcome(&self, player: &[u8]) -> (r: Option<GameOutcome>)
        ensures
            r == self.outcome_for(player@),
    {
        match &self.session {
            Some(s) => Some(GameOutcome { session_id: s.session_id, player1_won: same_bytes(s.player1.as_slice(), player) }),
            None => None,
        }
    }

    /// Credits one trial to `player` in the open round `r`.
    fn credit(&mut self, r: u32, player: &[u8], trial: Option<[u8; 32]>, now: u64) -> (ev: Event)
        requires
            old(self).wf(),
            old(self).round_open(r) is None,
            old(self).trials_of(r, player@) < u32::MAX,
            trial is Some ==> !old(self).completed_of(r, player@).contains(trial->Some_0@),
        ensures
            old(self).credited(*final(self), r, player@, id_view(trial), now, ev),
            final(self).nonces == old(self).nonces,
    {
        assert(old(self).rounds@[r - 1].king is None);
        let idx = self.find_record(r, player);
        let mut count: u32 = 0;
        let mut completed: Vec<[u8; 32]> = Vec::new();
        match idx {
            Some(i) => {
                proof { lemma_record_at(self.records@, i as int); }
                count = self.records[i].progress.trials_completed;
                completed = copy_ids(&self.records[i].completed);
            },
            None => {},
        }
        let ghost old_completed = completed@;
        assert(old_completed.map_values(|a: [u8; 32]| a@) =~= old(self).completed_of(r, player@));
        count = count + 1;
        match trial {
            Some(t) => {
                completed.push(t);
            },
            None => {},
        }
        proof {
            assert(completed@.map_values(|a: [u8; 32]| a@) =~= match id_view(trial) {
                Some(t) => old(self).completed_of(r, player@).push(t),
                None => old(self).completed_of(r, player@),
            });
            assert forall|a: int, b: int| 0 <= a < b < completed@.len() implies completed@[a]@ != completed@[b]@ by {
                if b < old_completed.len() {
                    match idx {
                        Some(i) => {
                            let rec = old(self).records@[i as int];
                            assert(rec.completed@ == old_completed);
                        },
                        None => {},
                    }
                } else {
                    let m = old_completed.map_values(|x: [u8; 32]| x@);
                    assert(m[a] == completed@[a]@);
                }
            }
        }
        let ri: usize = (r - 1) as usize;
        let required = self.rounds[ri].required_trials;
        let crown = count >= required;
        if crown {
            let rs = RoundState { round_id: r, required_trials: required, locked: true, king: Some(to_vec(player)) };
            self.rounds.set(ri, rs);
        }
        let game = self.session_outcome(player);
        let rec = PlayerRecord {
            progress: PlayerProgress {
                player: to_vec(player),
                round_id: r,
                trials_completed: count,
                last_trial_timestamp: now,
                is_king: crown,
            },
            completed,
        };
        match idx {
            Some(i) => {
                proof { lemma_record_set(self.records@, i as int, rec); }
                self.records.set(i, rec);
            },
            None => {
                proof { lemma_record_push(self.records@, rec); }
                self.records.push(rec);
            },
        }
        proof {
            assert forall|j: int| 0 <= j < self.records@.len() && #[trigger] self.records@[j].key() != rec.key()
                implies j < old(self).records@.len() && self.records@[j] == old(self).records@[j] by {
                match idx {
                    Some(i) => {
                        assert(j != i);
                    },
                    None => {
                        assert(j != old(self).records@.len());
                    },
                }
            }
            assert forall|j: int| 0 <= j < self.records@.len() implies {
                let rj = #[trigger] self.records@[j];
                &&& 1 <= rj.progress.round_id <= self.rounds@.len()
                &&& rj.progress.is_king ==> player_view(self.rounds@[rj.progress.round_id - 1].king) == Some(rj.progress.player@)
            } by {
                let rj = self.records@[j];
                if rj.key() != rec.key() {
                    let oj = old(self).records@[j];
                    assert(oj == rj);
                    if rj.progress.round_id != r {
                        assert(self.rounds@[rj.progress.round_id - 1] == old(self).rounds@[rj.progress.round_id - 1]);
                    }
                } else {
                    match idx {
                        Some(i) => {
                            assert(self.records@[i as int] == rec);
                        },
                        None => {
                            assert(self.records@[old(self).records@.len() as int] == rec);
                        },
                    }
                }
            }
            assert forall|q: u32| 1 <= q <= old(self).current_round() && q != r implies #[trigger] self.round_view(q) == old(self).round_view(q) by {
                assert(self.rounds@[q - 1] == old(self).rounds@[q - 1]);
            }
            assert forall|q: u32, p: Seq<u8>| (q, p) != (r, player@) implies #[trigger] self.progress_of(q, p) == old(self).progress_of(q, p) by {
                assert((q, p) != rec.key());
            }
        }
        if crown {
            Event::KingCrowned { round_id: r, game }
        } else {
            Event::Progress { round_id: r, completed: count, required }
        }
    }
}

impl Throne {
    /// What a backend attestation does: refused with the first failing check,
    /// leaving the ledger as it was; or credited, with `nonce` recorded.
    pub open spec fn attestation_post(
        self,
        new: Throne,
        player: Seq<u8>,
        nonce: u64,
        trial_round_id: u32,
        round_id: u32,
        authentic: bool,
        now: u64,
        r: Result<Event, Error>,
    ) -> bool {
        match self.attestation_rejection(player, nonce, trial_round_id, round_id, authentic) {
            Some(e) => r == Err::<Event, Error>(e) && new == self,
            None => {
                &&& r is Ok
                &&& self.credited(new, round_id, player, None, now, r->Ok_0)
                &&& new.nonce_of(player) == nonce
                &&& forall|p: Seq<u8>| p != player ==> #[trigger] new.nonce_of(p) == self.nonce_of(p)
            },
        }
    }

    /// What a judged proof does: refused with the first failing check,
    /// leaving the ledger as it was; or credited under its trial id.
    pub open spec fn proof_post(
        self,
        new: Throne,
        player: Seq<u8>,
        verdict: Result<TrialOutput, VerificationError>,
        round_id: u32,
        now: u64,
        r: Result<Event, Error>,
    ) -> bool {
        match self.proof_rejection(player, verdict, round_id) {
            Some(e) => r == Err::<Event, Error>(e) && new == self,
            None => {
                &&& r is Ok
                &&& self.credited(new, round_id, player, Some(verdict->Ok_0.trial_id@), now, r->Ok_0)
                &&& forall|p: Seq<u8>| #[trigger] new.nonce_of(p) == self.nonce_of(p)
            },
        }
    }

    /// A fresh ledger: round 1 open, no progress, no nonces, no session.
    pub fn initialize(
        admin: &[u8],
        backend_pubkey: [u8; 32],
        image_id: [u32; 8],
        required_trials: u32,
        game_hub: &[u8],
    ) -> (t: Throne)
        ensures
            t.wf(),
            t.current_round() == 1,
            t.round_view(1) == (RoundView { required_trials, locked: false, king: None }),
            forall|q: u32, p: Seq<u8>| #[trigger] t.progress_of(q, p) is None,
            forall|p: Seq<u8>| #[trigger] t.nonce_of(p) == 0,
            t.admin_view() == admin@,
            t.backend_key() == backend_pubkey@,
            t.fingerprint() == image_id@,
            t.hub() == game_hub@,
            t.session_view() is None,
    {
        let first = RoundState { round_id: 1, required_trials, locked: false, king: None };
        let mut rounds: Vec<RoundState> = Vec::new();
        rounds.push(first);
        let t = Throne {
            admin: to_vec(admin),
            backend_pubkey,
            image_id,
            rounds,
            records: Vec::new(),
            nonces: Vec::new(),
            session: None,
            game_hub: to_vec(game_hub),
        };
        assert(t.rounds@[0] == first);
        t
    }

    /// Applies a backend attestation whose signature check came out as `authentic`.
    pub fn apply_attestation(
        &mut self,
        player: &[u8],
        nonce: u64,
        trial_round_id: u32,
        round_id: u32,
        authentic: bool,
        now: u64,
    ) -> (r: Result<Event, Error>)
        requires
            old(self).wf(),
        ensures
            final(self).wf(),
            old(self).attestation_post(*final(self), player@, nonce, trial_round_id, round_id, authentic, now, r),
    {
        if round_id == 0 || round_id > self.rounds.len() as u32 {
            return Err(Error::RoundMismatch);
        }
        if self.rounds[(round_id - 1) as usize].locked {
            return Err(Error::RoundLocked);
        }
        if nonce <= self.last_nonce(player) {
            return Err(Error::ReplayedNonce);
        }
        let count = self.trials_completed(round_id, player);
        if count == u32::MAX || trial_round_id != count + 1 {
            return Err(Error::OutOfOrderTrial);
        }
        if !authentic {
            return Err(Error::InvalidAttestation);
        }
        let ghost before = *self;
        let ev = self.credit(round_id, player, None, now);
        let ghost mid = *self;
        self.store_nonce(player, nonce);
        proof {
            assert forall|q: u32| 1 <= q <= mid.current_round() implies #[trigger] self.round_view(q) == mid.round_view(q) by {}
            assert forall|q: u32, p: Seq<u8>| #[trigger] self.progress_of(q, p) == mid.progress_of(q, p) by {}
        }
        Ok(ev)
    }

    /// Submits a backend attestation to round `round_id` at time `now`: the
    /// signature is checked against the ledger's backend key.
    pub fn submit_proof(&mut self, attestation: &Attestation, round_id: u32, now: u64) -> (r: Result<Event, Error>)
        requires
            old(self).wf(),
        ensures
            final(self).wf(),
            old(self).attestation_post(
                *final(self),
                attestation.player@,
                attestation.nonce,
                attestation.trial_round_id,
                round_id,
                attestation_valid(old(self).backend_key(), *attestation),
                now,
                r,
            ),
    {
        let authentic = verify_attestation(&self.backend_pubkey, attestation);
        self.apply_attestation(
            attestation.player.as_slice(),
            attestation.nonce,
            attestation.trial_round_id,
            round_id,
            authentic,
            now,
        )
    }

    /// Applies the verdict of a proof's verification, submitted by `player`
    /// to round `round_id` at time `now`. Every failed verification is
    /// refused alike, whether the proof was malformed or the answer wrong.
    pub fn apply_proof_verdict(
        &mut self,
        player: &[u8],
        verdict: Result<TrialOutput, VerificationError>,
        round_id: u32,
        now: u64,
    ) -> (r: Result<Event, Error>)
        requires
            old(self).wf(),
        ensures
            final(self).wf(),
            old(self).proof_post(*final(self), player@, verdict, round_id, now, r),
    {
        if round_id == 0 || round_id > self.rounds.len() as u32 {
            return Err(Error::RoundMismatch);
        }
        if self.rounds[(round_id - 1) as usize].locked {
            return Err(Error::RoundLocked);
        }
        let journal = match verdict {
            Ok(j) => j,
            Err(_) => {
                return Err(Error::SolutionRejected);
            },
        };
        if journal.round_id != round_id {
            return Err(Error::RoundMismatch);
        }
        if self.has_completed(round_id, player, &journal.trial_id) {
            return Err(Error::TrialAlreadyCompleted);
        }
        if self.trials_completed(round_id, player) == u32::MAX {
            return Err(Error::OutOfOrderTrial);
        }
        let ev = self.credit(round_id, player, Some(journal.trial_id), now);
        Ok(ev)
    }

    /// Submits a proof by `player` to round `round_id` at time `now`: it is
    /// verified against the ledger's program fingerprint, given the journal
    /// bytes that its receipt was found to prove for that program (none when
    /// the receipt does not verify), then applied.
    pub fn submit_trial_proof(
        &mut self,
        player: &[u8],
        artifact: &ProofResult,
        proven: Option<Vec<u8>>,
        round_id: u32,
        now: u64,
    ) -> (r: Result<Event, Error>)
        requires
            old(self).wf(),
        ensures
            final(self).wf(),
            old(self).proof_post(
                *final(self),
                player@,
                proof_verdict(artifact.image_id@, artifact.journal, old(self).fingerprint(), bytes_view(proven)),
                round_id,
                now,
                r,
            ),
    {
        let verdict = verify_trial_proof(artifact, &self.image_id, proven);
        self.apply_proof_verdict(player, verdict, round_id, now)
    }

    /// The number of trials credited to `player` in round `r`.
    fn trials_completed(&self, r: u32, player: &[u8]) -> (n: u32)
        requires
            self.wf(),
        ensures
            n == self.trials_of(r, player@),
    {
        match self.find_record(r, player) {
            Some(i) => {
                proof { lemma_record_at(self.records@, i as int); }
                self.records[i].progress.trials_completed
            },
            None => 0,
        }
    }

    /// Whether a proof already credited `trial_id` to `player` in round `r`.
    fn has_completed(&self, r: u32, player: &[u8], trial_id: &[u8; 32]) -> (b: bool)
        requires
            self.wf(),
        ensures
            b == self.completed_of(r, player@).contains(trial_id@),
    {
        match self.find_record(r, player) {
            Some(i) => {
                proof { lemma_record_at(self.records@, i as int); }
                let done = &self.records[i].completed;
                let ghost m = done@.map_values(|a: [u8; 32]| a@);
                assert(self.completed_of(r, player@) == m);
                let mut k: usize = 0;
                while k < done.len()
                    invariant
                        k <= done@.len(),
                        m == done@.map_values(|a: [u8; 32]| a@),
                        self.completed_of(r, player@) == m,
                        forall|j: int| 0 <= j < k ==> m[j] != trial_id@,
                    decreases done@.len() - k,
                {
                    if same_bytes(&done[k], trial_id) {
                        assert(m[k as int] == done@[k as int]@);
                        assert(m[k as int] == trial_id@);
                        assert(m.contains(trial_id@));
                        return true;
                    }
                    k = k + 1;
                }
                assert(!m.contains(trial_id@));
                false
            },
            None => false,
        }
    }
}

impl Throne {
    /// `new` is `self` with round `current_round()` locked and a fresh round
    /// opened after it, keeping the number of required trials; the session ends.
    pub open spec fn round_advanced(self, new: Throne) -> bool {
        let cur = self.current_round();
        let last = self.round_view(cur);
        &&& 1 <= cur
        &&& new.wf()
        &&& new.current_round() == cur + 1
        &&& forall|q: u32| 1 <= q < cur ==> #[trigger] new.round_view(q) == self.round_view(q)
        &&& new.round_view(cur) == (RoundView { required_trials: last.required_trials, locked: true, king: last.king })
        &&& new.round_view((cur + 1) as u32) == (RoundView { required_trials: last.required_trials, locked: false, king: None })
        &&& forall|q: u32, p: Seq<u8>| #[trigger] new.progress_of(q, p) == self.progress_of(q, p)
        &&& forall|p: Seq<u8>| #[trigger] new.progress_of((cur + 1) as u32, p) is None
        &&& forall|p: Seq<u8>| #[trigger] new.nonce_of(p) == self.nonce_of(p)
        &&& new.admin_view() == self.admin_view()
        &&& new.backend_key() == self.backend_key()
        &&& new.fingerprint() == self.fingerprint()
        &&& new.hub() == self.hub()
        &&& new.session_view() is None
    }

    /// `new` is `self` with the current round requiring `n` trials.
    pub open spec fn required_set(self, new: Throne, n: u32) -> bool {
        let cur = self.current_round();
        let last = self.round_view(cur);
        &&& new.wf()
        &&& new.current_round() == cur
        &&& forall|q: u32| 1 <= q < cur ==> #[trigger] new.round_view(q) == self.round_view(q)
        &&& new.round_view(cur) == (RoundView { required_trials: n, locked: last.locked, king: last.king })
        &&& forall|q: u32, p: Seq<u8>| #[trigger] new.progress_of(q, p) == self.progress_of(q, p)
        &&& forall|p: Seq<u8>| #[trigger] new.nonce_of(p) == self.nonce_of(p)
        &&& new.admin_view() == self.admin_view()
        &&& new.backend_key() == self.backend_key()
        &&& new.fingerprint() == self.fingerprint()
        &&& new.hub() == self.hub()
        &&& new.session_view() == self.session_view()
    }

    /// `new` is `self` with the session `(id, first, second)` recorded.
    pub open spec fn session_started(self, new: Throne, id: u32, first: Seq<u8>, second: Seq<u8>) -> bool {
        &&& new.wf()
        &&& new.session_view() == Some((id, first, second))
        &&& new.current_round() == self.current_round()
        &&& forall|q: u32| #[trigger] new.round_view(q) == self.round_view(q)
        &&& forall|q: u32, p: Seq<u8>| #[trigger] new.progress_of(q, p) == self.progress_of(q, p)
        &&& forall|p: Seq<u8>| #[trigger] new.nonce_of(p) == self.nonce_of(p)
        &&& new.admin_view() == self.admin_view()
        &&& new.backend_key() == self.backend_key()
        &&& new.fingerprint() == self.fingerprint()
        &&& new.hub() == self.hub()
    }

    /// Starts a new round (admin only): locks the current round and opens the
    /// next one. Returns the new round's number.
    pub fn start_new_round(&mut self, caller: &[u8]) -> (r: Result<u32, Error>)
        requires
            old(self).wf(),
        ensures
            final(self).wf(),
            caller@ != old(self).admin_view() ==> r == Err::<u32, Error>(Error::Unauthorized) && *final(self) == *old(self),
            caller@ == old(self).admin_view() && old(self).current_round() == u32::MAX
                ==> r == Err::<u32, Error>(Error::RoundLimitReached) && *final(self) == *old(self),
            caller@ == old(self).admin_view() && old(self).current_round() < u32::MAX ==> {
                &&& r == Ok::<u32, Error>((old(self).current_round() + 1) as u32)
                &&& old(self).round_advanced(*final(self))
            },
    {
        if !same_bytes(caller, self.admin.as_slice()) {
            return Err(Error::Unauthorized);
        }
        let cur = self.rounds.len() as u32;
        if cur == u32::MAX {
            return Err(Error::RoundLimitReached);
        }
        let ri: usize = (cur - 1) as usize;
        let required = self.rounds[ri].required_trials;
        let king = match &self.rounds[ri].king {
            Some(k) => Some(to_vec(k.as_slice())),
            None => None,
        };
        self.rounds.set(ri, RoundState { round_id: cur, required_trials: required, locked: true, king });
        self.rounds.push(RoundState { round_id: cur + 1, required_trials: required, locked: false, king: None });
        self.session = None;
        proof {
            assert forall|q: u32| 1 <= q < cur implies #[trigger] self.round_view(q) == old(self).round_view(q) by {
                assert(self.rounds@[q - 1] == old(self).rounds@[q - 1]);
            }
            assert(player_view(self.rounds@[cur - 1].king) == player_view(old(self).rounds@[cur - 1].king));
            assert(self.rounds@[cur as int].view().king is None);
            assert forall|q: u32, p: Seq<u8>| #[trigger] self.progress_of(q, p) == old(self).progress_of(q, p) by {}
            assert forall|p: Seq<u8>| #[trigger] self.nonce_of(p) == old(self).nonce_of(p) by {}
        }
        Ok(cur + 1)
    }

    /// Sets the number of trials that makes a King (admin only). It applies
    /// to the current round from the next submission on; nobody is crowned
    /// by the change itself.
    pub fn update_required_trials(&mut self, caller: &[u8], required_trials: u32) -> (r: Result<(), Error>)
        requires
            old(self).wf(),
        ensures
            final(self).wf(),
            caller@ != old(self).admin_view() ==> r == Err::<(), Error>(Error::Unauthorized) && *final(self) == *old(self),
            caller@ == old(self).admin_view() ==> r == Ok::<(), Error>(()) && old(self).required_set(*final(self), required_trials),
    {
        if !same_bytes(caller, self.admin.as_slice()) {
            return Err(Error::Unauthorized);
        }
        let cur = self.rounds.len() as u32;
        let ri: usize = (cur - 1) as usize;
        let locked = self.rounds[ri].locked;
        let king = match &self.rounds[ri].king {
            Some(k) => Some(to_vec(k.as_slice())),
            None => None,
        };
        self.rounds.set(ri, RoundState { round_id: cur, required_trials, locked, king });
        proof {
            assert forall|q: u32| 1 <= q < cur implies #[trigger] self.round_view(q) == old(self).round_view(q) by {
                assert(self.rounds@[q - 1] == old(self).rounds@[q - 1]);
            }
            assert forall|q: u32, p: Seq<u8>| #[trigger] self.progress_of(q, p) == old(self).progress_of(q, p) by {}
            assert forall|p: Seq<u8>| #[trigger] self.nonce_of(p) == old(self).nonce_of(p) by {}
        }
        Ok(())
    }

    /// Records a two-player session and returns the report of its start for
    /// the game hub; a King crowned while it lasts ends it.
    pub fn start_multiplayer_session(&mut self, session_id: u32, player1: &[u8], player2: &[u8]) -> (r: SessionStart)
        requires
            old(self).wf(),
        ensures
            final(self).wf(),
            old(self).session_started(*final(self), session_id, player1@, player2@),
            r.game_hub@ == old(self).hub(),
            r.session_id == session_id,
            r.player1@ == player1@,
            r.player2@ == player2@,
    {
        self.session = Some(Session { session_id, player1: to_vec(player1), player2: to_vec(player2) });
        let report = SessionStart {
            game_hub: to_vec(self.game_hub.as_slice()),
            session_id,
            player1: to_vec(player1),
            player2: to_vec(player2),
        };
        proof {
            assert forall|q: u32, p: Seq<u8>| #[trigger] self.progress_of(q, p) == old(self).progress_of(q, p) by {}
            assert forall|p: Seq<u8>| #[trigger] self.nonce_of(p) == old(self).nonce_of(p) by {}
        }
        report
    }

    /// The address of the game hub that sessions are reported to.
    pub fn get_game_hub(&self) -> (h: Vec<u8>)
        ensures
            h@ == self.hub(),
    {
        to_vec(self.game_hub.as_slice())
    }

    /// The King of round `round_id`, if it has one.
    pub fn get_king(&self, round_id: u32) -> (r: Option<Vec<u8>>)
        requires
            self.wf(),
        ensures
            player_view(r) == if 1 <= round_id <= self.current_round() { self.round_view(round_id).king } else { None },
    {
        if round_id == 0 || round_id > self.rounds.len() as u32 {
            return None;
        }
        match &self.rounds[(round_id - 1) as usize].king {
            Some(k) => Some(to_vec(k.as_slice())),
            None => None,
        }
    }

    /// The progress of `player` in round `round_id`, if they have any.
    pub fn get_progress(&self, round_id: u32, player: &[u8]) -> (r: Option<PlayerProgress>)
        requires
            self.wf(),
        ensures
            r is None <==> self.progress_of(round_id, player@) is None,
            r is Some ==> {
                let p = r->Some_0;
                let v = self.progress_of(round_id, player@)->Some_0;
                &&& p.player@ == player@
                &&& p.round_id == round_id
                &&& p.trials_completed == v.trials_completed
                &&& p.last_trial_timestamp == v.last_trial_timestamp
                &&& p.is_king == v.is_king
            },
    {
        match self.find_record(round_id, player) {
            Some(i) => {
                proof { lemma_record_at(self.records@, i as int); }
                let rec = &self.records[i];
                Some(PlayerProgress {
                    player: to_vec(player),
                    round_id,
                    trials_completed: rec.progress.trials_completed,
                    last_trial_timestamp: rec.progress.last_trial_timestamp,
                    is_king: rec.progress.is_king,
                })
            },
            None => None,
        }
    }

    /// The last nonce accepted from `player` (0 before any).
    pub fn get_nonce(&self, player: &[u8]) -> (n: u64)
        requires
            self.wf(),
        ensures
            n == self.nonce_of(player@),
    {
        self.last_nonce(player)
    }

    /// The number of the current round.
    pub fn get_current_round(&self) -> (r: u32)
        requires
            self.wf(),
        ensures
            r == self.current_round(),
    {
        self.rounds.len() as u32
    }

    /// Whether the current round is locked.
    pub fn is_locked(&self) -> (b: bool)
        requires
            self.wf(),
        ensures
            b == self.round_view(self.current_round()).locked,
    {
        self.rounds[self.rounds.len() - 1].locked
    }

    /// The number of trials that makes a King in the current round.
    pub fn get_required_trials(&self) -> (n: u32)
        requires
            self.wf(),
        ensures
            n == self.round_view(self.current_round()).required_trials,
    {
        self.rounds[self.rounds.len() - 1].required_trials
    }

    /// The backend's verifying key.
    pub fn get_backend_pubkey(&self) -> (k: [u8; 32])
        ensures
            k@ == self.backend_key(),
    {
        self.backend_pubkey
    }

    /// The fingerprint of the program whose proofs are accepted.
    pub fn get_image_id(&self) -> (k: [u32; 8])
        ensures
            k@ == self.fingerprint(),
    {
        self.image_id
    }

    /// The current session's id (0 when there is none).
    pub fn get_session_id(&self) -> (id: u32)
        ensures
            id == match self.session_view() {
                Some(s) => s.0,
                None => 0,
            },
    {
        match &self.session {
            Some(s) => s.session_id,
            None => 0,
        }
    }
}

impl Throne {
    /// `new` follows from `self` by one operation: a submission of either
    /// kind (accepted or refused), a new round, a new threshold, a new
    /// session, or a refused admin request.
    pub open spec fn step(self, new: Throne) -> bool {
        ||| new == self
        ||| exists|player: Seq<u8>, nonce: u64, tri: u32, rid: u32, auth: bool, now: u64, r: Result<Event, Error>|
            #[trigger] self.attestation_post(new, player, nonce, tri, rid, auth, now, r)
        ||| exists|player: Seq<u8>, verdict: Result<TrialOutput, VerificationError>, rid: u32, now: u64, r: Result<Event, Error>|
            #[trigger] self.proof_post(new, player, verdict, rid, now, r)
        ||| self.round_advanced(new)
        ||| exists|n: u32| #[trigger] self.required_set(new, n)
        ||| exists|id: u32, first: Seq<u8>, second: Seq<u8>| #[trigger] self.session_started(new, id, first, second)
    }

    /// `new` follows from `self` by one proof submission, accepted or refused.
    pub open spec fn proof_step(self, new: Throne) -> bool {
        exists|player: Seq<u8>, verdict: Result<TrialOutput, VerificationError>, rid: u32, now: u64, r: Result<Event, Error>|
            #[trigger] self.proof_post(new, player, verdict, rid, now, r)
    }
}

proof fn lemma_step(a: Throne, b: Throne, q: u32, p: Seq<u8>)
    requires
        a.wf(),
        a.step(b),
    ensures
        b.wf(),
        a.trials_of(q, p) <= b.trials_of(q, p),
        1 <= q <= a.current_round() && a.round_view(q).king is Some ==> b.round_view(q).king == a.round_view(q).king,
        forall|x: Seq<u8>| a.completed_of(q, p).contains(x) ==> #[trigger] b.completed_of(q, p).contains(x),
{
    if b == a {
    } else if exists|player: Seq<u8>, nonce: u64, tri: u32, rid: u32, auth: bool, now: u64, r: Result<Event, Error>|
        #[trigger] a.attestation_post(b, player, nonce, tri, rid, auth, now, r) {
        let (player, nonce, tri, rid, auth, now, r) = choose|player: Seq<u8>, nonce: u64, tri: u32, rid: u32, auth: bool, now: u64, r: Result<Event, Error>|
            #[trigger] a.attestation_post(b, player, nonce, tri, rid, auth, now, r);
        if a.attestation_rejection(player, nonce, tri, rid, auth) is None {
            if (q, p) != (rid, player) {
                assert(b.progress_of(q, p) == a.progress_of(q, p));
            }
        }
    } else if exists|player: Seq<u8>, verdict: Result<TrialOutput, VerificationError>, rid: u32, now: u64, r: Result<Event, Error>|
        #[trigger] a.proof_post(b, player, verdict, rid, now, r) {
        let (player, verdict, rid, now, r) = choose|player: Seq<u8>, verdict: Result<TrialOutput, VerificationError>, rid: u32, now: u64, r: Result<Event, Error>|
            #[trigger] a.proof_post(b, player, verdict, rid, now, r);
        if a.proof_rejection(player, verdict, rid) is None {
            if (q, p) != (rid, player) {
                assert(b.progress_of(q, p) == a.progress_of(q, p));
            } else {
                let ids = a.completed_of(q, p);
                let t = verdict->Ok_0.trial_id@;
                assert(b.completed_of(q, p) == ids.push(t));
                assert forall|x: Seq<u8>| ids.contains(x) implies #[trigger] b.completed_of(q, p).contains(x) by {
                    let k = choose|k: int| 0 <= k < ids.len() && ids[k] == x;
                    assert(ids.push(t)[k] == x);
                }
            }
        }
    } else if a.round_advanced(b) {
        assert(b.progress_of(q, p) == a.progress_of(q, p));
    } else if exists|n: u32| #[trigger] a.required_set(b, n) {
        let n = choose|n: u32| #[trigger] a.required_set(b, n);
        assert(b.progress_of(q, p) == a.progress_of(q, p));
    } else {
        let (id, first, second) = choose|id: u32, first: Seq<u8>, second: Seq<u8>| #[trigger] a.session_started(b, id, first, second);
        assert(b.progress_of(q, p) == a.progress_of(q, p));
        assert(b.round_view(q) == a.round_view(q));
    }
}

proof fn lemma_run_wf(run: Seq<Throne>, k: int)
    requires
        run.len() > 0,
        run[0].wf(),
        forall|i: int, j: int| 0 <= i && j == i + 1 && j < run.len() ==> #[trigger] run[i].step(run[j]),
        0 <= k < run.len(),
    ensures
        run[k].wf(),
    decreases k,
{
    if k > 0 {
        lemma_run_wf(run, k - 1);
        assert(run[k - 1].step(run[k]));
        lemma_step(run[k - 1], run[k], 0, Seq::empty());
    }
}

/// Along any run of operations, the number of trials credited to a player
/// in a round never decreases.
pub proof fn lemma_progress_monotone(run: Seq<Throne>, q: u32, p: Seq<u8>, i: int, j: int)
    requires
        run.len() > 0,
        run[0].wf(),
        forall|i: int, j: int| 0 <= i && j == i + 1 && j < run.len() ==> #[trigger] run[i].step(run[j]),
        0 <= i <= j < run.len(),
    ensures
        run[i].trials_of(q, p) <= run[j].trials_of(q, p),
    decreases j - i,
{
    if i < j {
        lemma_progress_monotone(run, q, p, i, j - 1);
        lemma_run_wf(run, j - 1);
        assert(run[j - 1].step(run[j]));
        lemma_step(run[j - 1], run[j], q, p);
    }
}

/// On a ledger fed proofs only from a state with no progress, the trials
/// credited to a player in a round are exactly the distinct trial ids
/// accepted for them.
pub proof fn lemma_trials_count_ids(run: Seq<Throne>, q: u32, p: Seq<u8>, k: int)
    requires
        run.len() > 0,
        forall|rq: u32, first: Seq<u8>| #[trigger] run[0].progress_of(rq, first) is None,
        forall|i: int, j: int| 0 <= i && j == i + 1 && j < run.len() ==> #[trigger] run[i].proof_step(run[j]),
        0 <= k < run.len(),
    ensures
        run[k].trials_of(q, p) == run[k].completed_of(q, p).len(),
        run[k].completed_of(q, p).no_duplicates(),
    decreases k,
{
    if k > 0 {
        lemma_trials_count_ids(run, q, p, k - 1);
        let a = run[k - 1];
        let b = run[k];
        assert(a.proof_step(b));
        let (player, verdict, rid, now, r) = choose|player: Seq<u8>, verdict: Result<TrialOutput, VerificationError>, rid: u32, now: u64, r: Result<Event, Error>|
            #[trigger] a.proof_post(b, player, verdict, rid, now, r);
        if a.proof_rejection(player, verdict, rid) is None {
            if (q, p) != (rid, player) {
                assert(b.progress_of(q, p) == a.progress_of(q, p));
            } else {
                let old_ids = a.completed_of(q, p);
                let t = verdict->Ok_0.trial_id@;
                assert(b.completed_of(q, p) == old_ids.push(t));
                assert forall|x: int, y: int| 0 <= x < old_ids.push(t).len() && 0 <= y < old_ids.push(t).len() && x != y
                    implies old_ids.push(t)[x] != old_ids.push(t)[y] by {
                    if x == old_ids.len() {
                        assert(!old_ids.contains(t));
                        assert(old_ids.push(t)[y] == old_ids[y]);
                    } else if y == old_ids.len() {
                        assert(!old_ids.contains(t));
                        assert(old_ids.push(t)[x] == old_ids[x]);
                    }
                }
            }
        }
    } else {
        assert(run[0].progress_of(q, p) is None);
    }
}

/// An attestation that was just accepted is refused when submitted again,
/// and the refusal leaves the ledger as it was.
pub proof fn lemma_replayed_attestation(
    a: Throne,
    b: Throne,
    c: Throne,
    player: Seq<u8>,
    nonce: u64,
    tri: u32,
    rid: u32,
    auth: bool,
    now: u64,
    ev: Event,
    later: u64,
    r: Result<Event, Error>,
)
    requires
        a.wf(),
        a.attestation_post(b, player, nonce, tri, rid, auth, now, Ok(ev)),
        b.attestation_post(c, player, nonce, tri, rid, auth, later, r),
    ensures
        r is Err,
        c == b,
{
}

/// A proof that was just accepted is refused when submitted again, and the
/// refusal leaves the ledger as it was.
pub proof fn lemma_replayed_proof(
    a: Throne,
    b: Throne,
    c: Throne,
    player: Seq<u8>,
    journal: TrialOutput,
    rid: u32,
    now: u64,
    ev: Event,
    later: u64,
    r: Result<Event, Error>,
)
    requires
        a.wf(),
        a.proof_post(b, player, Ok(journal), rid, now, Ok(ev)),
        b.proof_post(c, player, Ok(journal), rid, later, r),
    ensures
        r is Err,
        c == b,
{
    let ids = a.completed_of(rid, player);
    assert(b.completed_of(rid, player) == ids.push(journal.trial_id@));
    assert(ids.push(journal.trial_id@)[ids.len() as int] == journal.trial_id@);
}

/// Once a round has a King, no operation changes it.
pub proof fn lemma_king_immutable(a: Throne, b: Throne, q: u32, king: Seq<u8>)
    requires
        a.wf(),
        a.step(b),
        1 <= q <= a.current_round(),
        a.round_view(q).king == Some(king),
    ensures
        b.round_view(q).king == Some(king),
{
    lemma_step(a, b, q, king);
}

/// A proof whose journal records a wrong solution is refused, with the
/// same error as a proof that does not verify at all, and changes nothing.
pub proof fn lemma_wrong_answer_refused(
    t: Throne,
    new: Throne,
    player: Seq<u8>,
    image_id: Seq<u32>,
    journal: TrialOutput,
    proven: Option<Seq<u8>>,
    rid: u32,
    now: u64,
    r: Result<Event, Error>,
    other: VerificationError,
)
    requires
        !journal.is_valid,
        t.proof_post(new, player, proof_verdict(image_id, journal, t.fingerprint(), proven), rid, now, r),
    ensures
        r is Err,
        new == t,
        t.round_open(rid) is None ==> r == Err::<Event, Error>(Error::SolutionRejected),
        t.proof_rejection(player, Err(other), rid) == t.proof_rejection(
            player,
            proof_verdict(image_id, journal, t.fingerprint(), proven),
            rid,
        ),
{
}

/// What the ledger's invariant guarantees: rounds are numbered from 1; a
/// round with a King is locked; a record exists only for a round that has
/// started; and only a round's King has `is_king` in that round.
pub proof fn lemma_ledger_invariant(t: Throne, q: u32, p: Seq<u8>)
    requires
        t.wf(),
    ensures
        1 <= t.current_round(),
        1 <= q <= t.current_round() && t.round_view(q).king is Some ==> t.round_view(q).locked,
        t.progress_of(q, p) is Some ==> 1 <= q <= t.current_round(),
        t.progress_of(q, p) is Some && t.progress_of(q, p)->Some_0.is_king ==> t.round_view(q).king == Some(p),
{
    if 1 <= q <= t.current_round() {
        assert(t.rounds@[q - 1].view().king == player_view(t.rounds@[q - 1].king));
    }
    if t.progress_of(q, p) is Some {
        let i = choose|i: int| 0 <= i < t.records@.len() && #[trigger] t.records@[i].key() == (q, p);
        lemma_record_at(t.records@, i);
    }
}

proof fn lemma_ids_persist(run: Seq<Throne>, q: u32, p: Seq<u8>, x: Seq<u8>, i: int, j: int)
    requires
        run.len() > 0,
        run[0].wf(),
        forall|a: int, b: int| 0 <= a && b == a + 1 && b < run.len() ==> #[trigger] run[a].step(run[b]),
        0 <= i <= j < run.len(),
        run[i].completed_of(q, p).contains(x),
    ensures
        run[j].completed_of(q, p).contains(x),
    decreases j - i,
{
    if i < j {
        lemma_ids_persist(run, q, p, x, i, j - 1);
        lemma_run_wf(run, j - 1);
        assert(run[j - 1].step(run[j]));
        lemma_step(run[j - 1], run[j], q, p);
    }
}

/// A proof once accepted stays refused: along any later run of operations,
/// while its round is open, resubmitting the same journal for the same
/// player is refused with `TrialAlreadyCompleted` and changes nothing.
pub proof fn lemma_accepted_proof_stays_refused(
    run: Seq<Throne>,
    i: int,
    j: int,
    player: Seq<u8>,
    journal: TrialOutput,
    rid: u32,
    now: u64,
    ev: Event,
    c: Throne,
    later: u64,
    r: Result<Event, Error>,
)
    requires
        run.len() > 0,
        run[0].wf(),
        forall|a: int, b: int| 0 <= a && b == a + 1 && b < run.len() ==> #[trigger] run[a].step(run[b]),
        0 <= i < j < run.len(),
        run[i].proof_post(run[i + 1], player, Ok(journal), rid, now, Ok(ev)),
        run[j].round_open(rid) is None,
        run[j].proof_post(c, player, Ok(journal), rid, later, r),
    ensures
        r == Err::<Event, Error>(Error::TrialAlreadyCompleted),
        c == run[j],
{
    lemma_run_wf(run, i);
    let ids = run[i].completed_of(rid, player);
    assert(run[i + 1].completed_of(rid, player) == ids.push(journal.trial_id@));
    assert(ids.push(journal.trial_id@)[ids.len() as int] == journal.trial_id@);
    lemma_ids_persist(run, rid, player, journal.trial_id@, i + 1, j);
}

} // verus!
