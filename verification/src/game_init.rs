//! Gathering the players of a new game: each joins with the first envelope
//! of their chain, which must be a heartbeat, until the host fixes the
//! game's setup.
use vstd::prelude::*;
use crate::game::GameSetup;
use crate::game_move::{GameMove, MoveEnvelope, Unsanitized};
use crate::messages::{bytes_to_hex, hex_of_bytes, AddPlayerError, JoinCode, ParticipantAction};

verus! {

/// The most players a game takes.
pub const MAX_PLAYERS: usize = 10;

/// The first envelope of a player's chain, as the host reads it.
#[derive(Clone, Debug)]
pub struct PlayerEnvelope {
    /// The key of the player.
    pub key: [u8; 32],
    /// Whether the envelope is the genesis of its chain (its hash is the
    /// chain's genesis hash).
    pub is_genesis: bool,
    /// What the player signed.
    pub msg: ParticipantAction,
}

/// A player's first message is a heartbeat move.
pub open spec fn is_heartbeat_move(a: ParticipantAction) -> bool {
    a matches ParticipantAction::MoveEnvelope(MoveEnvelope { d: Unsanitized(GameMove::Heartbeat(_)), .. })
}

/// Where the gathering of players stands.
#[derive(Clone, Debug)]
pub enum GameStartingState {
    /// Players may still join.
    AddingPlayers(Vec<PlayerEnvelope>),
    /// The game is full; the host has not fixed the setup yet.
    WaitingForSetup(Vec<PlayerEnvelope>),
    /// The setup is fixed.
    Setup(Vec<PlayerEnvelope>, GameSetup),
}

/// The keys of the players, as their hexadecimal text.
pub open spec fn player_keys(v: Seq<PlayerEnvelope>) -> Seq<Seq<char>> {
    v.map_values(|p: PlayerEnvelope| hex_of_bytes(p.key@))
}

/// The view of a `GameSetup`: its players' keys, the amount each starts
/// with and the time it ends.
pub open spec fn setup_view(g: GameSetup) -> (Seq<Seq<char>>, u64, u64) {
    (g.players@.map_values(|s: String| s@), g.start_amount, g.finish_time)
}

impl GameStartingState {
    /// The players gathered so far.
    pub open spec fn players(self) -> Seq<PlayerEnvelope> {
        match self {
            GameStartingState::AddingPlayers(v) => v@,
            GameStartingState::WaitingForSetup(v) => v@,
            GameStartingState::Setup(v, _) => v@,
        }
    }

    /// A game that still takes players has room, a waiting one is full, and
    /// a fixed setup names the gathered players.
    pub open spec fn wf(self) -> bool {
        match self {
            GameStartingState::AddingPlayers(v) => v@.len() < MAX_PLAYERS,
            GameStartingState::WaitingForSetup(v) => v@.len() == MAX_PLAYERS,
            GameStartingState::Setup(v, g) => v@.len() <= MAX_PLAYERS && setup_view(g).0 == player_keys(v@),
        }
    }

    /// A gathering with no player yet.
    pub fn new() -> (s: Self)
        ensures
            s is AddingPlayers,
            s.players() == Seq::<PlayerEnvelope>::empty(),
            s.wf(),
    {
        GameStartingState::AddingPlayers(Vec::new())
    }

    /// Lets a player join with the first envelope of their chain. It must
    /// be a genesis envelope holding a heartbeat move; the game must still
    /// take players. The tenth player fills the game.
    pub fn add_player(&mut self, p: PlayerEnvelope) -> (r: Result<(), AddPlayerError>)
        ensures
            !p.is_genesis ==> r == Err::<(), AddPlayerError>(AddPlayerError::NotGenesisEnvelope),
            p.is_genesis && !is_heartbeat_move(p.msg) ==> r == Err::<(), AddPlayerError>(AddPlayerError::WrongFirstMessage),
            p.is_genesis && is_heartbeat_move(p.msg) ==> match *old(self) {
                GameStartingState::AddingPlayers(v) => {
                    &&& r is Ok
                    &&& final(self).players() == v@.push(p)
                    &&& (if v@.len() + 1 == MAX_PLAYERS {
                        *final(self) is WaitingForSetup
                    } else {
                        *final(self) is AddingPlayers
                    })
                },
                GameStartingState::WaitingForSetup(_) => r == Err::<(), AddPlayerError>(AddPlayerError::NoMorePlayers),
                GameStartingState::Setup(_, _) => r == Err::<(), AddPlayerError>(AddPlayerError::AlreadySetup),
            },
            r is Err ==> *final(self) == *old(self),
            old(self).wf() ==> final(self).wf(),
    {
        if !p.is_genesis {
            return Err(AddPlayerError::NotGenesisEnvelope);
        }
        match &p.msg {
            ParticipantAction::MoveEnvelope(MoveEnvelope { d: Unsanitized(GameMove::Heartbeat(_)), .. }) => {},
            _ => {
                return Err(AddPlayerError::WrongFirstMessage);
            },
        }
        match self {
            GameStartingState::AddingPlayers(v) => {
                v.push(p);
                if v.len() == MAX_PLAYERS {
                    let mut clr: Vec<PlayerEnvelope> = Vec::new();
                    std::mem::swap(&mut clr, v);
                    *self = GameStartingState::WaitingForSetup(clr);
                }
                Ok(())
            },
            GameStartingState::Setup(_, _) => Err(AddPlayerError::AlreadySetup),
            GameStartingState::WaitingForSetup(_) => Err(AddPlayerError::NoMorePlayers),
        }
    }

    /// Fixes the setup of the game with the players gathered so far, who
    /// each start with `start_amount`, and which ends at `finish_time`.
    pub fn finalize_setup(&mut self, finish_time: u64, start_amount: u64) -> (r: Result<(), AddPlayerError>)
        ensures
            match *old(self) {
                GameStartingState::Setup(_, _) => {
                    &&& r == Err::<(), AddPlayerError>(AddPlayerError::AlreadySetup)
                    &&& *final(self) == *old(self)
                },
                _ => {
                    &&& r is Ok
                    &&& *final(self) matches GameStartingState::Setup(v, g) && v@ == old(self).players()
                        && setup_view(g) == (player_keys(v@), start_amount, finish_time)
                },
            },
            old(self).wf() ==> final(self).wf(),
    {
        let mut taken = GameStartingState::AddingPlayers(Vec::new());
        std::mem::swap(&mut taken, self);
        match taken {
            GameStartingState::AddingPlayers(v) | GameStartingState::WaitingForSetup(v) => {
                let mut players: Vec<String> = Vec::new();
                let mut i: usize = 0;
                while i < v.len()
                    invariant
                        i <= v@.len(),
                        players@.len() == i,
                        players@.map_values(|s: String| s@) == player_keys(v@.take(i as int)),
                    decreases v.len() - i,
                {
                    let key = bytes_to_hex(v[i].key.as_slice());
                    let ghost before = players@;
                    players.push(key);
                    proof {
                        let t0 = v@.take(i as int);
                        let t1 = v@.take(i + 1);
                        assert(key@ == hex_of_bytes(v@[i as int].key@));
                        assert(players@ == before.push(key));
                        assert forall|k: int| 0 <= k < t1.len() implies #[trigger] player_keys(t1)[k] == players@.map_values(|s: String| s@)[k] by {
                            if k < i {
                                assert(t1[k] == t0[k]);
                                assert(players@[k] == before[k]);
                                assert(player_keys(t0)[k] == before.map_values(|s: String| s@)[k]);
                            } else {
                                assert(t1[k] == v@[i as int]);
                                assert(players@[k] == key);
                            }
                        }
                    }
                    assert(players@.map_values(|s: String| s@) =~= player_keys(v@.take(i + 1)));
                    i += 1;
                }
                assert(v@.take(v@.len() as int) =~= v@);
                let game = GameSetup { players, start_amount, finish_time };
                *self = GameStartingState::Setup(v, game);
                Ok(())
            },
            GameStartingState::Setup(v, g) => {
                *self = GameStartingState::Setup(v, g);
                Err(AddPlayerError::AlreadySetup)
            },
        }
    }
}

/// Swaps the layers of a nested result: the inner error comes out first.
pub fn flip<T, E1, E2>(r: Result<Result<T, E1>, E2>) -> (f: Result<Result<T, E2>, E1>)
    ensures
        f == (match r {
            Ok(Ok(t)) => Ok::<Result<T, E2>, E1>(Ok(t)),
            Ok(Err(e)) => Err(e),
            Err(e) => Ok(Err(e)),
        }),
{
    match r {
        Ok(v) => match v {
            Ok(t) => Ok(Ok(t)),
            Err(e) => Err(e),
        },
        Err(e) => Ok(Err(e)),
    }
}

/// What a player's joining does to a gathering (see
/// `GameStartingState::add_player`).
pub open spec fn joined(s0: GameStartingState, s1: GameStartingState, p: PlayerEnvelope, r: Result<(), AddPlayerError>) -> bool {
    &&& !p.is_genesis ==> r == Err::<(), AddPlayerError>(AddPlayerError::NotGenesisEnvelope)
    &&& p.is_genesis && !is_heartbeat_move(p.msg) ==> r == Err::<(), AddPlayerError>(AddPlayerError::WrongFirstMessage)
    &&& p.is_genesis && is_heartbeat_move(p.msg) ==> match s0 {
        GameStartingState::AddingPlayers(v) => {
            &&& r is Ok
            &&& s1.players() == v@.push(p)
            &&& (if v@.len() + 1 == MAX_PLAYERS {
                s1 is WaitingForSetup
            } else {
                s1 is AddingPlayers
            })
        },
        GameStartingState::WaitingForSetup(_) => r == Err::<(), AddPlayerError>(AddPlayerError::NoMorePlayers),
        GameStartingState::Setup(_, _) => r == Err::<(), AddPlayerError>(AddPlayerError::AlreadySetup),
    }
    &&& r is Err ==> s1 == s0
}

/// What fixing the setup does to a gathering: a fixed setup stays as it is
/// and the call is refused; otherwise the gathered players become the
/// game's, each starting with `start_amount`, the game ending at
/// `finish_time`.
pub open spec fn finalized(s0: GameStartingState, s1: GameStartingState, finish_time: u64, start_amount: u64, r: Result<(), AddPlayerError>) -> bool {
    match s0 {
        GameStartingState::Setup(_, _) => {
            &&& r == Err::<(), AddPlayerError>(AddPlayerError::AlreadySetup)
            &&& s1 == s0
        },
        _ => {
            &&& r is Ok
            &&& s1 matches GameStartingState::Setup(v, g) && v@ == s0.players()
                && setup_view(g) == (player_keys(v@), start_amount, finish_time)
        },
    }
}

/// The most games gathered at once: a new game past this drops the oldest.
pub const GAME_SLOTS: usize = 1000;

/// A game being gathered: the code that players join it with, the passcode
/// of its administrator, and where it stands.
pub struct GameRecord {
    pub code: JoinCode,
    pub admin: JoinCode,
    pub state: GameStartingState,
}

/// The games being gathered, oldest first.
pub struct NewGameDB {
    pub games: Vec<GameRecord>,
}

/// Why the setup of a game was not fixed.
#[derive(Clone, Copy, Debug)]
pub enum FinishError {
    /// No game has that code.
    NoSuchGame,
    /// The passcode is not the game's.
    WrongPasscode,
    /// The game refused (its setup is fixed already).
    Refused(AddPlayerError),
}

/// The place of the newest game with code `code`, if any.
pub open spec fn find_game(games: Seq<GameRecord>, code: Seq<u8>) -> Option<int>
    decreases games.len(),
{
    if games.len() == 0 {
        None
    } else if games.last().code.0@ == code {
        Some(games.len() - 1)
    } else {
        find_game(games.drop_last(), code)
    }
}

proof fn lemma_find_game(games: Seq<GameRecord>, code: Seq<u8>)
    ensures
        find_game(games, code) matches Some(i) ==> 0 <= i < games.len() && games[i].code.0@ == code
            && forall|j: int| i < j < games.len() ==> #[trigger] games[j].code.0@ != code,
        find_game(games, code) is None ==> forall|j: int| 0 <= j < games.len() ==> #[trigger] games[j].code.0@ != code,
    decreases games.len(),
{
    if games.len() > 0 {
        let rest = games.drop_last();
        lemma_find_game(rest, code);
        if games.last().code.0@ != code {
            match find_game(rest, code) {
                Some(i) => {
                    assert forall|j: int| i < j < games.len() implies #[trigger] games[j].code.0@ != code by {
                        if j < rest.len() {
                            assert(rest[j] == games[j]);
                        }
                    }
                },
                None => {
                    assert forall|j: int| 0 <= j < games.len() implies #[trigger] games[j].code.0@ != code by {
                        if j < rest.len() {
                            assert(rest[j] == games[j]);
                        }
                    }
                },
            }
        }
    }
}

/// Whether two codes are the same.
fn same_code(a: &JoinCode, b: &JoinCode) -> (r: bool)
    ensures
        r == (a.0@ == b.0@),
{
    let mut i: usize = 0;
    while i < 16
        invariant
            0 <= i <= 16,
            a.0@.len() == 16,
            b.0@.len() == 16,
            forall|j: int| 0 <= j < i ==> a.0@[j] == b.0@[j],
        decreases 16 - i,
    {
        if a.0[i] != b.0[i] {
            assert(a.0@[i as int] != b.0@[i as int]);
            return false;
        }
        i += 1;
    }
    assert(a.0@ =~= b.0@);
    true
}

impl NewGameDB {
    /// No games.
    pub fn new() -> (r: Self)
        ensures
            r.games@.len() == 0,
    {
        NewGameDB { games: Vec::new() }
    }

    /// The place of the newest game with code `code`.
    pub fn find(&self, code: &JoinCode) -> (r: Option<usize>)
        ensures
            r matches Some(i) ==> find_game(self.games@, code.0@) == Some(i as int),
            r is None ==> find_game(self.games@, code.0@) is None,
    {
        proof {
            lemma_find_game(self.games@, code.0@);
        }
        let mut i: usize = self.games.len();
        while i > 0
            invariant
                i <= self.games@.len(),
                forall|j: int| i <= j < self.games@.len() ==> #[trigger] self.games@[j].code.0@ != code.0@,
            decreases i,
        {
            if same_code(&self.games[i - 1].code, code) {
                proof {
                    lemma_find_game(self.games@, code.0@);
                    assert(self.games@[i - 1].code.0@ == code.0@);
                    if let Some(m) = find_game(self.games@, code.0@) {
                        if m < i - 1 {
                            assert(self.games@[i - 1].code.0@ != code.0@);
                        }
                        if m > i - 1 {
                            assert(self.games@[m].code.0@ != code.0@);
                        }
                    }
                }
                return Some(i - 1);
            }
            i = i - 1;
        }
        proof {
            lemma_find_game(self.games@, code.0@);
            if let Some(m) = find_game(self.games@, code.0@) {
                assert(self.games@[m].code.0@ == code.0@);
            }
        }
        None
    }

    /// Opens a game with join code `code` and administrator passcode
    /// `admin`, with no player yet; when all slots are taken, the oldest
    /// game is dropped first.
    pub fn add_new_game(&mut self, code: JoinCode, admin: JoinCode)
        requires
            old(self).games@.len() <= GAME_SLOTS,
        ensures
            final(self).games@.len() <= GAME_SLOTS,
            final(self).games@.drop_last() == (if old(self).games@.len() == GAME_SLOTS {
                old(self).games@.drop_first()
            } else {
                old(self).games@
            }),
            final(self).games@.last().code == code,
            final(self).games@.last().admin == admin,
            final(self).games@.last().state is AddingPlayers,
            final(self).games@.last().state.players().len() == 0,
    {
        if self.games.len() == GAME_SLOTS {
            self.games.remove(0);
        }
        let ghost kept = self.games@;
        self.games.push(GameRecord { code, admin, state: GameStartingState::new() });
        assert(self.games@.drop_last() =~= kept);
    }

    /// Lets a player join the newest game with code `code` (see
    /// `GameStartingState::add_player`); where no game has that code, nothing
    /// happens and the call succeeds.
    pub fn add_player(&mut self, code: &JoinCode, p: PlayerEnvelope) -> (r: Result<(), AddPlayerError>)
        ensures
            find_game(old(self).games@, code.0@) is None ==> r is Ok && final(self).games@ == old(self).games@,
            find_game(old(self).games@, code.0@) matches Some(i) ==> {
                &&& final(self).games@.len() == old(self).games@.len()
                &&& forall|j: int| 0 <= j < old(self).games@.len() && j != i ==> #[trigger] final(self).games@[j] == old(self).games@[j]
                &&& final(self).games@[i].code == old(self).games@[i].code
                &&& final(self).games@[i].admin == old(self).games@[i].admin
                &&& joined(old(self).games@[i].state, final(self).games@[i].state, p, r)
            },
    {
        match self.find(code) {
            None => Ok(()),
            Some(i) => {
                proof {
                    lemma_find_game(self.games@, code.0@);
                }
                let ghost g0 = self.games@;
                let mut rec = self.games.remove(i);
                let ghost pc = p;
                let r = rec.state.add_player(p);
                self.games.insert(i, rec);
                proof {
                    assert(joined(g0[i as int].state, self.games@[i as int].state, pc, r));
                    assert forall|j: int| 0 <= j < g0.len() && j != i implies #[trigger] self.games@[j] == g0[j] by {
                        if j < i {
                        } else {
                            assert(self.games@[j] == g0.remove(i as int)[j - 1]);
                        }
                    }
                }
                r
            },
        }
    }

    /// Fixes the setup of the newest game with code `code`, when `passcode`
    /// is its administrator's (see `GameStartingState::finalize_setup`).
    pub fn finish_setup(&mut self, code: &JoinCode, passcode: &JoinCode, finish_time: u64, start_amount: u64) -> (r: Result<(), FinishError>)
        ensures
            find_game(old(self).games@, code.0@) is None ==> (r matches Err(FinishError::NoSuchGame)) && final(self).games@ == old(self).games@,
            find_game(old(self).games@, code.0@) matches Some(i) ==> {
                &&& old(self).games@[i].admin.0@ != passcode.0@ ==> (r matches Err(FinishError::WrongPasscode)) && final(self).games@ == old(self).games@
                &&& old(self).games@[i].admin.0@ == passcode.0@ ==> {
                    &&& final(self).games@.len() == old(self).games@.len()
                    &&& forall|j: int| 0 <= j < old(self).games@.len() && j != i ==> #[trigger] final(self).games@[j] == old(self).games@[j]
                    &&& final(self).games@[i].code == old(self).games@[i].code
                    &&& final(self).games@[i].admin == old(self).games@[i].admin
                    &&& exists|e: Result<(), AddPlayerError>| {
                        &&& #[trigger] finalized(old(self).games@[i].state, final(self).games@[i].state, finish_time, start_amount, e)
                        &&& r == (match e {
                            Ok(()) => Ok::<(), FinishError>(()),
                            Err(x) => Err(FinishError::Refused(x)),
                        })
                    }
                }
            },
    {
        match self.find(code) {
            None => Err(FinishError::NoSuchGame),
            Some(i) => {
                proof {
                    lemma_find_game(self.games@, code.0@);
                }
                if !same_code(&self.games[i].admin, passcode) {
                    return Err(FinishError::WrongPasscode);
                }
                let ghost g0 = self.games@;
                let mut rec = self.games.remove(i);
                let e = rec.state.finalize_setup(finish_time, start_amount);
                self.games.insert(i, rec);
                proof {
                    assert(finalized(g0[i as int].state, self.games@[i as int].state, finish_time, start_amount, e));
                    assert forall|j: int| 0 <= j < g0.len() && j != i implies #[trigger] self.games@[j] == g0[j] by {
                        if j < i {
                        } else {
                            assert(self.games@[j] == g0.remove(i as int)[j - 1]);
                        }
                    }
                }
                match e {
                    Ok(()) => Ok(()),
                    Err(x) => Err(FinishError::Refused(x)),
                }
            },
        }
    }
}

} // verus!
