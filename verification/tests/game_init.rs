use mine_with_friends::game_init::{flip, FinishError, GameStartingState, NewGameDB, PlayerEnvelope, GAME_SLOTS, MAX_PLAYERS};
use mine_with_friends::game_move::{Chat, GameMove, Heartbeat, Unsanitized};
use mine_with_friends::messages::{AddPlayerError, JoinCode, ParticipantAction};

fn player(n: u8, genesis: bool, heartbeat: bool) -> PlayerEnvelope {
    let d = if heartbeat {
        GameMove::Heartbeat(Heartbeat())
    } else {
        GameMove::Chat(Chat("hi".into()))
    };
    PlayerEnvelope {
        key: [n; 32],
        is_genesis: genesis,
        msg: ParticipantAction::new(Unsanitized(d), 0, 0),
    }
}

#[test]
fn players_join_until_full() {
    let mut s = GameStartingState::new();
    for i in 0..MAX_PLAYERS {
        assert!(s.add_player(player(i as u8, true, true)).is_ok());
        if i + 1 < MAX_PLAYERS {
            assert!(matches!(s, GameStartingState::AddingPlayers(_)));
        }
    }
    assert!(matches!(s, GameStartingState::WaitingForSetup(ref v) if v.len() == MAX_PLAYERS));
    assert!(matches!(s.add_player(player(99, true, true)), Err(AddPlayerError::NoMorePlayers)));
}

#[test]
fn joining_needs_genesis_heartbeat() {
    let mut s = GameStartingState::new();
    assert!(matches!(
        s.add_player(player(1, false, true)),
        Err(AddPlayerError::NotGenesisEnvelope)
    ));
    assert!(matches!(
        s.add_player(player(1, true, false)),
        Err(AddPlayerError::WrongFirstMessage)
    ));
    assert!(matches!(s, GameStartingState::AddingPlayers(ref v) if v.is_empty()));
}

#[test]
fn setup_names_players_by_key() {
    let mut s = GameStartingState::new();
    assert!(s.add_player(player(0xab, true, true)).is_ok());
    assert!(s.add_player(player(0x01, true, true)).is_ok());
    assert!(s.finalize_setup(5000, 77).is_ok());
    match &s {
        GameStartingState::Setup(v, g) => {
            assert_eq!(v.len(), 2);
            assert_eq!(g.players, vec!["ab".repeat(32), "01".repeat(32)]);
            assert_eq!(g.start_amount, 77);
            assert_eq!(g.finish_time, 5000);
        }
        _ => panic!("expected a setup"),
    }
    assert!(matches!(s.finalize_setup(1, 1), Err(AddPlayerError::AlreadySetup)));
    assert!(matches!(s.add_player(player(3, true, true)), Err(AddPlayerError::AlreadySetup)));
}

#[test]
fn flip_swaps_layers() {
    let a: Result<Result<u8, &str>, u32> = Ok(Ok(1));
    assert_eq!(flip(a), Ok(Ok(1)));
    let b: Result<Result<u8, &str>, u32> = Ok(Err("inner"));
    assert_eq!(flip(b), Err("inner"));
    let c: Result<Result<u8, &str>, u32> = Err(9);
    assert_eq!(flip(c), Ok(Err(9)));
}

fn code(n: u8) -> JoinCode {
    JoinCode([n; 16])
}

#[test]
fn finishing_needs_the_game_and_its_passcode() {
    let mut db = NewGameDB::new();
    db.add_new_game(code(1), code(2));
    assert!(db.add_player(&code(1), player(7, true, true)).is_ok());
    // A code that names no game: nothing happens.
    assert!(db.add_player(&code(9), player(8, true, true)).is_ok());
    assert!(matches!(db.games[0].state, GameStartingState::AddingPlayers(ref v) if v.len() == 1));
    assert!(matches!(db.finish_setup(&code(9), &code(2), 100, 5), Err(FinishError::NoSuchGame)));
    assert!(matches!(db.finish_setup(&code(1), &code(1), 100, 5), Err(FinishError::WrongPasscode)));
    assert!(matches!(db.games[0].state, GameStartingState::AddingPlayers(_)));
    assert!(db.finish_setup(&code(1), &code(2), 100, 5).is_ok());
    match &db.games[0].state {
        GameStartingState::Setup(v, g) => {
            assert_eq!(v.len(), 1);
            assert_eq!(g.players, vec!["07".repeat(32)]);
            assert_eq!((g.start_amount, g.finish_time), (5, 100));
        }
        _ => panic!("setup not fixed"),
    }
    assert!(matches!(
        db.finish_setup(&code(1), &code(2), 100, 5),
        Err(FinishError::Refused(AddPlayerError::AlreadySetup))
    ));
}

#[test]
fn oldest_game_makes_room() {
    let mut db = NewGameDB::new();
    for i in 0..GAME_SLOTS {
        let n = (i % 250) as u8;
        db.add_new_game(JoinCode([n, (i / 250) as u8, 0, 0, 0, 0, 0, 0, 0, 0, 0, 0, 0, 0, 0, 1]), code(0));
    }
    assert_eq!(db.games.len(), GAME_SLOTS);
    let first = JoinCode([0, 0, 0, 0, 0, 0, 0, 0, 0, 0, 0, 0, 0, 0, 0, 1]);
    assert_eq!(db.find(&first), Some(0));
    db.add_new_game(code(3), code(4));
    assert_eq!(db.games.len(), GAME_SLOTS);
    assert_eq!(db.find(&first), None);
    assert_eq!(db.find(&code(3)), Some(GAME_SLOTS - 1));
}
