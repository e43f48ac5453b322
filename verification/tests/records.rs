use mine_with_friends::event_log::{Idempotent, Setup, OccurrenceGroup};
use mine_with_friends::game_move::{GameMove, Heartbeat, Unsanitized};
use mine_with_friends::litigator::{ModuleRepo, Tag};
use mine_with_friends::messages::{AddPlayerError, ParticipantAction};
use mine_with_friends::simps::{
    ek_bitcoin_blockheader, ek_game_action_lose, ek_game_action_win, ek_new_dlog, ek_wildcard,
    source_bitcoin_rpc, AttestContinuationPointSubscription, AutoBroadcast, DLogSubscription,
    EventKey, EventRecompiler, GameKernel, PK,
};

#[test]
fn module_repo_group_key() {
    assert_eq!(ModuleRepo::default_group_key(), "ModuleRepo");
    assert_eq!(ModuleRepo::stable_typeid(), "ModuleRepo");
}

#[test]
fn module_repo_tag_is_sha256_hex() {
    let empty = ModuleRepo(vec![]);
    assert_eq!(
        empty.unique_tag(),
        Some("e3b0c44298fc1c149afbf4c8996fb92427ae41e4649b934ca495991b7852b855".to_string())
    );
    let abc = ModuleRepo(b"abc".to_vec());
    assert_eq!(
        abc.unique_tag(),
        Some("ba7816bf8f01cfea414140de5dae2223b00361a396177a9cb410ff61f20015ad".to_string())
    );
}

#[test]
fn tag_of_digest_is_hex() {
    let mut d = [0u8; 32];
    d[0] = 0xab;
    d[31] = 0x01;
    let t = ModuleRepo::tag_of_digest(&d).unwrap();
    assert_eq!(t.len(), 64);
    assert!(t.starts_with("ab00"));
    assert!(t.ends_with("0001"));
}

#[test]
fn tags_are_plain_values() {
    let t = Tag::ScopedCounter("s".into(), 4);
    assert!(matches!(t.clone(), Tag::ScopedCounter(s, 4) if s == "s"));
    assert!(matches!(Tag::EvLoopCounter(3), Tag::EvLoopCounter(3)));
}

#[test]
fn wildcard_key() {
    assert!(ek_wildcard().is_wildcard());
    assert!(EventKey("*".into()).is_wildcard());
    assert!(!EventKey("**".into()).is_wildcard());
    assert!(!EventKey("".into()).is_wildcard());
    assert!(!ek_game_action_win().is_wildcard());
    assert_eq!(ek_game_action_win().0, "game_action_players_win");
    assert_eq!(ek_game_action_lose().0, "game_action_players_lose");
    assert_eq!(ek_bitcoin_blockheader().0, "blockheader");
    assert_eq!(source_bitcoin_rpc().0, "bitcoin-rpc");
}

#[test]
fn dlog_event_key() {
    let mut k = [0u8; 32];
    k[0] = 0x0f;
    k[31] = 0xf0;
    let e = ek_new_dlog(&PK(k));
    let expected = format!("discrete_log_discovery(0f{}f0)", "00".repeat(30));
    assert_eq!(e.0, expected);
}

#[test]
fn protocol_numbers() {
    assert_eq!(AutoBroadcast::get_protocol_number(), -0xcafe);
    assert_eq!(EventRecompiler::get_protocol_number(), -0xbeef);
    assert_eq!(AttestContinuationPointSubscription::get_protocol_number(), -0xa7735c09055);
    assert_eq!(DLogSubscription::get_protocol_number(), -0xd15c12337109);
    assert_eq!(GameKernel::get_protocol_number(), -119);
}

#[test]
fn add_player_error_names() {
    assert_eq!(AddPlayerError::AlreadySetup.describe(), "AlreadySetup");
    assert_eq!(AddPlayerError::NoMorePlayers.describe(), "NoMorePlayers");
    assert_eq!(AddPlayerError::NotGenesisEnvelope.describe(), "NotGenesisEnvelope");
    assert_eq!(AddPlayerError::WrongFirstMessage.describe(), "WrongFirstMessage");
}

#[test]
fn participant_action_wraps_move() {
    let a = ParticipantAction::new(Unsanitized(GameMove::Heartbeat(Heartbeat())), 7, 99);
    match a {
        ParticipantAction::MoveEnvelope(e) => {
            assert_eq!(e.sequence, 7);
            assert_eq!(e.time_millis, 99);
            assert!(matches!(e.d.0, GameMove::Heartbeat(_)));
        }
        _ => panic!("expected a move"),
    }
}

#[test]
fn event_log_records() {
    let _s: Setup<OccurrenceGroup> = Setup::default();
    assert_eq!(Idempotent::AlreadyExists, Idempotent::AlreadyExists);
}
