use mine_with_friends::game::{GameSetup, MoveRejectReason};
use mine_with_friends::game_move::{GameMove, Heartbeat, MoveEnvelope, Unsanitized};
use mine_with_friends::messages::{BroadcastByHost, EnvelopeHash};
use mine_with_friends::replay::{first_sequenced, setup_of_first, Replay, ReplayStep};
use mine_with_friends::sequencer::SequencerEnvelope;
use std::collections::VecDeque;

fn setup() -> GameSetup {
    GameSetup { players: vec!["alice".into(), "bob".into()], start_amount: 100, finish_time: 1_000_000 }
}

fn heartbeat(sequence: u64, time_millis: u64) -> MoveEnvelope {
    MoveEnvelope { d: Unsanitized(GameMove::Heartbeat(Heartbeat())), sequence, time_millis }
}

fn hash(n: u8) -> EnvelopeHash {
    EnvelopeHash([n; 32])
}

fn sequence(hs: &[u8]) -> SequencerEnvelope {
    SequencerEnvelope {
        height: 0,
        key: [1; 32],
        message: Some(BroadcastByHost::Sequence(hs.iter().map(|n| hash(*n)).collect::<VecDeque<_>>())),
    }
}

#[test]
fn chain_must_open_with_the_setup() {
    let s = setup_of_first(BroadcastByHost::GameSetup(setup())).unwrap();
    assert_eq!(s.players, vec!["alice".to_string(), "bob".to_string()]);
    assert_eq!(s.finish_time, 1_000_000);
    assert_eq!(setup_of_first(BroadcastByHost::Heartbeat).err(), Some("Wrong first message"));
}

#[test]
fn replay_hands_on_once_the_game_is_over() {
    let mut r = Replay::start(&setup());
    assert_eq!(r.feed(heartbeat(0, 123), "alice".into()).1, ReplayStep::Continue);
    assert_eq!(r.feed(heartbeat(0, 455), "bob".into()).1, ReplayStep::Continue);
    assert_eq!(r.feed(heartbeat(1, 3_000_000_000), "alice".into()).1, ReplayStep::Continue);
    let (res, step) = r.feed(heartbeat(1, 700), "bob".into());
    assert!(matches!(res, Err(MoveRejectReason::GameIsFinished(_))));
    assert_eq!(step, ReplayStep::HandOn(4));
    assert_eq!(r.move_count, 4);
}

#[test]
fn first_moves_of_the_sequence() {
    let mut heartbeat_env = sequence(&[]);
    heartbeat_env.message = Some(BroadcastByHost::Heartbeat);
    let envs = vec![sequence(&[1, 2]), heartbeat_env, sequence(&[3, 4, 5])];
    let firsts = |n: u64| -> Vec<u8> { first_sequenced(&envs, n).iter().map(|e| e.0[0]).collect() };
    assert_eq!(firsts(3), vec![1, 2, 3]);
    assert_eq!(firsts(0), Vec::<u8>::new());
    assert_eq!(firsts(10), vec![1, 2, 3, 4, 5]);
}
