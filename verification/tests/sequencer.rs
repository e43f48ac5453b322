use mine_with_friends::messages::{BroadcastByHost, EnvelopeHash, Peer};
use mine_with_friends::sequencer::{
    OfflineSequencer, RawSequencer, SequenceingError, SequencerEnvelope, SequencerError,
};
use std::collections::VecDeque;

fn h(n: u8) -> EnvelopeHash {
    let mut b = [0u8; 32];
    b[0] = n;
    b[31] = n.wrapping_mul(7);
    EnvelopeHash(b)
}

fn key(n: u8) -> [u8; 32] {
    [n; 32]
}

fn env(height: u64, k: u8, message: Option<BroadcastByHost>) -> SequencerEnvelope {
    SequencerEnvelope { height, key: key(k), message }
}

fn seq_of(hs: &[u8]) -> Option<BroadcastByHost> {
    Some(BroadcastByHost::Sequence(hs.iter().map(|n| h(*n)).collect::<VecDeque<_>>()))
}

fn cache(ns: &[u8]) -> Vec<(EnvelopeHash, u32)> {
    ns.iter().map(|n| (h(*n), *n as u32 * 10)).collect()
}

#[test]
fn chain_must_start_at_height_zero() {
    let raw = RawSequencer::<u32> {
        sequencer_envelopes: vec![env(1, 1, seq_of(&[1]))],
        msg_cache: cache(&[1]),
    };
    assert!(matches!(OfflineSequencer::try_from_raw(raw), Err(SequencerError::MisingTip)));
}

#[test]
fn chain_with_gap_refused() {
    let raw = RawSequencer::<u32> {
        sequencer_envelopes: vec![env(0, 1, seq_of(&[1])), env(2, 1, seq_of(&[2]))],
        msg_cache: cache(&[1, 2]),
    };
    assert!(matches!(OfflineSequencer::try_from_raw(raw), Err(SequencerError::Gap)));
}

#[test]
fn chain_from_two_signers_refused() {
    let raw = RawSequencer::<u32> {
        sequencer_envelopes: vec![env(0, 1, seq_of(&[1])), env(1, 2, seq_of(&[2]))],
        msg_cache: cache(&[1, 2]),
    };
    assert!(matches!(
        OfflineSequencer::try_from_raw(raw),
        Err(SequencerError::MessageFromWrongEntity)
    ));
}

#[test]
fn chain_with_foreign_message_refused() {
    let raw = RawSequencer::<u32> {
        sequencer_envelopes: vec![env(0, 1, seq_of(&[1])), env(1, 1, None)],
        msg_cache: cache(&[1]),
    };
    assert!(matches!(OfflineSequencer::try_from_raw(raw), Err(SequencerError::BadMessageType)));
}

#[test]
fn gap_is_reported_before_signer() {
    let raw = RawSequencer::<u32> {
        sequencer_envelopes: vec![env(0, 1, None), env(5, 2, None)],
        msg_cache: vec![],
    };
    assert!(matches!(OfflineSequencer::try_from_raw(raw), Err(SequencerError::Gap)));
}

fn good_sequencer() -> OfflineSequencer<u32> {
    let raw = RawSequencer::<u32> {
        sequencer_envelopes: vec![
            env(0, 3, seq_of(&[2, 1])),
            env(1, 3, Some(BroadcastByHost::Heartbeat)),
            env(
                2,
                3,
                Some(BroadcastByHost::NewPeer(Peer { service_url: "x.onion".into(), port: 80 })),
            ),
            env(3, 3, seq_of(&[3])),
        ],
        msg_cache: cache(&[1, 2, 3, 4]),
    };
    match OfflineSequencer::try_from_raw(raw) {
        Ok(s) => s,
        Err(_) => panic!("chain should be accepted"),
    }
}

#[test]
fn empty_chain_accepted() {
    let raw = RawSequencer::<u32> { sequencer_envelopes: vec![], msg_cache: cache(&[1]) };
    let mut s = match OfflineSequencer::try_from_raw(raw) {
        Ok(s) => s,
        Err(_) => panic!("empty chain is fine"),
    };
    assert_eq!(s.batches_to_sequence.len(), 0);
    let v = s.directly_sequence().ok().unwrap();
    assert!(v.is_empty());
    assert_eq!(s.msg_cache.len(), 1);
}

#[test]
fn sequence_follows_batches() {
    let mut s = good_sequencer();
    assert_eq!(s.batches_to_sequence.len(), 2);
    let v = s.directly_sequence().ok().unwrap();
    assert_eq!(v, vec![20, 10, 30]);
    assert_eq!(s.msg_cache.len(), 1);
    assert_eq!(s.msg_cache[0].1, 40);
}

#[test]
fn missing_envelope_stops_sequencing() {
    let raw = RawSequencer::<u32> {
        sequencer_envelopes: vec![env(0, 3, seq_of(&[1, 9, 2]))],
        msg_cache: cache(&[1, 2]),
    };
    let mut s = match OfflineSequencer::try_from_raw(raw) {
        Ok(s) => s,
        Err(_) => panic!("chain should be accepted"),
    };
    assert!(matches!(s.directly_sequence(), Err(SequenceingError::MissingEnvelope)));
    // the envelope before the missing one was taken out
    assert_eq!(s.msg_cache.len(), 1);
    assert_eq!(s.msg_cache[0].1, 20);
}

#[test]
fn repeated_hash_is_missing_the_second_time() {
    let raw = RawSequencer::<u32> {
        sequencer_envelopes: vec![env(0, 3, seq_of(&[1])), env(1, 3, seq_of(&[1]))],
        msg_cache: cache(&[1]),
    };
    let mut s = match OfflineSequencer::try_from_raw(raw) {
        Ok(s) => s,
        Err(_) => panic!("chain should be accepted"),
    };
    assert!(matches!(s.directly_sequence(), Err(SequenceingError::MissingEnvelope)));
    assert!(s.msg_cache.is_empty());
}

#[test]
fn mapping_error_stops_sequencing() {
    let mut s = good_sequencer();
    let r = s.directly_sequence_map(|x: u32| if x == 10 { Err("ten") } else { Ok(x + 1) });
    assert!(matches!(r, Err(SequenceingError::MappingError("ten"))));
    assert_eq!(s.msg_cache.len(), 2);
}

#[test]
fn mapping_applies_in_order() {
    let mut s = good_sequencer();
    let r: Result<Vec<u32>, SequenceingError<()>> = s.directly_sequence_map(|x: u32| Ok(x + 1));
    assert_eq!(r.ok().unwrap(), vec![21, 11, 31]);
}

#[test]
fn broadcast_kinds() {
    assert!(seq_of(&[1]).unwrap().is_sequence());
    assert!(!BroadcastByHost::Heartbeat.is_sequence());
    assert!(h(1).same(&h(1)));
    assert!(!h(1).same(&h(2)));
}
