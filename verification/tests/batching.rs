use mine_with_friends::batching::{order_by_round, tag_rounds, ChainBacklog};
use mine_with_friends::messages::EnvelopeHash;

fn hash(n: u8) -> EnvelopeHash {
    EnvelopeHash([n; 32])
}

fn firsts(v: &[EnvelopeHash]) -> Vec<u8> {
    v.iter().map(|e| e.0[0]).collect()
}

#[test]
fn ready_chain_gives_its_contiguous_run() {
    let mut c = ChainBacklog::new();
    c.receive(0, hash(10));
    c.receive(1, hash(11));
    c.receive(2, hash(12));
    c.receive(4, hash(14));
    let run = c.take_ready_run();
    assert_eq!(firsts(&run), vec![10, 11, 12]);
    assert_eq!(c.next_height, 3);
    assert_eq!(c.pending.len(), 1);
    assert!(c.pending.contains_key(&4));
    // Height 3 is missing: nothing more until it comes.
    assert!(c.take_ready_run().is_empty());
    assert_eq!(c.next_height, 3);
    c.receive(3, hash(13));
    assert_eq!(firsts(&c.take_ready_run()), vec![13, 14]);
    assert_eq!(c.next_height, 5);
    assert!(c.pending.is_empty());
}

#[test]
fn chain_with_a_gap_at_the_start_waits() {
    let mut c = ChainBacklog::new();
    c.receive(1, hash(1));
    assert!(c.take_ready_run().is_empty());
    assert_eq!(c.next_height, 0);
    assert_eq!(c.pending.len(), 1);
}

#[test]
fn batch_goes_one_envelope_per_chain_and_round() {
    let runs = vec![
        vec![hash(1), hash(2)],
        vec![hash(5)],
        vec![hash(7), hash(8), hash(9)],
    ];
    let items = tag_rounds(&runs);
    let rounds: Vec<u64> = items.iter().map(|x| x.0).collect();
    assert_eq!(rounds, vec![0, 1, 0, 0, 1, 2]);
    let order = order_by_round(&items);
    assert_eq!(firsts(&order), vec![1, 5, 7, 2, 8, 9]);
    assert!(order_by_round(&Vec::new()).is_empty());
}

#[test]
fn sequenced_envelopes_move_the_next_height() {
    let mut c = ChainBacklog::new();
    c.note_sequenced(4);
    assert_eq!(c.next_height, 5);
    c.note_sequenced(2);
    assert_eq!(c.next_height, 5);
    c.receive(5, hash(5));
    assert_eq!(firsts(&c.take_ready_run()), vec![5]);
    assert_eq!(c.next_height, 6);
}
