//! Replaying the host's sequence of moves on a fresh board, to find the
//! points at which the game is over and its state can be handed on.
use vstd::prelude::*;
use crate::game::{move_in_range, play_post, user_id_of, GameBoard, GameSetup, MoveRejectReason};
use crate::game_move::MoveEnvelope;
use crate::messages::{BroadcastByHost, EnvelopeHash};
use crate::sequencer::{flat_hashes, ordered_batches, SequencerEnvelope};

verus! {

/// The setup that a host's chain opens with: its first broadcast must be the
/// game's setup.
pub fn setup_of_first(first: BroadcastByHost) -> (r: Result<GameSetup, &'static str>)
    ensures
        first matches BroadcastByHost::GameSetup(g) ==> r == Ok::<GameSetup, &'static str>(g),
        !(first is GameSetup) ==> (r matches Err(e) && e@ == "Wrong first message"@),
{
    match first {
        BroadcastByHost::GameSetup(g) => Ok(g),
        _ => Err("Wrong first message"),
    }
}

/// A game being replayed, and how many sequenced moves it was fed.
pub struct Replay {
    pub game: GameBoard,
    pub move_count: u64,
}

/// What the replay does after a move: go on, or hand on the first
/// `n` sequenced moves because the game is over.
#[derive(Clone, Copy, Debug, PartialEq, Eq, Structural)]
pub enum ReplayStep {
    Continue,
    HandOn(u64),
}

impl Replay {
    /// A fresh board for `setup`, fed nothing yet.
    pub fn start(setup: &GameSetup) -> (r: Replay)
        requires
            crate::strings::sorted_distinct(crate::strings::texts(setup.players@)).len() <= 10,
            setup.players@.len() < 0x1_0000_0000_0000,
        ensures
            r.game.wf(),
            crate::game::fresh_board(&r.game, setup),
            r.move_count == 0,
    {
        Replay { game: GameBoard::new(setup), move_count: 0 }
    }

    /// Feeds the next sequenced move: plays it, counts it, and asks for the
    /// moves so far to be handed on exactly when the game refuses it as
    /// finished.
    pub fn feed(&mut self, env: MoveEnvelope, signed_by: String) -> (out: (Result<(), MoveRejectReason>, ReplayStep))
        requires
            old(self).game.wf(),
            old(self).game.alloc.0 + 64 <= u64::MAX,
            old(self).game.event_log_counter + 2 <= u64::MAX,
            old(self).game.chat_counter < u64::MAX,
            user_id_of(old(self).game.users_by_key@, signed_by@) matches Some(from) ==> move_in_range(&old(self).game, env.d.0, from),
            old(self).move_count < u64::MAX,
        ensures
            final(self).game.wf(),
            play_post(&old(self).game, &final(self).game, env, signed_by@, out.0),
            final(self).move_count == old(self).move_count + 1,
            out.1 == (if out.0 matches Err(MoveRejectReason::GameIsFinished(_)) {
                ReplayStep::HandOn(final(self).move_count)
            } else {
                ReplayStep::Continue
            }),
    {
        self.move_count = self.move_count + 1;
        let r = self.game.play(env, signed_by);
        let step = match r {
            Err(MoveRejectReason::GameIsFinished(_)) => ReplayStep::HandOn(self.move_count),
            _ => ReplayStep::Continue,
        };
        (r, step)
    }
}

/// `s`, cut to its first `n` items when it is longer.
pub open spec fn take_upto(s: Seq<EnvelopeHash>, n: nat) -> Seq<EnvelopeHash> {
    if s.len() <= n {
        s
    } else {
        s.take(n as int)
    }
}

/// The first `n` envelopes that the host's chain sequences, batch after
/// batch (all of them when there are fewer).
pub fn first_sequenced(envs: &Vec<SequencerEnvelope>, n: u64) -> (r: Vec<EnvelopeHash>)
    ensures
        r@ == take_upto(flat_hashes(ordered_batches(envs@)), n as nat),
{
    let mut out: Vec<EnvelopeHash> = Vec::new();
    let mut k: usize = 0;
    while k < envs.len()
        invariant
            k <= envs@.len(),
            out@ == take_upto(flat_hashes(ordered_batches(envs@.take(k as int))), n as nat),
        decreases envs@.len() - k,
    {
        let ghost before = flat_hashes(ordered_batches(envs@.take(k as int)));
        proof {
            assert(envs@.take(k + 1).drop_last() =~= envs@.take(k as int));
            assert(envs@.take(k + 1).last() == envs@[k as int]);
        }
        match &envs[k].message {
            Some(BroadcastByHost::Sequence(d)) => {
                proof {
                    let bs = ordered_batches(envs@.take(k as int));
                    assert(ordered_batches(envs@.take(k + 1)) == bs.push(d@));
                    assert(bs.push(d@).drop_last() =~= bs);
                    assert(flat_hashes(ordered_batches(envs@.take(k + 1))) == before + d@);
                }
                let mut j: usize = 0;
                while j < d.len()
                    invariant
                        j <= d@.len(),
                        out@ == take_upto(before + d@.take(j as int), n as nat),
                    decreases d@.len() - j,
                {
                    let ghost a = before + d@.take(j as int);
                    assert(before + d@.take(j + 1) =~= a.push(d@[j as int]));
                    if (out.len() as u64) < n {
                        let h: EnvelopeHash = d[j];
                        out.push(h);
                        assert(out@ =~= take_upto(a.push(d@[j as int]), n as nat));
                    } else {
                        assert(a.push(d@[j as int]).take(n as int) =~= a.take(n as int));
                    }
                    j = j + 1;
                }
                assert(d@.take(d@.len() as int) =~= d@);
            },
            _ => {
                assert(ordered_batches(envs@.take(k + 1)) == ordered_batches(envs@.take(k as int)));
            },
        }
        k = k + 1;
    }
    assert(envs@.take(envs@.len() as int) =~= envs@);
    out
}

} // verus!
