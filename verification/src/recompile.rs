//! The decisions of the litigator's engine that feeds the game's progress to
//! the contract module: which continuation points hear of it, and under
//! which effect name.
use vstd::prelude::*;
use crate::numfmt::{radix_digits, to_decimal_string};
use crate::simps::EventKey;
use crate::strings::text_eq;

verus! {

/// A continuation point of the compiled contract, as the engine reads it:
/// its path, the event kind that its recompiler listens for (where it has a
/// recompiler that reads), and whether its schema accepts the new
/// information.
#[derive(Clone, Debug)]
pub struct ContinuationPoint {
    pub path: String,
    pub filter: Option<EventKey>,
    pub accepts: bool,
}

/// The event kind of a move in the game.
pub open spec fn game_action() -> Seq<char> {
    "action_in_game"@
}

/// The point hears of the game's progress: it listens for game actions and
/// its schema accepts what is sent.
pub open spec fn hears_game(p: ContinuationPoint) -> bool {
    &&& p.filter matches Some(k) && k.0@ == game_action()
    &&& p.accepts
}

/// The paths of the points that hear of the game's progress, in order.
pub open spec fn game_paths(points: Seq<ContinuationPoint>) -> Seq<Seq<char>>
    decreases points.len(),
{
    if points.len() == 0 {
        Seq::empty()
    } else {
        let rest = game_paths(points.drop_last());
        if hears_game(points.last()) {
            rest.push(points.last().path@)
        } else {
            rest
        }
    }
}

/// The paths of the continuation points to which the game's progress is
/// sent, in the order given.
pub fn game_action_paths(points: &Vec<ContinuationPoint>) -> (r: Vec<String>)
    ensures
        r@.map_values(|s: String| s@) == game_paths(points@),
{
    proof {
        reveal_strlit("action_in_game");
    }
    let mut out: Vec<String> = Vec::new();
    let mut i: usize = 0;
    while i < points.len()
        invariant
            i <= points@.len(),
            out@.map_values(|s: String| s@) == game_paths(points@.take(i as int)),
        decreases points@.len() - i,
    {
        proof {
            assert(points@.take(i + 1).drop_last() =~= points@.take(i as int));
            assert(points@.take(i + 1).last() == points@[i as int]);
        }
        let p = &points[i];
        let hears = match &p.filter {
            Some(k) => p.accepts && text_eq(k.0.as_str(), "action_in_game"),
            None => false,
        };
        if hears {
            let ghost before = out@;
            let path = p.path.clone();
            out.push(path);
            proof {
                assert(path@ == p.path@);
                assert(out@.map_values(|s: String| s@) =~= before.map_values(|s: String| s@).push(p.path@));
            }
        }
        i = i + 1;
    }
    assert(points@.take(points@.len() as int) =~= points@);
    out
}

/// The name under which the engine's `idx`-th piece of news is filed.
pub fn event_name(idx: u64) -> (s: String)
    ensures
        s@ == "event-"@ + radix_digits(idx as nat, 10),
{
    let mut s = String::from_str("event-");
    let d = to_decimal_string(idx);
    s.append(d.as_str());
    proof {
        reveal_strlit("event-");
    }
    s
}

/// The engine: the number of pieces of news it has filed.
pub struct RecompileEngine {
    pub filed: u64,
}

impl RecompileEngine {
    /// Nothing filed yet.
    pub fn new() -> (e: Self)
        ensures
            e.filed == 0,
    {
        RecompileEngine { filed: 0 }
    }

    /// Names the next piece of news, `event-0`, `event-1`, and so on.
    pub fn next_event_name(&mut self) -> (s: String)
        requires
            old(self).filed < u64::MAX,
        ensures
            s@ == "event-"@ + radix_digits(old(self).filed as nat, 10),
            final(self).filed == old(self).filed + 1,
    {
        let s = event_name(self.filed);
        self.filed = self.filed + 1;
        s
    }
}

} // verus!
