//! Events scheduled at a virtual time, and the queue that holds them.
use vstd::prelude::*;
use crate::entity::EntityID;
use crate::nfts::NftPtr;
use crate::tokens::TokenPointer;

verus! {

/// Periodic delivery of the mining subsidy to the owners of power plants.
#[derive(Clone, Copy, Debug, PartialEq, Eq, Structural)]
pub struct PowerPlantEvent {
    pub time: u64,
    pub period: u64,
}

/// Mints hash boards once, seeds their market, and then sells a share of
/// its stock every `adjusts_every` milliseconds.
#[derive(Clone, Copy, Debug, PartialEq, Eq, Structural)]
pub struct ASICProducer {
    pub id: EntityID,
    pub total_units: u128,
    pub base_price: u128,
    pub price_asset: TokenPointer,
    pub hash_asset: TokenPointer,
    pub adjusts_every: u64,
    pub elapsed_time: u64,
    /// On the first round some things are set up differently.
    pub first: bool,
}

/// Releases new steel to the market, like the hash-board producer, but
/// schedules itself relative to the game's clock.
#[derive(Clone, Copy, Debug, PartialEq, Eq, Structural)]
pub struct SteelSmelter {
    pub id: EntityID,
    pub total_units: u128,
    pub base_price: u128,
    pub price_asset: TokenPointer,
    pub hash_asset: TokenPointer,
    pub adjusts_every: u64,
    pub elapsed_time: u64,
    pub first: bool,
}

/// Releases new silicon to the market, the way the steel smelter releases
/// steel.
#[derive(Clone, Copy, Debug, PartialEq, Eq, Structural)]
pub struct SiliconRefinery {
    pub id: EntityID,
    pub total_units: u128,
    pub base_price: u128,
    pub price_asset: TokenPointer,
    pub hash_asset: TokenPointer,
    pub adjusts_every: u64,
    pub elapsed_time: u64,
    pub first: bool,
}

/// Releases new concrete to the market, the way the steel smelter releases
/// steel.
#[derive(Clone, Copy, Debug, PartialEq, Eq, Structural)]
pub struct ConcreteMiller {
    pub id: EntityID,
    pub total_units: u128,
    pub base_price: u128,
    pub price_asset: TokenPointer,
    pub hash_asset: TokenPointer,
    pub adjusts_every: u64,
    pub elapsed_time: u64,
    pub first: bool,
}

/// Coins held by an NFT until a time, then released to the NFT's owner.
#[derive(Clone, Copy, Debug, PartialEq, Eq, Structural)]
pub struct CoinLockup {
    pub id: NftPtr,
    pub time_when_free: u64,
    pub asset: TokenPointer,
}

/// A scheduled event.
#[derive(Clone, Copy, Debug, PartialEq, Eq, Structural)]
pub enum Callback {
    PowerPlantEvent(PowerPlantEvent),
    ASICProducer(ASICProducer),
    SteelSmelter(SteelSmelter),
    SiliconRefinery(SiliconRefinery),
    ConcreteMiller(ConcreteMiller),
    CoinLockup(CoinLockup),
}

impl Callback {
    /// When the event should fire.
    pub open spec fn at(self) -> u64 {
        match self {
            Callback::PowerPlantEvent(e) => e.time,
            Callback::ASICProducer(p) => p.elapsed_time,
            Callback::SteelSmelter(p) => p.elapsed_time,
            Callback::SiliconRefinery(p) => p.elapsed_time,
            Callback::ConcreteMiller(p) => p.elapsed_time,
            Callback::CoinLockup(l) => l.time_when_free,
        }
    }

    /// When the event should fire; it may fire later than requested.
    pub fn time(&self) -> (r: u64)
        ensures
            r == self.at(),
    {
        match self {
            Callback::PowerPlantEvent(e) => e.time,
            Callback::ASICProducer(p) => p.elapsed_time,
            Callback::SteelSmelter(p) => p.elapsed_time,
            Callback::SiliconRefinery(p) => p.elapsed_time,
            Callback::ConcreteMiller(p) => p.elapsed_time,
            Callback::CoinLockup(l) => l.time_when_free,
        }
    }

    /// What the event is for, for debugging.
    pub fn purpose(&self) -> (r: String)
        ensures
            r@ == self.purpose_text(),
    {
        match self {
            Callback::PowerPlantEvent(_) => String::from_str("Periodic Mining Payout Delivery"),
            Callback::ASICProducer(_) => String::from_str("Adjusting the market for ASICs"),
            Callback::SteelSmelter(_) => String::from_str("Releasing new Steel to the market"),
            Callback::SiliconRefinery(_) => String::from_str("Releasing new Silicon to the market"),
            Callback::ConcreteMiller(_) => String::from_str("Releasing new Concrete to the market"),
            Callback::CoinLockup(_) => String::from_str("CoinLockup Release Trigger"),
        }
    }

    /// What the event is for.
    pub open spec fn purpose_text(self) -> Seq<char> {
        match self {
            Callback::PowerPlantEvent(_) => "Periodic Mining Payout Delivery"@,
            Callback::ASICProducer(_) => "Adjusting the market for ASICs"@,
            Callback::SteelSmelter(_) => "Releasing new Steel to the market"@,
            Callback::SiliconRefinery(_) => "Releasing new Silicon to the market"@,
            Callback::ConcreteMiller(_) => "Releasing new Concrete to the market"@,
            Callback::CoinLockup(_) => "CoinLockup Release Trigger"@,
        }
    }
}

/// The events in order of their time; events of the same time in the order
/// they were scheduled.
pub struct CallbackRegistry {
    pub callbacks: Vec<Callback>,
}

/// `s` is ordered by time.
pub open spec fn time_ordered(s: Seq<Callback>) -> bool {
    forall|i: int, j: int| 0 <= i < j < s.len() ==> (#[trigger] s[i]).at() <= (#[trigger] s[j]).at()
}

/// The number of events of `s` due at `now`: with `s` ordered, they form a
/// prefix.
pub open spec fn due_count(s: Seq<Callback>, now: u64) -> int
    decreases s.len(),
{
    if s.len() == 0 || s[0].at() > now {
        0
    } else {
        1 + due_count(s.drop_first(), now)
    }
}

/// The position a new event of time `t` takes: after every event of time at
/// most `t`.
pub open spec fn slot_for(s: Seq<Callback>, t: u64) -> int {
    due_count(s, t)
}

/// Facts about `due_count` on an ordered queue.
proof fn lemma_due_count(s: Seq<Callback>, now: u64)
    requires
        time_ordered(s),
    ensures
        0 <= due_count(s, now) <= s.len(),
        forall|i: int| 0 <= i < due_count(s, now) ==> (#[trigger] s[i]).at() <= now,
        forall|i: int| due_count(s, now) <= i < s.len() ==> (#[trigger] s[i]).at() > now,
    decreases s.len(),
{
    if s.len() > 0 && s[0].at() <= now {
        let t = s.drop_first();
        assert(time_ordered(t)) by {
            assert forall|i: int, j: int| 0 <= i < j < t.len() implies (#[trigger] t[i]).at() <= (#[trigger] t[j]).at() by {
                assert(t[i] == s[i + 1]);
                assert(t[j] == s[j + 1]);
            }
        }
        lemma_due_count(t, now);
        assert forall|i: int| 0 <= i < due_count(s, now) implies (#[trigger] s[i]).at() <= now by {
            if i > 0 {
                assert(s[i] == t[i - 1]);
            }
        }
        assert forall|i: int| due_count(s, now) <= i < s.len() implies (#[trigger] s[i]).at() > now by {
            assert(s[i] == t[i - 1]);
        }
    } else if s.len() > 0 {
        assert forall|i: int| 0 <= i < s.len() implies (#[trigger] s[i]).at() > now by {
            assert(s[0].at() <= s[i].at() || i == 0);
        }
    }
}

/// The number of due events lies within the queue.
pub proof fn lemma_due_count_bounds(s: Seq<Callback>, now: u64)
    ensures
        0 <= due_count(s, now) <= s.len(),
    decreases s.len(),
{
    if s.len() > 0 && s[0].at() <= now {
        lemma_due_count_bounds(s.drop_first(), now);
    }
}

/// A new event's position lies within the queue.
pub proof fn lemma_slot_bounds(s: Seq<Callback>, t: u64)
    ensures
        0 <= slot_for(s, t) <= s.len(),
    decreases s.len(),
{
    if s.len() > 0 && s[0].at() <= t {
        lemma_slot_bounds(s.drop_first(), t);
    }
}

/// The first index of an ordered `s` whose event is later than `t` is
/// `due_count(s, t)`.
proof fn lemma_due_count_at(s: Seq<Callback>, t: u64, k: int)
    requires
        time_ordered(s),
        0 <= k <= s.len(),
        forall|i: int| 0 <= i < k ==> (#[trigger] s[i]).at() <= t,
        k < s.len() ==> s[k].at() > t,
    ensures
        due_count(s, t) == k,
{
    lemma_due_count(s, t);
    let d = due_count(s, t);
    if d < k {
        assert(s[d].at() <= t);
    }
    if d > k {
        assert(s[k].at() <= t);
    }
}

impl CallbackRegistry {
    /// The queue is ordered by time.
    pub open spec fn wf(&self) -> bool {
        time_ordered(self.callbacks@)
    }

    /// An empty queue.
    pub fn new() -> (r: Self)
        ensures
            r.wf(),
            r.callbacks@ == Seq::<Callback>::empty(),
    {
        CallbackRegistry { callbacks: Vec::new() }
    }

    /// Adds an event after every event due no later than it.
    pub fn schedule(&mut self, cb: Callback)
        requires
            old(self).wf(),
        ensures
            final(self).wf(),
            final(self).callbacks@ == old(self).callbacks@.insert(slot_for(old(self).callbacks@, cb.at()), cb),
    {
        let t = cb.time();
        let mut j: usize = 0;
        while j < self.callbacks.len() && self.callbacks[j].time() <= t
            invariant
                j <= self.callbacks@.len(),
                forall|k: int| 0 <= k < j ==> (#[trigger] self.callbacks@[k]).at() <= t,
            decreases self.callbacks.len() - j,
        {
            j = j + 1;
        }
        let ghost before = self.callbacks@;
        proof {
            lemma_due_count_at(before, t, j as int);
        }
        self.callbacks.insert(j, cb);
        proof {
            let s = self.callbacks@;
            assert forall|a: int, b: int| 0 <= a < b < s.len() implies (#[trigger] s[a]).at() <= (#[trigger] s[b]).at() by {
                if b < j {
                } else if a > j {
                    assert(s[a] == before[a - 1]);
                    assert(s[b] == before[b - 1]);
                } else if a == j {
                    assert(s[b] == before[b - 1]);
                } else if b == j {
                    assert(s[a] == before[a]);
                } else {
                    assert(s[a] == before[a]);
                    assert(s[b] == before[b - 1]);
                }
            }
        }
    }

    /// Removes the events due at `now` (time at most `now`) and returns them
    /// in order; the later ones stay.
    pub fn take_due(&mut self, now: u64) -> (due: Vec<Callback>)
        requires
            old(self).wf(),
        ensures
            final(self).wf(),
            due@ == old(self).callbacks@.take(due_count(old(self).callbacks@, now)),
            final(self).callbacks@ == old(self).callbacks@.skip(due_count(old(self).callbacks@, now)),
    {
        proof {
            lemma_due_count(self.callbacks@, now);
        }
        let mut n: usize = 0;
        while n < self.callbacks.len() && self.callbacks[n].time() <= now
            invariant
                n <= self.callbacks@.len(),
                forall|k: int| 0 <= k < n ==> (#[trigger] self.callbacks@[k]).at() <= now,
            decreases self.callbacks.len() - n,
        {
            n = n + 1;
        }
        proof {
            lemma_due_count_at(self.callbacks@, now, n as int);
        }
        let ghost before = self.callbacks@;
        let mut due = self.callbacks.split_off(n);
        std::mem::swap(&mut self.callbacks, &mut due);
        proof {
            assert(due@ =~= before.take(n as int));
            assert(self.callbacks@ =~= before.skip(n as int));
            let s = self.callbacks@;
            assert forall|a: int, b: int| 0 <= a < b < s.len() implies (#[trigger] s[a]).at() <= (#[trigger] s[b]).at() by {
                assert(s[a] == before[a + n]);
                assert(s[b] == before[b + n]);
            }
        }
        due
    }
}

/// Every event taken out by `take_due` is due, and every event left is not.
pub proof fn law_take_due_splits(s: Seq<Callback>, now: u64)
    requires
        time_ordered(s),
    ensures
        forall|i: int| 0 <= i < s.take(due_count(s, now)).len() ==> (#[trigger] s.take(due_count(s, now))[i]).at() <= now,
        forall|i: int| 0 <= i < s.skip(due_count(s, now)).len() ==> (#[trigger] s.skip(due_count(s, now))[i]).at() > now,
        s.take(due_count(s, now)) + s.skip(due_count(s, now)) == s,
{
    lemma_due_count(s, now);
    let d = due_count(s, now);
    assert forall|i: int| 0 <= i < s.skip(d).len() implies (#[trigger] s.skip(d)[i]).at() > now by {
        assert(s.skip(d)[i] == s[i + d]);
    }
    assert(s.take(d) + s.skip(d) =~= s);
}

} // verus!
