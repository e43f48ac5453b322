//! The host's choice of what to sequence next: from each player's chain, the
//! envelopes at consecutive heights that follow the last one sequenced, then
//! one envelope per chain and round.
use vstd::prelude::*;
use std::collections::BTreeMap;
use crate::messages::EnvelopeHash;
use vstd::std_specs::iter::IteratorSpec;
use vstd::multiset::Multiset;

verus! {

broadcast use vstd::std_specs::btree::group_btree_axioms;

/// One player's chain as the host sees it: the height it sequences next, and
/// the envelopes it has received and not yet sequenced, by height.
pub struct ChainBacklog {
    pub next_height: u64,
    pub pending: BTreeMap<u64, EnvelopeHash>,
}

/// The heights from `first` up to, not including, `end`.
pub open spec fn heights(first: u64, end: int) -> Set<u64> {
    Set::new(|h: u64| first <= h < end)
}

/// The chain can go on: its lowest pending height is the next one to
/// sequence.
pub open spec fn ready(p: Map<u64, EnvelopeHash>, first: u64) -> bool {
    &&& p.contains_key(first)
    &&& forall|k: u64| #[trigger] p.contains_key(k) ==> first <= k
}

/// `run` holds the envelopes of `p` at heights `first`, `first + 1`, ...,
/// up to the first height that `p` lacks.
pub open spec fn is_run(p: Map<u64, EnvelopeHash>, first: u64, run: Seq<EnvelopeHash>) -> bool {
    &&& first + run.len() <= u64::MAX
    &&& forall|k: u64| first <= k < first + run.len() ==> #[trigger] p.contains_key(k)
    &&& forall|i: int| 0 <= i < run.len() ==> #[trigger] run[i] == p[(first + i) as u64]
    &&& !p.contains_key((first + run.len()) as u64)
}

/// No pending height is below `first`.
fn none_below(p: &BTreeMap<u64, EnvelopeHash>, first: u64) -> (r: bool)
    ensures
        r == (forall|k: u64| #[trigger] p@.contains_key(k) ==> first <= k),
{
    broadcast use vstd::std_specs::btree::axiom_spec_keys_iter;
    let mut ok = true;
    let ghost all = vstd::std_specs::btree::spec_keys_iter(p).remaining().unref();
    for k in it: p.keys()
        invariant
            all == it.seq().unref(),
            it.seq().unref().to_set() == p@.dom(),
            ok == (forall|i: int| 0 <= i < it.index() ==> first <= #[trigger] it.seq().unref()[i]),
    {
        proof {
            assert(it.seq().unref()[it.index() as int] == *k);
        }
        if *k < first {
            ok = false;
        }
    }
    proof {
        let s = all;
        assert forall|k: u64| #[trigger] p@.contains_key(k) implies (ok ==> first <= k) by {
            assert(s.to_set().contains(k));
            let i = s.index_of(k);
            assert(s[i] == k);
        }
        if !ok {
            let i = choose|i: int| 0 <= i < s.len() && !(first <= s[i]);
            assert(s.to_set().contains(s[i]));
            assert(p@.contains_key(s[i]));
        }
    }
    ok
}

impl ChainBacklog {
    /// Nothing sequenced and nothing received.
    pub fn new() -> (r: Self)
        ensures
            r.next_height == 0,
            r.pending@ == Map::<u64, EnvelopeHash>::empty(),
    {
        ChainBacklog { next_height: 0, pending: BTreeMap::new() }
    }

    /// Notes an envelope that an earlier batch sequenced already: the next
    /// height moves past it, where it is not past it already.
    pub fn note_sequenced(&mut self, height: u64)
        requires
            height < u64::MAX,
        ensures
            final(self).next_height == if height + 1 > old(self).next_height {
                (height + 1) as u64
            } else {
                old(self).next_height
            },
            final(self).pending@ == old(self).pending@,
    {
        if height + 1 > self.next_height {
            self.next_height = height + 1;
        }
    }

    /// Files an envelope received at `height`; no envelope of the chain is
    /// filed twice at one height.
    pub fn receive(&mut self, height: u64, hash: EnvelopeHash)
        requires
            !old(self).pending@.contains_key(height),
        ensures
            final(self).next_height == old(self).next_height,
            final(self).pending@ == old(self).pending@.insert(height, hash),
    {
        self.pending.insert(height, hash);
    }

    /// When the chain is ready, takes out the run of envelopes at consecutive
    /// heights from the next height on, in height order, and moves the next
    /// height past the run; otherwise takes nothing.
    pub fn take_ready_run(&mut self) -> (run: Vec<EnvelopeHash>)
        requires
            forall|k: u64| #[trigger] old(self).pending@.contains_key(k) ==> k < u64::MAX,
        ensures
            ready(old(self).pending@, old(self).next_height) ==> {
                &&& run@.len() > 0
                &&& is_run(old(self).pending@, old(self).next_height, run@)
                &&& final(self).next_height == old(self).next_height + run@.len()
                &&& final(self).pending@ == old(self).pending@.remove_keys(
                    heights(old(self).next_height, final(self).next_height as int),
                )
            },
            !ready(old(self).pending@, old(self).next_height) ==> {
                &&& run@.len() == 0
                &&& final(self).next_height == old(self).next_height
                &&& final(self).pending@ == old(self).pending@
            },
    {
        let first = self.next_height;
        let mut run: Vec<EnvelopeHash> = Vec::new();
        if !self.pending.contains_key(&first) || !none_below(&self.pending, first) {
            return run;
        }
        let ghost p = self.pending@;
        let mut h = first;
        while self.pending.contains_key(&h)
            invariant
                first <= h,
                run@.len() == h - first,
                forall|k: u64| #[trigger] p.contains_key(k) ==> k < u64::MAX,
                forall|k: u64| first <= k < h ==> #[trigger] p.contains_key(k),
                forall|i: int| 0 <= i < run@.len() ==> #[trigger] run@[i] == p[(first + i) as u64],
                self.pending@ == p.remove_keys(heights(first, h as int)),
            decreases u64::MAX - h,
        {
            let ghost before = self.pending@;
            let e = self.pending.remove(&h).unwrap();
            proof {
                assert(!heights(first, h as int).contains(h));
                assert(before[h] == e);
                assert(p[h] == e);
            }
            let ghost old_run = run@;
            run.push(e);
            proof {
                assert(p.contains_key(h));
                assert forall|i: int| 0 <= i < run@.len() implies #[trigger] run@[i] == p[(first + i) as u64] by {
                    if i < old_run.len() {
                        assert(run@[i] == old_run[i]);
                    } else {
                        assert(i == h - first);
                        assert((first + i) as u64 == h);
                    }
                }
                assert(self.pending@ =~= p.remove_keys(heights(first, h + 1)));
            }
            h = h + 1;
        }
        proof {
            assert(!heights(first, h as int).contains(h));
            assert(!p.contains_key(h));
        }
        self.next_height = h;
        run
    }
}

/// The envelopes of `items` whose round is `r`, in the order given.
pub open spec fn round_of(items: Seq<(u64, EnvelopeHash)>, r: int) -> Seq<EnvelopeHash>
    decreases items.len(),
{
    if items.len() == 0 {
        Seq::empty()
    } else {
        round_of(items.drop_last(), r) + if items.last().0 == r {
            seq![items.last().1]
        } else {
            Seq::empty()
        }
    }
}

/// Rounds `0` to `n - 1` of `items`, one after the other.
pub open spec fn rounds_upto(items: Seq<(u64, EnvelopeHash)>, n: nat) -> Seq<EnvelopeHash>
    decreases n,
{
    if n == 0 {
        Seq::empty()
    } else {
        rounds_upto(items, (n - 1) as nat) + round_of(items, n - 1)
    }
}

/// One more than the highest round of `items` (0 when there are none).
pub open spec fn round_count(items: Seq<(u64, EnvelopeHash)>) -> nat
    decreases items.len(),
{
    if items.len() == 0 {
        0
    } else {
        let rest = round_count(items.drop_last());
        if items.last().0 + 1 > rest {
            (items.last().0 + 1) as nat
        } else {
            rest
        }
    }
}

/// Orders a batch round by round: first every envelope whose round is 0
/// (each chain's first of the batch), then every one whose round is 1, and
/// so on; within a round the envelopes keep the order given.
pub fn order_by_round(items: &Vec<(u64, EnvelopeHash)>) -> (r: Vec<EnvelopeHash>)
    requires
        forall|i: int| 0 <= i < items@.len() ==> #[trigger] items@[i].0 < u64::MAX,
    ensures
        r@ == rounds_upto(items@, round_count(items@)),
{
    let mut n: u64 = 0;
    let mut j: usize = 0;
    while j < items.len()
        invariant
            j <= items@.len(),
            forall|i: int| 0 <= i < items@.len() ==> #[trigger] items@[i].0 < u64::MAX,
            n == round_count(items@.take(j as int)),
        decreases items@.len() - j,
    {
        proof {
            assert(items@.take(j + 1).drop_last() =~= items@.take(j as int));
            assert(items@.take(j + 1).last() == items@[j as int]);
        }
        if items[j].0 + 1 > n {
            n = items[j].0 + 1;
        }
        j = j + 1;
    }
    assert(items@.take(items@.len() as int) =~= items@);
    let mut out: Vec<EnvelopeHash> = Vec::new();
    let mut round: u64 = 0;
    while round < n
        invariant
            round <= n,
            n == round_count(items@),
            out@ == rounds_upto(items@, round as nat),
        decreases n - round,
    {
        let mut j: usize = 0;
        while j < items.len()
            invariant
                j <= items@.len(),
                round < n,
                out@ == rounds_upto(items@, round as nat) + round_of(items@.take(j as int), round as int),
            decreases items@.len() - j,
        {
            proof {
                assert(items@.take(j + 1).drop_last() =~= items@.take(j as int));
                assert(items@.take(j + 1).last() == items@[j as int]);
            }
            if items[j].0 == round {
                out.push(items[j].1);
                assert(out@ =~= rounds_upto(items@, round as nat) + round_of(items@.take(j + 1), round as int));
            } else {
                assert(out@ =~= rounds_upto(items@, round as nat) + round_of(items@.take(j + 1), round as int));
            }
            j = j + 1;
        }
        assert(items@.take(items@.len() as int) =~= items@);
        assert(out@ =~= rounds_upto(items@, (round + 1) as nat));
        round = round + 1;
    }
    out
}

/// The envelopes of `runs`, one run after the other, each tagged with its
/// place in its run: the round in which it is sequenced.
pub open spec fn tagged(runs: Seq<Vec<EnvelopeHash>>) -> Seq<(u64, EnvelopeHash)>
    decreases runs.len(),
{
    if runs.len() == 0 {
        Seq::empty()
    } else {
        tagged(runs.drop_last()) + runs.last()@.map(|i: int, e: EnvelopeHash| (i as u64, e))
    }
}

/// Tags every envelope of the chains' runs with its place in its run (its
/// height less the first height of the run), one run after the other.
pub fn tag_rounds(runs: &Vec<Vec<EnvelopeHash>>) -> (r: Vec<(u64, EnvelopeHash)>)
    ensures
        r@ == tagged(runs@),
{
    let mut out: Vec<(u64, EnvelopeHash)> = Vec::new();
    let mut k: usize = 0;
    while k < runs.len()
        invariant
            k <= runs@.len(),
            out@ == tagged(runs@.take(k as int)),
        decreases runs@.len() - k,
    {
        let run = &runs[k];
        let ghost base = out@;
        let mut i: usize = 0;
        while i < run.len()
            invariant
                i <= run@.len(),
                run == runs@[k as int],
                out@ == base + run@.take(i as int).map(|j: int, e: EnvelopeHash| (j as u64, e)),
            decreases run@.len() - i,
        {
            out.push((i as u64, run[i]));
            assert(out@ =~= base + run@.take(i + 1).map(|j: int, e: EnvelopeHash| (j as u64, e)));
            i = i + 1;
        }
        proof {
            assert(run@.take(run@.len() as int) =~= run@);
            assert(runs@.take(k + 1).drop_last() =~= runs@.take(k as int));
            assert(runs@.take(k + 1).last() == runs@[k as int]);
        }
        k = k + 1;
    }
    assert(runs@.take(runs@.len() as int) =~= runs@);
    out
}

/// The envelopes of `items`, in the order given.
pub open spec fn batch_envelopes(items: Seq<(u64, EnvelopeHash)>) -> Seq<EnvelopeHash> {
    items.map_values(|x: (u64, EnvelopeHash)| x.1)
}

/// The envelope that `x` adds to the first `n` rounds: itself when its
/// round is below `n`.
pub open spec fn counted_below(x: (u64, EnvelopeHash), n: nat) -> Multiset<EnvelopeHash> {
    if x.0 < n {
        Multiset::singleton(x.1)
    } else {
        Multiset::empty()
    }
}

proof fn lemma_rounds_of_nothing(items: Seq<(u64, EnvelopeHash)>, n: nat)
    requires
        items.len() == 0,
    ensures
        rounds_upto(items, n) == Seq::<EnvelopeHash>::empty(),
    decreases n,
{
    if n > 0 {
        lemma_rounds_of_nothing(items, (n - 1) as nat);
        assert(rounds_upto(items, n) =~= Seq::<EnvelopeHash>::empty());
    }
}

proof fn lemma_rounds_last(items: Seq<(u64, EnvelopeHash)>, n: nat)
    requires
        items.len() > 0,
    ensures
        rounds_upto(items, n).to_multiset() =~= rounds_upto(items.drop_last(), n).to_multiset().add(
            counted_below(items.last(), n),
        ),
    decreases n,
{
    broadcast use vstd::multiset::group_multiset_axioms;
    broadcast use vstd::seq_lib::group_to_multiset_ensures;
    broadcast use vstd::seq_lib::lemma_multiset_commutative;

    let rest = items.drop_last();
    let x = items.last();
    if n == 0 {
        assert(rounds_upto(items, n).to_multiset() =~= Multiset::empty());
        assert(rounds_upto(rest, n).to_multiset() =~= Multiset::empty());
    } else {
        let m = (n - 1) as nat;
        lemma_rounds_last(items, m);
        let tail: Seq<EnvelopeHash> = if x.0 == m { seq![x.1] } else { Seq::empty() };
        assert(round_of(items, m as int) == round_of(rest, m as int) + tail);
        assert(tail.to_multiset() =~= if x.0 == m { Multiset::singleton(x.1) } else { Multiset::empty() }) by {
            if x.0 == m {
                assert(seq![x.1] =~= Seq::<EnvelopeHash>::empty().push(x.1));
            }
        }
    }
}

/// Every envelope of a batch is sequenced exactly once: ordering it round
/// by round only rearranges it.
pub proof fn law_rounds_rearrange_batch(items: Seq<(u64, EnvelopeHash)>)
    ensures
        rounds_upto(items, round_count(items)).to_multiset() == batch_envelopes(items).to_multiset(),
{
    lemma_rounds_cover(items, round_count(items));
}

proof fn lemma_rounds_cover(items: Seq<(u64, EnvelopeHash)>, n: nat)
    requires
        round_count(items) <= n,
    ensures
        rounds_upto(items, n).to_multiset() =~= batch_envelopes(items).to_multiset(),
    decreases items.len(),
{
    broadcast use vstd::multiset::group_multiset_axioms;
    broadcast use vstd::seq_lib::group_to_multiset_ensures;

    if items.len() == 0 {
        lemma_rounds_of_nothing(items, n);
        assert(batch_envelopes(items) =~= Seq::<EnvelopeHash>::empty());
    } else {
        let rest = items.drop_last();
        let x = items.last();
        lemma_rounds_cover(rest, n);
        lemma_rounds_last(items, n);
        assert(batch_envelopes(items) =~= batch_envelopes(rest).push(x.1));
        assert(counted_below(x, n) =~= Multiset::singleton(x.1));
    }
}

} // verus!
