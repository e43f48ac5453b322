//! Checking the host's chain of broadcasts and replaying, in the order it
//! gives, the envelopes that the players signed.
use vstd::prelude::*;
use std::collections::VecDeque;
use crate::messages::{bytes32_eq, BroadcastByHost, EnvelopeHash};

verus! {

/// One of the host's signed broadcasts, as the sequencer reads it.
#[derive(Clone, Debug)]
pub struct SequencerEnvelope {
    /// Its place in the host's chain (the first is at height 0).
    pub height: u64,
    /// The key of the signer.
    pub key: [u8; 32],
    /// The broadcast it carries, or `None` where its message is not one.
    pub message: Option<BroadcastByHost>,
}

/// The host's broadcasts and the players' envelopes, not yet checked.
pub struct RawSequencer<E> {
    pub sequencer_envelopes: Vec<SequencerEnvelope>,
    pub msg_cache: Vec<(EnvelopeHash, E)>,
}

/// Batches of envelope hashes in the order to play them, and the envelopes
/// by hash.
pub struct OfflineSequencer<E> {
    pub batches_to_sequence: Vec<VecDeque<EnvelopeHash>>,
    pub msg_cache: Vec<(EnvelopeHash, E)>,
}

/// Why the host's chain of broadcasts cannot be used.
#[derive(Clone, Copy, Debug, PartialEq, Eq, Structural)]
pub enum SequencerError {
    BadMessageType,
    MessageFromWrongEntity,
    MisingTip,
    Gap,
    AuthenticationError,
}

/// Why the envelopes could not all be replayed.
#[derive(Clone, Copy, Debug)]
pub enum SequenceingError<T> {
    /// Turning an envelope into its result failed.
    MappingError(T),
    /// An envelope named by the host is not (or no longer) in the cache.
    MissingEnvelope,
}

/// The error of a step that cannot fail; nothing outside this module makes
/// one.
#[derive(Clone, Copy, Debug)]
pub struct Void {
    unused: u8,
}

/// The chain does not start at height 0.
pub open spec fn missing_tip(envs: Seq<SequencerEnvelope>) -> bool {
    envs.len() > 0 && envs[0].height != 0
}

/// Two neighbours in the chain whose heights do not follow each other.
pub open spec fn has_gap(envs: Seq<SequencerEnvelope>) -> bool {
    exists|i: int| 0 <= i < envs.len() - 1 && #[trigger] envs[i].height + 1 != envs[i + 1].height
}

/// Two neighbours in the chain signed by different keys.
pub open spec fn has_foreign_signer(envs: Seq<SequencerEnvelope>) -> bool {
    exists|i: int| 0 <= i < envs.len() - 1 && #[trigger] envs[i].key@ != envs[i + 1].key@
}

/// A message of the chain that is not a broadcast.
pub open spec fn has_bad_message(envs: Seq<SequencerEnvelope>) -> bool {
    exists|i: int| 0 <= i < envs.len() && (#[trigger] envs[i]).message is None
}

/// The batches that the chain orders, in the chain's order.
pub open spec fn ordered_batches(envs: Seq<SequencerEnvelope>) -> Seq<Seq<EnvelopeHash>>
    decreases envs.len(),
{
    if envs.len() == 0 {
        seq![]
    } else {
        let rest = ordered_batches(envs.drop_last());
        match envs.last().message {
            Some(BroadcastByHost::Sequence(s)) => rest.push(s@),
            _ => rest,
        }
    }
}

/// What checking a chain gives: its first problem, in the order tip, gap,
/// signer, message; else the batches it orders.
pub open spec fn check_chain(envs: Seq<SequencerEnvelope>) -> Result<
    Seq<Seq<EnvelopeHash>>,
    SequencerError,
> {
    if missing_tip(envs) {
        Err(SequencerError::MisingTip)
    } else if has_gap(envs) {
        Err(SequencerError::Gap)
    } else if has_foreign_signer(envs) {
        Err(SequencerError::MessageFromWrongEntity)
    } else if has_bad_message(envs) {
        Err(SequencerError::BadMessageType)
    } else {
        Ok(ordered_batches(envs))
    }
}

/// The contents of each batch.
pub open spec fn batch_views(bs: Seq<VecDeque<EnvelopeHash>>) -> Seq<Seq<EnvelopeHash>> {
    bs.map_values(|b: VecDeque<EnvelopeHash>| b@)
}

/// A copy of a batch.
fn copy_batch(s: &VecDeque<EnvelopeHash>) -> (r: VecDeque<EnvelopeHash>)
    ensures
        r@ == s@,
{
    let mut r: VecDeque<EnvelopeHash> = VecDeque::new();
    let mut j: usize = 0;
    while j < s.len()
        invariant
            j <= s@.len(),
            r@ == s@.take(j as int),
        decreases s@.len() - j,
    {
        let h: EnvelopeHash = s[j];
        r.push_back(h);
        assert(r@ =~= s@.take(j + 1));
        j += 1;
    }
    assert(s@.take(s@.len() as int) =~= s@);
    r
}

impl<E> OfflineSequencer<E> {
    /// Checks the host's chain and keeps the batches it orders: the chain
    /// must start at height 0, go up one height at a time, be signed by one
    /// key throughout, and hold only broadcasts.
    pub fn try_from_raw(value: RawSequencer<E>) -> (r: Result<OfflineSequencer<E>, SequencerError>)
        ensures
            match r {
                Ok(s) => {
                    &&& check_chain(value.sequencer_envelopes@) == Ok::<
                        Seq<Seq<EnvelopeHash>>,
                        SequencerError,
                    >(batch_views(s.batches_to_sequence@))
                    &&& s.msg_cache@ == value.msg_cache@
                },
                Err(e) => check_chain(value.sequencer_envelopes@) == Err::<
                    Seq<Seq<EnvelopeHash>>,
                    SequencerError,
                >(e),
            },
    {
        let envs = &value.sequencer_envelopes;
        let n = envs.len();
        if n > 0 && envs[0].height != 0 {
            return Err(SequencerError::MisingTip);
        }
        let mut i: usize = 1;
        while i < n
            invariant
                1 <= i,
                i <= n || n == 0,
                n == envs@.len(),
                envs@ == value.sequencer_envelopes@,
                !missing_tip(envs@),
                forall|k: int| 0 <= k < i - 1 ==> #[trigger] envs@[k].height + 1 == envs@[k + 1].height,
            decreases n - i,
        {
            if envs[i - 1].height == u64::MAX || envs[i - 1].height + 1 != envs[i].height {
                assert(envs@[i - 1].height + 1 != envs@[i - 1 + 1].height);
                return Err(SequencerError::Gap);
            }
            i += 1;
        }
        assert(!has_gap(envs@));
        let mut i: usize = 1;
        while i < n
            invariant
                1 <= i,
                i <= n || n == 0,
                n == envs@.len(),
                envs@ == value.sequencer_envelopes@,
                !missing_tip(envs@),
                !has_gap(envs@),
                forall|k: int| 0 <= k < i - 1 ==> #[trigger] envs@[k].key@ == envs@[k + 1].key@,
            decreases n - i,
        {
            if !bytes32_eq(&envs[i - 1].key, &envs[i].key) {
                assert(envs@[i - 1].key@ != envs@[i - 1 + 1].key@);
                return Err(SequencerError::MessageFromWrongEntity);
            }
            i += 1;
        }
        assert(!has_foreign_signer(envs@));
        let mut batches: Vec<VecDeque<EnvelopeHash>> = Vec::new();
        let mut i: usize = 0;
        while i < n
            invariant
                i <= n,
                n == envs@.len(),
                envs@ == value.sequencer_envelopes@,
                !missing_tip(envs@),
                !has_gap(envs@),
                !has_foreign_signer(envs@),
                forall|k: int| 0 <= k < i ==> (#[trigger] envs@[k]).message is Some,
                batch_views(batches@) == ordered_batches(envs@.take(i as int)),
            decreases n - i,
        {
            assert(envs@.take(i + 1).drop_last() =~= envs@.take(i as int));
            assert(envs@.take(i + 1).last() == envs@[i as int]);
            match &envs[i].message {
                Some(BroadcastByHost::Sequence(s)) => {
                    let b = copy_batch(s);
                    batches.push(b);
                    assert(batch_views(batches@) =~= ordered_batches(envs@.take(i + 1)));
                },
                Some(_) => {
                    assert(batch_views(batches@) =~= ordered_batches(envs@.take(i + 1)));
                },
                None => {
                    assert(envs@[i as int].message is None);
                    return Err(SequencerError::BadMessageType);
                },
            }
            i += 1;
        }
        assert(envs@.take(n as int) =~= envs@);
        Ok(OfflineSequencer { batches_to_sequence: batches, msg_cache: value.msg_cache })
    }
}

/// The first entry of the cache under hash `h`.
pub open spec fn find_entry<E>(cache: Seq<(EnvelopeHash, E)>, h: Seq<u8>) -> Option<int>
    decreases cache.len(),
{
    if cache.len() == 0 {
        None
    } else if cache[0].0@ == h {
        Some(0)
    } else {
        match find_entry(cache.drop_first(), h) {
            Some(i) => Some(i + 1),
            None => None,
        }
    }
}

/// `find_entry` gives the first matching position, or none where no entry
/// matches.
proof fn lemma_find_entry<E>(cache: Seq<(EnvelopeHash, E)>, h: Seq<u8>)
    ensures
        match find_entry(cache, h) {
            Some(i) => 0 <= i < cache.len() && cache[i].0@ == h && forall|j: int|
                0 <= j < i ==> (#[trigger] cache[j]).0@ != h,
            None => forall|j: int| 0 <= j < cache.len() ==> (#[trigger] cache[j]).0@ != h,
        },
    decreases cache.len(),
{
    if cache.len() > 0 && cache[0].0@ != h {
        let rest = cache.drop_first();
        lemma_find_entry(rest, h);
        assert forall|j: int| 1 <= j < cache.len() implies cache[j] == rest[j - 1] by {}
    }
}

/// The position of the first entry of the cache under `h`.
fn find_hash<E>(cache: &Vec<(EnvelopeHash, E)>, h: &EnvelopeHash) -> (r: Option<usize>)
    ensures
        match r {
            Some(k) => find_entry(cache@, h@) == Some(k as int),
            None => find_entry(cache@, h@) is None,
        },
{
    let mut k: usize = 0;
    while k < cache.len()
        invariant
            k <= cache@.len(),
            forall|j: int| 0 <= j < k ==> (#[trigger] cache@[j]).0@ != h@,
        decreases cache@.len() - k,
    {
        if cache[k].0.same(h) {
            proof {
                lemma_find_entry(cache@, h@);
            }
            return Some(k);
        }
        k += 1;
    }
    proof {
        lemma_find_entry(cache@, h@);
    }
    None
}

/// The hashes of all batches, one batch after the other.
pub open spec fn flat_hashes(bs: Seq<Seq<EnvelopeHash>>) -> Seq<EnvelopeHash>
    decreases bs.len(),
{
    if bs.len() == 0 {
        seq![]
    } else {
        flat_hashes(bs.drop_last()) + bs.last()
    }
}

/// The hashes before position `j` of batch `i`.
pub open spec fn hashes_before(bs: Seq<Seq<EnvelopeHash>>, i: int, j: int) -> Seq<EnvelopeHash> {
    flat_hashes(bs.take(i)) + bs[i].take(j)
}

/// Takes the envelopes named by `hs` out of the cache one after the other,
/// each time the first entry under its hash: the envelopes taken and what
/// is left of the cache, or `None` where one is not found.
pub open spec fn take_envelopes<E>(hs: Seq<EnvelopeHash>, cache: Seq<(EnvelopeHash, E)>) -> Option<
    (Seq<E>, Seq<(EnvelopeHash, E)>),
>
    decreases hs.len(),
{
    if hs.len() == 0 {
        Some((seq![], cache))
    } else {
        match take_envelopes(hs.drop_last(), cache) {
            None => None,
            Some((out, c)) => match find_entry(c, hs.last()@) {
                None => None,
                Some(k) => Some((out.push(c[k].1), c.remove(k))),
            },
        }
    }
}

/// Once a hash is missing, it stays missing whatever follows.
proof fn lemma_take_missing_persists<E>(
    p: Seq<EnvelopeHash>,
    q: Seq<EnvelopeHash>,
    cache: Seq<(EnvelopeHash, E)>,
)
    requires
        take_envelopes(p, cache) is None,
    ensures
        take_envelopes(p + q, cache) is None,
    decreases q.len(),
{
    if q.len() == 0 {
        assert(p + q =~= p);
    } else {
        lemma_take_missing_persists(p, q.drop_last(), cache);
        assert((p + q).drop_last() =~= p + q.drop_last());
    }
}

/// Flattening distributes over concatenation.
proof fn lemma_flat_append(a: Seq<Seq<EnvelopeHash>>, b: Seq<Seq<EnvelopeHash>>)
    ensures
        flat_hashes(a + b) == flat_hashes(a) + flat_hashes(b),
    decreases b.len(),
{
    if b.len() == 0 {
        assert(a + b =~= a);
        assert(flat_hashes(a) + flat_hashes(b) =~= flat_hashes(a));
    } else {
        lemma_flat_append(a, b.drop_last());
        assert((a + b).drop_last() =~= a + b.drop_last());
        assert((a + b).last() == b.last());
        assert(flat_hashes(a + b) =~= flat_hashes(a) + flat_hashes(b));
    }
}

/// The hashes up to and including position `j` of batch `i` begin the
/// flattened batches.
proof fn lemma_prefix_of_flat(bs: Seq<Seq<EnvelopeHash>>, i: int, j: int)
    requires
        0 <= i < bs.len(),
        0 <= j < bs[i].len(),
    ensures
        exists|rest: Seq<EnvelopeHash>|
            flat_hashes(bs) == #[trigger] hashes_before(bs, i, j).push(bs[i][j]) + rest,
{
    lemma_flat_append(bs.take(i + 1), bs.skip(i + 1));
    assert(bs.take(i + 1) + bs.skip(i + 1) =~= bs);
    assert(bs.take(i + 1).drop_last() =~= bs.take(i));
    let rest = bs[i].skip(j + 1) + flat_hashes(bs.skip(i + 1));
    assert(flat_hashes(bs) =~= hashes_before(bs, i, j).push(bs[i][j]) + rest);
}

/// The step of plain sequencing: an envelope is kept as it is.
fn keep_envelope<E>(e: E) -> (o: Result<E, Void>)
    ensures
        o == Ok::<E, Void>(e),
{
    Ok(e)
}

/// The envelopes held by the entries of a cache, in its order.
pub open spec fn cached_envelopes<E>(c: Seq<(EnvelopeHash, E)>) -> Seq<E> {
    c.map_values(|e: (EnvelopeHash, E)| e.1)
}

/// Replaying loses and duplicates no envelope: the envelopes taken, with
/// those still in the cache, are exactly the envelopes the cache held.
pub proof fn law_replay_conserves_envelopes<E>(hs: Seq<EnvelopeHash>, cache: Seq<(EnvelopeHash, E)>)
    ensures
        take_envelopes(hs, cache) matches Some((out, left)) ==> {
            &&& out.len() == hs.len()
            &&& out.len() + left.len() == cache.len()
            &&& out.to_multiset().add(cached_envelopes(left).to_multiset())
                == cached_envelopes(cache).to_multiset()
        },
    decreases hs.len(),
{
    broadcast use vstd::multiset::group_multiset_axioms;
    broadcast use vstd::seq_lib::group_to_multiset_ensures;

    if hs.len() == 0 {
        assert(Seq::<E>::empty().to_multiset() =~= vstd::multiset::Multiset::<E>::empty());
        let vals = cached_envelopes(cache).to_multiset();
        assert(vstd::multiset::Multiset::<E>::empty().add(vals) =~= vals);
    } else {
        law_replay_conserves_envelopes(hs.drop_last(), cache);
        match take_envelopes(hs.drop_last(), cache) {
            None => {},
            Some((out, c)) => {
                match find_entry(c, hs.last()@) {
                    None => {},
                    Some(k) => {
                        lemma_find_entry(c, hs.last()@);
                        let x = c[k].1;
                        let vals = cached_envelopes(c);
                        assert(cached_envelopes(c.remove(k)) =~= vals.remove(k));
                        assert(vals[k] == x);
                        vstd::seq_lib::to_multiset_build(out, x);
                        vstd::seq_lib::to_multiset_remove(vals, k);
                        vstd::seq_lib::to_multiset_contains(vals, x);
                        assert(vals.contains(x)) by {
                            assert(vals[k] == x);
                        }
                        let m_out = out.to_multiset();
                        let m_vals = vals.to_multiset();
                        assert(m_out.insert(x).add(m_vals.remove(x)) =~= m_out.add(m_vals));
                    },
                }
            },
        }
    }
}

impl<E> OfflineSequencer<E> {
    /// Takes the envelopes out of the cache in the order the batches give
    /// and turns each into a result with `f`, stopping at the first envelope
    /// that is missing or that `f` fails on. What was taken before stays
    /// taken.
    pub fn directly_sequence_map<F, R, X>(&mut self, f: F) -> (r: Result<Vec<R>, SequenceingError<X>>)
        where
            F: Fn(E) -> Result<R, X>,
        requires
            forall|e: E| f.requires((e,)),
        ensures
            final(self).batches_to_sequence@ == old(self).batches_to_sequence@,
            ({
                let bs = batch_views(old(self).batches_to_sequence@);
                let cache0 = old(self).msg_cache@;
                match r {
                    Ok(v) => take_envelopes(flat_hashes(bs), cache0) matches Some((es, c)) && c
                        == final(self).msg_cache@ && v@.len() == es.len() && forall|k: int|
                        0 <= k < es.len() ==> f.ensures((es[k],), Ok::<R, X>(#[trigger] v@[k])),
                    Err(SequenceingError::MissingEnvelope) => {
                        &&& take_envelopes(flat_hashes(bs), cache0) is None
                        &&& exists|i: int, j: int|
                            #![trigger hashes_before(bs, i, j)]
                            0 <= i < bs.len() && 0 <= j < bs[i].len() && (take_envelopes(
                                hashes_before(bs, i, j),
                                cache0,
                            ) matches Some((es, c)) && c == final(self).msg_cache@ && find_entry(
                                c,
                                bs[i][j]@,
                            ) is None)
                    },
                    Err(SequenceingError::MappingError(x)) => exists|i: int, j: int|
                        #![trigger hashes_before(bs, i, j)]
                        0 <= i < bs.len() && 0 <= j < bs[i].len() && (take_envelopes(
                            hashes_before(bs, i, j).push(bs[i][j]),
                            cache0,
                        ) matches Some((es, c)) && c == final(self).msg_cache@ && f.ensures(
                            (es.last(),),
                            Err::<R, X>(x),
                        )),
                }
            }),
    {
        let ghost bs = batch_views(self.batches_to_sequence@);
        let ghost cache0 = self.msg_cache@;
        let mut v: Vec<R> = Vec::new();
        let ghost mut es: Seq<E> = seq![];
        let nb = self.batches_to_sequence.len();
        assert(bs.take(0) =~= Seq::<Seq<EnvelopeHash>>::empty());
        let mut i: usize = 0;
        while i < nb
            invariant
                i <= nb,
                nb == bs.len(),
                bs == batch_views(self.batches_to_sequence@),
                self.batches_to_sequence@ == old(self).batches_to_sequence@,
                cache0 == old(self).msg_cache@,
                forall|e: E| f.requires((e,)),
                take_envelopes(flat_hashes(bs.take(i as int)), cache0) == Some((es, self.msg_cache@)),
                v@.len() == es.len(),
                forall|k: int| 0 <= k < es.len() ==> f.ensures((es[k],), Ok::<R, X>(#[trigger] v@[k])),
            decreases nb - i,
        {
            let nh = self.batches_to_sequence[i].len();
            assert(bs[i as int] == self.batches_to_sequence@[i as int]@);
            assert(hashes_before(bs, i as int, 0) =~= flat_hashes(bs.take(i as int)));
            let mut j: usize = 0;
            while j < nh
                invariant
                    i < nb,
                    j <= nh,
                    nb == bs.len(),
                    nh == bs[i as int].len(),
                    bs == batch_views(self.batches_to_sequence@),
                    self.batches_to_sequence@ == old(self).batches_to_sequence@,
                    cache0 == old(self).msg_cache@,
                    forall|e: E| f.requires((e,)),
                    take_envelopes(hashes_before(bs, i as int, j as int), cache0) == Some(
                        (es, self.msg_cache@),
                    ),
                    v@.len() == es.len(),
                    forall|k: int|
                        0 <= k < es.len() ==> f.ensures((es[k],), Ok::<R, X>(#[trigger] v@[k])),
                decreases nh - j,
            {
                let h: EnvelopeHash = self.batches_to_sequence[i][j];
                assert(h == bs[i as int][j as int]);
                let ghost before = hashes_before(bs, i as int, j as int);
                let ghost upto = before.push(h);
                assert(upto.drop_last() =~= before);
                assert(hashes_before(bs, i as int, j + 1) =~= upto);
                match find_hash(&self.msg_cache, &h) {
                    Some(k) => {
                        let ghost c = self.msg_cache@;
                        proof {
                            lemma_find_entry(c, h@);
                        }
                        let (_hk, e) = self.msg_cache.remove(k);
                        let ghost eg = e;
                        assert(eg == c[k as int].1);
                        assert(take_envelopes(upto, cache0) == Some((es.push(eg), self.msg_cache@)));
                        let res = f(e);
                        match res {
                            Ok(x) => {
                                v.push(x);
                                proof {
                                    es = es.push(eg);
                                }
                            },
                            Err(x) => {
                                proof {
                                    assert(f.ensures((eg,), Err::<R, X>(x)));
                                    assert(upto == hashes_before(bs, i as int, j as int).push(
                                        bs[i as int][j as int]));
                                    assert(es.push(eg).drop_last() =~= es);
                                    assert(es.push(eg).last() == eg);
                                    assert(take_envelopes(hashes_before(bs, i as int, j as int).push(
                                        bs[i as int][j as int]), cache0) matches Some((es2, c2))
                                        && c2 == self.msg_cache@ && f.ensures((es2.last(),), Err::<R, X>(x)));
                                }
                                return Err(SequenceingError::MappingError(x));
                            },
                        }
                    },
                    None => {
                        proof {
                            assert(take_envelopes(upto, cache0) is None);
                            lemma_prefix_of_flat(bs, i as int, j as int);
                            let rest = choose|rest: Seq<EnvelopeHash>|
                                flat_hashes(bs) == #[trigger] hashes_before(bs, i as int, j as int).push(
                                    bs[i as int][j as int]) + rest;
                            lemma_take_missing_persists(upto, rest, cache0);
                        }
                        return Err(SequenceingError::MissingEnvelope);
                    },
                }
                j += 1;
            }
            assert(bs.take(i + 1).drop_last() =~= bs.take(i as int));
            assert(bs[i as int].take(nh as int) =~= bs[i as int]);
            assert(flat_hashes(bs.take(i + 1)) =~= hashes_before(bs, i as int, nh as int));
            i += 1;
        }
        assert(bs.take(nb as int) =~= bs);
        Ok(v)
    }

    /// Takes the envelopes out of the cache in the order the batches give,
    /// stopping at the first one that is missing.
    pub fn directly_sequence(&mut self) -> (r: Result<Vec<E>, SequenceingError<Void>>)
        ensures
            final(self).batches_to_sequence@ == old(self).batches_to_sequence@,
            ({
                let all = flat_hashes(batch_views(old(self).batches_to_sequence@));
                match r {
                    Ok(v) => take_envelopes(all, old(self).msg_cache@) == Some(
                        (v@, final(self).msg_cache@),
                    ),
                    Err(e) => e is MissingEnvelope && take_envelopes(all, old(self).msg_cache@) is None,
                }
            }),
    {
        let r = self.directly_sequence_map(keep_envelope);
        match r {
            Ok(v) => {
                let ghost all = flat_hashes(batch_views(old(self).batches_to_sequence@));
                proof {
                    let (es, c) = take_envelopes(all, old(self).msg_cache@).unwrap();
                    assert(v@ =~= es);
                }
                Ok(v)
            },
            Err(SequenceingError::MissingEnvelope) => Err(SequenceingError::MissingEnvelope),
            Err(SequenceingError::MappingError(x)) => Err(SequenceingError::MappingError(x)),
        }
    }
}

} // verus!
