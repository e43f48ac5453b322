//! Non-fungible tokens: ownership records, power plants and their output.
use vstd::prelude::*;
use std::collections::BTreeMap;
use crate::entity::EntityID;
use crate::tokens::{TokenPointer, TokenRegistry};

verus! {

broadcast use vstd::std_specs::btree::group_btree_axioms;

/// Points to an NFT by the identifier of the entity it is.
#[derive(Clone, Copy, Debug, PartialEq, Eq, Structural, Hash)]
pub struct NftPtr(pub EntityID);

impl NftPtr {
    /// The identifier of the NFT.
    pub fn inner(&self) -> (r: EntityID)
        ensures
            r == self.0,
    {
        self.0
    }
}

/// The basic NFT: who owns it and how often it changed hands.
#[derive(Clone, Copy, Debug, PartialEq, Eq, Structural)]
pub struct BaseNFT {
    pub owner: EntityID,
    pub nft_id: EntityID,
    pub transfer_count: u128,
}

impl BaseNFT {
    /// The current owner.
    pub fn owner(&self) -> (r: EntityID)
        ensures
            r == self.owner,
    {
        self.owner
    }

    /// The NFT's own identifier.
    pub fn id(&self) -> (r: EntityID)
        ensures
            r == self.nft_id,
    {
        self.nft_id
    }

    /// How many times the NFT was transferred.
    pub fn transfer_count(&self) -> (r: u128)
        ensures
            r == self.transfer_count,
    {
        self.transfer_count
    }

    /// Hands the NFT to `to`. An NFT whose transfer count reached
    /// `u128::MAX` can no longer change hands (that is how non-transferable
    /// NFTs are made).
    pub fn transfer(&mut self, to: EntityID)
        ensures
            old(self).transfer_count == u128::MAX ==> *final(self) == *old(self),
            old(self).transfer_count < u128::MAX ==> *final(self) == (BaseNFT {
                owner: to,
                nft_id: old(self).nft_id,
                transfer_count: (old(self).transfer_count + 1) as u128,
            }),
    {
        if self.transfer_count == u128::MAX {
            return;
        }
        self.owner = to;
        self.transfer_count = self.transfer_count + 1;
    }
}

/// The three kinds of power plant.
#[derive(Clone, Copy, Debug, PartialEq, Eq, Structural, Hash)]
pub enum PlantType {
    Solar,
    Hydro,
    Flare,
}

/// Raw materials needed per unit of scale for each kind of plant.
pub struct PowerPlantPrices {
    pub solar: Vec<(TokenPointer, u128)>,
    pub hydro: Vec<(TokenPointer, u128)>,
    pub flare: Vec<(TokenPointer, u128)>,
}

/// A bill of materials small enough that scaling it and adding it up stays
/// in range.
pub open spec fn bill_ok(b: Seq<(TokenPointer, u128)>) -> bool {
    &&& b.len() <= 16
    &&& forall|i: int| 0 <= i < b.len() ==> #[trigger] b[i].1 <= u32::MAX
}

/// The bill `b` with every quantity multiplied by `scale`.
pub open spec fn scaled_bill(b: Seq<(TokenPointer, u128)>, scale: u64) -> Seq<(TokenPointer, u128)> {
    b.map_values(|e: (TokenPointer, u128)| (e.0, (e.1 * scale) as u128))
}

/// The power of a plant built from the bill `b`: half of every quantity,
/// rounded down, summed.
pub open spec fn bill_watts(b: Seq<(TokenPointer, u128)>) -> int
    decreases b.len(),
{
    if b.len() == 0 {
        0
    } else {
        bill_watts(b.drop_last()) + b.last().1 / 2
    }
}

impl PowerPlantPrices {
    /// The bill of every plant kind is small (see `bill_ok`).
    pub open spec fn wf(&self) -> bool {
        &&& bill_ok(self.solar@)
        &&& bill_ok(self.hydro@)
        &&& bill_ok(self.flare@)
    }

    /// The base bill of plant kind `t`.
    pub open spec fn bill(&self, t: PlantType) -> Seq<(TokenPointer, u128)> {
        match t {
            PlantType::Solar => self.solar@,
            PlantType::Hydro => self.hydro@,
            PlantType::Flare => self.flare@,
        }
    }

    /// The base bill of plant kind `t`.
    pub fn base_bill(&self, t: PlantType) -> (r: &Vec<(TokenPointer, u128)>)
        ensures
            r@ == self.bill(t),
    {
        match t {
            PlantType::Solar => &self.solar,
            PlantType::Hydro => &self.hydro,
            PlantType::Flare => &self.flare,
        }
    }
}

/// Scaling a small bill keeps every quantity below 2^96 and the watts in
/// range.
proof fn lemma_scaled_bill_small(b: Seq<(TokenPointer, u128)>, scale: u64)
    requires
        bill_ok(b),
    ensures
        forall|i: int| 0 <= i < b.len() ==> #[trigger] (b[i].1 * scale) <= 0x1_0000_0000_0000_0000_0000_0000,
        bill_watts(scaled_bill(b, scale)) <= b.len() * 0x1_0000_0000_0000_0000_0000_0000,
    decreases b.len(),
{
    assert forall|i: int| 0 <= i < b.len() implies #[trigger] (b[i].1 * scale) <= 0x1_0000_0000_0000_0000_0000_0000 by {
        let q = b[i].1;
        assert(q <= u32::MAX);
        assert(q * scale <= 0xffff_ffff * 0xffff_ffff_ffff_ffff) by (nonlinear_arith)
            requires
                q <= 0xffff_ffff,
                scale <= 0xffff_ffff_ffff_ffff,
        ;
    }
    if b.len() > 0 {
        let c = b.drop_last();
        assert(bill_ok(c));
        lemma_scaled_bill_small(c, scale);
        assert(scaled_bill(b, scale).drop_last() =~= scaled_bill(c, scale));
        assert(b[b.len() - 1].1 * scale <= 0x1_0000_0000_0000_0000_0000_0000);
    }
}

impl PlantType {
    /// The materials a plant of this kind and `scale` takes.
    pub fn raw_materials_bill(&self, prices: &PowerPlantPrices, scale: u64) -> (r: Vec<(TokenPointer, u128)>)
        requires
            prices.wf(),
        ensures
            r@ == scaled_bill(prices.bill(*self), scale),
    {
        let base = prices.base_bill(*self);
        proof {
            lemma_scaled_bill_small(base@, scale);
        }
        let mut out: Vec<(TokenPointer, u128)> = Vec::new();
        let mut i: usize = 0;
        while i < base.len()
            invariant
                i <= base.len(),
                base@ == prices.bill(*self),
                forall|j: int| 0 <= j < base@.len() ==> #[trigger] (base@[j].1 * scale) <= 0x1_0000_0000_0000_0000_0000_0000,
                out@ =~= scaled_bill(base@.take(i as int), scale),
            decreases base.len() - i,
        {
            let (cur, qty) = base[i];
            assert((base@[i as int].1 * scale) <= 0x1_0000_0000_0000_0000_0000_0000);
            out.push((cur, qty * (scale as u128)));
            i = i + 1;
            assert(base@.take(i as int).drop_last() =~= base@.take(i - 1));
        }
        assert(base@.take(i as int) =~= base@);
        out
    }
}

/// A power plant: an NFT with a kind, a power and a place on the map.
#[derive(Clone, Copy, Debug)]
pub struct PowerPlant {
    pub id: NftPtr,
    pub plant_type: PlantType,
    pub watts: u128,
    pub coordinates: (i64, i64),
}

/// The hash rate a plant of `watts` gets from boards listed as
/// `(hashes per watt, boards held)` in `s`, taken from the back: each kind
/// runs as many boards as there are watts left, one watt per board.
pub open spec fn greedy_rate(s: Seq<(u128, u128)>, watts: int) -> int
    decreases s.len(),
{
    if s.len() == 0 {
        0
    } else {
        let hpw = s.last().0 as int;
        let units = s.last().1 as int;
        let available = if units < watts { units } else { watts };
        available * hpw + if watts - available == 0 { 0 } else { greedy_rate(s.drop_last(), watts - available) }
    }
}

/// `a` comes before `b` in the order of pairs (first field, then second).
pub open spec fn pair_le(a: (u128, u128), b: (u128, u128)) -> bool {
    a.0 < b.0 || (a.0 == b.0 && a.1 <= b.1)
}

/// `x` put into `s` before the first element that does not come before it.
pub open spec fn insert_sorted(s: Seq<(u128, u128)>, x: (u128, u128)) -> Seq<(u128, u128)>
    decreases s.len(),
{
    if s.len() == 0 {
        seq![x]
    } else if pair_le(s[0], x) {
        seq![s[0]] + insert_sorted(s.drop_first(), x)
    } else {
        seq![x] + s
    }
}

/// `s` sorted by `pair_le` (insertion sort, in the order of `s`).
pub open spec fn sorted_pairs(s: Seq<(u128, u128)>) -> Seq<(u128, u128)>
    decreases s.len(),
{
    if s.len() == 0 {
        s
    } else {
        insert_sorted(sorted_pairs(s.drop_last()), s.last())
    }
}

/// Inserting before the first element that does not come before `x` is
/// `insert_sorted`.
proof fn lemma_insert_sorted_at(s: Seq<(u128, u128)>, x: (u128, u128), j: int)
    requires
        0 <= j <= s.len(),
        forall|k: int| 0 <= k < j ==> pair_le(#[trigger] s[k], x),
        j < s.len() ==> !pair_le(s[j], x),
    ensures
        insert_sorted(s, x) == s.insert(j, x),
    decreases s.len(),
{
    if s.len() == 0 {
        assert(s.insert(j, x) =~= seq![x]);
    } else if j == 0 {
        assert(s.insert(0, x) =~= seq![x] + s);
    } else {
        let t = s.drop_first();
        assert forall|k: int| 0 <= k < j - 1 implies pair_le(#[trigger] t[k], x) by {
            assert(t[k] == s[k + 1]);
        }
        lemma_insert_sorted_at(t, x, j - 1);
        assert(s.insert(j, x) =~= seq![s[0]] + t.insert(j - 1, x));
    }
}

/// Sorts pairs in increasing order (first field, then second).
pub fn sort_pairs(v: Vec<(u128, u128)>) -> (r: Vec<(u128, u128)>)
    ensures
        r@ == sorted_pairs(v@),
{
    let mut out: Vec<(u128, u128)> = Vec::new();
    let mut i: usize = 0;
    while i < v.len()
        invariant
            i <= v.len(),
            out@ == sorted_pairs(v@.take(i as int)),
        decreases v.len() - i,
    {
        let x = v[i];
        let mut j: usize = 0;
        while j < out.len() && (out[j].0 < x.0 || (out[j].0 == x.0 && out[j].1 <= x.1))
            invariant
                j <= out.len(),
                forall|k: int| 0 <= k < j ==> pair_le(#[trigger] out@[k], x),
            decreases out.len() - j,
        {
            j = j + 1;
        }
        let ghost before = out@;
        proof {
            lemma_insert_sorted_at(before, x, j as int);
            assert(v@.take(i + 1).drop_last() =~= v@.take(i as int));
            assert(v@.take(i + 1).last() == x);
        }
        out.insert(j, x);
        i = i + 1;
    }
    assert(v@.take(v.len() as int) =~= v@);
    out
}

/// `min(a + b, u128::MAX)`.
pub open spec fn sat(x: int) -> int {
    if x > u128::MAX { u128::MAX as int } else { x }
}

impl PowerPlant {
    /// A plant of kind `plant_type` built at `scale`: its power is half of
    /// each material quantity of the scaled bill, summed.
    pub fn new(prices: &PowerPlantPrices, id: NftPtr, plant_type: PlantType, coordinates: (i64, i64), scale: u64) -> (p: Self)
        requires
            prices.wf(),
        ensures
            p == (PowerPlant { id, plant_type, watts: bill_watts(scaled_bill(prices.bill(plant_type), scale)) as u128, coordinates }),
            bill_watts(scaled_bill(prices.bill(plant_type), scale)) <= u128::MAX,
    {
        let materials = plant_type.raw_materials_bill(prices, scale);
        proof {
            lemma_scaled_bill_small(prices.bill(plant_type), scale);
        }
        let mut total_watts: u128 = 0;
        let mut i: usize = 0;
        while i < materials.len()
            invariant
                i <= materials.len(),
                materials@ == scaled_bill(prices.bill(plant_type), scale),
                materials@.len() <= 16,
                forall|j: int| 0 <= j < materials@.len() ==> #[trigger] materials@[j].1 <= 0x1_0000_0000_0000_0000_0000_0000,
                total_watts == bill_watts(materials@.take(i as int)),
                total_watts <= i * 0x1_0000_0000_0000_0000_0000_0000,
            decreases materials.len() - i,
        {
            let (_, qty) = materials[i];
            assert(materials@.take(i + 1).drop_last() =~= materials@.take(i as int));
            total_watts = total_watts + qty / 2;
            i = i + 1;
        }
        assert(materials@.take(i as int) =~= materials@);
        PowerPlant { id, plant_type, watts: total_watts, coordinates }
    }

    /// The hashes per second this plant produces: the boards of each kind it
    /// holds, best kind first, each board taking one watt until the plant's
    /// power runs out. The result saturates at `u128::MAX`.
    pub fn compute_hashrate(&self, tokens: &TokenRegistry) -> (r: u128)
        requires
            tokens.wf(),
            tokens.boards_ok(),
        ensures
            r == plant_rate(tokens, *self),
    {
        let hash = self.board_list(tokens);
        let hash = sort_pairs(hash);
        let ghost s = hash@;
        let mut hash = hash;
        let mut watts = self.watts;
        let mut hashrate: u128 = 0;
        let ghost mut acc: int = 0;
        while hash.len() > 0
            invariant_except_break
                hash@ == s.take(hash@.len() as int),
                hash@.len() <= s.len(),
                watts <= self.watts,
                acc + greedy_rate(hash@, watts as int) == greedy_rate(s, self.watts as int),
                hashrate == sat(acc),
                acc >= 0,
            ensures
                hashrate == sat(greedy_rate(s, self.watts as int)),
            decreases hash.len(),
        {
            assert(greedy_rate(hash@, watts as int) >= 0) by {
                lemma_greedy_nonneg(hash@, watts as int);
            }
            let (hpw, units) = hash.pop().unwrap();
            let available = if units < watts { units } else { watts };
            let ghost step = available as int * hpw as int;
            let prod = available.checked_mul(hpw);
            hashrate = match prod {
                Some(p) => hashrate.saturating_add(p),
                None => u128::MAX,
            };
            proof {
                assert(step >= 0) by (nonlinear_arith)
                    requires step == available as int * hpw as int, available >= 0, hpw >= 0;
                acc = acc + step;
            }
            watts = watts - available;
            if watts == 0 {
                proof {
                    lemma_greedy_nonneg(hash@, watts as int);
                }
                break;
            }
            assert(hash@ == s.take(hash@.len() as int));
        }
        hashrate
    }

    /// The `(hashes per watt, boards held by the plant)` of every board kind.
    fn board_list(&self, tokens: &TokenRegistry) -> (r: Vec<(u128, u128)>)
        requires
            tokens.wf(),
            tokens.boards_ok(),
        ensures
            r@ == board_counts(tokens, self.id.0.0),
    {
        let mut out: Vec<(u128, u128)> = Vec::new();
        let mut i: usize = 0;
        while i < tokens.hashboards.len()
            invariant
                i <= tokens.hashboards@.len(),
                tokens.wf(),
                tokens.boards_ok(),
                out@ =~= board_counts(tokens, self.id.0.0).take(i as int),
            decreases tokens.hashboards.len() - i,
        {
            let (tok, hbd) = tokens.hashboards[i];
            assert(tokens.tokens@.contains_key(tokens.hashboards@[i as int].0.0.0));
            let count = tokens.balance_check(tok, &self.id.0);
            out.push((hbd.hash_per_watt, count));
            i = i + 1;
        }
        out
    }
}

/// What plant `who` holds of each hash-board kind: `(hashes per watt,
/// boards held)`, in the registry's order of kinds.
pub open spec fn board_counts(tokens: &TokenRegistry, who: u64) -> Seq<(u128, u128)> {
    tokens.hashboards@.map_values(|e: (TokenPointer, crate::tokens::HashBoardData)| (e.1.hash_per_watt, tokens.bal(e.0.0.0, who) as u128))
}

/// The hash rate of plant `p`: its boards sorted, best kind taken first
/// (see `greedy_rate`), saturating at `u128::MAX`.
pub open spec fn plant_rate(tokens: &TokenRegistry, p: PowerPlant) -> int {
    sat(greedy_rate(sorted_pairs(board_counts(tokens, p.id.0.0)), p.watts as int))
}

/// Every kind in `s` yields at most `best` hashes per watt.
pub open spec fn kinds_at_most(s: Seq<(u128, u128)>, best: int) -> bool {
    forall|i: int| 0 <= i < s.len() ==> #[trigger] s[i].0 <= best
}

proof fn lemma_insert_sorted_at_most(s: Seq<(u128, u128)>, x: (u128, u128), best: int)
    requires
        kinds_at_most(s, best),
        x.0 <= best,
    ensures
        kinds_at_most(insert_sorted(s, x), best),
    decreases s.len(),
{
    if s.len() > 0 && pair_le(s[0], x) {
        let t = s.drop_first();
        lemma_insert_sorted_at_most(t, x, best);
        let r = insert_sorted(t, x);
        assert forall|i: int| 0 <= i < insert_sorted(s, x).len() implies #[trigger] insert_sorted(s, x)[i].0 <= best by {
            if i > 0 {
                assert(insert_sorted(s, x)[i] == r[i - 1]);
            }
        }
    } else if s.len() > 0 {
        assert forall|i: int| 0 <= i < insert_sorted(s, x).len() implies #[trigger] insert_sorted(s, x)[i].0 <= best by {
            if i > 0 {
                assert(insert_sorted(s, x)[i] == s[i - 1]);
            }
        }
    }
}

proof fn lemma_sorted_pairs_at_most(s: Seq<(u128, u128)>, best: int)
    requires
        kinds_at_most(s, best),
    ensures
        kinds_at_most(sorted_pairs(s), best),
    decreases s.len(),
{
    if s.len() > 0 {
        assert(kinds_at_most(s.drop_last(), best)) by {
            assert forall|i: int| 0 <= i < s.drop_last().len() implies #[trigger] s.drop_last()[i].0 <= best by {
                assert(s.drop_last()[i] == s[i]);
            }
        }
        lemma_sorted_pairs_at_most(s.drop_last(), best);
        lemma_insert_sorted_at_most(sorted_pairs(s.drop_last()), s.last(), best);
    }
}

proof fn lemma_greedy_at_most(s: Seq<(u128, u128)>, watts: int, best: int)
    requires
        watts >= 0,
        best >= 0,
        kinds_at_most(s, best),
    ensures
        greedy_rate(s, watts) <= watts * best,
    decreases s.len(),
{
    if s.len() > 0 {
        let hpw = s.last().0 as int;
        let units = s.last().1 as int;
        let available = if units < watts { units } else { watts };
        assert(kinds_at_most(s.drop_last(), best)) by {
            assert forall|i: int| 0 <= i < s.drop_last().len() implies #[trigger] s.drop_last()[i].0 <= best by {
                assert(s.drop_last()[i] == s[i]);
            }
        }
        lemma_greedy_at_most(s.drop_last(), watts - available, best);
        assert(s.last().0 <= best);
        assert(available * hpw <= available * best) by (nonlinear_arith)
            requires 0 <= available, hpw <= best;
        assert(available * best + (watts - available) * best == watts * best) by (nonlinear_arith);
        assert((watts - available) * best >= 0) by (nonlinear_arith)
            requires watts - available >= 0, best >= 0;
    }
}

/// A plant runs at most one board per watt: its hash rate is at most its
/// watts times the best hashes per watt of any kind of board; and where
/// there is one kind of board, the boards it holds beyond its watts add
/// nothing (the rate is `min(boards, watts)` times that kind's hashes per
/// watt, saturating at `u128::MAX`).
pub proof fn law_plant_rate_limited_by_watts(tokens: &TokenRegistry, p: PowerPlant, best: u128)
    requires
        forall|i: int| 0 <= i < tokens.hashboards@.len() ==> #[trigger] tokens.hashboards@[i].1.hash_per_watt <= best,
    ensures
        0 <= plant_rate(tokens, p) <= p.watts * best,
        tokens.hashboards@.len() == 1 ==> {
            let kind = tokens.hashboards@[0];
            let boards = tokens.bal(kind.0.0.0, p.id.0.0) as u128 as int;
            plant_rate(tokens, p) == sat(
                (if boards < p.watts { boards } else { p.watts as int }) * kind.1.hash_per_watt,
            )
        },
{
    let c = board_counts(tokens, p.id.0.0);
    assert(kinds_at_most(c, best as int)) by {
        assert forall|i: int| 0 <= i < c.len() implies #[trigger] c[i].0 <= best by {
            assert(c[i].0 == tokens.hashboards@[i].1.hash_per_watt);
        }
    }
    lemma_sorted_pairs_at_most(c, best as int);
    lemma_greedy_at_most(sorted_pairs(c), p.watts as int, best as int);
    lemma_greedy_nonneg(sorted_pairs(c), p.watts as int);
    if tokens.hashboards@.len() == 1 {
        assert(c.drop_last().len() == 0);
        assert(sorted_pairs(c.drop_last()).len() == 0);
        assert(c.last() == c[0]);
        let e = Seq::<(u128, u128)>::empty();
        assert(sorted_pairs(c.drop_last()) =~= e);
        assert(insert_sorted(e, c[0]) == seq![c[0]]);
        assert(sorted_pairs(c) =~= seq![c[0]]);
        let s1 = sorted_pairs(c);
        assert(s1.drop_last() =~= e);
        assert(s1.last() == c[0]);
        let w = p.watts as int;
        let units = c[0].1 as int;
        let av = if units < w { units } else { w };
        assert(greedy_rate(e, w - av) == 0);
        assert(greedy_rate(s1, w) == av * c[0].0);
        assert(c[0] == (tokens.hashboards@[0].1.hash_per_watt, tokens.bal(tokens.hashboards@[0].0.0.0, p.id.0.0) as u128));
    }
}

/// The greedy rate is never negative.
proof fn lemma_greedy_nonneg(s: Seq<(u128, u128)>, watts: int)
    requires
        watts >= 0,
    ensures
        greedy_rate(s, watts) >= 0,
    decreases s.len(),
{
    if s.len() > 0 {
        let hpw = s.last().0 as int;
        let units = s.last().1 as int;
        let available = if units < watts { units } else { watts };
        assert(available * hpw >= 0) by (nonlinear_arith)
            requires available >= 0, hpw >= 0;
        lemma_greedy_nonneg(s.drop_last(), watts - available);
    }
}

/// All NFTs of the game, keyed by the NFT's identifier, and the power
/// plants among them in increasing order of identifier.
pub struct NFTRegistry {
    pub nfts: BTreeMap<u64, BaseNFT>,
    pub power_plants: Vec<PowerPlant>,
}

/// The plants are listed in increasing order of identifier.
pub open spec fn plants_ordered(p: Seq<PowerPlant>) -> bool {
    forall|i: int, j: int| 0 <= i < j < p.len() ==> (#[trigger] p[i]).id.0.0 < (#[trigger] p[j]).id.0.0
}

impl NFTRegistry {
    /// An empty registry.
    pub fn new() -> (r: Self)
        ensures
            r.nfts@ == Map::<u64, BaseNFT>::empty(),
            r.power_plants@ == Seq::<PowerPlant>::empty(),
    {
        NFTRegistry { nfts: BTreeMap::new(), power_plants: Vec::new() }
    }

    /// Adds a plant whose identifier is above those of all listed plants.
    pub fn add_plant(&mut self, p: PowerPlant)
        requires
            plants_ordered(old(self).power_plants@),
            forall|i: int| 0 <= i < old(self).power_plants@.len() ==> (#[trigger] old(self).power_plants@[i]).id.0.0 < p.id.0.0,
        ensures
            plants_ordered(final(self).power_plants@),
            final(self).power_plants@ == old(self).power_plants@.push(p),
            final(self).nfts@ == old(self).nfts@,
    {
        self.power_plants.push(p);
    }

    /// Registers `nft` under its own identifier and returns a pointer to it.
    /// An NFT already registered under that identifier is kept.
    pub fn add(&mut self, nft: BaseNFT) -> (p: NftPtr)
        ensures
            p == NftPtr(nft.nft_id),
            old(self).nfts@.contains_key(nft.nft_id.0) ==> final(self).nfts@ == old(self).nfts@,
            !old(self).nfts@.contains_key(nft.nft_id.0) ==> final(self).nfts@ == old(self).nfts@.insert(nft.nft_id.0, nft),
            final(self).power_plants@ == old(self).power_plants@,
    {
        let id = nft.nft_id;
        if !self.nfts.contains_key(&id.0) {
            self.nfts.insert(id.0, nft);
        }
        NftPtr(id)
    }

    /// Hands the NFT `p` points to to `to` (see `BaseNFT::transfer`).
    pub fn transfer_nft(&mut self, p: NftPtr, to: EntityID)
        requires
            old(self).nfts@.contains_key(p.0.0),
            old(self).nfts@[p.0.0].transfer_count < u128::MAX,
        ensures
            final(self).nfts@ == old(self).nfts@.insert(p.0.0, BaseNFT {
                owner: to,
                nft_id: old(self).nfts@[p.0.0].nft_id,
                transfer_count: (old(self).nfts@[p.0.0].transfer_count + 1) as u128,
            }),
            final(self).power_plants@ == old(self).power_plants@,
    {
        let mut nft = *self.nfts.get(&p.0.0).unwrap();
        nft.transfer(to);
        self.nfts.insert(p.0.0, nft);
    }

    /// The owner of the NFT `p` points to.
    pub fn owner_of(&self, p: NftPtr) -> (r: EntityID)
        requires
            self.nfts@.contains_key(p.0.0),
        ensures
            r == self.nfts@[p.0.0].owner,
    {
        self.nfts.get(&p.0.0).unwrap().owner()
    }
}

/// What the interface shows of a power plant.
#[derive(Clone, Copy, Debug)]
pub struct UXPlantData {
    pub id: NftPtr,
    pub coordinates: (i64, i64),
    pub for_sale: bool,
    pub miners: u128,
    pub owner: EntityID,
    pub plant_type: PlantType,
    pub watts: u128,
    pub hashrate: u128,
}

/// The power plants shown to one user, keyed by the plant's identifier.
pub struct UXNFTRegistry {
    pub power_plant_data: BTreeMap<u64, UXPlantData>,
}

} // verus!
