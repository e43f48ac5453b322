//! The game board: players, tokens, markets, power plants, the clock and the
//! moves that change them.
use vstd::prelude::*;
use std::collections::BTreeMap;
use std::collections::VecDeque;
use crate::callbacks::{ASICProducer, Callback, CallbackRegistry, CoinLockup, ConcreteMiller, PowerPlantEvent, SiliconRefinery, SteelSmelter};
use crate::entity::{EntityID, EntityIDAllocator, ALLOCATOR_START};
use crate::game_move::{GameMove, MoveEnvelope, Sanitizable};
use crate::nfts::{BaseNFT, NFTRegistry, NftPtr, PlantType, PowerPlant, PowerPlantPrices, bill_ok, plants_ordered};
use crate::sale::{NFTSale, NFTSaleRegistry, UXForSaleList, UXNFTSale};
use crate::strings::{sorted_distinct, sorted_distinct_strings, texts};
use crate::token_swap::{ConstantFunctionMarketMaker, ConstantFunctionMarketMakerPair, TradeError, TradeOutcome, TradingPairID, UXMaterialsPriceData, exchange_wf, ledgers};
use crate::tokens::{HashBoardData, Silicon, Steel, SteelVariety, TokenBase, TokenPointer, TokenRegistry, balance_of, transferred};

verus! {

broadcast use vstd::std_specs::btree::group_btree_axioms;

/// Something that goes into the event log.
#[derive(Debug)]
pub enum LogEvent {
    GameMove(GameMove),
    MoveRejectReason(MoveRejectReason),
    /// Any other event, as JSON text.
    Other(String),
}

/// What a user sees of their possessions: their plants and, for every
/// token, its nickname and their balance.
pub struct UXUserInventory {
    pub user_power_plants: BTreeMap<u64, crate::nfts::UXPlantData>,
    pub user_token_balances: Vec<(String, u128)>,
}

/// A player's data.
#[derive(Clone, Debug)]
pub struct UserData {
    pub key: String,
}

/// A player's clock: the time of their first move and the time elapsed since.
#[derive(Clone, Copy, Debug, PartialEq, Eq, Structural)]
pub struct Tick {
    pub first_time: u64,
    pub elapsed: u64,
}

/// Who makes a call.
#[derive(Clone, Copy, Debug, PartialEq, Eq, Structural)]
pub struct CallContext {
    pub sender: EntityID,
}

/// How a game starts: its players (by key), what each gets, and when it
/// ends.
#[derive(Clone, Debug)]
pub struct GameSetup {
    pub players: Vec<String>,
    pub start_amount: u64,
    pub finish_time: u64,
}

/// The finish time of a setup that names none (the largest integer a JSON
/// number holds exactly).
pub fn no_finish_time() -> (r: u64)
    ensures
        r == 9_007_199_254_740_991u64,
{
    9_007_199_254_740_991u64
}

/// Why a game is over.
#[derive(Clone, Copy, Debug, PartialEq, Eq, Structural)]
pub enum FinishReason {
    TimeExpired,
    DominatingPlayer(EntityID),
}

/// Why a move was refused.
#[derive(Debug)]
pub enum MoveRejectReason {
    NoSuchUser,
    GameIsFinished(FinishReason),
    MoveSanitizationError(()),
    TradeRejected(TradeError),
}

impl LogEvent {
    /// A copy of the event.
    pub fn duplicate(&self) -> (r: Self)
        ensures
            r == *self,
    {
        match self {
            LogEvent::GameMove(m) => LogEvent::GameMove(m.duplicate()),
            LogEvent::MoveRejectReason(e) => LogEvent::MoveRejectReason(e.duplicate()),
            LogEvent::Other(s) => LogEvent::Other(s.clone()),
        }
    }
}

impl MoveRejectReason {
    /// A copy of the reason.
    pub fn duplicate(&self) -> (r: Self)
        ensures
            r == *self,
    {
        match self {
            MoveRejectReason::NoSuchUser => MoveRejectReason::NoSuchUser,
            MoveRejectReason::GameIsFinished(f) => MoveRejectReason::GameIsFinished(*f),
            MoveRejectReason::MoveSanitizationError(u) => MoveRejectReason::MoveSanitizationError(*u),
            MoveRejectReason::TradeRejected(e) => MoveRejectReason::TradeRejected(e.duplicate()),
        }
    }
}

/// Why a game could not be closed.
#[derive(Clone, Copy, Debug, PartialEq, Eq, Structural)]
pub enum CloseError {
    GameNotFinished,
}

/// The entire state of a game.
pub struct GameBoard {
    pub tokens: TokenRegistry,
    pub swap: ConstantFunctionMarketMaker,
    pub turn_count: u64,
    pub alloc: EntityIDAllocator,
    /// Players by identifier.
    pub users: BTreeMap<u64, UserData>,
    /// Players' identifiers by key, in increasing order of key.
    pub users_by_key: Vec<(String, EntityID)>,
    pub nfts: NFTRegistry,
    /// The standing offers to sell NFTs.
    pub nft_sales: NFTSaleRegistry,
    /// The sequence number of each player's last move.
    pub player_move_sequence: BTreeMap<u64, u64>,
    pub bitcoin_token_id: TokenPointer,
    pub real_sats_token_id: TokenPointer,
    pub steel_token_id: TokenPointer,
    pub silicon_token_id: TokenPointer,
    pub concrete_token_id: TokenPointer,
    pub asic_token_id: TokenPointer,
    pub root_user: EntityID,
    pub callbacks: CallbackRegistry,
    pub elapsed_time: u64,
    pub finish_time: u64,
    pub mining_subsidy: u128,
    /// Each player's clock, one entry per player that moved.
    pub ticks: Vec<(EntityID, Tick)>,
    /// The last chat messages (at most 1000).
    pub chat: VecDeque<(u64, EntityID, String)>,
    /// Nicknames chosen through chat.
    pub nicks: BTreeMap<u64, String>,
    pub chat_counter: u64,
    /// The last logged events (at most 1000).
    pub event_log: VecDeque<(u64, EntityID, LogEvent)>,
    pub event_log_counter: u64,
    pub plant_prices: PowerPlantPrices,
}

/// The keys of the players, in the board's order.
pub open spec fn user_keys(u: Seq<(String, EntityID)>) -> Seq<Seq<char>> {
    u.map_values(|e: (String, EntityID)| e.0@)
}

/// No key and no identifier occurs twice.
pub open spec fn users_distinct(u: Seq<(String, EntityID)>) -> bool {
    forall|i: int, j: int| 0 <= i < j < u.len() ==> (#[trigger] u[i]).0@ != (#[trigger] u[j]).0@ && u[i].1 != u[j].1
}

/// No player has two clocks.
pub open spec fn ticks_distinct(t: Seq<(EntityID, Tick)>) -> bool {
    forall|i: int, j: int| 0 <= i < j < t.len() ==> (#[trigger] t[i]).0 != (#[trigger] t[j]).0
}

/// Every token of a bill exists.
pub open spec fn bill_tokens_ok(tokens: &TokenRegistry, b: Seq<(TokenPointer, u128)>) -> bool {
    forall|i: int| 0 <= i < b.len() ==> tokens.tokens@.contains_key(#[trigger] b[i].0.0.0)
}

/// A listed plant has a fresh-looking identifier, an NFT, and an owner who
/// plays.
pub open spec fn plant_ok(g: &GameBoard, p: PowerPlant) -> bool {
    &&& p.id.0.0 <= g.alloc.0
    &&& g.nfts.nfts@.contains_key(p.id.0.0)
    &&& g.users@.contains_key(g.nfts.nfts@[p.id.0.0].owner.0)
}

/// The tokens an event refers to exist.
pub open spec fn callback_ok(tokens: &TokenRegistry, c: Callback) -> bool {
    match c {
        Callback::PowerPlantEvent(_) => true,
        Callback::ASICProducer(p) => tokens.has(p.price_asset) && tokens.has(p.hash_asset),
        Callback::SteelSmelter(p) => tokens.has(p.price_asset) && tokens.has(p.hash_asset),
        Callback::SiliconRefinery(p) => tokens.has(p.price_asset) && tokens.has(p.hash_asset),
        Callback::ConcreteMiller(p) => tokens.has(p.price_asset) && tokens.has(p.hash_asset),
        Callback::CoinLockup(l) => tokens.has(l.asset),
    }
}

impl GameBoard {
    /// The board's parts fit together: markets and ledgers (see
    /// `exchange_wf`), the listed hash boards, the price table, the special
    /// tokens, the event queue, players and clocks.
    pub open spec fn wf(&self) -> bool {
        &&& exchange_wf(&self.tokens, &self.swap, self.alloc.0)
        &&& self.tokens.boards_ok()
        &&& self.plant_prices.wf()
        &&& bill_tokens_ok(&self.tokens, self.plant_prices.solar@)
        &&& bill_tokens_ok(&self.tokens, self.plant_prices.hydro@)
        &&& bill_tokens_ok(&self.tokens, self.plant_prices.flare@)
        &&& self.tokens.has(self.bitcoin_token_id)
        &&& self.tokens.has(self.real_sats_token_id)
        &&& self.tokens.has(self.steel_token_id)
        &&& self.tokens.has(self.silicon_token_id)
        &&& self.tokens.has(self.concrete_token_id)
        &&& self.tokens.has(self.asic_token_id)
        &&& self.callbacks.wf()
        &&& forall|i: int| 0 <= i < self.callbacks.callbacks@.len() ==> callback_ok(&self.tokens, #[trigger] self.callbacks.callbacks@[i])
        &&& users_distinct(self.users_by_key@)
        &&& forall|i: int| 0 <= i < self.users_by_key@.len() ==> self.users@.contains_key((#[trigger] self.users_by_key@[i]).1.0)
        &&& ticks_distinct(self.ticks@)
        &&& self.chat@.len() <= 1000
        &&& self.event_log@.len() <= 1000
        &&& plants_ordered(self.nfts.power_plants@)
        &&& forall|k: u64| #[trigger] self.nfts.nfts@.contains_key(k) ==> k <= self.alloc.0
        &&& forall|i: int| 0 <= i < self.nfts.power_plants@.len() ==> plant_ok(self, #[trigger] self.nfts.power_plants@[i])
    }

    /// Hands out a fresh identifier.
    pub fn allocate(&mut self) -> (id: EntityID)
        requires
            old(self).alloc.0 < u64::MAX,
        ensures
            id.0 == old(self).alloc.0 + 1,
            *final(self) == (GameBoard { alloc: EntityIDAllocator(id.0), ..*old(self) }),
    {
        self.alloc.make()
    }

    /// The administrator.
    pub fn root_user(&self) -> (r: EntityID)
        ensures
            r == self.root_user,
    {
        self.root_user
    }

    /// The game's clock.
    pub fn current_time(&self) -> (r: u64)
        ensures
            r == self.elapsed_time,
    {
        self.elapsed_time
    }

    /// Whether `user` is the administrator.
    pub fn user_is_admin(&self, user: EntityID) -> (r: bool)
        ensures
            r == (user == self.root_user),
    {
        user.0 == self.root_user.0
    }

    /// The identifier of the player with key `signing_key`.
    pub fn get_user_id(&self, signing_key: &str) -> (r: Option<EntityID>)
        ensures
            r == user_id_of(self.users_by_key@, signing_key@),
    {
        let mut i: usize = 0;
        while i < self.users_by_key.len()
            invariant
                i <= self.users_by_key@.len(),
                forall|k: int| 0 <= k < i ==> (#[trigger] self.users_by_key@[k]).0@ != signing_key@,
            decreases self.users_by_key.len() - i,
        {
            if crate::strings::text_eq(self.users_by_key[i].0.as_str(), signing_key) {
                proof {
                    lemma_user_id_of(self.users_by_key@, signing_key@, i as int);
                }
                return Some(self.users_by_key[i].1);
            }
            i = i + 1;
        }
        proof {
            lemma_user_id_of_none(self.users_by_key@, signing_key@);
        }
        None
    }
}

/// The identifier listed first for `key`.
pub open spec fn user_id_of(u: Seq<(String, EntityID)>, key: Seq<char>) -> Option<EntityID>
    decreases u.len(),
{
    if u.len() == 0 {
        None
    } else if u[0].0@ == key {
        Some(u[0].1)
    } else {
        user_id_of(u.drop_first(), key)
    }
}

/// The first entry with `key` decides `user_id_of`.
proof fn lemma_user_id_of(u: Seq<(String, EntityID)>, key: Seq<char>, i: int)
    requires
        0 <= i < u.len(),
        u[i].0@ == key,
        forall|k: int| 0 <= k < i ==> (#[trigger] u[k]).0@ != key,
    ensures
        user_id_of(u, key) == Some(u[i].1),
    decreases i,
{
    if i > 0 {
        let t = u.drop_first();
        assert forall|k: int| 0 <= k < i - 1 implies (#[trigger] t[k]).0@ != key by {
            assert(t[k] == u[k + 1]);
        }
        lemma_user_id_of(t, key, i - 1);
    }
}

/// Without an entry for `key` there is no identifier.
proof fn lemma_user_id_of_none(u: Seq<(String, EntityID)>, key: Seq<char>)
    requires
        forall|k: int| 0 <= k < u.len() ==> (#[trigger] u[k]).0@ != key,
    ensures
        user_id_of(u, key) is None,
    decreases u.len(),
{
    if u.len() > 0 {
        let t = u.drop_first();
        assert forall|k: int| 0 <= k < t.len() implies (#[trigger] t[k]).0@ != key by {
            assert(t[k] == u[k + 1]);
        }
        lemma_user_id_of_none(t, key);
    }
}


/// The identifiers a new game gives its six tokens and its administrator.
pub open spec fn fresh_ids(g: &GameBoard) -> bool {
    &&& g.bitcoin_token_id.0.0 == ALLOCATOR_START + 1
    &&& g.real_sats_token_id.0.0 == ALLOCATOR_START + 2
    &&& g.concrete_token_id.0.0 == ALLOCATOR_START + 3
    &&& g.asic_token_id.0.0 == ALLOCATOR_START + 4
    &&& g.steel_token_id.0.0 == ALLOCATOR_START + 5
    &&& g.silicon_token_id.0.0 == ALLOCATOR_START + 6
    &&& g.root_user.0 == ALLOCATOR_START + 7
}

/// The players of a setup get consecutive identifiers from `first`, in
/// increasing order of key, and each holds `amount` of both sats tokens.
pub open spec fn players_seated(g: &GameBoard, keys: Seq<Seq<char>>, first: int, amount: int) -> bool {
    &&& user_keys(g.users_by_key@) == keys
    &&& forall|i: int| 0 <= i < keys.len() ==> (#[trigger] g.users_by_key@[i]).1.0 == first + i
    &&& forall|i: int| 0 <= i < keys.len() ==> g.tokens.bal(g.bitcoin_token_id.0.0, (#[trigger] g.users_by_key@[i]).1.0) == amount
    &&& forall|i: int| 0 <= i < keys.len() ==> g.tokens.bal(g.real_sats_token_id.0.0, (#[trigger] g.users_by_key@[i]).1.0) == amount
    &&& forall|i: int| 0 <= i < keys.len() ==> g.users@.contains_key((#[trigger] g.users_by_key@[i]).1.0)
}

/// The place and kind of the first plant of the player in seat `i`.
fn start_location_at(i: usize) -> (r: ((i64, i64), PlantType))
    requires
        i < 10,
    ensures
        r == start_location(i as int),
{
    if i == 0 { ((38075660, -120030170), PlantType::Flare) }
    else if i == 1 { ((-2346660, -76223050), PlantType::Hydro) }
    else if i == 2 { ((-5203060, -66345370), PlantType::Solar) }
    else if i == 3 { ((66596730, 31545250), PlantType::Flare) }
    else if i == 4 { ((29521143, 26620126), PlantType::Hydro) }
    else if i == 5 { ((58162163, 39188486), PlantType::Solar) }
    else if i == 6 { ((28599246, 116180671), PlantType::Flare) }
    else if i == 7 { ((-29625744, 138416999), PlantType::Hydro) }
    else if i == 8 { ((-12141092, 35233406), PlantType::Solar) }
    else { ((21968789, -12535149), PlantType::Flare) }
}

/// The places and kinds of the players' first plants, by seat.
pub open spec fn start_location(i: int) -> ((i64, i64), PlantType) {
    if i == 0 { ((38075660i64, -120030170i64), PlantType::Flare) }
    else if i == 1 { ((-2346660i64, -76223050i64), PlantType::Hydro) }
    else if i == 2 { ((-5203060i64, -66345370i64), PlantType::Solar) }
    else if i == 3 { ((66596730i64, 31545250i64), PlantType::Flare) }
    else if i == 4 { ((29521143i64, 26620126i64), PlantType::Hydro) }
    else if i == 5 { ((58162163i64, 39188486i64), PlantType::Solar) }
    else if i == 6 { ((28599246i64, 116180671i64), PlantType::Flare) }
    else if i == 7 { ((-29625744i64, 138416999i64), PlantType::Hydro) }
    else if i == 8 { ((-12141092i64, 35233406i64), PlantType::Solar) }
    else { ((21968789i64, -12535149i64), PlantType::Flare) }
}


/// The board stays well formed when tokens are only added and the
/// identifier counter only grows, the rest being kept.
proof fn lemma_board_grows(g0: &GameBoard, g1: &GameBoard)
    requires
        g0.wf(),
        exchange_wf(&g1.tokens, &g1.swap, g1.alloc.0),
        forall|k: u64| #[trigger] g0.tokens.tokens@.contains_key(k) ==> g1.tokens.tokens@.contains_key(k),
        g1.tokens.hashboards@ == g0.tokens.hashboards@,
        g1.alloc.0 >= g0.alloc.0,
        g1.plant_prices == g0.plant_prices,
        g1.bitcoin_token_id == g0.bitcoin_token_id,
        g1.real_sats_token_id == g0.real_sats_token_id,
        g1.steel_token_id == g0.steel_token_id,
        g1.silicon_token_id == g0.silicon_token_id,
        g1.concrete_token_id == g0.concrete_token_id,
        g1.asic_token_id == g0.asic_token_id,
        g1.callbacks == g0.callbacks,
        g1.users_by_key@ == g0.users_by_key@,
        g1.users@ == g0.users@,
        g1.ticks@ == g0.ticks@,
        g1.nfts.nfts@ == g0.nfts.nfts@,
        g1.nfts.power_plants@ == g0.nfts.power_plants@,
        g1.chat@ == g0.chat@,
        g1.event_log@ == g0.event_log@,
    ensures
        g1.wf(),
{
    assert forall|i: int| 0 <= i < g1.tokens.hashboards@.len() implies g1.tokens.tokens@.contains_key(#[trigger] g1.tokens.hashboards@[i].0.0.0) by {
        assert(g0.tokens.tokens@.contains_key(g0.tokens.hashboards@[i].0.0.0));
    }
    assert forall|i: int| 0 <= i < g1.plant_prices.solar@.len() implies g1.tokens.tokens@.contains_key(#[trigger] g1.plant_prices.solar@[i].0.0.0) by {
        assert(g0.tokens.tokens@.contains_key(g0.plant_prices.solar@[i].0.0.0));
    }
    assert forall|i: int| 0 <= i < g1.plant_prices.hydro@.len() implies g1.tokens.tokens@.contains_key(#[trigger] g1.plant_prices.hydro@[i].0.0.0) by {
        assert(g0.tokens.tokens@.contains_key(g0.plant_prices.hydro@[i].0.0.0));
    }
    assert forall|i: int| 0 <= i < g1.plant_prices.flare@.len() implies g1.tokens.tokens@.contains_key(#[trigger] g1.plant_prices.flare@[i].0.0.0) by {
        assert(g0.tokens.tokens@.contains_key(g0.plant_prices.flare@[i].0.0.0));
    }
    assert forall|i: int| 0 <= i < g1.callbacks.callbacks@.len() implies callback_ok(&g1.tokens, #[trigger] g1.callbacks.callbacks@[i]) by {
        assert(callback_ok(&g0.tokens, g0.callbacks.callbacks@[i]));
    }
    assert forall|i: int| 0 <= i < g1.nfts.power_plants@.len() implies plant_ok(g1, #[trigger] g1.nfts.power_plants@[i]) by {
        assert(plant_ok(g0, g0.nfts.power_plants@[i]));
    }
}


impl GameBoard {
    /// Makes sure the market of `pair` exists (see
    /// `ConstantFunctionMarketMakerPair::ensure`); only the ledgers, the
    /// markets and the identifier counter change.
    pub fn ensure_market(&mut self, pair: TradingPairID) -> (m: ConstantFunctionMarketMakerPair)
        requires
            old(self).wf(),
            old(self).tokens.has(pair.asset_a),
            old(self).tokens.has(pair.asset_b),
            old(self).alloc.0 + 2 <= u64::MAX,
        ensures
            final(self).wf(),
            *final(self) == (GameBoard { tokens: final(self).tokens, swap: final(self).swap, alloc: final(self).alloc, ..*old(self) }),
            m == crate::token_swap::ensured_market(&old(self).swap, pair, old(self).alloc.0),
            final(self).swap.markets@ == old(self).swap.markets@.insert(pair.normalized().key(), m),
            crate::token_swap::ensured_tokens(&old(self).tokens, &final(self).tokens, &old(self).swap, pair, old(self).alloc.0),
            final(self).alloc.0 == old(self).alloc.0 + crate::token_swap::ensure_ids(&old(self).swap, pair),
            forall|k: u64| #[trigger] old(self).tokens.tokens@.contains_key(k) ==> final(self).tokens.tokens@.contains_key(k) && final(self).tokens.tokens@[k] == old(self).tokens.tokens@[k],
    {
        let ghost g0 = *self;
        let m = ConstantFunctionMarketMakerPair::ensure(&mut self.tokens, &mut self.swap, &mut self.alloc, pair);
        proof {
            let lp = (g0.alloc.0 + 1) as u64;
            assert forall|k: u64| #[trigger] g0.tokens.tokens@.contains_key(k) implies self.tokens.tokens@.contains_key(k) && self.tokens.tokens@[k] == g0.tokens.tokens@[k] by {
                if !g0.swap.markets@.contains_key(pair.normalized().key()) {
                    assert(k <= g0.alloc.0);
                    assert(k != lp);
                }
            }
            lemma_board_grows(&g0, self);
        }
        m
    }

    /// Mints `amount` of token `tok` to `to`; only that ledger changes.
    pub fn mint_to(&mut self, tok: TokenPointer, to: EntityID, amount: u128)
        requires
            old(self).wf(),
            old(self).tokens.has(tok),
            old(self).tokens.tokens@[tok.0.0].total + amount <= u128::MAX,
        ensures
            final(self).wf(),
            *final(self) == (GameBoard { tokens: final(self).tokens, ..*old(self) }),
            final(self).tokens.tokens@ == old(self).tokens.tokens@.insert(tok.0.0, final(self).tokens.tokens@[tok.0.0]),
            final(self).tokens.tokens@[tok.0.0].balances@ == old(self).tokens.tokens@[tok.0.0].balances@.insert(to.0, (old(self).tokens.bal(tok.0.0, to.0) + amount) as u128),
            final(self).tokens.tokens@[tok.0.0].total == old(self).tokens.tokens@[tok.0.0].total + amount,
            final(self).tokens.tokens@[tok.0.0].this == old(self).tokens.tokens@[tok.0.0].this,
            final(self).tokens.tokens@[tok.0.0].nickname == old(self).tokens.tokens@[tok.0.0].nickname,
            final(self).tokens.hashboards@ == old(self).tokens.hashboards@,
            final(self).tokens.steel@ == old(self).tokens.steel@,
            final(self).tokens.silicon@ == old(self).tokens.silicon@,
            final(self).tokens.bal(tok.0.0, to.0) == old(self).tokens.bal(tok.0.0, to.0) + amount,
            forall|w: u64| w != to.0 ==> #[trigger] final(self).tokens.bal(tok.0.0, w) == old(self).tokens.bal(tok.0.0, w),
    {
        let ghost g0 = *self;
        proof {
            crate::map_sum::lemma_map_sum_bounds_value(self.tokens.tokens@[tok.0.0].balances@, to.0);
        }
        self.tokens.mint(tok, &to, amount);
        proof {
            assert(self.tokens.tokens@.dom() =~= g0.tokens.tokens@.dom());
            assert forall|k: u64| #[trigger] self.tokens.tokens@.contains_key(k) implies k <= self.alloc.0 by {
                assert(g0.tokens.tokens@.contains_key(k));
            }
            assert forall|kk: (u64, u64)| #[trigger] self.swap.markets@.contains_key(kk) implies crate::token_swap::market_ok(&self.tokens, self.swap.markets@[kk], kk, self.alloc.0) by {
                assert(crate::token_swap::market_ok(&g0.tokens, g0.swap.markets@[kk], kk, g0.alloc.0));
            }
            lemma_board_grows(&g0, self);
        }
    }

    /// Puts an event into the queue (see `CallbackRegistry::schedule`).
    pub fn schedule(&mut self, cb: Callback)
        requires
            old(self).wf(),
            callback_ok(&old(self).tokens, cb),
        ensures
            final(self).wf(),
            *final(self) == (GameBoard { callbacks: final(self).callbacks, ..*old(self) }),
            final(self).callbacks.callbacks@ == old(self).callbacks.callbacks@.insert(crate::callbacks::slot_for(old(self).callbacks.callbacks@, cb.at()), cb),
    {
        let ghost g0 = *self;
        proof {
            crate::callbacks::lemma_slot_bounds(g0.callbacks.callbacks@, cb.at());
        }
        self.callbacks.schedule(cb);
        proof {
            let k = crate::callbacks::slot_for(g0.callbacks.callbacks@, cb.at());
            assert forall|i: int| 0 <= i < self.callbacks.callbacks@.len() implies callback_ok(&self.tokens, #[trigger] self.callbacks.callbacks@[i]) by {
                if i < k {
                    assert(self.callbacks.callbacks@[i] == g0.callbacks.callbacks@[i]);
                } else if i > k {
                    assert(self.callbacks.callbacks@[i] == g0.callbacks.callbacks@[i - 1]);
                }
            }
        }
    }
}


/// The markets of steel, silicon, concrete and hash boards against the
/// virtual sats exist.
pub open spec fn material_markets_open(g: &GameBoard) -> bool {
    &&& g.swap.markets@.contains_key((TradingPairID { asset_a: g.bitcoin_token_id, asset_b: g.steel_token_id }).normalized().key())
    &&& g.swap.markets@.contains_key((TradingPairID { asset_a: g.bitcoin_token_id, asset_b: g.silicon_token_id }).normalized().key())
    &&& g.swap.markets@.contains_key((TradingPairID { asset_a: g.bitcoin_token_id, asset_b: g.concrete_token_id }).normalized().key())
    &&& g.swap.markets@.contains_key((TradingPairID { asset_a: g.bitcoin_token_id, asset_b: g.asic_token_id }).normalized().key())
}

/// A market that has seen no trade: no reserves, and a share token that no
/// one holds.
pub open spec fn market_fresh(g: &GameBoard, kk: (u64, u64)) -> bool {
    let m = g.swap.markets@[kk];
    &&& m.reserve_a == 0
    &&& m.reserve_b == 0
    &&& g.tokens.tokens@.contains_key(m.lp.0.0)
    &&& g.tokens.tokens@[m.lp.0.0].total == 0
    &&& g.tokens.tokens@[m.lp.0.0].balances@ == Map::<u64, u128>::empty()
}

/// The keys of the markets of the materials against the virtual sats.
pub open spec fn material_market_keys(g: &GameBoard) -> Set<(u64, u64)> {
    set![
        (TradingPairID { asset_a: g.bitcoin_token_id, asset_b: g.steel_token_id }).normalized().key(),
        (TradingPairID { asset_a: g.bitcoin_token_id, asset_b: g.silicon_token_id }).normalized().key(),
        (TradingPairID { asset_a: g.bitcoin_token_id, asset_b: g.concrete_token_id }).normalized().key(),
        (TradingPairID { asset_a: g.bitcoin_token_id, asset_b: g.asic_token_id }).normalized().key(),
    ]
}

/// The identifiers of the plants, in their order.
pub open spec fn plant_id_seq(ps: Seq<PowerPlant>) -> Seq<u64> {
    ps.map_values(|p: PowerPlant| p.id.0.0)
}

/// Opening a market that did not exist keeps every market fresh.
proof fn lemma_opened_market_fresh(ga: &GameBoard, gb: &GameBoard, pair: TradingPairID)
    requires
        ga.wf(),
        forall|kk: (u64, u64)| #[trigger] ga.swap.markets@.contains_key(kk) ==> market_fresh(ga, kk) && ga.swap.markets@[kk].lp.0.0 <= ga.alloc.0,
        !ga.swap.markets@.contains_key(pair.normalized().key()),
        gb.swap.markets@ == ga.swap.markets@.insert(pair.normalized().key(), crate::token_swap::ensured_market(&ga.swap, pair, ga.alloc.0)),
        crate::token_swap::ensured_tokens(&ga.tokens, &gb.tokens, &ga.swap, pair, ga.alloc.0),
        gb.alloc.0 == ga.alloc.0 + 2,
        ga.alloc.0 + 2 <= u64::MAX,
    ensures
        forall|kk: (u64, u64)| #[trigger] gb.swap.markets@.contains_key(kk) ==> market_fresh(gb, kk) && gb.swap.markets@[kk].lp.0.0 <= gb.alloc.0,
{
    let lp = (ga.alloc.0 + 1) as u64;
    assert forall|kk: (u64, u64)| #[trigger] gb.swap.markets@.contains_key(kk) implies market_fresh(gb, kk) && gb.swap.markets@[kk].lp.0.0 <= gb.alloc.0 by {
        if kk != pair.normalized().key() {
            assert(ga.swap.markets@.contains_key(kk));
            assert(market_fresh(ga, kk));
            let l = ga.swap.markets@[kk].lp.0.0;
            assert(l != lp);
            assert(ga.tokens.tokens@.contains_key(l));
        }
    }
}

/// The events a new game starts with: the mining payout, the hash-board
/// producer `asic`, the steel smelter `steel`, and the silicon refinery and
/// concrete miller (the two identifiers after `steel`), all due at once.
pub open spec fn first_events(g: &GameBoard, asic: u64, steel: u64) -> Seq<Callback> {
    seq![
        Callback::PowerPlantEvent(PowerPlantEvent { time: 0, period: 11_003 }),
        Callback::ASICProducer(ASICProducer {
            id: EntityID(asic),
            total_units: 100_000,
            base_price: 100_000,
            price_asset: g.bitcoin_token_id,
            hash_asset: g.tokens.hashboards@[0].0,
            adjusts_every: 10_007,
            elapsed_time: 0,
            first: true,
        }),
        Callback::SteelSmelter(SteelSmelter {
            id: EntityID(steel),
            total_units: 100_000,
            base_price: 100_000,
            price_asset: g.bitcoin_token_id,
            hash_asset: g.steel_token_id,
            adjusts_every: 5_003,
            elapsed_time: 0,
            first: true,
        }),
        Callback::SiliconRefinery(SiliconRefinery {
            id: EntityID((steel + 1) as u64),
            total_units: 100_000,
            base_price: 100_000,
            price_asset: g.bitcoin_token_id,
            hash_asset: g.silicon_token_id,
            adjusts_every: 25_013,
            elapsed_time: 0,
            first: true,
        }),
        Callback::ConcreteMiller(ConcreteMiller {
            id: EntityID((steel + 2) as u64),
            total_units: 100_000,
            base_price: 100_000,
            price_asset: g.bitcoin_token_id,
            hash_asset: g.concrete_token_id,
            adjusts_every: 14_009,
            elapsed_time: 0,
            first: true,
        }),
    ]
}

impl GameBoard {
    /// Opens the markets of the materials against the virtual sats, funds
    /// the administrator, schedules the first events and gives every player
    /// a first power plant (with one hash board) at a fixed place.
    #[verifier::rlimit(60)]
    pub fn post_init(&mut self)
        requires
            old(self).wf(),
            old(self).tokens.hashboards@.len() > 0,
            old(self).users_by_key@.len() <= 10,
            old(self).alloc.0 + 64 <= u64::MAX,
            old(self).tokens.tokens@[old(self).bitcoin_token_id.0.0].total + 10_000_000_000 <= u128::MAX,
            old(self).tokens.tokens@[old(self).real_sats_token_id.0.0].total + 30000 <= u128::MAX,
            old(self).tokens.tokens@[old(self).asic_token_id.0.0].total == 0,
            old(self).callbacks.callbacks@.len() == 0,
            old(self).nfts.nfts@ == Map::<u64, BaseNFT>::empty(),
            old(self).nfts.power_plants@.len() == 0,
            forall|i: int| 0 <= i < old(self).users_by_key@.len() ==> old(self).users@.contains_key((#[trigger] old(self).users_by_key@[i]).1.0),
            old(self).swap.markets@ == Map::<(u64, u64), ConstantFunctionMarketMakerPair>::empty(),
            old(self).bitcoin_token_id != old(self).steel_token_id,
            old(self).bitcoin_token_id != old(self).silicon_token_id,
            old(self).bitcoin_token_id != old(self).concrete_token_id,
            old(self).bitcoin_token_id != old(self).asic_token_id,
            old(self).steel_token_id != old(self).silicon_token_id,
            old(self).steel_token_id != old(self).concrete_token_id,
            old(self).steel_token_id != old(self).asic_token_id,
            old(self).silicon_token_id != old(self).concrete_token_id,
            old(self).silicon_token_id != old(self).asic_token_id,
            old(self).concrete_token_id != old(self).asic_token_id,
            old(self).bitcoin_token_id != old(self).real_sats_token_id,
            old(self).real_sats_token_id != old(self).asic_token_id,
            old(self).real_sats_token_id != old(self).steel_token_id,
            old(self).real_sats_token_id != old(self).silicon_token_id,
            old(self).real_sats_token_id != old(self).concrete_token_id,
        ensures
            final(self).wf(),
            final(self).callbacks.callbacks@ == first_events(old(self), (old(self).alloc.0 + 9) as u64, (old(self).alloc.0 + 10) as u64),
            final(self).users_by_key@ == old(self).users_by_key@,
            final(self).users@ == old(self).users@,
            final(self).nfts.power_plants@.len() == old(self).users_by_key@.len(),
            forall|i: int| 0 <= i < final(self).nfts.power_plants@.len() ==> {
                &&& (#[trigger] final(self).nfts.power_plants@[i]).plant_type == start_location(i).1
                &&& final(self).nfts.power_plants@[i].coordinates == start_location(i).0
                &&& final(self).nfts.nfts@[final(self).nfts.power_plants@[i].id.0.0].owner == old(self).users_by_key@[i].1
            },
            forall|who: u64| who != old(self).root_user.0 ==> final(self).tokens.bal(old(self).bitcoin_token_id.0.0, who) == old(self).tokens.bal(old(self).bitcoin_token_id.0.0, who),
            forall|who: u64| who != old(self).root_user.0 ==> final(self).tokens.bal(old(self).real_sats_token_id.0.0, who) == old(self).tokens.bal(old(self).real_sats_token_id.0.0, who),
            final(self).tokens.bal(old(self).bitcoin_token_id.0.0, old(self).root_user.0) == old(self).tokens.bal(old(self).bitcoin_token_id.0.0, old(self).root_user.0) + 10_000_000_000,
            final(self).tokens.bal(old(self).real_sats_token_id.0.0, old(self).root_user.0) == old(self).tokens.bal(old(self).real_sats_token_id.0.0, old(self).root_user.0) + 30000,
            final(self).bitcoin_token_id == old(self).bitcoin_token_id,
            final(self).real_sats_token_id == old(self).real_sats_token_id,
            final(self).steel_token_id == old(self).steel_token_id,
            final(self).silicon_token_id == old(self).silicon_token_id,
            final(self).concrete_token_id == old(self).concrete_token_id,
            final(self).asic_token_id == old(self).asic_token_id,
            final(self).root_user == old(self).root_user,
            final(self).finish_time == old(self).finish_time,
            final(self).elapsed_time == old(self).elapsed_time,
            final(self).mining_subsidy == old(self).mining_subsidy,
            final(self).chat@ == old(self).chat@,
            final(self).event_log@ == old(self).event_log@,
            final(self).chat_counter == old(self).chat_counter,
            final(self).event_log_counter == old(self).event_log_counter,
            final(self).ticks@ == old(self).ticks@,
            final(self).tokens.hashboards@ == old(self).tokens.hashboards@,
            final(self).plant_prices == old(self).plant_prices,
            final(self).nft_sales == old(self).nft_sales,
            material_markets_open(final(self)),
            forall|i: int| 0 <= i < final(self).nfts.power_plants@.len() ==> final(self).tokens.bal(old(self).asic_token_id.0.0, (#[trigger] final(self).nfts.power_plants@[i]).id.0.0) == 1,
            final(self).swap.markets@.dom() == material_market_keys(old(self)),
            forall|kk: (u64, u64)| #[trigger] final(self).swap.markets@.contains_key(kk) ==> market_fresh(final(self), kk),
            final(self).tokens.tokens@[old(self).bitcoin_token_id.0.0].total == old(self).tokens.tokens@[old(self).bitcoin_token_id.0.0].total + 10_000_000_000,
            final(self).tokens.tokens@[old(self).real_sats_token_id.0.0].total == old(self).tokens.tokens@[old(self).real_sats_token_id.0.0].total + 30000,
            final(self).tokens.tokens@[old(self).steel_token_id.0.0] == old(self).tokens.tokens@[old(self).steel_token_id.0.0],
            final(self).tokens.tokens@[old(self).silicon_token_id.0.0] == old(self).tokens.tokens@[old(self).silicon_token_id.0.0],
            final(self).tokens.tokens@[old(self).concrete_token_id.0.0] == old(self).tokens.tokens@[old(self).concrete_token_id.0.0],
            final(self).tokens.tokens@[old(self).asic_token_id.0.0].total == old(self).users_by_key@.len(),
            forall|k: u64| #[trigger] final(self).tokens.bal(old(self).asic_token_id.0.0, k) == (if plant_id_seq(final(self).nfts.power_plants@).contains(k) { 1int } else { 0int }),
    {
        let ghost g0 = *self;
        let btc = self.bitcoin_token_id;
        let p1 = TradingPairID { asset_a: btc, asset_b: self.steel_token_id };
        let p2 = TradingPairID { asset_a: btc, asset_b: self.silicon_token_id };
        let p3 = TradingPairID { asset_a: btc, asset_b: self.concrete_token_id };
        let p4 = TradingPairID { asset_a: btc, asset_b: self.asic_token_id };
        self.ensure_market(p1);
        let ghost ga = *self;
        proof {
            lemma_opened_market_fresh(&g0, &ga, p1);
        }
        self.ensure_market(p2);
        let ghost gb = *self;
        proof {
            assert(p2.normalized().key() != p1.normalized().key());
            lemma_opened_market_fresh(&ga, &gb, p2);
        }
        self.ensure_market(p3);
        let ghost gc = *self;
        proof {
            assert(p3.normalized().key() != p1.normalized().key());
            assert(p3.normalized().key() != p2.normalized().key());
            lemma_opened_market_fresh(&gb, &gc, p3);
        }
        self.ensure_market(p4);
        let ghost g1 = *self;
        proof {
            assert(p4.normalized().key() != p1.normalized().key());
            assert(p4.normalized().key() != p2.normalized().key());
            assert(p4.normalized().key() != p3.normalized().key());
            lemma_opened_market_fresh(&gc, &g1, p4);
            assert(g1.swap.markets@.dom() =~= material_market_keys(&g0));
        }
        proof {
            assert(g0.tokens.tokens@.contains_key(btc.0.0));
            assert(g0.tokens.tokens@.contains_key(g0.real_sats_token_id.0.0));
            assert(g0.tokens.tokens@.contains_key(g0.asic_token_id.0.0));
            assert(g1.tokens.tokens@[btc.0.0] == g0.tokens.tokens@[btc.0.0]);
            assert(g1.tokens.tokens@[g0.real_sats_token_id.0.0] == g0.tokens.tokens@[g0.real_sats_token_id.0.0]);
            assert(g1.tokens.tokens@[g0.asic_token_id.0.0] == g0.tokens.tokens@[g0.asic_token_id.0.0]);
            assert(g1.alloc.0 == g0.alloc.0 + 8);
        }
        let root = self.root_user;
        self.mint_to(btc, root, 10_000_000_000);
        let sats = self.real_sats_token_id;
        self.mint_to(sats, root, 30000);
        let ghost g2 = *self;
        proof {
            assert(g2.tokens.tokens@[g0.asic_token_id.0.0] == g0.tokens.tokens@[g0.asic_token_id.0.0]);
            assert(g2.tokens.hashboards@ == g0.tokens.hashboards@);
            assert(g2.tokens.tokens@[g0.steel_token_id.0.0] == g1.tokens.tokens@[g0.steel_token_id.0.0]);
            assert(g2.tokens.tokens@[g0.silicon_token_id.0.0] == g1.tokens.tokens@[g0.silicon_token_id.0.0]);
            assert(g2.tokens.tokens@[g0.concrete_token_id.0.0] == g1.tokens.tokens@[g0.concrete_token_id.0.0]);
        }
        let asic_producer = self.alloc.make();
        let ppe = Callback::PowerPlantEvent(PowerPlantEvent { time: 0, period: 11_003 });
        self.schedule(ppe);
        proof {
            assert(crate::callbacks::due_count(Seq::<Callback>::empty(), 0) == 0);
            assert(self.callbacks.callbacks@ =~= seq![ppe]);
            assert(seq![ppe].drop_first() =~= Seq::<Callback>::empty());
            assert(crate::callbacks::due_count(seq![ppe], 0) == 1);
        }
        let hash_asset = self.tokens.hashboards[0].0;
        proof {
            assert(self.tokens.tokens@.contains_key(self.tokens.hashboards@[0].0.0.0));
        }
        self.schedule(Callback::ASICProducer(ASICProducer {
            id: asic_producer,
            total_units: 100_000,
            base_price: 100_000,
            price_asset: btc,
            hash_asset,
            adjusts_every: 10_007,
            elapsed_time: 0,
            first: true,
        }));
        let ghost c2 = self.callbacks.callbacks@;
        proof {
            assert(c2 =~= seq![ppe, c2[1]]);
            assert(c2.drop_first() =~= seq![c2[1]]);
            assert(seq![c2[1]].drop_first() =~= Seq::<Callback>::empty());
            assert(crate::callbacks::due_count(seq![c2[1]], 0) == 1);
            assert(crate::callbacks::due_count(c2, 0) == 2);
        }
        let steel_id = self.alloc.make();
        let steel = self.steel_token_id;
        self.schedule(Callback::SteelSmelter(SteelSmelter {
            id: steel_id,
            total_units: 100_000,
            base_price: 100_000,
            price_asset: btc,
            hash_asset: steel,
            adjusts_every: 5_003,
            elapsed_time: 0,
            first: true,
        }));
        let ghost c3 = self.callbacks.callbacks@;
        proof {
            assert(c3 =~= seq![ppe, c2[1], c3[2]]);
            assert(c3.drop_first() =~= seq![c2[1], c3[2]]);
            assert(seq![c2[1], c3[2]].drop_first() =~= seq![c3[2]]);
            assert(seq![c3[2]].drop_first() =~= Seq::<Callback>::empty());
            assert(crate::callbacks::due_count(seq![c3[2]], 0) == 1);
            assert(crate::callbacks::due_count(seq![c2[1], c3[2]], 0) == 2);
            assert(crate::callbacks::due_count(c3, 0) == 3);
        }
        let silicon_id = self.alloc.make();
        let silicon = self.silicon_token_id;
        self.schedule(Callback::SiliconRefinery(SiliconRefinery {
            id: silicon_id,
            total_units: 100_000,
            base_price: 100_000,
            price_asset: btc,
            hash_asset: silicon,
            adjusts_every: 25_013,
            elapsed_time: 0,
            first: true,
        }));
        let ghost c4 = self.callbacks.callbacks@;
        proof {
            assert(c4 =~= seq![ppe, c2[1], c3[2], c4[3]]);
            assert(c4.drop_first() =~= seq![c2[1], c3[2], c4[3]]);
            assert(seq![c2[1], c3[2], c4[3]].drop_first() =~= seq![c3[2], c4[3]]);
            assert(seq![c3[2], c4[3]].drop_first() =~= seq![c4[3]]);
            assert(seq![c4[3]].drop_first() =~= Seq::<Callback>::empty());
            assert(crate::callbacks::due_count(seq![c4[3]], 0) == 1);
            assert(crate::callbacks::due_count(seq![c3[2], c4[3]], 0) == 2);
            assert(crate::callbacks::due_count(seq![c2[1], c3[2], c4[3]], 0) == 3);
            assert(crate::callbacks::due_count(c4, 0) == 4);
        }
        let concrete_id = self.alloc.make();
        let concrete = self.concrete_token_id;
        self.schedule(Callback::ConcreteMiller(ConcreteMiller {
            id: concrete_id,
            total_units: 100_000,
            base_price: 100_000,
            price_asset: btc,
            hash_asset: concrete,
            adjusts_every: 14_009,
            elapsed_time: 0,
            first: true,
        }));
        let ghost g3 = *self;
        proof {
            let c = self.callbacks.callbacks@;
            assert(c =~= first_events(&g0, (g0.alloc.0 + 9) as u64, (g0.alloc.0 + 10) as u64));
            let ak = g0.asic_token_id.0.0;
            assert(self.tokens.tokens@.contains_key(ak));
            assert(self.tokens.tokens@[ak].total == 0);
            assert forall|k: u64| #[trigger] self.tokens.bal(ak, k) == 0 by {
                crate::map_sum::lemma_map_sum_bounds_value(self.tokens.tokens@[ak].balances@, k);
            }
            assert(material_markets_open(self));
            assert(plant_id_seq(self.nfts.power_plants@) =~= Seq::<u64>::empty());
            assert forall|kk: (u64, u64)| #[trigger] self.swap.markets@.contains_key(kk) implies market_fresh(self, kk) && self.swap.markets@[kk].lp.0.0 > g0.alloc.0 by {
                assert(g1.swap.markets@.contains_key(kk));
                assert(market_fresh(&g1, kk));
                let l = g1.swap.markets@[kk].lp.0.0;
                assert(g1.tokens.tokens@.contains_key(l));
                if l <= g0.alloc.0 {
                    assert(false);
                }
            }
        }
        let asic = self.asic_token_id;
        let mut i: usize = 0;
        while i < self.users_by_key.len()
            invariant
                0 <= i <= self.users_by_key@.len(),
                self.wf(),
                self.users_by_key@ == g0.users_by_key@,
                self.users@ == g0.users@,
                self.users_by_key@.len() <= 10,
                forall|j: int| 0 <= j < g0.users_by_key@.len() ==> g0.users@.contains_key((#[trigger] g0.users_by_key@[j]).1.0),
                self.alloc.0 == g3.alloc.0 + i,
                g3.alloc.0 + 32 <= u64::MAX,
                asic == self.asic_token_id,
                self.tokens.tokens@[asic.0.0].total == g3.tokens.tokens@[asic.0.0].total + i,
                g3.tokens.tokens@[asic.0.0].total == 0,
                self.nfts.power_plants@.len() == i,
                forall|j: int| 0 <= j < i ==> {
                    &&& (#[trigger] self.nfts.power_plants@[j]).plant_type == start_location(j).1
                    &&& self.nfts.power_plants@[j].coordinates == start_location(j).0
                    &&& self.nfts.nfts@[self.nfts.power_plants@[j].id.0.0].owner == g0.users_by_key@[j].1
                },
                forall|k: u64| k != asic.0.0 ==> #[trigger] self.tokens.tokens@.contains_key(k) == g3.tokens.tokens@.contains_key(k),
                forall|k: u64| k != asic.0.0 && #[trigger] g3.tokens.tokens@.contains_key(k) ==> self.tokens.tokens@[k] == g3.tokens.tokens@[k],
                self.callbacks == g3.callbacks,
                self.bitcoin_token_id == g0.bitcoin_token_id,
                self.real_sats_token_id == g0.real_sats_token_id,
                self.steel_token_id == g0.steel_token_id,
                self.silicon_token_id == g0.silicon_token_id,
                self.concrete_token_id == g0.concrete_token_id,
                self.root_user == g0.root_user,
                self.finish_time == g0.finish_time,
                self.elapsed_time == g0.elapsed_time,
                self.mining_subsidy == g0.mining_subsidy,
                self.chat@ == g0.chat@,
                self.event_log@ == g0.event_log@,
                self.chat_counter == g0.chat_counter,
                self.event_log_counter == g0.event_log_counter,
                self.ticks@ == g0.ticks@,
                self.tokens.hashboards@ == g0.tokens.hashboards@,
                self.swap == g3.swap,
                self.plant_prices == g0.plant_prices,
                self.nft_sales == g0.nft_sales,
                g3.alloc.0 >= g0.alloc.0,
                forall|j: int| 0 <= j < i ==> g3.alloc.0 < (#[trigger] self.nfts.power_plants@[j]).id.0.0 <= self.alloc.0,
                forall|j: int| 0 <= j < i ==> self.tokens.bal(asic.0.0, (#[trigger] self.nfts.power_plants@[j]).id.0.0) == 1,
                forall|k: u64| k > self.alloc.0 ==> #[trigger] self.tokens.bal(asic.0.0, k) == 0,
                forall|k: u64| #[trigger] self.tokens.bal(asic.0.0, k) == (if plant_id_seq(self.nfts.power_plants@).contains(k) { 1int } else { 0int }),
                forall|kk: (u64, u64)| #[trigger] g3.swap.markets@.contains_key(kk) ==> market_fresh(&g3, kk) && g3.swap.markets@[kk].lp.0.0 > g0.alloc.0,
                g0.tokens.tokens@.contains_key(asic.0.0),
            decreases self.users_by_key.len() - i,
        {
            let player = self.users_by_key[i].1;
            let nft_id = self.alloc.make();
            let ptr = self.nfts.add(BaseNFT { owner: player, nft_id, transfer_count: 0 });
            let (coordinates, plant_type) = start_location_at(i);
            let plant = PowerPlant::new(&self.plant_prices, ptr, plant_type, coordinates, 1);
            let ghost before = self.nfts.power_plants@;
            self.nfts.add_plant(plant);
            proof {
                assert forall|k: u64| #[trigger] self.tokens.tokens@.contains_key(k) implies k <= self.alloc.0 by {
                    if k != asic.0.0 {
                        assert(g3.tokens.tokens@.contains_key(k));
                    }
                }
                assert forall|kk: (u64, u64)| #[trigger] self.swap.markets@.contains_key(kk) implies crate::token_swap::market_ok(&self.tokens, self.swap.markets@[kk], kk, self.alloc.0) by {
                }
                assert forall|j: int| 0 <= j < self.nfts.power_plants@.len() implies plant_ok(self, #[trigger] self.nfts.power_plants@[j]) by {
                    if j < i {
                        assert(self.nfts.power_plants@[j] == before[j]);
                    }
                }
            }
            let ghost before_mint = *self;
            self.mint_to(asic, ptr.0, 1);
            proof {
                assert(plant_id_seq(self.nfts.power_plants@) =~= plant_id_seq(before).push(ptr.0.0));
                assert(!plant_id_seq(before).contains(ptr.0.0)) by {
                    if plant_id_seq(before).contains(ptr.0.0) {
                        let j = choose|j: int| 0 <= j < plant_id_seq(before).len() && plant_id_seq(before)[j] == ptr.0.0;
                        assert(before[j].id.0.0 <= before_mint.alloc.0 - 1);
                    }
                }
                assert forall|k: u64| #[trigger] self.tokens.bal(asic.0.0, k) == (if plant_id_seq(self.nfts.power_plants@).contains(k) { 1int } else { 0int }) by {
                    if k != ptr.0.0 {
                        assert(plant_id_seq(self.nfts.power_plants@).contains(k) == plant_id_seq(before).contains(k)) by {
                            let s0 = plant_id_seq(before);
                            let s1 = plant_id_seq(self.nfts.power_plants@);
                            if s1.contains(k) {
                                let j = choose|j: int| 0 <= j < s1.len() && s1[j] == k;
                                assert(j < s0.len());
                                assert(s0[j] == k);
                            }
                            if s0.contains(k) {
                                let j = choose|j: int| 0 <= j < s0.len() && s0[j] == k;
                                assert(s1[j] == k);
                            }
                        }
                    } else {
                        assert(plant_id_seq(self.nfts.power_plants@)[i as int] == k);
                    }
                }
                assert(self.nfts.power_plants@[i as int].id == ptr);
                assert forall|j: int| 0 <= j < i + 1 implies self.tokens.bal(asic.0.0, (#[trigger] self.nfts.power_plants@[j]).id.0.0) == 1 by {
                    if j < i {
                        assert(self.nfts.power_plants@[j] == before_mint.nfts.power_plants@[j]);
                        assert(self.nfts.power_plants@[j].id.0.0 != ptr.0.0);
                    }
                }
            }
            i = i + 1;
        }
        proof {
            let sats_k = g0.real_sats_token_id.0.0;
            assert(g0.tokens.tokens@.contains_key(g0.steel_token_id.0.0));
            assert(g0.tokens.tokens@.contains_key(g0.silicon_token_id.0.0));
            assert(g0.tokens.tokens@.contains_key(g0.concrete_token_id.0.0));
            assert(g1.tokens.tokens@[g0.steel_token_id.0.0] == g0.tokens.tokens@[g0.steel_token_id.0.0]);
            assert(g1.tokens.tokens@[g0.silicon_token_id.0.0] == g0.tokens.tokens@[g0.silicon_token_id.0.0]);
            assert(g1.tokens.tokens@[g0.concrete_token_id.0.0] == g0.tokens.tokens@[g0.concrete_token_id.0.0]);
            assert(g3.tokens.tokens@[g0.steel_token_id.0.0] == g0.tokens.tokens@[g0.steel_token_id.0.0]);
            assert(g3.tokens.tokens@[g0.silicon_token_id.0.0] == g0.tokens.tokens@[g0.silicon_token_id.0.0]);
            assert(g3.tokens.tokens@[g0.concrete_token_id.0.0] == g0.tokens.tokens@[g0.concrete_token_id.0.0]);
            assert forall|kk: (u64, u64)| #[trigger] self.swap.markets@.contains_key(kk) implies market_fresh(self, kk) by {
                assert(market_fresh(&g3, kk));
                let l = g3.swap.markets@[kk].lp.0.0;
                assert(g3.tokens.tokens@.contains_key(l));
                assert(l != asic.0.0);
            }
            assert(g3.tokens.tokens@.contains_key(btc.0.0));
            assert(g3.tokens.tokens@.contains_key(sats_k));
            assert(self.tokens.tokens@[btc.0.0] == g2.tokens.tokens@[btc.0.0]);
            assert(self.tokens.tokens@[sats_k] == g2.tokens.tokens@[sats_k]);
            assert(g1.tokens.tokens@[btc.0.0].balances@ == g0.tokens.tokens@[btc.0.0].balances@);
            assert(g1.tokens.tokens@[sats_k].balances@ == g0.tokens.tokens@[sats_k].balances@);
        }
    }
}


impl GameBoard {
    /// Sells through a market (see `ConstantFunctionMarketMaker::do_sell_trade`);
    /// only the ledgers, the markets and the identifier counter change.
    pub fn sell_trade(&mut self, id: TradingPairID, amount_a: u128, amount_b: u128, buy_min: Option<u128>, simulate: bool, sender: EntityID) -> (r: Result<TradeOutcome, TradeError>)
        requires
            old(self).wf(),
            old(self).tokens.has(id.asset_a),
            old(self).tokens.has(id.asset_b),
            old(self).alloc.0 + 4 <= u64::MAX,
        ensures
            final(self).wf(),
            *final(self) == (GameBoard { tokens: final(self).tokens, swap: final(self).swap, alloc: final(self).alloc, ..*old(self) }),
            final(self).alloc.0 <= old(self).alloc.0 + 2,
            final(self).alloc.0 >= old(self).alloc.0,
            crate::token_swap::same_meta(&old(self).tokens, &final(self).tokens),
            crate::token_swap::sell_trade_post(&old(self).tokens, &old(self).swap, old(self).alloc.0, &final(self).tokens, &final(self).swap, id, amount_a, amount_b, buy_min, simulate, sender.0, r),
    {
        let ghost g0 = *self;
        let r = ConstantFunctionMarketMaker::do_sell_trade(&mut self.tokens, &mut self.swap, &mut self.alloc, id, amount_a, amount_b, buy_min, simulate, sender);
        proof {
            lemma_board_grows(&g0, self);
        }
        r
    }

    /// Buys through a market (see `ConstantFunctionMarketMaker::do_buy_trade`);
    /// only the ledgers, the markets and the identifier counter change.
    pub fn buy_trade(&mut self, id: TradingPairID, amount_a: u128, amount_b: u128, sell_max: Option<u128>, simulate: bool, sender: EntityID) -> (r: Result<TradeOutcome, TradeError>)
        requires
            old(self).wf(),
            old(self).tokens.has(id.asset_a),
            old(self).tokens.has(id.asset_b),
            old(self).alloc.0 + 4 <= u64::MAX,
        ensures
            final(self).wf(),
            *final(self) == (GameBoard { tokens: final(self).tokens, swap: final(self).swap, alloc: final(self).alloc, ..*old(self) }),
            final(self).alloc.0 <= old(self).alloc.0 + 2,
            final(self).alloc.0 >= old(self).alloc.0,
            crate::token_swap::same_meta(&old(self).tokens, &final(self).tokens),
            crate::token_swap::buy_trade_post(&old(self).tokens, &old(self).swap, old(self).alloc.0, &final(self).tokens, &final(self).swap, id, amount_a, amount_b, sell_max, simulate, sender.0, r),
    {
        let ghost g0 = *self;
        let r = ConstantFunctionMarketMaker::do_buy_trade(&mut self.tokens, &mut self.swap, &mut self.alloc, id, amount_a, amount_b, sell_max, simulate, sender);
        proof {
            lemma_board_grows(&g0, self);
        }
        r
    }

    /// Deposits into a market (see `ConstantFunctionMarketMaker::deposit`);
    /// only the ledgers, the markets and the identifier counter change.
    pub fn deposit(&mut self, id: TradingPairID, amount_a: u128, amount_b: u128, from: EntityID)
        requires
            old(self).wf(),
            old(self).tokens.has(id.asset_a),
            old(self).tokens.has(id.asset_b),
            old(self).alloc.0 + 2 <= u64::MAX,
        ensures
            final(self).wf(),
            *final(self) == (GameBoard { tokens: final(self).tokens, swap: final(self).swap, alloc: final(self).alloc, ..*old(self) }),
            final(self).alloc.0 <= old(self).alloc.0 + 2,
            final(self).alloc.0 >= old(self).alloc.0,
            crate::token_swap::deposit_post(&old(self).tokens, &old(self).swap, old(self).alloc.0, &final(self).tokens, &final(self).swap, final(self).alloc.0, id, amount_a, amount_b, from.0),
            forall|k: u64| #[trigger] old(self).tokens.tokens@.contains_key(k) ==> final(self).tokens.tokens@.contains_key(k),
    {
        let ghost g0 = *self;
        ConstantFunctionMarketMaker::deposit(&mut self.tokens, &mut self.swap, &mut self.alloc, id, amount_a, amount_b, from);
        proof {
            lemma_board_grows(&g0, self);
        }
    }

    /// Moves `amount` of token `tok` from `from` to `to` when `from` holds
    /// it; only that ledger changes.
    pub fn transfer(&mut self, tok: TokenPointer, from: EntityID, to: EntityID, amount: u128) -> (ok: bool)
        requires
            old(self).wf(),
            old(self).tokens.has(tok),
        ensures
            final(self).wf(),
            *final(self) == (GameBoard { tokens: final(self).tokens, ..*old(self) }),
            final(self).tokens.only_changed(&old(self).tokens, tok.0.0),
            ok == (old(self).tokens.bal(tok.0.0, from.0) >= amount),
            ok ==> final(self).tokens.tokens@[tok.0.0].balances@ == crate::tokens::transferred(old(self).tokens.tokens@[tok.0.0].balances@, from.0, to.0, amount),
            !ok ==> final(self).tokens.tokens@[tok.0.0].balances@ == old(self).tokens.tokens@[tok.0.0].balances@,
    {
        let ghost g0 = *self;
        let ok = self.tokens.transfer(tok, &from, &to, amount);
        proof {
            assert(self.tokens.tokens@.dom() =~= g0.tokens.tokens@.dom());
            assert forall|k: u64| #[trigger] self.tokens.tokens@.contains_key(k) implies k <= self.alloc.0 by {
                assert(g0.tokens.tokens@.contains_key(k));
            }
            assert forall|kk: (u64, u64)| #[trigger] self.swap.markets@.contains_key(kk) implies crate::token_swap::market_ok(&self.tokens, self.swap.markets@[kk], kk, self.alloc.0) by {
                assert(crate::token_swap::market_ok(&g0.tokens, g0.swap.markets@[kk], kk, g0.alloc.0));
            }
            lemma_board_grows(&g0, self);
        }
        ok
    }
}


/// `s` with `x` appended, the oldest entry dropped first when 1000 are kept.
pub open spec fn bounded_push<T>(s: Seq<T>, x: T) -> Seq<T> {
    if s.len() >= 1000 {
        s.subrange(1, s.len() as int).push(x)
    } else {
        s.push(x)
    }
}


/// What posting a chat message did (see `GameBoard::chat_message`).
pub open spec fn chatted(g0: &GameBoard, g1: &GameBoard, from: EntityID, s: String) -> bool {
    let text = if is_nick_command(s@) {
        crate::numfmt::radix_digits(from.0 as nat, 16) + " is now known as "@ + nick_of(s@)
    } else {
        s@
    };
    &&& *g1 == (GameBoard { chat: g1.chat, chat_counter: g1.chat_counter, nicks: g1.nicks, ..*g0 })
    &&& g1.chat_counter == g0.chat_counter + 1
    &&& is_nick_command(s@) ==> g1.nicks@.dom() == g0.nicks@.dom().insert(from.0)
    &&& is_nick_command(s@) ==> g1.nicks@[from.0]@ == nick_of(s@)
    &&& is_nick_command(s@) ==> forall|k: u64| k != from.0 && #[trigger] g0.nicks@.contains_key(k) ==> g1.nicks@[k] == g0.nicks@[k]
    &&& !is_nick_command(s@) ==> g1.nicks@ == g0.nicks@
    &&& g1.chat@.len() == bounded_push(g0.chat@, (g1.chat_counter, from, s)).len()
    &&& g1.chat@.drop_last() == bounded_push(g0.chat@, (g1.chat_counter, from, s)).drop_last()
    &&& g1.chat@.last().0 == g1.chat_counter
    &&& g1.chat@.last().1 == from
    &&& g1.chat@.last().2@ == text
}

/// Where the first space of `s` is (its length when there is none).
pub open spec fn space_index(s: Seq<char>) -> int
    decreases s.len(),
{
    if s.len() == 0 {
        0
    } else if space_index(s.drop_last()) < s.len() - 1 {
        space_index(s.drop_last())
    } else if s.last() == ' ' {
        s.len() - 1
    } else {
        s.len() as int
    }
}

/// The first space lies within the text.
proof fn lemma_space_index_le(s: Seq<char>)
    ensures
        0 <= space_index(s) <= s.len(),
    decreases s.len(),
{
    if s.len() > 0 {
        lemma_space_index_le(s.drop_last());
    }
}

/// `s` is a nickname command: it starts with `/nick`, is ASCII and is
/// shorter than 32 characters.
pub open spec fn is_nick_command(s: Seq<char>) -> bool {
    &&& s.len() >= 5
    &&& s.take(5) == "/nick"@
    &&& vstd::utf8::is_ascii_chars(s)
    &&& s.len() < 32
}

/// The nickname a command sets: the command from its first space on.
pub open spec fn nick_of(s: Seq<char>) -> Seq<char> {
    s.skip(space_index(s))
}

/// The first space of `s`, searched from the start.
fn find_space(s: &str) -> (r: usize)
    ensures
        r == space_index(s@),
{
    let n = s.unicode_len();
    let mut i: usize = 0;
    while i < n
        invariant
            i <= n,
            n == s@.len(),
            space_index(s@.take(i as int)) == i,
        decreases n - i,
    {
        assert(s@.take(i + 1).drop_last() =~= s@.take(i as int));
        proof {
            lemma_space_index_le(s@.take(i as int));
        }
        if s.get_char(i) == ' ' {
            proof {
                lemma_space_index_prefix(s@, i + 1);
            }
            return i;
        }
        i = i + 1;
    }
    assert(s@.take(n as int) =~= s@);
    n
}

/// Once the prefix `s.take(k)` holds a space, the first space of `s` is the
/// one of the prefix.
proof fn lemma_space_index_prefix(s: Seq<char>, k: int)
    requires
        0 <= k <= s.len(),
        space_index(s.take(k)) < k,
    ensures
        space_index(s) == space_index(s.take(k)),
    decreases s.len() - k,
{
    lemma_space_index_le(s.take(k));
    if k < s.len() {
        assert(s.take(k + 1).drop_last() =~= s.take(k));
        lemma_space_index_prefix(s, k + 1);
    } else {
        assert(s.take(k) =~= s);
    }
}

/// Whether `s` is a nickname command (see `is_nick_command`).
fn nick_command(s: &str) -> (r: bool)
    ensures
        r == is_nick_command(s@),
{
    let n = s.unicode_len();
    if n < 5 {
        return false;
    }
    proof {
        reveal_strlit("/nick");
    }
    let starts = s.get_char(0) == '/' && s.get_char(1) == 'n' && s.get_char(2) == 'i' && s.get_char(3) == 'c' && s.get_char(4) == 'k';
    proof {
        if starts {
            assert(s@.take(5) =~= "/nick"@);
        } else {
            assert(s@.take(5) != "/nick"@) by {
                if s@.take(5) == "/nick"@ {
                    assert(s@.take(5)[0] == '/' && s@.take(5)[1] == 'n' && s@.take(5)[2] == 'i' && s@.take(5)[3] == 'c' && s@.take(5)[4] == 'k');
                }
            }
        }
    }
    starts && s.is_ascii() && n < 32
}

impl GameBoard {
    /// Logs an event of `from` under the next log number, keeping the last
    /// 1000 events.
    pub fn add_to_event_log(&mut self, from: EntityID, e: LogEvent)
        requires
            old(self).wf(),
            old(self).event_log_counter < u64::MAX,
        ensures
            final(self).wf(),
            *final(self) == (GameBoard { event_log: final(self).event_log, event_log_counter: final(self).event_log_counter, ..*old(self) }),
            final(self).event_log_counter == old(self).event_log_counter + 1,
            final(self).event_log@ == bounded_push(old(self).event_log@, (final(self).event_log_counter, from, e)),
    {
        self.event_log_counter = self.event_log_counter + 1;
        if self.event_log.len() >= 1000 {
            self.event_log.pop_front();
        }
        self.event_log.push_back((self.event_log_counter, from, e));
    }

    /// Posts a chat message of `from`, keeping the last 1000 messages. A
    /// nickname command (see `is_nick_command`) sets `from`'s nickname and
    /// is posted as an announcement of it.
    pub fn chat_message(&mut self, from: EntityID, s: String)
        requires
            old(self).wf(),
            old(self).chat_counter < u64::MAX,
        ensures
            final(self).wf(),
            chatted(old(self), final(self), from, s),
    {
        let mut msg = s;
        if nick_command(msg.as_str()) {
            let idx = find_space(msg.as_str());
            let n = msg.as_str().unicode_len();
            proof {
                lemma_space_index_le(s@);
            }
            let nick = String::from_str(msg.as_str().substring_char(idx, n));
            proof {
                assert(nick@ =~= nick_of(s@));
            }
            self.nicks.insert(from.0, String::from_str(nick.as_str()));
            let mut text = crate::numfmt::to_hex_string(from.0);
            text.append(" is now known as ");
            text.append(nick.as_str());
            msg = text;
        }
        self.chat_counter = self.chat_counter + 1;
        if self.chat.len() >= 1000 {
            self.chat.pop_front();
        }
        self.chat.push_back((self.chat_counter, from, msg));
        proof {
            assert(self.chat@.drop_last() =~= bounded_push(old(self).chat@, (self.chat_counter, from, s)).drop_last());
        }
    }
}

/// The clock list after `from` reported `time`: a first report starts
/// `from`'s clock at `time`; later ones raise its elapsed time to
/// `time - first_time` when that is larger (never below zero).
pub open spec fn ticked(t: Seq<(EntityID, Tick)>, from: EntityID, time: u64, t2: Seq<(EntityID, Tick)>) -> bool {
    ||| exists|i: int| 0 <= i < t.len() && t[i].0 == from && t2 == t.update(i, (from, Tick {
            first_time: t[i].1.first_time,
            elapsed: if time >= t[i].1.first_time && time - t[i].1.first_time > t[i].1.elapsed { (time - t[i].1.first_time) as u64 } else { t[i].1.elapsed },
        }))
    ||| (forall|i: int| 0 <= i < t.len() ==> (#[trigger] t[i]).0 != from) && t2 == t.push((from, Tick { first_time: time, elapsed: 0 }))
}

/// `x` put into the increasing list `s` before the first larger element.
pub open spec fn insert_u64(s: Seq<u64>, x: u64) -> Seq<u64>
    decreases s.len(),
{
    if s.len() == 0 {
        seq![x]
    } else if s[0] <= x {
        seq![s[0]] + insert_u64(s.drop_first(), x)
    } else {
        seq![x] + s
    }
}

/// `s` in increasing order.
pub open spec fn sorted_u64(s: Seq<u64>) -> Seq<u64>
    decreases s.len(),
{
    if s.len() == 0 {
        s
    } else {
        insert_u64(sorted_u64(s.drop_last()), s.last())
    }
}

/// The median of the sorted list `s`: its middle element, or the mean
/// (rounded down) of its two middle elements.
pub open spec fn median(s: Seq<u64>) -> int {
    let h = (s.len() / 2) as int;
    if s.len() % 2 == 0 {
        (s[h] + s[h - 1]) / 2
    } else {
        s[h] as int
    }
}

/// The elapsed times of the clocks.
pub open spec fn elapsed_times(t: Seq<(EntityID, Tick)>) -> Seq<u64> {
    t.map_values(|e: (EntityID, Tick)| e.1.elapsed)
}

/// `insert_u64` puts `x` before the first larger element.
proof fn lemma_insert_u64_at(s: Seq<u64>, x: u64, j: int)
    requires
        0 <= j <= s.len(),
        forall|k: int| 0 <= k < j ==> #[trigger] s[k] <= x,
        j < s.len() ==> s[j] > x,
    ensures
        insert_u64(s, x) == s.insert(j, x),
    decreases s.len(),
{
    if s.len() == 0 {
        assert(s.insert(j, x) =~= seq![x]);
    } else if j == 0 {
        assert(s.insert(0, x) =~= seq![x] + s);
    } else {
        let t = s.drop_first();
        assert forall|k: int| 0 <= k < j - 1 implies #[trigger] t[k] <= x by {
            assert(t[k] == s[k + 1]);
        }
        lemma_insert_u64_at(t, x, j - 1);
        assert(s.insert(j, x) =~= seq![s[0]] + t.insert(j - 1, x));
    }
}

/// Sorts in increasing order.
fn sort_u64(v: Vec<u64>) -> (r: Vec<u64>)
    ensures
        r@ == sorted_u64(v@),
{
    let mut out: Vec<u64> = Vec::new();
    let mut i: usize = 0;
    while i < v.len()
        invariant
            i <= v.len(),
            out@ == sorted_u64(v@.take(i as int)),
        decreases v.len() - i,
    {
        let x = v[i];
        let mut j: usize = 0;
        while j < out.len() && out[j] <= x
            invariant
                j <= out.len(),
                forall|k: int| 0 <= k < j ==> #[trigger] out@[k] <= x,
            decreases out.len() - j,
        {
            j = j + 1;
        }
        proof {
            lemma_insert_u64_at(out@, x, j as int);
            assert(v@.take(i + 1).drop_last() =~= v@.take(i as int));
        }
        out.insert(j, x);
        i = i + 1;
    }
    assert(v@.take(v.len() as int) =~= v@);
    out
}

/// Inserting keeps the length plus one.
proof fn lemma_insert_u64_len(s: Seq<u64>, x: u64)
    ensures
        insert_u64(s, x).len() == s.len() + 1,
    decreases s.len(),
{
    if s.len() > 0 && s[0] <= x {
        lemma_insert_u64_len(s.drop_first(), x);
    }
}

/// Sorting keeps the length.
proof fn lemma_sorted_u64_len(s: Seq<u64>)
    ensures
        sorted_u64(s).len() == s.len(),
    decreases s.len(),
{
    if s.len() > 0 {
        lemma_sorted_u64_len(s.drop_last());
        lemma_insert_u64_len(sorted_u64(s.drop_last()), s.last());
    }
}

/// `s` never decreases.
pub open spec fn nondecreasing(s: Seq<u64>) -> bool {
    forall|i: int, j: int| 0 <= i <= j < s.len() ==> s[i] <= s[j]
}

/// Inserting into a list that never decreases keeps it so, and adds just
/// `x` to its elements.
proof fn lemma_insert_u64_sorted(s: Seq<u64>, x: u64)
    requires
        nondecreasing(s),
    ensures
        nondecreasing(insert_u64(s, x)),
        insert_u64(s, x).to_multiset() =~= s.to_multiset().insert(x),
    decreases s.len(),
{
    broadcast use vstd::multiset::group_multiset_axioms;
    broadcast use vstd::seq_lib::group_to_multiset_ensures;
    broadcast use vstd::seq_lib::lemma_multiset_commutative;

    let r = insert_u64(s, x);
    if s.len() == 0 {
        assert(r =~= Seq::<u64>::empty().push(x));
    } else if s[0] <= x {
        let t = s.drop_first();
        lemma_insert_u64_sorted(t, x);
        let rt = insert_u64(t, x);
        assert(s =~= seq![s[0]] + t);
        assert(seq![s[0]] =~= Seq::<u64>::empty().push(s[0]));
        assert(r == seq![s[0]] + rt);
        assert forall|k: int| 0 <= k < rt.len() implies s[0] <= #[trigger] rt[k] by {
            assert(rt.to_multiset().count(rt[k]) > 0);
            if rt[k] != x {
                assert(t.to_multiset().count(rt[k]) > 0);
                assert(t.contains(rt[k]));
                let j = choose|j: int| 0 <= j < t.len() && t[j] == rt[k];
                assert(s[j + 1] == t[j]);
            }
        }
        assert forall|i: int, j: int| 0 <= i <= j < r.len() implies r[i] <= r[j] by {
            if i == 0 {
                if j > 0 {
                    assert(r[j] == rt[j - 1]);
                }
            } else {
                assert(r[i] == rt[i - 1] && r[j] == rt[j - 1]);
            }
        }
    } else {
        assert(seq![x] =~= Seq::<u64>::empty().push(x));
        assert(r == seq![x] + s);
        assert forall|i: int, j: int| 0 <= i <= j < r.len() implies r[i] <= r[j] by {
            if i == 0 {
                if j > 0 {
                    assert(r[j] == s[j - 1]);
                    assert(s[0] <= s[j - 1]);
                }
            } else {
                assert(r[i] == s[i - 1] && r[j] == s[j - 1]);
            }
        }
    }
}

/// Sorting gives a list that never decreases, of the same elements.
proof fn lemma_sorted_u64_sorted(s: Seq<u64>)
    ensures
        nondecreasing(sorted_u64(s)),
        sorted_u64(s).to_multiset() =~= s.to_multiset(),
    decreases s.len(),
{
    broadcast use vstd::multiset::group_multiset_axioms;
    broadcast use vstd::seq_lib::group_to_multiset_ensures;

    if s.len() > 0 {
        lemma_sorted_u64_sorted(s.drop_last());
        lemma_insert_u64_sorted(sorted_u64(s.drop_last()), s.last());
        assert(s =~= s.drop_last().push(s.last()));
    }
}

/// The game's clock follows a median of the players' elapsed times: the
/// sorted list holds exactly those times, at least half of them (the first
/// half, rounded up) are at most the median and at least half (the last
/// half, rounded up) are at least the median; for an odd count it is the
/// middle time, for an even count the mean of the two middle times rounded
/// down.
pub proof fn law_clock_candidate_is_median(times: Seq<u64>)
    requires
        times.len() > 0,
    ensures
        ({
            let s = sorted_u64(times);
            let m = median(s);
            &&& s.to_multiset() == times.to_multiset()
            &&& s.len() == times.len()
            &&& forall|i: int| 0 <= i < (s.len() + 1) / 2 ==> #[trigger] s[i] <= m
            &&& forall|i: int| s.len() / 2 <= i < s.len() ==> #[trigger] s[i] >= m
            &&& s.len() % 2 == 1 ==> m == s[(s.len() / 2) as int]
            &&& s.len() % 2 == 0 ==> s[s.len() / 2 - 1] + s[(s.len() / 2) as int] - 1 <= 2 * m <= s[s.len() / 2 - 1] + s[(s.len() / 2) as int]
        }),
{
    lemma_sorted_u64_sorted(times);
    lemma_sorted_u64_len(times);
    let s = sorted_u64(times);
    let h = (s.len() / 2) as int;
    if s.len() % 2 == 0 {
        assert(s[h - 1] <= s[h]);
    }
    assert forall|i: int| 0 <= i < (s.len() + 1) / 2 implies #[trigger] s[i] <= median(s) by {
        if s.len() % 2 == 0 {
            assert(s[i] <= s[h - 1]);
        } else {
            assert(s[i] <= s[h]);
        }
    }
    assert forall|i: int| s.len() / 2 <= i < s.len() implies #[trigger] s[i] >= median(s) by {
        assert(s[h] <= s[i]);
    }
}

impl GameBoard {
    /// Records that `from` reported `time` (see `ticked`) and moves the
    /// game's clock to the median of the players' elapsed times, if that is
    /// later than the clock.
    pub fn update_current_time(&mut self, from: EntityID, time: u64)
        requires
            old(self).wf(),
        ensures
            final(self).wf(),
            *final(self) == (GameBoard { ticks: final(self).ticks, elapsed_time: final(self).elapsed_time, ..*old(self) }),
            ticked(old(self).ticks@, from, time, final(self).ticks@),
            final(self).elapsed_time == (if median(sorted_u64(elapsed_times(final(self).ticks@))) > old(self).elapsed_time {
                median(sorted_u64(elapsed_times(final(self).ticks@))) as u64
            } else {
                old(self).elapsed_time
            }),
    {
        let ghost t0 = self.ticks@;
        proof {
            assert(ticks_distinct(t0));
        }
        let mut i: usize = 0;
        while i < self.ticks.len() && self.ticks[i].0.0 != from.0
            invariant
                i <= self.ticks@.len(),
                self.ticks@ == t0,
                forall|k: int| 0 <= k < i ==> (#[trigger] self.ticks@[k]).0 != from,
            decreases self.ticks.len() - i,
        {
            i = i + 1;
        }
        if i < self.ticks.len() {
            let (who, tick) = self.ticks[i];
            let since = if time >= tick.first_time { time - tick.first_time } else { 0 };
            let elapsed = if since > tick.elapsed { since } else { tick.elapsed };
            self.ticks.set(i, (who, Tick { first_time: tick.first_time, elapsed }));
            proof {
                assert forall|a: int, b: int| 0 <= a < b < self.ticks@.len() implies (#[trigger] self.ticks@[a]).0 != (#[trigger] self.ticks@[b]).0 by {
                    assert(t0[a].0 != t0[b].0);
                }
                assert(self.ticks@ =~= t0.update(i as int, (from, Tick {
                    first_time: t0[i as int].1.first_time,
                    elapsed: if time >= t0[i as int].1.first_time && time - t0[i as int].1.first_time > t0[i as int].1.elapsed { (time - t0[i as int].1.first_time) as u64 } else { t0[i as int].1.elapsed },
                })));
            }
        } else {
            self.ticks.push((from, Tick { first_time: time, elapsed: 0 }));
            proof {
                assert forall|a: int, b: int| 0 <= a < b < self.ticks@.len() implies (#[trigger] self.ticks@[a]).0 != (#[trigger] self.ticks@[b]).0 by {
                    if b < t0.len() {
                        assert(t0[a].0 != t0[b].0);
                    } else {
                        assert(self.ticks@[a] == t0[a]);
                    }
                }
            }
        }
        let mut elapsed: Vec<u64> = Vec::new();
        let mut k: usize = 0;
        while k < self.ticks.len()
            invariant
                k <= self.ticks@.len(),
                elapsed@ =~= elapsed_times(self.ticks@).take(k as int),
            decreases self.ticks.len() - k,
        {
            elapsed.push(self.ticks[k].1.elapsed);
            k = k + 1;
        }
        assert(elapsed_times(self.ticks@).take(k as int) =~= elapsed_times(self.ticks@));
        let sorted = sort_u64(elapsed);
        proof {
            lemma_sorted_u64_len(elapsed_times(self.ticks@));
            assert(self.ticks@.len() > 0);
        }
        let n = sorted.len();
        let m: u64 = if n % 2 == 0 {
            let hi = sorted[n / 2] as u128;
            let lo = sorted[n / 2 - 1] as u128;
            ((hi + lo) / 2) as u64
        } else {
            sorted[n / 2]
        };
        if m > self.elapsed_time {
            self.elapsed_time = m;
        }
    }
}



/// What minting a power plant did (see `GameBoard::mint_power_plant`).
pub open spec fn minted(g0: &GameBoard, g1: &GameBoard, scale: u64, location: (i64, i64), plant_type: PlantType, owner: EntityID) -> bool {
    let bill = crate::nfts::scaled_bill(g0.plant_prices.bill(plant_type), scale);
    let id = (g0.alloc.0 + 1) as u64;
    if can_afford(&g0.tokens, bill, owner.0) {
        &&& *g1 == (GameBoard { tokens: g1.tokens, alloc: g1.alloc, nfts: g1.nfts, ..*g0 })
        &&& g1.alloc.0 == id
        &&& g1.nfts.nfts@ == g0.nfts.nfts@.insert(id, BaseNFT { owner, nft_id: EntityID(id), transfer_count: 0 })
        &&& g1.nfts.power_plants@ == g0.nfts.power_plants@.push(PowerPlant {
            id: NftPtr(EntityID(id)),
            plant_type,
            watts: crate::nfts::bill_watts(bill) as u128,
            coordinates: location,
        })
        &&& ledgers(&g1.tokens) == pay_bill(ledgers(&g0.tokens), bill, owner.0, id)
        &&& crate::token_swap::same_meta(&g0.tokens, &g1.tokens)
    } else {
        *g1 == *g0
    }
}

/// No token is named twice in `bill`.
pub open spec fn bill_distinct(bill: Seq<(TokenPointer, u128)>) -> bool {
    forall|i: int, j: int| 0 <= i < j < bill.len() ==> (#[trigger] bill[i]).0 != (#[trigger] bill[j]).0
}

proof fn lemma_pay_bill_drops(l: Map<u64, Map<u64, u128>>, bill: Seq<(TokenPointer, u128)>, from: u64, to: u64)
    requires
        from != to,
        bill_distinct(bill),
        forall|i: int| 0 <= i < bill.len() ==> l.contains_key(#[trigger] bill[i].0.0.0) && balance_of(l[bill[i].0.0.0], from) >= bill[i].1,
    ensures
        pay_bill(l, bill, from, to).dom() == l.dom(),
        forall|i: int| 0 <= i < bill.len() ==> balance_of(pay_bill(l, bill, from, to)[#[trigger] bill[i].0.0.0], from) == balance_of(l[bill[i].0.0.0], from) - bill[i].1,
        forall|k: u64| (forall|i: int| 0 <= i < bill.len() ==> #[trigger] bill[i].0.0.0 != k) ==> #[trigger] pay_bill(l, bill, from, to)[k] == l[k],
    decreases bill.len(),
{
    if bill.len() > 0 {
        let rest = bill.drop_last();
        let last = bill.last();
        let tok = last.0.0.0;
        assert(bill_distinct(rest)) by {
            assert forall|i: int, j: int| 0 <= i < j < rest.len() implies (#[trigger] rest[i]).0 != (#[trigger] rest[j]).0 by {
                assert(rest[i] == bill[i] && rest[j] == bill[j]);
            }
        }
        assert forall|i: int| 0 <= i < rest.len() implies l.contains_key(#[trigger] rest[i].0.0.0) && balance_of(l[rest[i].0.0.0], from) >= rest[i].1 by {
            assert(rest[i] == bill[i]);
        }
        lemma_pay_bill_drops(l, rest, from, to);
        let l1 = pay_bill(l, rest, from, to);
        assert forall|i: int| 0 <= i < rest.len() implies #[trigger] rest[i].0.0.0 != tok by {
            assert(rest[i] == bill[i]);
            assert(bill[i].0 != bill[bill.len() - 1].0);
        }
        assert(l1[tok] == l[tok]);
        assert(l.contains_key(tok) && balance_of(l[tok], from) >= last.1) by {
            assert(bill[bill.len() - 1] == last);
        }
        let m = l1[tok];
        let burnt = m.insert(from, (balance_of(m, from) - last.1) as u128);
        assert(balance_of(transferred(m, from, to, last.1), from) == balance_of(m, from) - last.1);
        assert forall|i: int| 0 <= i < bill.len() implies balance_of(pay_bill(l, bill, from, to)[#[trigger] bill[i].0.0.0], from) == balance_of(l[bill[i].0.0.0], from) - bill[i].1 by {
            if i < bill.len() - 1 {
                assert(bill[i] == rest[i]);
                assert(bill[i].0 != last.0);
            }
        }
        assert forall|k: u64| (forall|i: int| 0 <= i < bill.len() ==> #[trigger] bill[i].0.0.0 != k) implies #[trigger] pay_bill(l, bill, from, to)[k] == l[k] by {
            assert(bill[bill.len() - 1].0.0.0 != k);
            assert forall|i: int| 0 <= i < rest.len() implies #[trigger] rest[i].0.0.0 != k by {
                assert(rest[i] == bill[i]);
            }
        }
    }
}

/// Minting a plant takes its bill from the owner: a plant is made only when
/// the owner held at least the quantity of every item of the scaled bill,
/// and then (for a bill that names each token once, and an owner other than
/// the new plant) the owner's holding of each item drops by exactly that
/// quantity; otherwise the board is as it was.
pub proof fn law_mint_pays_the_bill(g0: &GameBoard, g1: &GameBoard, scale: u64, location: (i64, i64), plant_type: PlantType, owner: EntityID)
    requires
        g0.wf(),
        minted(g0, g1, scale, location, plant_type, owner),
    ensures
        ({
            let bill = crate::nfts::scaled_bill(g0.plant_prices.bill(plant_type), scale);
            &&& g1.nfts.power_plants@.len() > g0.nfts.power_plants@.len() ==>
                forall|i: int| 0 <= i < bill.len() ==> g0.tokens.bal(#[trigger] bill[i].0.0.0, owner.0) >= bill[i].1
            &&& g1.nfts.power_plants@.len() <= g0.nfts.power_plants@.len() ==> *g1 == *g0
            &&& g1.nfts.power_plants@.len() > g0.nfts.power_plants@.len() && bill_distinct(bill) && owner.0 != (g0.alloc.0 + 1) as u64 ==>
                forall|i: int| 0 <= i < bill.len() ==> g1.tokens.bal(#[trigger] bill[i].0.0.0, owner.0) == g0.tokens.bal(bill[i].0.0.0, owner.0) - bill[i].1
        }),
{
    let bill = crate::nfts::scaled_bill(g0.plant_prices.bill(plant_type), scale);
    let base = g0.plant_prices.bill(plant_type);
    if can_afford(&g0.tokens, bill, owner.0) && bill_distinct(bill) && owner.0 != (g0.alloc.0 + 1) as u64 {
        let id = (g0.alloc.0 + 1) as u64;
        let l = ledgers(&g0.tokens);
        assert forall|i: int| 0 <= i < bill.len() implies l.contains_key(#[trigger] bill[i].0.0.0) && balance_of(l[bill[i].0.0.0], owner.0) >= bill[i].1 by {
            assert(bill[i].0 == base[i].0);
            assert(g0.tokens.tokens@.contains_key(base[i].0.0.0)) by {
                match plant_type {
                    PlantType::Solar => assert(g0.tokens.tokens@.contains_key(g0.plant_prices.solar@[i].0.0.0)),
                    PlantType::Hydro => assert(g0.tokens.tokens@.contains_key(g0.plant_prices.hydro@[i].0.0.0)),
                    PlantType::Flare => assert(g0.tokens.tokens@.contains_key(g0.plant_prices.flare@[i].0.0.0)),
                }
            }
        }
        lemma_pay_bill_drops(l, bill, owner.0, id);
        assert forall|i: int| 0 <= i < bill.len() implies g1.tokens.bal(#[trigger] bill[i].0.0.0, owner.0) == g0.tokens.bal(bill[i].0.0.0, owner.0) - bill[i].1 by {
            let k = bill[i].0.0.0;
            assert(l.contains_key(k));
            assert(ledgers(&g1.tokens).contains_key(k));
            assert(ledgers(&g1.tokens)[k] == g1.tokens.tokens@[k].balances@);
        }
    }
}

/// What locking up coins did (see `GameBoard::lockup`).
pub open spec fn locked_up(g0: &GameBoard, g1: &GameBoard, sender: EntityID, owner: EntityID, asset: TokenPointer, amount: u128, time_when_free: u64) -> bool {
    let id = (g0.alloc.0 + 1) as u64;
    let cb = Callback::CoinLockup(CoinLockup { id: NftPtr(EntityID(id)), time_when_free, asset });
    &&& *g1 == (GameBoard { tokens: g1.tokens, alloc: g1.alloc, nfts: g1.nfts, callbacks: g1.callbacks, ..*g0 })
    &&& g1.alloc.0 == id
    &&& g1.nfts.nfts@ == g0.nfts.nfts@.insert(id, BaseNFT { owner, nft_id: EntityID(id), transfer_count: u128::MAX })
    &&& g1.nfts.power_plants@ == g0.nfts.power_plants@
    &&& g1.callbacks.callbacks@ == g0.callbacks.callbacks@.insert(crate::callbacks::slot_for(g0.callbacks.callbacks@, time_when_free), cb)
    &&& ledgers(&g1.tokens) == pay_item(ledgers(&g0.tokens), asset.0.0, sender.0, id, amount)
    &&& crate::token_swap::same_meta(&g0.tokens, &g1.tokens)
}

/// The first listed plant with identifier `id`.
pub open spec fn plant_index(ps: Seq<PowerPlant>, id: u64) -> int
    decreases ps.len(),
{
    if ps.len() == 0 {
        -1
    } else if plant_index(ps.drop_last(), id) >= 0 {
        plant_index(ps.drop_last(), id)
    } else if ps.last().id.0.0 == id {
        ps.len() - 1
    } else {
        -1
    }
}

/// The moves the board can carry out without failing outright: coins sent
/// must exist, and hash boards can only be shipped out of a known NFT
/// (that is a plant when its owner asks).
pub open spec fn move_in_range(g: &GameBoard, m: GameMove, from: EntityID) -> bool {
    match m {
        GameMove::SendTokens(t) => g.tokens.has(t.currency),
        GameMove::RemoveTokens(r) => {
            &&& g.nfts.nfts@.contains_key(r.nft_id.0.0)
            &&& g.nfts.nfts@[r.nft_id.0.0].owner == from ==> plant_index(g.nfts.power_plants@, r.nft_id.0.0) >= 0
        },
        _ => true,
    }
}

/// The ledgers after `amt` of token `tok` went from `from` to `to`, when
/// `from` held that much (else unchanged).
pub open spec fn pay_item(l: Map<u64, Map<u64, u128>>, tok: u64, from: u64, to: u64, amt: u128) -> Map<u64, Map<u64, u128>> {
    if balance_of(l[tok], from) >= amt {
        l.insert(tok, transferred(l[tok], from, to, amt))
    } else {
        l
    }
}

/// The ledgers after every item of `bill` was paid in turn from `from` to
/// `to` (an item `from` cannot pay is skipped).
pub open spec fn pay_bill(l: Map<u64, Map<u64, u128>>, bill: Seq<(TokenPointer, u128)>, from: u64, to: u64) -> Map<u64, Map<u64, u128>>
    decreases bill.len(),
{
    if bill.len() == 0 {
        l
    } else {
        pay_item(pay_bill(l, bill.drop_last(), from, to), bill.last().0.0.0, from, to, bill.last().1)
    }
}

/// `owner` holds every item of `bill`.
pub open spec fn can_afford(tokens: &TokenRegistry, bill: Seq<(TokenPointer, u128)>, owner: u64) -> bool {
    forall|i: int| 0 <= i < bill.len() ==> tokens.bal(#[trigger] bill[i].0.0.0, owner) >= bill[i].1
}

/// A transfer through the registry is a `pay_item` on the ledgers.
proof fn lemma_transfer_ledgers(t0: &TokenRegistry, t1: &TokenRegistry, tok: u64, from: u64, to: u64, amt: u128, ok: bool)
    requires
        t0.tokens@.contains_key(tok),
        t1.only_changed(t0, tok),
        ok == (t0.bal(tok, from) >= amt),
        ok ==> t1.tokens@[tok].balances@ == transferred(t0.tokens@[tok].balances@, from, to, amt),
        !ok ==> t1.tokens@[tok].balances@ == t0.tokens@[tok].balances@,
    ensures
        ledgers(t1) == pay_item(ledgers(t0), tok, from, to, amt),
{
    if ok {
        assert(ledgers(t1) =~= pay_item(ledgers(t0), tok, from, to, amt));
    } else {
        assert(ledgers(t1) =~= ledgers(t0));
    }
}

impl GameBoard {
    /// Mints a power plant NFT of `plant_type` and `scale` at `location` for
    /// `owner`, who pays the materials of the scaled bill (see
    /// `PlantType::raw_materials_bill`) to the plant. Nothing happens when
    /// `owner` lacks any item of the bill.
    pub fn mint_power_plant(&mut self, scale: u64, location: (i64, i64), plant_type: PlantType, owner: EntityID)
        requires
            old(self).wf(),
            old(self).users@.contains_key(owner.0),
            old(self).alloc.0 < u64::MAX,
        ensures
            final(self).wf(),
            minted(old(self), final(self), scale, location, plant_type, owner),
    {
        let ghost g0 = *self;
        let resources = plant_type.raw_materials_bill(&self.plant_prices, scale);
        proof {
            assert forall|k: int| 0 <= k < resources@.len() implies self.tokens.tokens@.contains_key(#[trigger] resources@[k].0.0.0) by {
                let b = self.plant_prices.bill(plant_type);
                assert(resources@[k].0 == b[k].0);
                assert(self.tokens.tokens@.contains_key(b[k].0.0.0));
            }
        }
        let mut insufficient = false;
        let mut i: usize = 0;
        while i < resources.len()
            invariant
                i <= resources@.len(),
                *self == g0,
                g0.wf(),
                resources@ == crate::nfts::scaled_bill(self.plant_prices.bill(plant_type), scale),
                insufficient == !can_afford(&self.tokens, resources@.take(i as int), owner.0),
                bill_tokens_ok(&self.tokens, resources@),
            decreases resources.len() - i,
        {
            let (currency, price) = resources[i];
            assert(self.tokens.tokens@.contains_key(resources@[i as int].0.0.0));
            let short = self.tokens.balance_check(currency, &owner) < price;
            proof {
                let t = resources@.take(i + 1);
                let t0 = resources@.take(i as int);
                if !insufficient && !short {
                    assert forall|k: int| 0 <= k < t.len() implies self.tokens.bal(#[trigger] t[k].0.0.0, owner.0) >= t[k].1 by {
                        if k < i {
                            assert(t[k] == t0[k]);
                        }
                    }
                } else if short {
                    assert(t[i as int] == resources@[i as int]);
                } else {
                    let k = choose|k: int| 0 <= k < t0.len() && !(self.tokens.bal(#[trigger] t0[k].0.0.0, owner.0) >= t0[k].1);
                    assert(t[k] == t0[k]);
                }
            }
            if short {
                insufficient = true;
            }
            i = i + 1;
        }
        assert(resources@.take(i as int) =~= resources@);
        if insufficient {
            return;
        }
        let nft_id = self.alloc.make();
        let ptr = self.nfts.add(BaseNFT { owner, nft_id, transfer_count: 0 });
        let plant = PowerPlant::new(&self.plant_prices, ptr, plant_type, location, scale);
        proof {
            assert forall|k: int| 0 <= k < self.nfts.power_plants@.len() implies (#[trigger] self.nfts.power_plants@[k]).id.0.0 < plant.id.0.0 by {
                assert(plant_ok(&g0, g0.nfts.power_plants@[k]));
            }
            assert(!g0.nfts.nfts@.contains_key(nft_id.0));
        }
        let ghost before = self.nfts.power_plants@;
        self.nfts.add_plant(plant);
        let ghost g1 = *self;
        proof {
            assert forall|k: int| 0 <= k < self.nfts.power_plants@.len() implies plant_ok(self, #[trigger] self.nfts.power_plants@[k]) by {
                if k < before.len() {
                    assert(self.nfts.power_plants@[k] == before[k]);
                    assert(plant_ok(&g0, before[k]));
                }
            }
            assert forall|kk: (u64, u64)| #[trigger] self.swap.markets@.contains_key(kk) implies crate::token_swap::market_ok(&self.tokens, self.swap.markets@[kk], kk, self.alloc.0) by {
                assert(crate::token_swap::market_ok(&g0.tokens, g0.swap.markets@[kk], kk, g0.alloc.0));
            }
            assert forall|k: u64| #[trigger] self.tokens.tokens@.contains_key(k) implies k <= self.alloc.0 by {
                assert(g0.tokens.tokens@.contains_key(k));
            }
            assert forall|k: u64| #[trigger] self.nfts.nfts@.contains_key(k) implies k <= self.alloc.0 by {
                if k != nft_id.0 {
                    assert(g0.nfts.nfts@.contains_key(k));
                }
            }
            assert(self.wf());
        }
        let mut j: usize = 0;
        while j < resources.len()
            invariant
                j <= resources@.len(),
                self.wf(),
                *self == (GameBoard { tokens: self.tokens, ..g1 }),
                bill_tokens_ok(&self.tokens, resources@),
                ledgers(&self.tokens) == pay_bill(ledgers(&g0.tokens), resources@.take(j as int), owner.0, nft_id.0),
                crate::token_swap::same_meta(&g0.tokens, &self.tokens),
                self.tokens.tokens@.dom() == g0.tokens.tokens@.dom(),
                ptr.0 == nft_id,
            decreases resources.len() - j,
        {
            let (currency, price) = resources[j];
            assert(self.tokens.tokens@.contains_key(resources@[j as int].0.0.0));
            let ghost t0 = self.tokens;
            let ok = self.transfer(currency, owner, ptr.0, price);
            proof {
                lemma_transfer_ledgers(&t0, &self.tokens, currency.0.0, owner.0, nft_id.0, price, ok);
                assert(resources@.take(j + 1).drop_last() =~= resources@.take(j as int));
                crate::token_swap::lemma_only_changed_keeps_meta(&t0, &self.tokens, currency.0.0);
                crate::token_swap::lemma_same_meta_chain(&g0.tokens, &t0, &self.tokens);
                assert(self.tokens.tokens@.dom() =~= g0.tokens.tokens@.dom());
                assert forall|k: int| 0 <= k < resources@.len() implies self.tokens.tokens@.contains_key(#[trigger] resources@[k].0.0.0) by {
                    assert(t0.tokens@.contains_key(resources@[k].0.0.0));
                }
            }
            j = j + 1;
        }
        assert(resources@.take(j as int) =~= resources@);
    }
}


/// Where `plant_index` finds a plant.
proof fn lemma_plant_index(ps: Seq<PowerPlant>, id: u64, i: int)
    requires
        0 <= i < ps.len(),
        ps[i].id.0.0 == id,
        forall|k: int| 0 <= k < i ==> (#[trigger] ps[k]).id.0.0 != id,
    ensures
        plant_index(ps, id) == i,
    decreases ps.len(),
{
    if i < ps.len() - 1 {
        lemma_plant_index(ps.drop_last(), id, i);
    } else {
        lemma_plant_index_none(ps.drop_last(), id);
    }
}

/// A found plant has the identifier asked for and lies within the list.
proof fn lemma_plant_index_bounds(ps: Seq<PowerPlant>, id: u64)
    ensures
        -1 <= plant_index(ps, id) < ps.len(),
        plant_index(ps, id) >= 0 ==> ps[plant_index(ps, id)].id.0.0 == id,
    decreases ps.len(),
{
    if ps.len() > 0 {
        lemma_plant_index_bounds(ps.drop_last(), id);
    }
}

/// Without a plant of identifier `id`, `plant_index` is negative.
proof fn lemma_plant_index_none(ps: Seq<PowerPlant>, id: u64)
    requires
        forall|k: int| 0 <= k < ps.len() ==> (#[trigger] ps[k]).id.0.0 != id,
    ensures
        plant_index(ps, id) == -1,
    decreases ps.len(),
{
    if ps.len() > 0 {
        lemma_plant_index_none(ps.drop_last(), id);
    }
}

impl GameBoard {
    /// Whether `play` may be given move `m` of `from` (see `move_in_range`):
    /// tokens sent exist, and a plant that hash boards are shipped out of
    /// exists and, when `from` owns it, is a listed power plant.
    pub fn move_in_range_exec(&self, m: &GameMove, from: EntityID) -> (b: bool)
        ensures
            b == move_in_range(self, *m, from),
    {
        match m {
            GameMove::SendTokens(t) => self.tokens.tokens.contains_key(&t.currency.0.0),
            GameMove::RemoveTokens(r) => {
                if !self.nfts.nfts.contains_key(&r.nft_id.0.0) {
                    return false;
                }
                let owner = self.nfts.owner_of(r.nft_id);
                if owner.0 == from.0 {
                    self.find_plant(r.nft_id).is_some()
                } else {
                    true
                }
            },
            _ => true,
        }
    }

    /// The listed plant with identifier `id`, if any.
    pub fn find_plant(&self, id: NftPtr) -> (r: Option<PowerPlant>)
        ensures
            plant_index(self.nfts.power_plants@, id.0.0) >= 0 ==> r == Some(self.nfts.power_plants@[plant_index(self.nfts.power_plants@, id.0.0)]),
            plant_index(self.nfts.power_plants@, id.0.0) < 0 ==> r is None,
    {
        let mut i: usize = 0;
        while i < self.nfts.power_plants.len()
            invariant
                i <= self.nfts.power_plants@.len(),
                forall|k: int| 0 <= k < i ==> (#[trigger] self.nfts.power_plants@[k]).id.0.0 != id.0.0,
            decreases self.nfts.power_plants.len() - i,
        {
            if self.nfts.power_plants[i].id.0.0 == id.0.0 {
                proof {
                    lemma_plant_index(self.nfts.power_plants@, id.0.0, i as int);
                }
                return Some(self.nfts.power_plants[i]);
            }
            i = i + 1;
        }
        proof {
            lemma_plant_index_none(self.nfts.power_plants@, id.0.0);
        }
        None
    }

    /// Locks `amount` of `asset` of `sender` into a new non-transferable NFT
    /// owned by `owner`, released to `owner` at `time_when_free`.
    pub fn lockup(&mut self, sender: EntityID, owner: EntityID, asset: TokenPointer, amount: u128, time_when_free: u64)
        requires
            old(self).wf(),
            old(self).tokens.has(asset),
            old(self).alloc.0 < u64::MAX,
        ensures
            final(self).wf(),
            locked_up(old(self), final(self), sender, owner, asset, amount, time_when_free),
    {
        let ghost g0 = *self;
        let nft_id = self.alloc.make();
        let lockup_id = self.nfts.add(BaseNFT { owner, nft_id, transfer_count: u128::MAX });
        proof {
            assert(!g0.nfts.nfts@.contains_key(nft_id.0));
            assert forall|kk: (u64, u64)| #[trigger] self.swap.markets@.contains_key(kk) implies crate::token_swap::market_ok(&self.tokens, self.swap.markets@[kk], kk, self.alloc.0) by {
                assert(crate::token_swap::market_ok(&g0.tokens, g0.swap.markets@[kk], kk, g0.alloc.0));
            }
            assert forall|k: u64| #[trigger] self.tokens.tokens@.contains_key(k) implies k <= self.alloc.0 by {
                assert(g0.tokens.tokens@.contains_key(k));
            }
            assert forall|k: u64| #[trigger] self.nfts.nfts@.contains_key(k) implies k <= self.alloc.0 by {
                if k != nft_id.0 {
                    assert(g0.nfts.nfts@.contains_key(k));
                }
            }
            assert forall|k: int| 0 <= k < self.nfts.power_plants@.len() implies plant_ok(self, #[trigger] self.nfts.power_plants@[k]) by {
                assert(plant_ok(&g0, g0.nfts.power_plants@[k]));
            }
        }
        self.schedule(Callback::CoinLockup(CoinLockup { id: lockup_id, time_when_free, asset }));
        let ghost t0 = self.tokens;
        let ok = self.transfer(asset, sender, lockup_id.0, amount);
        proof {
            lemma_transfer_ledgers(&t0, &self.tokens, asset.0.0, sender.0, nft_id.0, amount, ok);
            crate::token_swap::lemma_only_changed_keeps_meta(&t0, &self.tokens, asset.0.0);
        }
    }

    /// Buys every material of the scaled bill of `plant_type` with virtual
    /// sats (a failed purchase is skipped), then mints the plant (see
    /// `mint_power_plant`).
    pub fn super_mint(&mut self, scale: u64, location: (i64, i64), plant_type: PlantType, owner: EntityID)
        requires
            old(self).wf(),
            old(self).users@.contains_key(owner.0),
            old(self).alloc.0 + 64 <= u64::MAX,
        ensures
            final(self).wf(),
            *final(self) == (GameBoard { tokens: final(self).tokens, swap: final(self).swap, alloc: final(self).alloc, nfts: final(self).nfts, ..*old(self) }),
            final(self).alloc.0 <= old(self).alloc.0 + 33,
            super_minted(old(self), final(self), scale, location, plant_type, owner),
    {
        let ghost g0 = *self;
        let resources = plant_type.raw_materials_bill(&self.plant_prices, scale);
        let btc = self.bitcoin_token_id;
        assert(resources@.take(0) =~= Seq::<(TokenPointer, u128)>::empty());
        let mut i: usize = 0;
        while i < resources.len()
            invariant
                i <= resources@.len(),
                resources@.len() <= 16,
                self.wf(),
                *self == (GameBoard { tokens: self.tokens, swap: self.swap, alloc: self.alloc, ..g0 }),
                self.alloc.0 <= g0.alloc.0 + 2 * i,
                g0.alloc.0 + 64 <= u64::MAX,
                btc == self.bitcoin_token_id,
                self.users@.contains_key(owner.0),
                forall|k: int| 0 <= k < resources@.len() ==> self.tokens.tokens@.contains_key(#[trigger] resources@[k].0.0.0),
                btc == g0.bitcoin_token_id,
                bought_all(&g0, self, resources@.take(i as int), owner),
            decreases resources.len() - i,
        {
            let (material, qty) = resources[i];
            assert(self.tokens.tokens@.contains_key(resources@[i as int].0.0.0));
            let ghost t0 = self.tokens;
            let ghost gm = *self;
            let tr = self.buy_trade(TradingPairID { asset_a: material, asset_b: btc }, qty, 0, None, false, owner);
            proof {
                let t1 = resources@.take(i + 1);
                assert(t1.drop_last() =~= resources@.take(i as int));
                assert(t1.last() == (material, qty));
                assert(purchase_done(&gm, self, TradingPairID { asset_a: t1.last().0, asset_b: g0.bitcoin_token_id }, t1.last().1, owner, tr));
            }
            proof {
                assert forall|k: int| 0 <= k < resources@.len() implies self.tokens.tokens@.contains_key(#[trigger] resources@[k].0.0.0) by {
                    assert(t0.tokens@.contains_key(resources@[k].0.0.0));
                }
            }
            i = i + 1;
        }
        assert(resources@.take(resources@.len() as int) =~= resources@);
        let ghost gm = *self;
        self.mint_power_plant(scale, location, plant_type, owner);
        assert(bought_all(&g0, &gm, crate::nfts::scaled_bill(g0.plant_prices.bill(plant_type), scale), owner));
    }
}

/// `g1` is `g0` after `owner` bought `amount_a` of the first asset of
/// `pair` through its market, with outcome `tr` (see `buy_trade_post`).
pub open spec fn purchase_done(g0: &GameBoard, g1: &GameBoard, pair: TradingPairID, amount_a: u128, owner: EntityID, tr: Result<TradeOutcome, TradeError>) -> bool {
    &&& *g1 == (GameBoard { tokens: g1.tokens, swap: g1.swap, alloc: g1.alloc, ..*g0 })
    &&& crate::token_swap::buy_trade_post(&g0.tokens, &g0.swap, g0.alloc.0, &g1.tokens, &g1.swap, pair, amount_a, 0, None, false, owner.0, tr)
}

/// `g1` is `g0` after `owner` bought each material of `bill` in turn with
/// virtual sats (a refused purchase changes nothing).
pub open spec fn bought_all(g0: &GameBoard, g1: &GameBoard, bill: Seq<(TokenPointer, u128)>, owner: EntityID) -> bool
    decreases bill.len(),
{
    if bill.len() == 0 {
        *g1 == *g0
    } else {
        exists|gm: GameBoard, tr: Result<TradeOutcome, TradeError>| {
            &&& bought_all(g0, &gm, bill.drop_last(), owner)
            &&& #[trigger] purchase_done(&gm, g1, TradingPairID { asset_a: bill.last().0, asset_b: g0.bitcoin_token_id }, bill.last().1, owner, tr)
        }
    }
}

/// What minting a plant with bought materials did (see
/// `GameBoard::super_mint`): the materials of the plant's bill bought in
/// turn, then the plant minted (see `minted`).
pub open spec fn super_minted(g0: &GameBoard, g1: &GameBoard, scale: u64, location: (i64, i64), plant_type: PlantType, owner: EntityID) -> bool {
    exists|gm: GameBoard| {
        &&& #[trigger] bought_all(g0, &gm, crate::nfts::scaled_bill(g0.plant_prices.bill(plant_type), scale), owner)
        &&& minted(&gm, g1, scale, location, plant_type, owner)
    }
}

/// The offers after `sender` offered the NFT `nft_id` for `price` in
/// `currency`: only the NFT's owner may offer it, and a new offer replaces
/// an earlier one.
pub open spec fn listed(g: &GameBoard, sender: EntityID, nft_id: NftPtr, price: u128, currency: TokenPointer) -> Map<u64, NFTSale> {
    let k = nft_id.0.0;
    if g.nfts.nfts@.contains_key(k) && g.nfts.nfts@[k].owner == sender {
        g.nft_sales.nfts@.insert(k, NFTSale { price, currency, seller: sender, transfer_count: g.nfts.nfts@[k].transfer_count })
    } else {
        g.nft_sales.nfts@
    }
}

/// A purchase of the NFT `nft_id` by `buyer` goes through: the NFT is on
/// offer by its current owner since its last change of hands, in `currency`,
/// at a price within `limit_price` that the buyer holds.
pub open spec fn purchase_ok(g: &GameBoard, buyer: EntityID, nft_id: NftPtr, limit_price: u128, currency: TokenPointer) -> bool {
    let k = nft_id.0.0;
    let o = g.nft_sales.nfts@[k];
    &&& g.nft_sales.nfts@.contains_key(k)
    &&& g.nfts.nfts@.contains_key(k)
    &&& g.nfts.nfts@[k].owner == o.seller
    &&& g.nfts.nfts@[k].transfer_count == o.transfer_count
    &&& o.transfer_count < u128::MAX
    &&& o.currency == currency
    &&& o.price <= limit_price
    &&& g.tokens.has(currency)
    &&& g.tokens.bal(currency.0.0, buyer.0) >= o.price
}

/// What a purchase did: when it goes through (see `purchase_ok`) the price
/// moves from the buyer to the seller, the NFT to the buyer, and the offer
/// is gone; otherwise nothing changes.
pub open spec fn purchased(g0: &GameBoard, g1: &GameBoard, buyer: EntityID, nft_id: NftPtr, limit_price: u128, currency: TokenPointer) -> bool {
    let k = nft_id.0.0;
    let o = g0.nft_sales.nfts@[k];
    if purchase_ok(g0, buyer, nft_id, limit_price, currency) {
        &&& *g1 == (GameBoard { tokens: g1.tokens, nfts: g1.nfts, nft_sales: g1.nft_sales, ..*g0 })
        &&& g1.tokens.only_changed(&g0.tokens, currency.0.0)
        &&& g1.tokens.tokens@[currency.0.0].balances@ == transferred(g0.tokens.tokens@[currency.0.0].balances@, buyer.0, o.seller.0, o.price)
        &&& g1.nfts.nfts@ == g0.nfts.nfts@.insert(k, BaseNFT { owner: buyer, nft_id: g0.nfts.nfts@[k].nft_id, transfer_count: (o.transfer_count + 1) as u128 })
        &&& g1.nfts.power_plants@ == g0.nfts.power_plants@
        &&& g1.nft_sales.nfts@ == g0.nft_sales.nfts@.remove(k)
    } else {
        *g1 == *g0
    }
}

impl GameBoard {
    /// Offers the NFT `nft_id` for sale at `price` in `currency`, when
    /// `sender` owns it (see `listed`).
    pub fn list_nft(&mut self, sender: EntityID, nft_id: NftPtr, price: u128, currency: TokenPointer)
        requires
            old(self).wf(),
        ensures
            final(self).wf(),
            *final(self) == (GameBoard { nft_sales: final(self).nft_sales, ..*old(self) }),
            final(self).nft_sales.nfts@ == listed(old(self), sender, nft_id, price, currency),
    {
        let k = nft_id.0.0;
        if self.nfts.nfts.contains_key(&k) {
            let owner = self.nfts.owner_of(nft_id);
            if owner.0 == sender.0 {
                let tc = self.nfts.nfts.get(&k).unwrap().transfer_count();
                self.nft_sales.nfts.insert(k, NFTSale { price, currency, seller: sender, transfer_count: tc });
            }
        }
    }

    /// Buys the NFT `nft_id` for `buyer` when it is on offer within
    /// `limit_price` in `currency` (see `purchased`).
    pub fn purchase_nft(&mut self, buyer: EntityID, nft_id: NftPtr, limit_price: u128, currency: TokenPointer)
        requires
            old(self).wf(),
            old(self).users@.contains_key(buyer.0),
        ensures
            final(self).wf(),
            purchased(old(self), final(self), buyer, nft_id, limit_price, currency),
    {
        let ghost g0 = *self;
        let k = nft_id.0.0;
        let offer = match self.nft_sales.nfts.get(&k) {
            Some(o) => *o,
            None => {
                return;
            },
        };
        if !self.nfts.nfts.contains_key(&k) {
            return;
        }
        let nft = *self.nfts.nfts.get(&k).unwrap();
        if nft.owner.0 != offer.seller.0 || nft.transfer_count != offer.transfer_count || offer.transfer_count == u128::MAX
            || offer.currency.0.0 != currency.0.0 || offer.price > limit_price {
            return;
        }
        if !self.tokens.tokens.contains_key(&currency.0.0) {
            return;
        }
        if self.tokens.balance_check(currency, &buyer) < offer.price {
            return;
        }
        assert(purchase_ok(&g0, buyer, nft_id, limit_price, currency));
        let _ = self.transfer(currency, buyer, offer.seller, offer.price);
        let ghost g1 = *self;
        self.nfts.transfer_nft(nft_id, buyer);
        self.nft_sales.nfts.remove(&k);
        proof {
            assert forall|i: int| 0 <= i < self.nfts.power_plants@.len() implies plant_ok(self, #[trigger] self.nfts.power_plants@[i]) by {
                assert(plant_ok(&g1, g1.nfts.power_plants@[i]));
            }
            assert forall|kk: u64| #[trigger] self.nfts.nfts@.contains_key(kk) implies kk <= self.alloc.0 by {
                assert(g1.nfts.nfts@.contains_key(kk));
            }
        }
    }
}

/// What the interface shows of an offer: the offer on that NFT.
pub open spec fn sale_view_ok(g: &GameBoard, l: UXNFTSale) -> bool {
    let o = g.nft_sales.nfts@[l.nft_id.0.0];
    &&& g.nft_sales.nfts@.contains_key(l.nft_id.0.0)
    &&& l.price == o.price
    &&& l.currency == o.currency
    &&& l.seller == o.seller
    &&& l.transfer_count == o.transfer_count
}

/// The NFTs of the listings, in their order.
pub open spec fn listing_ids(v: Seq<UXNFTSale>) -> Seq<u64> {
    v.map_values(|x: UXNFTSale| x.nft_id.0.0)
}

impl GameBoard {
    /// Every standing offer, once each.
    pub fn get_ux_energy_market(&self) -> (r: Result<UXForSaleList, ()>)
        ensures
            r matches Ok(l) && listing_ids(l.listings@).to_set() == self.nft_sales.nfts@.dom()
                && listing_ids(l.listings@).no_duplicates()
                && forall|i: int| 0 <= i < l.listings@.len() ==> sale_view_ok(self, #[trigger] l.listings@[i]),
    {
        let ids = self.nft_sales.offered_ids();
        let mut listings: Vec<UXNFTSale> = Vec::new();
        let mut i: usize = 0;
        while i < ids.len()
            invariant
                i <= ids@.len(),
                ids@.to_set() == self.nft_sales.nfts@.dom(),
                listings@.len() == i,
                listing_ids(listings@) == ids@.take(i as int),
                forall|j: int| 0 <= j < listings@.len() ==> sale_view_ok(self, #[trigger] listings@[j]),
            decreases ids.len() - i,
        {
            let k = ids[i];
            assert(ids@.to_set().contains(ids@[i as int]));
            let o = *self.nft_sales.nfts.get(&k).unwrap();
            let ghost before = listings@;
            listings.push(UXNFTSale { nft_id: NftPtr(EntityID(k)), price: o.price, currency: o.currency, seller: o.seller, transfer_count: o.transfer_count });
            assert(listing_ids(listings@) =~= ids@.take(i + 1)) by {
                assert(listing_ids(before) == ids@.take(i as int));
                assert forall|j: int| 0 <= j < i implies listing_ids(listings@)[j] == ids@.take(i + 1)[j] by {
                    assert(listings@[j] == before[j]);
                    assert(listing_ids(before)[j] == ids@.take(i as int)[j]);
                }
            }
            i += 1;
        }
        assert(ids@.take(ids@.len() as int) =~= ids@);
        Ok(UXForSaleList { listings })
    }
}

/// What a move did (see `GameBoard::play_inner`).
pub open spec fn played(g0: &GameBoard, g1: &GameBoard, m: GameMove, from: EntityID, r: Result<(), MoveRejectReason>) -> bool {
    match m {
        GameMove::Heartbeat(_) => *g1 == *g0 && r is Ok,
        GameMove::PurchaseNFT(p) => purchased(g0, g1, from, p.nft_id, p.limit_price, p.currency) && r is Ok,
        GameMove::ListNFTForSale(l) => {
            &&& r is Ok
            &&& *g1 == (GameBoard { nft_sales: g1.nft_sales, ..*g0 })
            &&& g1.nft_sales.nfts@ == listed(g0, from, l.nft_id, l.price, l.currency)
        },
        GameMove::Trade(t) => exists|tr: Result<TradeOutcome, TradeError>| {
            &&& (if t.sell {
                crate::token_swap::sell_trade_post(&g0.tokens, &g0.swap, g0.alloc.0, &g1.tokens, &g1.swap, t.pair, t.amount_a, t.amount_b, t.cap, false, from.0, tr)
            } else {
                crate::token_swap::buy_trade_post(&g0.tokens, &g0.swap, g0.alloc.0, &g1.tokens, &g1.swap, t.pair, t.amount_a, t.amount_b, t.cap, false, from.0, tr)
            })
            &&& r == (match tr {
                Ok(_) => Ok::<(), MoveRejectReason>(()),
                Err(e) => Err(MoveRejectReason::TradeRejected(e)),
            })
            &&& *g1 == (GameBoard { tokens: g1.tokens, swap: g1.swap, alloc: g1.alloc, ..*g0 })
        },
        GameMove::MintPowerPlant(mp) => minted(g0, g1, mp.scale, mp.location, mp.plant_type, from) && r is Ok,
        GameMove::SuperMintPowerPlant(mp) => super_minted(g0, g1, mp.scale, mp.location, mp.plant_type, from) && r is Ok,
        GameMove::SendTokens(st) => {
            &&& r is Ok
            &&& *g1 == (GameBoard { tokens: g1.tokens, ..*g0 })
            &&& ledgers(&g1.tokens) == pay_item(ledgers(&g0.tokens), st.currency.0.0, from.0, st.to.0, st.amount)
        },
        GameMove::RemoveTokens(rt) => {
            &&& r is Ok
            &&& if g0.nfts.nfts@[rt.nft_id.0.0].owner == from {
                locked_up(g0, g1, g0.nfts.power_plants@[plant_index(g0.nfts.power_plants@, rt.nft_id.0.0)].id.0, from, rt.currency, rt.amount, 1)
            } else {
                *g1 == *g0
            }
        },
        GameMove::Chat(c) => r is Ok && chatted(g0, g1, from, c.0),
    }
}

impl GameBoard {
    /// Carries out a sanitized move of `from` (see `played`). Trades are
    /// settled now (a refused trade is reported as `TradeRejected`); a
    /// listing records the owner's offer, and a purchase goes through when
    /// the offer stands and the buyer pays (see `list_nft` and
    /// `purchase_nft`).
    #[verifier::rlimit(40)]
    pub fn play_inner(&mut self, d: GameMove, from: EntityID) -> (r: Result<(), MoveRejectReason>)
        requires
            old(self).wf(),
            !(d is Chat) ==> old(self).users@.contains_key(from.0),
            crate::game_move::move_ok(old(self), d),
            move_in_range(old(self), d, from),
            old(self).alloc.0 + 64 <= u64::MAX,
            old(self).chat_counter < u64::MAX,
        ensures
            final(self).wf(),
            played(old(self), final(self), d, from, r),
            final(self).alloc.0 <= old(self).alloc.0 + 33,
            *final(self) == (GameBoard {
                tokens: final(self).tokens,
                swap: final(self).swap,
                alloc: final(self).alloc,
                nfts: final(self).nfts,
                nft_sales: final(self).nft_sales,
                callbacks: final(self).callbacks,
                chat: final(self).chat,
                chat_counter: final(self).chat_counter,
                nicks: final(self).nicks,
                ..*old(self)
            }),
    {
        let ghost g0 = *self;
        match d {
            GameMove::Heartbeat(_) => {
                assert(played(&g0, self, d, from, Ok(())));
                Ok(())
            },
            GameMove::PurchaseNFT(p) => {
                self.purchase_nft(from, p.nft_id, p.limit_price, p.currency);
                assert(played(&g0, self, d, from, Ok(())));
                Ok(())
            },
            GameMove::ListNFTForSale(l) => {
                self.list_nft(from, l.nft_id, l.price, l.currency);
                assert(played(&g0, self, d, from, Ok(())));
                Ok(())
            },
            GameMove::Trade(t) => {
                let tr = if t.sell {
                    self.sell_trade(t.pair, t.amount_a, t.amount_b, t.cap, false, from)
                } else {
                    self.buy_trade(t.pair, t.amount_a, t.amount_b, t.cap, false, from)
                };
                let ghost trg = tr;
                let r = match tr {
                    Ok(_) => Ok(()),
                    Err(e) => Err(MoveRejectReason::TradeRejected(e)),
                };
                proof {
                    assert(r == (match trg {
                        Ok(_) => Ok::<(), MoveRejectReason>(()),
                        Err(e) => Err(MoveRejectReason::TradeRejected(e)),
                    }));
                    assert(played(&g0, self, d, from, r));
                }
                r
            },
            GameMove::MintPowerPlant(mp) => {
                self.mint_power_plant(mp.scale, mp.location, mp.plant_type, from);
                assert(played(&g0, self, d, from, Ok(())));
                Ok(())
            },
            GameMove::SuperMintPowerPlant(mp) => {
                self.super_mint(mp.scale, mp.location, mp.plant_type, from);
                assert(played(&g0, self, d, from, Ok(())));
                Ok(())
            },
            GameMove::SendTokens(st) => {
                let ghost t0 = self.tokens;
                let ok = self.transfer(st.currency, from, st.to, st.amount);
                proof {
                    lemma_transfer_ledgers(&t0, &self.tokens, st.currency.0.0, from.0, st.to.0, st.amount, ok);
                }
                assert(played(&g0, self, d, from, Ok(())));
                Ok(())
            },
            GameMove::RemoveTokens(rt) => {
                let owner = self.nfts.owner_of(rt.nft_id);
                if owner.0 == from.0 {
                    assert(owner == from);
                    proof {
                        let i = plant_index(g0.nfts.power_plants@, rt.nft_id.0.0);
                        assert(0 <= i < g0.nfts.power_plants@.len()) by {
                            lemma_plant_index_bounds(g0.nfts.power_plants@, rt.nft_id.0.0);
                        }
                        assert(plant_ok(&g0, g0.nfts.power_plants@[i]));
                    }
                    let plant = self.find_plant(rt.nft_id).unwrap();
                    proof {
                        lemma_plant_index_bounds(g0.nfts.power_plants@, rt.nft_id.0.0);
                        assert(plant.id.0.0 == rt.nft_id.0.0);
                        assert(plant.id == rt.nft_id);
                    }
                    let plant_owner = self.nfts.owner_of(plant.id);
                    self.lockup(plant.id.0, plant_owner, rt.currency, rt.amount, 1);
                }
                assert(played(&g0, self, d, from, Ok(())));
                Ok(())
            },
            GameMove::Chat(c) => {
                self.chat_message(from, c.0);
                assert(played(&g0, self, d, from, Ok(())));
                Ok(())
            },
        }
    }
}


/// `v` added to the share of owner `o` in the list `s` ordered by owner
/// (a new owner is put in order), saturating at `u128::MAX`.
pub open spec fn add_share(s: Seq<(u64, u128)>, o: u64, v: u128) -> Seq<(u64, u128)>
    decreases s.len(),
{
    if s.len() == 0 {
        seq![(o, v)]
    } else if s[0].0 == o {
        seq![(o, crate::nfts::sat(s[0].1 + v) as u128)] + s.drop_first()
    } else if s[0].0 < o {
        seq![s[0]] + add_share(s.drop_first(), o, v)
    } else {
        seq![(o, v)] + s
    }
}

/// The owner of a listed plant.
pub open spec fn plant_owner(g: &GameBoard, p: PowerPlant) -> u64 {
    g.nfts.nfts@[p.id.0.0].owner.0
}

/// Each owner's hash rate times `f`, summed over the plants `ps` in order,
/// by owner in increasing order (saturating at `u128::MAX`).
pub open spec fn share_fold(g: &GameBoard, ps: Seq<PowerPlant>, f: u128) -> Seq<(u64, u128)>
    decreases ps.len(),
{
    if ps.len() == 0 {
        Seq::empty()
    } else {
        add_share(
            share_fold(g, ps.drop_last(), f),
            plant_owner(g, ps.last()),
            crate::nfts::sat(crate::nfts::plant_rate(&g.tokens, ps.last()) * f) as u128,
        )
    }
}

/// The total hash rate of the plants `ps` (saturating at `u128::MAX`).
pub open spec fn rate_total(g: &GameBoard, ps: Seq<PowerPlant>) -> u128
    decreases ps.len(),
{
    if ps.len() == 0 {
        0
    } else {
        crate::nfts::sat(rate_total(g, ps.drop_last()) + crate::nfts::plant_rate(&g.tokens, ps.last())) as u128
    }
}

/// Each owner's share of the hash rate as `(owner, (numerator, 100000))`:
/// the owner's summed rate times 100000 divided by the total rate (when
/// there is any).
pub open spec fn hashrate_shares(g: &GameBoard) -> Seq<(u64, (u128, u128))> {
    let total = rate_total(g, g.nfts.power_plants@);
    share_fold(g, g.nfts.power_plants@, 100000).map_values(|e: (u64, u128)| (e.0, (if total > 0 { (e.1 / total) as u128 } else { e.1 }, 100000u128)))
}

/// The first owner of `s` holding at least half.
pub open spec fn first_dominating(s: Seq<(u64, (u128, u128))>) -> Option<u64>
    decreases s.len(),
{
    if s.len() == 0 {
        None
    } else if s[0].1.0 * 2 >= s[0].1.1 {
        Some(s[0].0)
    } else {
        first_dominating(s.drop_first())
    }
}

/// Why the game is over, if it is: the clock reached the finish time, or,
/// after three quarters of it, one player holds at least half of the hash
/// rate (the first such player by identifier).
pub open spec fn finish_reason(g: &GameBoard) -> Option<FinishReason> {
    if g.elapsed_time >= g.finish_time {
        Some(FinishReason::TimeExpired)
    } else if g.elapsed_time >= (3 * g.finish_time) / 4 {
        match first_dominating(hashrate_shares(g)) {
            Some(o) => Some(FinishReason::DominatingPlayer(EntityID(o))),
            None => None,
        }
    } else {
        None
    }
}

/// Where `add_share` puts owner `o`, given the first position `j` whose
/// owner is not below `o`.
proof fn lemma_add_share_at(s: Seq<(u64, u128)>, o: u64, v: u128, j: int)
    requires
        0 <= j <= s.len(),
        forall|k: int| 0 <= k < j ==> (#[trigger] s[k]).0 < o,
        j < s.len() ==> s[j].0 >= o,
    ensures
        j < s.len() && s[j].0 == o ==> add_share(s, o, v) == s.update(j, (o, crate::nfts::sat(s[j].1 + v) as u128)),
        !(j < s.len() && s[j].0 == o) ==> add_share(s, o, v) == s.insert(j, (o, v)),
    decreases s.len(),
{
    if s.len() == 0 {
        assert(s.insert(j, (o, v)) =~= seq![(o, v)]);
    } else if j == 0 {
        if s[0].0 == o {
            assert(s.update(0, (o, crate::nfts::sat(s[0].1 + v) as u128)) =~= seq![(o, crate::nfts::sat(s[0].1 + v) as u128)] + s.drop_first());
        } else {
            assert(s.insert(0, (o, v)) =~= seq![(o, v)] + s);
        }
    } else {
        let t = s.drop_first();
        assert forall|k: int| 0 <= k < j - 1 implies (#[trigger] t[k]).0 < o by {
            assert(t[k] == s[k + 1]);
        }
        lemma_add_share_at(t, o, v, j - 1);
        if j < s.len() && s[j].0 == o {
            assert(s.update(j, (o, crate::nfts::sat(s[j].1 + v) as u128)) =~= seq![s[0]] + t.update(j - 1, (o, crate::nfts::sat(t[j - 1].1 + v) as u128)));
        } else {
            assert(s.insert(j, (o, v)) =~= seq![s[0]] + t.insert(j - 1, (o, v)));
        }
    }
}

impl GameBoard {
    /// Each owner's hash rate times `f` and the total rate (see
    /// `share_fold` and `rate_total`).
    fn share_sums(&self, f: u128) -> (r: (Vec<(u64, u128)>, u128))
        requires
            self.wf(),
        ensures
            r.0@ == share_fold(self, self.nfts.power_plants@, f),
            r.1 == rate_total(self, self.nfts.power_plants@),
    {
        let mut res: Vec<(u64, u128)> = Vec::new();
        let mut total: u128 = 0;
        let mut i: usize = 0;
        while i < self.nfts.power_plants.len()
            invariant
                i <= self.nfts.power_plants@.len(),
                self.wf(),
                res@ == share_fold(self, self.nfts.power_plants@.take(i as int), f),
                total == rate_total(self, self.nfts.power_plants@.take(i as int)),
            decreases self.nfts.power_plants.len() - i,
        {
            let plant = self.nfts.power_plants[i];
            proof {
                assert(plant_ok(self, self.nfts.power_plants@[i as int]));
                assert(self.nfts.power_plants@.take(i + 1).drop_last() =~= self.nfts.power_plants@.take(i as int));
            }
            let rate = plant.compute_hashrate(&self.tokens);
            let player = self.nfts.owner_of(plant.id);
            let v = match rate.checked_mul(f) {
                Some(x) => x,
                None => u128::MAX,
            };
            assert(v == crate::nfts::sat(rate * f));
            let mut j: usize = 0;
            while j < res.len() && res[j].0 < player.0
                invariant
                    j <= res@.len(),
                    forall|k: int| 0 <= k < j ==> (#[trigger] res@[k]).0 < player.0,
                decreases res.len() - j,
            {
                j = j + 1;
            }
            proof {
                lemma_add_share_at(res@, player.0, v, j as int);
            }
            if j < res.len() && res[j].0 == player.0 {
                let cur = res[j].1;
                res.set(j, (player.0, cur.saturating_add(v)));
            } else {
                res.insert(j, (player.0, v));
            }
            total = total.saturating_add(rate);
            i = i + 1;
        }
        assert(self.nfts.power_plants@.take(i as int) =~= self.nfts.power_plants@);
        (res, total)
    }

    /// Each owner's share of the hash rate, in increasing order of owner
    /// (see `hashrate_shares`).
    pub fn hashrate_share_list(&self) -> (r: Vec<(EntityID, (u128, u128))>)
        requires
            self.wf(),
        ensures
            r@.len() == hashrate_shares(self).len(),
            forall|i: int| 0 <= i < r@.len() ==> (#[trigger] r@[i]).0.0 == hashrate_shares(self)[i].0 && r@[i].1 == hashrate_shares(self)[i].1,
    {
        let (sums, total) = self.share_sums(100000);
        let mut out: Vec<(EntityID, (u128, u128))> = Vec::new();
        let mut i: usize = 0;
        while i < sums.len()
            invariant
                i <= sums@.len(),
                sums@ == share_fold(self, self.nfts.power_plants@, 100000),
                total == rate_total(self, self.nfts.power_plants@),
                out@.len() == i,
                forall|k: int| 0 <= k < i ==> (#[trigger] out@[k]).0.0 == hashrate_shares(self)[k].0 && out@[k].1 == hashrate_shares(self)[k].1,
            decreases sums.len() - i,
        {
            let (o, num) = sums[i];
            let n = if total > 0 { num / total } else { num };
            out.push((EntityID(o), (n, 100000)));
            i = i + 1;
        }
        out
    }

    /// Each owner's share of the hash rate, by owner (see `hashrate_shares`).
    pub fn get_user_hashrate_share(&self) -> (r: BTreeMap<u64, (u128, u128)>)
        requires
            self.wf(),
        ensures
            forall|i: int| 0 <= i < hashrate_shares(self).len() ==> r@.contains_key(#[trigger] hashrate_shares(self)[i].0),
            forall|o: u64| #[trigger] r@.contains_key(o) ==> exists|i: int| 0 <= i < hashrate_shares(self).len() && hashrate_shares(self)[i].0 == o && r@[o] == hashrate_shares(self)[i].1,
    {
        let list = self.hashrate_share_list();
        proof {
            lemma_share_fold_increasing(self, self.nfts.power_plants@, 100000);
        }
        let mut m: BTreeMap<u64, (u128, u128)> = BTreeMap::new();
        let mut i: usize = 0;
        while i < list.len()
            invariant
                i <= list@.len(),
                list@.len() == hashrate_shares(self).len(),
                forall|k: int| 0 <= k < list@.len() ==> (#[trigger] list@[k]).0.0 == hashrate_shares(self)[k].0 && list@[k].1 == hashrate_shares(self)[k].1,
                forall|k: int| 0 <= k < i ==> m@.contains_key(#[trigger] hashrate_shares(self)[k].0),
                forall|o: u64| #[trigger] m@.contains_key(o) ==> exists|k: int| 0 <= k < i && hashrate_shares(self)[k].0 == o && m@[o] == hashrate_shares(self)[k].1,
                crate::game::owners_distinct(hashrate_shares(self)),
            decreases list.len() - i,
        {
            let (o, v) = list[i];
            m.insert(o.0, v);
            proof {
                assert forall|o2: u64| #[trigger] m@.contains_key(o2) implies exists|k: int| 0 <= k < i + 1 && hashrate_shares(self)[k].0 == o2 && m@[o2] == hashrate_shares(self)[k].1 by {
                    if o2 == o.0 {
                        assert(hashrate_shares(self)[i as int].0 == o2);
                    }
                }
                assert forall|k: int| 0 <= k < i + 1 implies m@.contains_key(#[trigger] hashrate_shares(self)[k].0) by {
                    if k < i {
                        assert(m@.contains_key(hashrate_shares(self)[k].0) || hashrate_shares(self)[k].0 == o.0);
                    }
                }
            }
            i = i + 1;
        }
        m
    }

    /// Why the game is over, if it is (see `finish_reason`).
    pub fn game_is_finished(&self) -> (r: Option<FinishReason>)
        requires
            self.wf(),
        ensures
            r == finish_reason(self),
    {
        if self.elapsed_time >= self.finish_time {
            return Some(FinishReason::TimeExpired);
        }
        let three_quarters = (3 * (self.finish_time as u128)) / 4;
        if (self.elapsed_time as u128) < three_quarters {
            return None;
        }
        let list = self.hashrate_share_list();
        let mut i: usize = 0;
        assert(hashrate_shares(self).skip(0) =~= hashrate_shares(self));
        while i < list.len()
            invariant
                i <= list@.len(),
                list@.len() == hashrate_shares(self).len(),
                forall|k: int| 0 <= k < list@.len() ==> (#[trigger] list@[k]).0.0 == hashrate_shares(self)[k].0 && list@[k].1 == hashrate_shares(self)[k].1,
                forall|k: int| 0 <= k < hashrate_shares(self).len() ==> (#[trigger] hashrate_shares(self)[k]).1.1 == 100000,
                self.elapsed_time < self.finish_time,
                self.elapsed_time >= (3 * self.finish_time) / 4,
                first_dominating(hashrate_shares(self)) == first_dominating(hashrate_shares(self).skip(i as int)),
            decreases list.len() - i,
        {
            let (o, (num, den)) = list[i];
            proof {
                let s = hashrate_shares(self).skip(i as int);
                assert(s[0] == hashrate_shares(self)[i as int]);
                assert(s.drop_first() =~= hashrate_shares(self).skip(i + 1));
            }
            assert(den == 100000);
            if num >= den - den / 2 {
                assert(o == EntityID(hashrate_shares(self)[i as int].0));
                proof {
                    let s = hashrate_shares(self).skip(i as int);
                    assert(s[0].1.0 * 2 >= s[0].1.1);
                    assert(first_dominating(s) == Some(s[0].0));
                    assert(s[0] == hashrate_shares(self)[i as int]);
                    assert(first_dominating(hashrate_shares(self)) == Some(hashrate_shares(self)[i as int].0));
                    assert(self.elapsed_time < self.finish_time);
                    assert(self.elapsed_time >= (3 * self.finish_time) / 4);
                }
                return Some(FinishReason::DominatingPlayer(o));
            }
            i = i + 1;
        }
        None
    }
}

/// Adding a share keeps the owners strictly increasing.
proof fn lemma_add_share_increasing(s: Seq<(u64, u128)>, o: u64, v: u128)
    requires
        forall|i: int, j: int| 0 <= i < j < s.len() ==> (#[trigger] s[i]).0 < (#[trigger] s[j]).0,
    ensures
        forall|i: int, j: int| 0 <= i < j < add_share(s, o, v).len() ==> (#[trigger] add_share(s, o, v)[i]).0 < (#[trigger] add_share(s, o, v)[j]).0,
        forall|i: int| 0 <= i < add_share(s, o, v).len() ==> (#[trigger] add_share(s, o, v)[i]).0 == o || exists|k: int| 0 <= k < s.len() && s[k].0 == add_share(s, o, v)[i].0,
    decreases s.len(),
{
    if s.len() > 0 && s[0].0 != o && s[0].0 < o {
        let t = s.drop_first();
        assert forall|i: int, j: int| 0 <= i < j < t.len() implies (#[trigger] t[i]).0 < (#[trigger] t[j]).0 by {
            assert(t[i] == s[i + 1] && t[j] == s[j + 1]);
        }
        lemma_add_share_increasing(t, o, v);
        let r = add_share(t, o, v);
        let a = add_share(s, o, v);
        assert(a =~= seq![s[0]] + r);
        assert forall|i: int| 0 <= i < a.len() implies (#[trigger] a[i]).0 == o || exists|k: int| 0 <= k < s.len() && s[k].0 == a[i].0 by {
            if i == 0 {
                assert(s[0].0 == a[0].0);
            } else {
                assert(a[i] == r[i - 1]);
                if r[i - 1].0 != o {
                    let k = choose|k: int| 0 <= k < t.len() && t[k].0 == r[i - 1].0;
                    assert(s[k + 1].0 == a[i].0);
                }
            }
        }
        assert forall|i: int, j: int| 0 <= i < j < a.len() implies (#[trigger] a[i]).0 < (#[trigger] a[j]).0 by {
            if i == 0 {
                assert(a[j] == r[j - 1]);
                if r[j - 1].0 != o {
                    let k = choose|k: int| 0 <= k < t.len() && t[k].0 == r[j - 1].0;
                    assert(s[0].0 < s[k + 1].0);
                }
            } else {
                assert(a[i] == r[i - 1] && a[j] == r[j - 1]);
            }
        }
    } else if s.len() > 0 && s[0].0 == o {
        let a = add_share(s, o, v);
        assert forall|i: int| 0 <= i < a.len() implies (#[trigger] a[i]).0 == o || exists|k: int| 0 <= k < s.len() && s[k].0 == a[i].0 by {
            if i > 0 {
                assert(a[i] == s[i]);
            }
        }
        assert forall|i: int, j: int| 0 <= i < j < a.len() implies (#[trigger] a[i]).0 < (#[trigger] a[j]).0 by {
            assert(a[j] == s[j]);
            if i > 0 {
                assert(a[i] == s[i]);
            }
        }
    } else if s.len() > 0 {
        let a = add_share(s, o, v);
        assert forall|i: int| 0 <= i < a.len() implies (#[trigger] a[i]).0 == o || exists|k: int| 0 <= k < s.len() && s[k].0 == a[i].0 by {
            if i > 0 {
                assert(a[i] == s[i - 1]);
            }
        }
        assert forall|i: int, j: int| 0 <= i < j < a.len() implies (#[trigger] a[i]).0 < (#[trigger] a[j]).0 by {
            assert(a[j] == s[j - 1]);
            if i > 0 {
                assert(a[i] == s[i - 1]);
            }
        }
    }
}

/// The owners of `share_fold` are strictly increasing, so the shares list
/// each owner once.
proof fn lemma_share_fold_increasing(g: &GameBoard, ps: Seq<PowerPlant>, f: u128)
    ensures
        forall|i: int, j: int| 0 <= i < j < share_fold(g, ps, f).len() ==> (#[trigger] share_fold(g, ps, f)[i]).0 < (#[trigger] share_fold(g, ps, f)[j]).0,
        ps == g.nfts.power_plants@ && f == 100000 ==> owners_distinct(hashrate_shares(g)),
    decreases ps.len(),
{
    if ps.len() > 0 {
        lemma_share_fold_increasing(g, ps.drop_last(), f);
        lemma_add_share_increasing(share_fold(g, ps.drop_last(), f), plant_owner(g, ps.last()), crate::nfts::sat(crate::nfts::plant_rate(&g.tokens, ps.last()) * f) as u128);
    }
    if ps == g.nfts.power_plants@ && f == 100000 {
        let h = hashrate_shares(g);
        assert forall|i: int, j: int| 0 <= i < j < h.len() implies (#[trigger] h[i]).0 != (#[trigger] h[j]).0 by {
            assert(h[i].0 == share_fold(g, ps, f)[i].0);
            assert(h[j].0 == share_fold(g, ps, f)[j].0);
        }
    }
}

/// No owner is listed twice.
pub open spec fn owners_distinct(s: Seq<(u64, (u128, u128))>) -> bool {
    forall|i: int, j: int| 0 <= i < j < s.len() ==> (#[trigger] s[i]).0 != (#[trigger] s[j]).0
}


/// Every owner listed by `share_fold` owns one of the plants.
proof fn lemma_share_fold_owners(g: &GameBoard, ps: Seq<PowerPlant>, f: u128)
    ensures
        forall|i: int| 0 <= i < share_fold(g, ps, f).len() ==> exists|k: int| 0 <= k < ps.len() && plant_owner(g, #[trigger] ps[k]) == (#[trigger] share_fold(g, ps, f)[i]).0,
    decreases ps.len(),
{
    if ps.len() > 0 {
        let s0 = share_fold(g, ps.drop_last(), f);
        lemma_share_fold_owners(g, ps.drop_last(), f);
        lemma_share_fold_increasing(g, ps.drop_last(), f);
        let o = plant_owner(g, ps.last());
        lemma_add_share_increasing(s0, o, crate::nfts::sat(crate::nfts::plant_rate(&g.tokens, ps.last()) * f) as u128);
        let s1 = share_fold(g, ps, f);
        assert forall|i: int| 0 <= i < s1.len() implies exists|k: int| 0 <= k < ps.len() && plant_owner(g, #[trigger] ps[k]) == (#[trigger] s1[i]).0 by {
            if s1[i].0 == o {
                assert(plant_owner(g, ps[ps.len() - 1]) == s1[i].0);
            } else {
                let j = choose|j: int| 0 <= j < s0.len() && s0[j].0 == s1[i].0;
                let k = choose|k: int| 0 <= k < ps.drop_last().len() && plant_owner(g, #[trigger] ps.drop_last()[k]) == s0[j].0;
                assert(ps[k] == ps.drop_last()[k]);
            }
        }
    }
}

/// The dominating player is an owner listed in the shares.
proof fn lemma_first_dominating_listed(s: Seq<(u64, (u128, u128))>)
    ensures
        first_dominating(s) matches Some(o) ==> exists|i: int| 0 <= i < s.len() && s[i].0 == o,
    decreases s.len(),
{
    if s.len() > 0 && !(s[0].1.0 * 2 >= s[0].1.1) {
        lemma_first_dominating_listed(s.drop_first());
        if let Some(o) = first_dominating(s) {
            let i = choose|i: int| 0 <= i < s.drop_first().len() && s.drop_first()[i].0 == o;
            assert(s[i + 1].0 == o);
        }
    }
}

/// A player found dominating is a player of the game.
proof fn lemma_dominating_is_user(g: &GameBoard)
    requires
        g.wf(),
    ensures
        finish_reason(g) matches Some(FinishReason::DominatingPlayer(id)) ==> g.users@.contains_key(id.0),
{
    let h = hashrate_shares(g);
    lemma_first_dominating_listed(h);
    lemma_share_fold_owners(g, g.nfts.power_plants@, 100000);
    if let Some(FinishReason::DominatingPlayer(id)) = finish_reason(g) {
        let i = choose|i: int| 0 <= i < h.len() && h[i].0 == id.0;
        let sf = share_fold(g, g.nfts.power_plants@, 100000);
        assert(h[i].0 == sf[i].0);
        let k = choose|k: int| 0 <= k < g.nfts.power_plants@.len() && plant_owner(g, #[trigger] g.nfts.power_plants@[k]) == sf[i].0;
        assert(plant_ok(g, g.nfts.power_plants@[k]));
    }
}

/// The balances of virtual sats of the players, in the board's order.
pub open spec fn user_weights(g: &GameBoard) -> Seq<u128> {
    g.users_by_key@.map_values(|e: (String, EntityID)| g.tokens.bal(g.bitcoin_token_id.0.0, e.1.0) as u128)
}

/// The players' identifiers, in the board's order.
pub open spec fn user_ids(u: Seq<(String, EntityID)>) -> Seq<u64> {
    u.map_values(|e: (String, EntityID)| e.1.0)
}

/// The weights add up to the balances of the players' identifiers.
proof fn lemma_user_weights_sum(g: &GameBoard, u: Seq<(String, EntityID)>)
    requires
        g.tokens.wf(),
        g.tokens.has(g.bitcoin_token_id),
    ensures
        crate::payout::weight_sum(u.map_values(|e: (String, EntityID)| g.tokens.bal(g.bitcoin_token_id.0.0, e.1.0) as u128))
            == crate::map_sum::sum_at(g.tokens.tokens@[g.bitcoin_token_id.0.0].balances@, user_ids(u)),
    decreases u.len(),
{
    let m = g.tokens.tokens@[g.bitcoin_token_id.0.0].balances@;
    if u.len() > 0 {
        let u2 = u.drop_last();
        lemma_user_weights_sum(g, u2);
        assert(u.map_values(|e: (String, EntityID)| g.tokens.bal(g.bitcoin_token_id.0.0, e.1.0) as u128).drop_last() =~= u2.map_values(|e: (String, EntityID)| g.tokens.bal(g.bitcoin_token_id.0.0, e.1.0) as u128));
        assert(user_ids(u).drop_last() =~= user_ids(u2));
        crate::map_sum::lemma_map_sum_bounds_value(m, u.last().1.0);
    }
}

/// What closing the game pays (see `GameBoard::get_close_distribution`).
pub open spec fn close_paid(g: &GameBoard, bounty: u64, host_key: Seq<char>, r: Result<Vec<(String, u64)>, CloseError>) -> bool {
    match finish_reason(g) {
        None => r == Err::<Vec<(String, u64)>, CloseError>(CloseError::GameNotFinished),
        Some(FinishReason::TimeExpired) => r matches Ok(v) && {
            let d = crate::payout::distribution(user_weights(g), bounty);
            &&& v@.len() == g.users_by_key@.len()
            &&& forall|i: int| 0 <= i < v@.len() ==> (#[trigger] v@[i]).0@ == g.users_by_key@[i].0@ && v@[i].1 == d[i]
        },
        Some(FinishReason::DominatingPlayer(id)) => r matches Ok(v) && {
            &&& v@.len() == 2
            &&& v@[0].0@ == g.users@[id.0].key@
            &&& v@[0].1 == bounty - bounty / 4
            &&& v@[1].0@ == host_key
            &&& v@[1].1 == bounty / 4
        },
    }
}

impl GameBoard {
    /// The rewards of a finished game, by player key. When time ran out,
    /// `bounty` is split in proportion to the players' virtual sats (equally
    /// when nobody holds any; what rounding leaves goes to the first
    /// player). A dominating player gets three quarters (rounded up) and
    /// `host_key` the rest.
    pub fn get_close_distribution(&self, bounty: u64, host_key: String) -> (r: Result<Vec<(String, u64)>, CloseError>)
        requires
            self.wf(),
        ensures
            close_paid(self, bounty, host_key@, r),
    {
        proof {
            lemma_dominating_is_user(self);
        }
        match self.game_is_finished() {
            None => Err(CloseError::GameNotFinished),
            Some(FinishReason::TimeExpired) => {
                let btc = self.bitcoin_token_id;
                let mut w: Vec<u128> = Vec::new();
                let mut i: usize = 0;
                while i < self.users_by_key.len()
                    invariant
                        i <= self.users_by_key@.len(),
                        self.wf(),
                        btc == self.bitcoin_token_id,
                        w@ == user_weights(self).take(i as int),
                    decreases self.users_by_key.len() - i,
                {
                    let b = self.tokens.balance_check(btc, &self.users_by_key[i].1);
                    w.push(b);
                    assert(w@ =~= user_weights(self).take(i + 1));
                    i = i + 1;
                }
                assert(w@ =~= user_weights(self));
                proof {
                    let u = self.users_by_key@;
                    let m = self.tokens.tokens@[btc.0.0].balances@;
                    lemma_user_weights_sum(self, u);
                    assert(user_ids(u).no_duplicates()) by {
                        assert forall|a: int, b: int| 0 <= a < user_ids(u).len() && 0 <= b < user_ids(u).len() && a != b implies user_ids(u)[a] != user_ids(u)[b] by {
                            if a < b {
                                assert(u[a].1 != u[b].1);
                            } else {
                                assert(u[b].1 != u[a].1);
                            }
                        }
                    }
                    crate::map_sum::lemma_sum_at_bounded(m, user_ids(u));
                }
                let shares = crate::payout::distribute(&w, bounty);
                let mut out: Vec<(String, u64)> = Vec::new();
                let mut j: usize = 0;
                while j < shares.len()
                    invariant
                        j <= shares@.len(),
                        shares@ == crate::payout::distribution(user_weights(self), bounty),
                        shares@.len() == self.users_by_key@.len(),
                        out@.len() == j,
                        forall|k: int| 0 <= k < j ==> (#[trigger] out@[k]).0@ == self.users_by_key@[k].0@ && out@[k].1 == shares@[k],
                    decreases shares.len() - j,
                {
                    out.push((self.users_by_key[j].0.clone(), shares[j]));
                    j = j + 1;
                }
                Ok(out)
            },
            Some(FinishReason::DominatingPlayer(id)) => {
                let key = self.users.get(&id.0).unwrap().key.clone();
                let quarter = bounty / 4;
                let mut v: Vec<(String, u64)> = Vec::new();
                v.push((key, bounty - quarter));
                v.push((host_key, quarter));
                Ok(v)
            },
        }
    }
}

/// Closing a finished game hands out exactly the bounty whenever there is
/// a player to pay.
pub proof fn law_close_pays_bounty(g: &GameBoard, bounty: u64, host_key: Seq<char>, r: Result<Vec<(String, u64)>, CloseError>)
    requires
        close_paid(g, bounty, host_key, r),
        g.users_by_key@.len() > 0,
        finish_reason(g) is Some,
    ensures
        r matches Ok(v) && crate::payout::amount_sum(v@.map_values(|e: (String, u64)| e.1)) == bounty,
{
    if let Ok(v) = r {
        let a = v@.map_values(|e: (String, u64)| e.1);
        if finish_reason(g) == Some(FinishReason::TimeExpired) {
            crate::payout::law_distribution_sums_to_bounty(user_weights(g), bounty);
            assert(a =~= crate::payout::distribution(user_weights(g), bounty));
        } else {
            assert(a.len() == 2);
            assert(a.drop_last() =~= seq![a[0]]);
            assert(seq![a[0]].drop_last() =~= Seq::<u64>::empty());
            assert(crate::payout::amount_sum(Seq::<u64>::empty()) == 0);
            assert(crate::payout::amount_sum(seq![a[0]]) == a[0]);
            assert(crate::payout::amount_sum(a) == a[0] + a[1]);
        }
    }
}


/// The ledgers, markets and identifier counter may change; everything else
/// of the board stays, and no token disappears.
pub open spec fn only_exchange_changed(g0: &GameBoard, g1: &GameBoard) -> bool {
    &&& *g1 == (GameBoard { tokens: g1.tokens, swap: g1.swap, alloc: g1.alloc, ..*g0 })
    &&& forall|k: u64| #[trigger] g0.tokens.tokens@.contains_key(k) ==> g1.tokens.tokens@.contains_key(k)
    &&& g1.alloc.0 >= g0.alloc.0
}

/// An event keeps referring to existing tokens when tokens are only added.
proof fn lemma_callback_ok_grows(t0: &TokenRegistry, t1: &TokenRegistry, c: Callback)
    requires
        callback_ok(t0, c),
        forall|k: u64| #[trigger] t0.tokens@.contains_key(k) ==> t1.tokens@.contains_key(k),
    ensures
        callback_ok(t1, c),
{
    match c {
        Callback::ASICProducer(p) => {
            assert(t0.tokens@.contains_key(p.price_asset.0.0));
            assert(t0.tokens@.contains_key(p.hash_asset.0.0));
        },
        Callback::SteelSmelter(p) => {
            assert(t0.tokens@.contains_key(p.price_asset.0.0));
            assert(t0.tokens@.contains_key(p.hash_asset.0.0));
        },
        Callback::SiliconRefinery(p) => {
            assert(t0.tokens@.contains_key(p.price_asset.0.0));
            assert(t0.tokens@.contains_key(p.hash_asset.0.0));
        },
        Callback::ConcreteMiller(p) => {
            assert(t0.tokens@.contains_key(p.price_asset.0.0));
            assert(t0.tokens@.contains_key(p.hash_asset.0.0));
        },
        Callback::CoinLockup(l) => {
            assert(t0.tokens@.contains_key(l.asset.0.0));
        },
        _ => {},
    }
}

/// `g1` is `g0` with `amount` of token `tok` minted to `to`.
pub open spec fn coins_minted(g0: &GameBoard, g1: &GameBoard, tok: TokenPointer, to: EntityID, amount: u128) -> bool {
    &&& *g1 == (GameBoard { tokens: g1.tokens, ..*g0 })
    &&& g1.tokens.tokens@ == g0.tokens.tokens@.insert(tok.0.0, g1.tokens.tokens@[tok.0.0])
    &&& g1.tokens.tokens@[tok.0.0].balances@ == g0.tokens.tokens@[tok.0.0].balances@.insert(
        to.0,
        (g0.tokens.bal(tok.0.0, to.0) + amount) as u128,
    )
    &&& g1.tokens.tokens@[tok.0.0].total == g0.tokens.tokens@[tok.0.0].total + amount
    &&& g1.tokens.tokens@[tok.0.0].this == g0.tokens.tokens@[tok.0.0].this
    &&& g1.tokens.tokens@[tok.0.0].nickname == g0.tokens.tokens@[tok.0.0].nickname
    &&& g1.tokens.hashboards@ == g0.tokens.hashboards@
    &&& g1.tokens.steel@ == g0.tokens.steel@
    &&& g1.tokens.silicon@ == g0.tokens.silicon@
}

/// `g1` is `g0` with `amount` of `tok` minted to `to`, or `g0` itself when
/// the supply of `tok` would leave the range of `u128`.
pub open spec fn minted_if_room(g0: &GameBoard, g1: &GameBoard, tok: TokenPointer, to: EntityID, amount: u128) -> bool {
    if g0.tokens.tokens@[tok.0.0].total + amount <= u128::MAX {
        coins_minted(g0, g1, tok, to, amount)
    } else {
        *g1 == *g0
    }
}

/// `g1` is `g0` with event `cb` put into the queue.
pub open spec fn scheduled(g0: &GameBoard, g1: &GameBoard, cb: Callback) -> bool {
    &&& *g1 == (GameBoard { callbacks: g1.callbacks, ..*g0 })
    &&& g1.callbacks.callbacks@ == g0.callbacks.callbacks@.insert(
        crate::callbacks::slot_for(g0.callbacks.callbacks@, cb.at()),
        cb,
    )
}

/// The mining payout of a hash rate `v` out of `total`: its share of the
/// subsidy, rounded down (nothing when no plant hashes).
pub open spec fn payout_amount(v: u128, subsidy: u128, total: u128) -> u128 {
    if total == 0 || v > total {
        0
    } else {
        ((v * subsidy) / (total as int)) as u128
    }
}

/// The hash rates of `shares`, summed.
pub open spec fn shares_sum(shares: Seq<(u64, u128)>) -> int
    decreases shares.len(),
{
    if shares.len() == 0 {
        0
    } else {
        shares_sum(shares.drop_last()) + shares.last().1
    }
}

/// What the owners of `shares` are paid, summed.
pub open spec fn payout_sum(shares: Seq<(u64, u128)>, subsidy: u128, total: u128) -> int
    decreases shares.len(),
{
    if shares.len() == 0 {
        0
    } else {
        payout_sum(shares.drop_last(), subsidy, total) + payout_amount(shares.last().1, subsidy, total)
    }
}

/// An owner's mining payout is its share of the subsidy rounded down: the
/// largest amount `p` with `p * total <= rate * subsidy`; so it is at most
/// the subsidy.
pub proof fn law_payout_is_share_of_subsidy(v: u128, subsidy: u128, total: u128)
    requires
        0 < total,
        v <= total,
    ensures
        payout_amount(v, subsidy, total) * total <= v * subsidy,
        v * subsidy < (payout_amount(v, subsidy, total) + 1) * total,
        payout_amount(v, subsidy, total) <= subsidy,
{
    let q = (v * subsidy) / (total as int);
    assert(q * total <= v * subsidy < (q + 1) * total) by (nonlinear_arith)
        requires q == (v * subsidy) / (total as int), total > 0, v * subsidy >= 0;
    assert(q <= subsidy) by (nonlinear_arith)
        requires q * total <= v * subsidy, v <= total, total > 0, subsidy >= 0, q >= 0;
    assert(q >= 0) by (nonlinear_arith)
        requires q == (v * subsidy) / (total as int), total > 0, v * subsidy >= 0;
}

proof fn lemma_payout_sum_bound(shares: Seq<(u64, u128)>, subsidy: u128, total: u128)
    requires
        0 < total,
        shares_sum(shares) <= total,
    ensures
        payout_sum(shares, subsidy, total) * total <= shares_sum(shares) * subsidy,
        shares_sum(shares) >= 0,
        payout_sum(shares, subsidy, total) >= 0,
    decreases shares.len(),
{
    if shares.len() > 0 {
        let rest = shares.drop_last();
        let v = shares.last().1;
        lemma_shares_sum_nonneg(rest);
        lemma_payout_sum_bound(rest, subsidy, total);
        law_payout_is_share_of_subsidy(v, subsidy, total);
        let p = payout_amount(v, subsidy, total) as int;
        let ps = payout_sum(rest, subsidy, total);
        let ss = shares_sum(rest);
        assert((ps + p) * total == ps * total + p * total) by (nonlinear_arith);
        assert((ss + v) * subsidy == ss * subsidy + v * subsidy) by (nonlinear_arith);
    }
}

proof fn lemma_shares_sum_nonneg(shares: Seq<(u64, u128)>)
    ensures
        shares_sum(shares) >= 0,
    decreases shares.len(),
{
    if shares.len() > 0 {
        lemma_shares_sum_nonneg(shares.drop_last());
    }
}

proof fn lemma_paid_shares_total(g0: &GameBoard, g1: &GameBoard, shares: Seq<(u64, u128)>, subsidy: u128, total: u128)
    requires
        paid_shares(g0, g1, shares, subsidy, total),
    ensures
        g1.bitcoin_token_id == g0.bitcoin_token_id,
        g1.tokens.tokens@[g0.bitcoin_token_id.0.0].total <= g0.tokens.tokens@[g0.bitcoin_token_id.0.0].total + payout_sum(shares, subsidy, total),
    decreases shares.len(),
{
    if shares.len() > 0 {
        let gm = choose|gm: GameBoard| {
            &&& paid_shares(g0, &gm, shares.drop_last(), subsidy, total)
            &&& #[trigger] minted_if_room(&gm, g1, g0.bitcoin_token_id, EntityID(shares.last().0), payout_amount(shares.last().1, subsidy, total))
        };
        lemma_paid_shares_total(g0, &gm, shares.drop_last(), subsidy, total);
    }
}

/// One mining payout mints at most the subsidy: when the owners' rates add
/// up to at most the total rate that the payout divides by, the virtual sats
/// minted to all of them together are at most `subsidy`.
pub proof fn law_payout_within_subsidy(g0: &GameBoard, g1: &GameBoard, shares: Seq<(u64, u128)>, subsidy: u128, total: u128)
    requires
        paid_shares(g0, g1, shares, subsidy, total),
        shares_sum(shares) <= total,
    ensures
        g1.tokens.tokens@[g0.bitcoin_token_id.0.0].total <= g0.tokens.tokens@[g0.bitcoin_token_id.0.0].total + subsidy,
{
    lemma_paid_shares_total(g0, g1, shares, subsidy, total);
    if total > 0 {
        lemma_payout_sum_bound(shares, subsidy, total);
        let ps = payout_sum(shares, subsidy, total);
        let ss = shares_sum(shares);
        assert(ps <= subsidy) by (nonlinear_arith)
            requires ps * total <= ss * subsidy, ss <= total, total > 0, subsidy >= 0, ss >= 0;
    } else {
        lemma_payout_zero(shares, subsidy, total);
    }
}

/// The hash rates of the plants `ps`, summed without saturating.
pub open spec fn rate_sum(g: &GameBoard, ps: Seq<PowerPlant>) -> int
    decreases ps.len(),
{
    if ps.len() == 0 {
        0
    } else {
        rate_sum(g, ps.drop_last()) + crate::nfts::plant_rate(&g.tokens, ps.last())
    }
}

proof fn lemma_shares_sum_front(a: (u64, u128), t: Seq<(u64, u128)>)
    ensures
        shares_sum(seq![a] + t) == a.1 + shares_sum(t),
    decreases t.len(),
{
    let u = seq![a] + t;
    if t.len() > 0 {
        lemma_shares_sum_front(a, t.drop_last());
        assert(u.drop_last() =~= seq![a] + t.drop_last());
        assert(u.last() == t.last());
        assert(shares_sum(u) == shares_sum(u.drop_last()) + u.last().1);
    } else {
        assert(u =~= seq![a]);
        assert(u.drop_last() =~= Seq::<(u64, u128)>::empty());
        assert(u.last() == a);
        assert(shares_sum(u) == shares_sum(u.drop_last()) + u.last().1);
    }
}

proof fn lemma_add_share_sum(s: Seq<(u64, u128)>, o: u64, v: u128)
    ensures
        shares_sum(add_share(s, o, v)) <= shares_sum(s) + v,
    decreases s.len(),
{
    if s.len() == 0 {
        lemma_shares_sum_front((o, v), s);
        assert(seq![(o, v)] + s =~= seq![(o, v)]);
    } else {
        let t = s.drop_first();
        assert(s =~= seq![s[0]] + t);
        lemma_shares_sum_front(s[0], t);
        if s[0].0 == o {
            let w = crate::nfts::sat(s[0].1 + v) as u128;
            lemma_shares_sum_front((o, w), t);
            assert(w <= s[0].1 + v);
        } else if s[0].0 < o {
            lemma_add_share_sum(t, o, v);
            lemma_shares_sum_front(s[0], add_share(t, o, v));
        } else {
            lemma_shares_sum_front((o, v), s);
        }
    }
}

proof fn lemma_plant_rate_range(g: &GameBoard, p: PowerPlant)
    ensures
        0 <= crate::nfts::plant_rate(&g.tokens, p) <= u128::MAX,
{
    crate::nfts::law_plant_rate_limited_by_watts(&g.tokens, p, u128::MAX);
}

proof fn lemma_share_fold_sum(g: &GameBoard, ps: Seq<PowerPlant>)
    ensures
        shares_sum(share_fold(g, ps, 1)) <= rate_sum(g, ps),
        rate_sum(g, ps) >= 0,
        rate_sum(g, ps) <= u128::MAX ==> rate_total(g, ps) == rate_sum(g, ps),
    decreases ps.len(),
{
    if ps.len() > 0 {
        lemma_share_fold_sum(g, ps.drop_last());
        lemma_plant_rate_range(g, ps.last());
        let v = crate::nfts::plant_rate(&g.tokens, ps.last());
        assert(crate::nfts::sat(v * 1) == v);
        lemma_add_share_sum(share_fold(g, ps.drop_last(), 1), plant_owner(g, ps.last()), v as u128);
    }
}

/// One mining payout event mints at most the mining subsidy in virtual
/// sats, all owners together (where the plants' summed hash rate fits in
/// `u128`).
pub proof fn law_mining_payout_within_subsidy(g0: &GameBoard, g1: &GameBoard, e: PowerPlantEvent)
    requires
        mining_paid_out(g0, g1, e),
        rate_sum(g0, g0.nfts.power_plants@) <= u128::MAX,
    ensures
        g1.tokens.tokens@[g0.bitcoin_token_id.0.0].total <= g0.tokens.tokens@[g0.bitcoin_token_id.0.0].total + g0.mining_subsidy,
{
    let ps = g0.nfts.power_plants@;
    let shares = share_fold(g0, ps, 1);
    let total = rate_total(g0, ps);
    let gm = choose|gm: GameBoard| {
        &&& #[trigger] paid_shares(g0, &gm, shares, g0.mining_subsidy, total)
        &&& if e.time + e.period <= u64::MAX {
            scheduled(&gm, g1, Callback::PowerPlantEvent(PowerPlantEvent { time: (e.time + e.period) as u64, period: e.period }))
        } else {
            *g1 == gm
        }
    };
    lemma_share_fold_sum(g0, ps);
    law_payout_within_subsidy(g0, &gm, shares, g0.mining_subsidy, total);
}

proof fn lemma_payout_zero(shares: Seq<(u64, u128)>, subsidy: u128, total: u128)
    requires
        total == 0,
    ensures
        payout_sum(shares, subsidy, total) == 0,
    decreases shares.len(),
{
    if shares.len() > 0 {
        lemma_payout_zero(shares.drop_last(), subsidy, total);
    }
}

/// `g1` is `g0` after each owner of `shares`, in turn, was paid its share
/// of `subsidy` in virtual sats (see `payout_amount` and `minted_if_room`).
pub open spec fn paid_shares(g0: &GameBoard, g1: &GameBoard, shares: Seq<(u64, u128)>, subsidy: u128, total: u128) -> bool
    decreases shares.len(),
{
    if shares.len() == 0 {
        *g1 == *g0
    } else {
        exists|gm: GameBoard| {
            &&& paid_shares(g0, &gm, shares.drop_last(), subsidy, total)
            &&& #[trigger] minted_if_room(&gm, g1, g0.bitcoin_token_id, EntityID(shares.last().0), payout_amount(shares.last().1, subsidy, total))
        }
    }
}

/// `g1` is `g0` after the payout event `e`: the subsidy paid to the owners
/// in proportion to their hash rate, then the next payout scheduled one
/// period later (unless that time leaves the range of `u64`).
pub open spec fn mining_paid_out(g0: &GameBoard, g1: &GameBoard, e: PowerPlantEvent) -> bool {
    exists|gm: GameBoard| {
        &&& #[trigger] paid_shares(g0, &gm, share_fold(g0, g0.nfts.power_plants@, 1), g0.mining_subsidy, rate_total(g0, g0.nfts.power_plants@))
        &&& if e.time + e.period <= u64::MAX {
            scheduled(&gm, g1, Callback::PowerPlantEvent(PowerPlantEvent { time: (e.time + e.period) as u64, period: e.period }))
        } else {
            *g1 == gm
        }
    }
}

/// `g1` is `g0` after `id` sold `amount_a` of the first asset of `pair`
/// through its market, with outcome `tr` (see `sell_trade_post`).
pub open spec fn sale_done(g0: &GameBoard, g1: &GameBoard, pair: TradingPairID, amount_a: u128, id: EntityID, tr: Result<TradeOutcome, TradeError>) -> bool {
    &&& *g1 == (GameBoard { tokens: g1.tokens, swap: g1.swap, alloc: g1.alloc, ..*g0 })
    &&& crate::token_swap::sell_trade_post(&g0.tokens, &g0.swap, g0.alloc.0, &g1.tokens, &g1.swap, pair, amount_a, 0, None, false, id.0, tr)
}

/// `g1` is `g0` after `from` deposited `a` and `b` into the market of
/// `pair` (see `deposit_post`).
pub open spec fn deposit_done(g0: &GameBoard, g1: &GameBoard, pair: TradingPairID, a: u128, b: u128, from: EntityID) -> bool {
    &&& *g1 == (GameBoard { tokens: g1.tokens, swap: g1.swap, alloc: g1.alloc, ..*g0 })
    &&& crate::token_swap::deposit_post(&g0.tokens, &g0.swap, g0.alloc.0, &g1.tokens, &g1.swap, g1.alloc.0, pair, a, b, from.0)
}

/// The market of a producer: its goods against their price.
pub open spec fn producer_pair(price_asset: TokenPointer, hash_asset: TokenPointer) -> TradingPairID {
    TradingPairID { asset_a: hash_asset, asset_b: price_asset }
}

/// The first round of producer `id`: it mints its whole stock, then (unless
/// the price of a tenth of it leaves the range of `u128`) mints that price
/// and deposits a tenth of the stock with it into its market.
pub open spec fn seeded(g0: &GameBoard, g1: &GameBoard, id: EntityID, total_units: u128, base_price: u128, price_asset: TokenPointer, hash_asset: TokenPointer) -> bool {
    let start = total_units / 10;
    exists|ga: GameBoard| {
        &&& #[trigger] minted_if_room(g0, &ga, hash_asset, id, total_units)
        &&& if base_price * start <= u128::MAX {
            exists|gb: GameBoard| {
                &&& #[trigger] minted_if_room(&ga, &gb, price_asset, id, (base_price * start) as u128)
                &&& deposit_done(&gb, g1, producer_pair(price_asset, hash_asset), start, (base_price * start) as u128, id)
            }
        } else {
            *g1 == ga
        }
    }
}

/// A round of producer `id`: the first one seeds its market (see `seeded`);
/// every round then sells a hundredth of what the producer holds.
pub open spec fn produced(g0: &GameBoard, g1: &GameBoard, id: EntityID, total_units: u128, base_price: u128, price_asset: TokenPointer, hash_asset: TokenPointer, first: bool) -> bool {
    exists|gc: GameBoard, tr: Result<TradeOutcome, TradeError>| {
        &&& (if first {
            seeded(g0, &gc, id, total_units, base_price, price_asset, hash_asset)
        } else {
            gc == *g0
        })
        &&& #[trigger] sale_done(&gc, g1, producer_pair(price_asset, hash_asset), (gc.tokens.bal(hash_asset.0.0, id.0) / 100) as u128, id, tr)
    }
}

/// The stock a producer has not yet put on its market after a round.
pub open spec fn stock_left(total_units: u128, first: bool) -> u128 {
    if first {
        (total_units - total_units / 10) as u128
    } else {
        total_units
    }
}

/// After a round, the producer's next one is scheduled at time `next`
/// while it still holds goods and `next` is within the range of `u64`;
/// otherwise nothing more happens.
pub open spec fn rescheduled(g0: &GameBoard, g1: &GameBoard, next: int, hash_asset: TokenPointer, id: EntityID, cb: Callback) -> bool {
    if next <= u64::MAX && g0.tokens.bal(hash_asset.0.0, id.0) > 0 {
        scheduled(g0, g1, cb)
    } else {
        *g1 == *g0
    }
}

/// The coins locked in an NFT all go to the NFT's owner.
pub open spec fn coins_released(g0: &GameBoard, g1: &GameBoard, l: CoinLockup) -> bool {
    let owner = g0.nfts.nfts@[l.id.0.0].owner;
    let held = g0.tokens.bal(l.asset.0.0, l.id.0.0);
    &&& *g1 == (GameBoard { tokens: g1.tokens, ..*g0 })
    &&& g1.tokens.only_changed(&g0.tokens, l.asset.0.0)
    &&& g1.tokens.tokens@[l.asset.0.0].balances@ == crate::tokens::transferred(
        g0.tokens.tokens@[l.asset.0.0].balances@,
        l.id.0.0,
        owner.0,
        held as u128,
    )
}

/// `g1` is `g0` after event `cb` ran: a payout (see `mining_paid_out`); a round of
/// a producer (see `produced`), with its next round scheduled (see
/// `rescheduled`) relative to its own time for the hash-board producer and
/// to the game's clock for the others; or the release of locked coins once
/// their time has come. A producer's round does nothing when identifiers
/// are near the end of the range of `u64`.
pub open spec fn ran_event(g0: &GameBoard, g1: &GameBoard, cb: Callback) -> bool {
    match cb {
        Callback::PowerPlantEvent(e) => mining_paid_out(g0, g1, e),
        Callback::ASICProducer(p) => if g0.alloc.0 <= u64::MAX - 128 {
            exists|gp: GameBoard| {
                &&& #[trigger] produced(g0, &gp, p.id, p.total_units, p.base_price, p.price_asset, p.hash_asset, p.first)
                &&& rescheduled(&gp, g1, p.elapsed_time + p.adjusts_every, p.hash_asset, p.id, Callback::ASICProducer(ASICProducer {
                    total_units: stock_left(p.total_units, p.first),
                    elapsed_time: (p.elapsed_time + p.adjusts_every) as u64,
                    first: false,
                    ..p
                }))
            }
        } else {
            *g1 == *g0
        },
        Callback::SteelSmelter(p) => if g0.alloc.0 <= u64::MAX - 128 {
            exists|gp: GameBoard| {
                &&& #[trigger] produced(g0, &gp, p.id, p.total_units, p.base_price, p.price_asset, p.hash_asset, p.first)
                &&& rescheduled(&gp, g1, g0.elapsed_time + p.adjusts_every, p.hash_asset, p.id, Callback::SteelSmelter(SteelSmelter {
                    total_units: stock_left(p.total_units, p.first),
                    elapsed_time: (g0.elapsed_time + p.adjusts_every) as u64,
                    first: false,
                    ..p
                }))
            }
        } else {
            *g1 == *g0
        },
        Callback::SiliconRefinery(p) => if g0.alloc.0 <= u64::MAX - 128 {
            exists|gp: GameBoard| {
                &&& #[trigger] produced(g0, &gp, p.id, p.total_units, p.base_price, p.price_asset, p.hash_asset, p.first)
                &&& rescheduled(&gp, g1, g0.elapsed_time + p.adjusts_every, p.hash_asset, p.id, Callback::SiliconRefinery(SiliconRefinery {
                    total_units: stock_left(p.total_units, p.first),
                    elapsed_time: (g0.elapsed_time + p.adjusts_every) as u64,
                    first: false,
                    ..p
                }))
            }
        } else {
            *g1 == *g0
        },
        Callback::ConcreteMiller(p) => if g0.alloc.0 <= u64::MAX - 128 {
            exists|gp: GameBoard| {
                &&& #[trigger] produced(g0, &gp, p.id, p.total_units, p.base_price, p.price_asset, p.hash_asset, p.first)
                &&& rescheduled(&gp, g1, g0.elapsed_time + p.adjusts_every, p.hash_asset, p.id, Callback::ConcreteMiller(ConcreteMiller {
                    total_units: stock_left(p.total_units, p.first),
                    elapsed_time: (g0.elapsed_time + p.adjusts_every) as u64,
                    first: false,
                    ..p
                }))
            }
        } else {
            *g1 == *g0
        },
        Callback::CoinLockup(l) => if g0.nfts.nfts@.contains_key(l.id.0.0) && g0.elapsed_time >= l.time_when_free {
            coins_released(g0, g1, l)
        } else {
            *g1 == *g0
        },
    }
}

/// `g1` is `g0` after the events `cbs` ran one after the other (see
/// `ran_event`).
pub open spec fn ran_events(g0: &GameBoard, g1: &GameBoard, cbs: Seq<Callback>) -> bool
    decreases cbs.len(),
{
    if cbs.len() == 0 {
        *g1 == *g0
    } else {
        exists|gm: GameBoard| {
            &&& ran_events(g0, &gm, cbs.drop_last())
            &&& #[trigger] ran_event(&gm, g1, cbs.last())
        }
    }
}

/// `g1` is `g0` after its due events ran: those of the queue due at the
/// game's clock are taken out and run in the queue's order (see
/// `ran_events`) on the board with the rest of the queue; events they
/// schedule wait for the next time.
pub open spec fn ticks_processed(g0: &GameBoard, g1: &GameBoard) -> bool {
    let d = crate::callbacks::due_count(g0.callbacks.callbacks@, g0.elapsed_time);
    exists|gs: GameBoard| {
        &&& gs == (GameBoard { callbacks: gs.callbacks, ..*g0 })
        &&& gs.callbacks.callbacks@ == g0.callbacks.callbacks@.skip(d)
        &&& #[trigger] ran_events(&gs, g1, g0.callbacks.callbacks@.take(d))
    }
}

impl GameBoard {
    /// Mints `amount` of `tok` to `to` unless the supply would leave the
    /// range of `u128`.
    fn mint_if_room(&mut self, tok: TokenPointer, to: EntityID, amount: u128)
        requires
            old(self).wf(),
            old(self).tokens.has(tok),
        ensures
            final(self).wf(),
            only_exchange_changed(old(self), final(self)),
            final(self).alloc == old(self).alloc,
            final(self).swap == old(self).swap,
            minted_if_room(old(self), final(self), tok, to, amount),
    {
        let supply = self.tokens.total_coins(tok);
        if supply <= u128::MAX - amount {
            self.mint_to(tok, to, amount);
            assert(self.tokens.tokens@.dom() =~= old(self).tokens.tokens@.dom().insert(tok.0.0));
        }
    }

    /// Pays the mining subsidy out to the owners of power plants in
    /// proportion to their hash rate (`v * subsidy / total`, rounded down;
    /// nothing when no plant hashes), then schedules the next payout one
    /// period later (none when that time leaves the range of `u64`).
    fn power_plant_payout(&mut self, e: PowerPlantEvent)
        requires
            old(self).wf(),
        ensures
            final(self).wf(),
            *final(self) == (GameBoard { tokens: final(self).tokens, callbacks: final(self).callbacks, ..*old(self) }),
            forall|k: u64| #[trigger] old(self).tokens.tokens@.contains_key(k) ==> final(self).tokens.tokens@.contains_key(k),
            mining_paid_out(old(self), final(self), e),
    {
        let (sums, total) = self.share_sums(1);
        let btc = self.bitcoin_token_id;
        let subsidy = self.mining_subsidy;
        let ghost g0 = *self;
        assert(sums@.take(0) =~= Seq::<(u64, u128)>::empty());
        let mut i: usize = 0;
        while i < sums.len()
            invariant
                i <= sums@.len(),
                self.wf(),
                btc == self.bitcoin_token_id,
                btc == g0.bitcoin_token_id,
                subsidy == g0.mining_subsidy,
                *self == (GameBoard { tokens: self.tokens, ..g0 }),
                forall|k: u64| #[trigger] g0.tokens.tokens@.contains_key(k) ==> self.tokens.tokens@.contains_key(k),
                paid_shares(&g0, self, sums@.take(i as int), subsidy, total),
            decreases sums.len() - i,
        {
            let (o, v) = sums[i];
            let amount = if total == 0 || v > total { 0 } else { crate::payout::mul_div(v, subsidy, total) };
            let ghost gm = *self;
            self.mint_if_room(btc, EntityID(o), amount);
            proof {
                let t1 = sums@.take(i + 1);
                assert(t1.drop_last() =~= sums@.take(i as int));
                assert(t1.last() == (o, v));
                assert(amount == payout_amount(v, subsidy, total));
                assert(paid_shares(&g0, &gm, t1.drop_last(), subsidy, total));
                assert(minted_if_room(&gm, self, g0.bitcoin_token_id, EntityID(t1.last().0), payout_amount(t1.last().1, subsidy, total)));
                assert(t1.len() > 0);
                assert(paid_shares(&g0, self, t1, subsidy, total));
            }
            i = i + 1;
        }
        assert(sums@.take(sums@.len() as int) =~= sums@);
        let ghost gm = *self;
        match e.time.checked_add(e.period) {
            Some(t) => {
                self.schedule(Callback::PowerPlantEvent(PowerPlantEvent { time: t, period: e.period }));
            },
            None => {},
        }
        assert(paid_shares(&g0, &gm, share_fold(&g0, g0.nfts.power_plants@, 1), g0.mining_subsidy, rate_total(&g0, g0.nfts.power_plants@)));
    }

    /// One round of a producer `id` of `hash_asset` priced in `price_asset`:
    /// on its first round it mints its stock, keeps nine tenths and seeds the
    /// market with the rest against `base_price` each; every round it then
    /// sells a hundredth of what it holds. Returns the stock left unseeded.
    fn produce(&mut self, id: EntityID, total_units: u128, base_price: u128, price_asset: TokenPointer, hash_asset: TokenPointer, first: bool) -> (left: u128)
        requires
            old(self).wf(),
            old(self).tokens.has(price_asset),
            old(self).tokens.has(hash_asset),
            old(self).alloc.0 + 64 <= u64::MAX,
        ensures
            final(self).wf(),
            only_exchange_changed(old(self), final(self)),
            final(self).alloc.0 <= old(self).alloc.0 + 4,
            produced(old(self), final(self), id, total_units, base_price, price_asset, hash_asset, first),
            left == stock_left(total_units, first),
    {
        let ghost g0 = *self;
        let pair = TradingPairID { asset_a: hash_asset, asset_b: price_asset };
        let mut left = total_units;
        if first {
            self.mint_if_room(hash_asset, id, total_units);
            let ghost ga = *self;
            let start = total_units / 10;
            match base_price.checked_mul(start) {
                Some(base) => {
                    self.mint_if_room(price_asset, id, base);
                    let ghost gb = *self;
                    self.deposit(pair, start, base, id);
                    assert(minted_if_room(&ga, &gb, price_asset, id, (base_price * start) as u128));
                },
                None => {},
            }
            assert(minted_if_room(&g0, &ga, hash_asset, id, total_units));
            assert(seeded(&g0, self, id, total_units, base_price, price_asset, hash_asset));
            left = total_units - start;
        }
        let ghost gc = *self;
        let balance = self.tokens.balance_check(hash_asset, &id);
        let tr = self.sell_trade(pair, balance / 100, 0, None, false, id);
        assert(sale_done(&gc, self, producer_pair(price_asset, hash_asset), (gc.tokens.bal(hash_asset.0.0, id.0) / 100) as u128, id, tr));
        left
    }

    /// Runs one event (see `PowerPlantEvent`, `ASICProducer`,
    /// `SteelSmelter`, `CoinLockup`); a producer also schedules its next
    /// round while it holds stock. An event that would need identifiers
    /// beyond the range of `u64` does nothing.
    fn run_callback(&mut self, cb: Callback)
        requires
            old(self).wf(),
            callback_ok(&old(self).tokens, cb),
        ensures
            final(self).wf(),
            *final(self) == (GameBoard { tokens: final(self).tokens, swap: final(self).swap, alloc: final(self).alloc, callbacks: final(self).callbacks, ..*old(self) }),
            forall|k: u64| #[trigger] old(self).tokens.tokens@.contains_key(k) ==> final(self).tokens.tokens@.contains_key(k),
            final(self).alloc.0 <= old(self).alloc.0 || final(self).alloc.0 <= u64::MAX - 124,
            ran_event(old(self), final(self), cb),
    {
        let ghost g0 = *self;
        match cb {
            Callback::PowerPlantEvent(e) => {
                self.power_plant_payout(e);
            },
            Callback::ASICProducer(p) => {
                if self.alloc.0 <= u64::MAX - 128 {
                    let left = self.produce(p.id, p.total_units, p.base_price, p.price_asset, p.hash_asset, p.first);
                    let ghost gp = *self;
                    assert(produced(&g0, &gp, p.id, p.total_units, p.base_price, p.price_asset, p.hash_asset, p.first));
                    let balance = self.tokens.balance_check(p.hash_asset, &p.id);
                    match p.elapsed_time.checked_add(p.adjusts_every) {
                        Some(next) => {
                            if balance > 0 {
                                self.schedule(Callback::ASICProducer(ASICProducer { total_units: left, elapsed_time: next, first: false, ..p }));
                            }
                        },
                        None => {},
                    }
                }
            },
            Callback::SteelSmelter(p) => {
                if self.alloc.0 <= u64::MAX - 128 {
                    let left = self.produce(p.id, p.total_units, p.base_price, p.price_asset, p.hash_asset, p.first);
                    let ghost gp = *self;
                    assert(produced(&g0, &gp, p.id, p.total_units, p.base_price, p.price_asset, p.hash_asset, p.first));
                    let balance = self.tokens.balance_check(p.hash_asset, &p.id);
                    match self.elapsed_time.checked_add(p.adjusts_every) {
                        Some(next) => {
                            if balance > 0 {
                                self.schedule(Callback::SteelSmelter(SteelSmelter { total_units: left, elapsed_time: next, first: false, ..p }));
                            }
                        },
                        None => {},
                    }
                }
            },
            Callback::SiliconRefinery(p) => {
                if self.alloc.0 <= u64::MAX - 128 {
                    let left = self.produce(p.id, p.total_units, p.base_price, p.price_asset, p.hash_asset, p.first);
                    let ghost gp = *self;
                    assert(produced(&g0, &gp, p.id, p.total_units, p.base_price, p.price_asset, p.hash_asset, p.first));
                    let balance = self.tokens.balance_check(p.hash_asset, &p.id);
                    match self.elapsed_time.checked_add(p.adjusts_every) {
                        Some(next) => {
                            if balance > 0 {
                                self.schedule(Callback::SiliconRefinery(SiliconRefinery { total_units: left, elapsed_time: next, first: false, ..p }));
                            }
                        },
                        None => {},
                    }
                }
            },
            Callback::ConcreteMiller(p) => {
                if self.alloc.0 <= u64::MAX - 128 {
                    let left = self.produce(p.id, p.total_units, p.base_price, p.price_asset, p.hash_asset, p.first);
                    let ghost gp = *self;
                    assert(produced(&g0, &gp, p.id, p.total_units, p.base_price, p.price_asset, p.hash_asset, p.first));
                    let balance = self.tokens.balance_check(p.hash_asset, &p.id);
                    match self.elapsed_time.checked_add(p.adjusts_every) {
                        Some(next) => {
                            if balance > 0 {
                                self.schedule(Callback::ConcreteMiller(ConcreteMiller { total_units: left, elapsed_time: next, first: false, ..p }));
                            }
                        },
                        None => {},
                    }
                }
            },
            Callback::CoinLockup(l) => {
                if self.nfts.nfts.contains_key(&l.id.0.0) {
                    let owner = self.nfts.owner_of(l.id);
                    if self.elapsed_time >= l.time_when_free {
                        let balance = self.tokens.balance_check(l.asset, &l.id.0);
                        let _ = self.transfer(l.asset, l.id.0, owner, balance);
                    }
                }
            },
        }
    }

    /// Runs, in order, every event due at the game's clock (those scheduled
    /// meanwhile wait for the next call); the rest stay queued.
    pub fn process_ticks(&mut self)
        requires
            old(self).wf(),
        ensures
            final(self).wf(),
            *final(self) == (GameBoard { tokens: final(self).tokens, swap: final(self).swap, alloc: final(self).alloc, callbacks: final(self).callbacks, ..*old(self) }),
            forall|k: u64| #[trigger] old(self).tokens.tokens@.contains_key(k) ==> final(self).tokens.tokens@.contains_key(k),
            final(self).alloc.0 <= old(self).alloc.0 || final(self).alloc.0 <= u64::MAX - 124,
            ticks_processed(old(self), final(self)),
    {
        let ghost g0 = *self;
        let now = self.elapsed_time;
        let due = self.callbacks.take_due(now);
        proof {
            crate::callbacks::lemma_due_count_bounds(g0.callbacks.callbacks@, now);
            let d = crate::callbacks::due_count(g0.callbacks.callbacks@, now);
            assert forall|i: int| 0 <= i < self.callbacks.callbacks@.len() implies callback_ok(&self.tokens, #[trigger] self.callbacks.callbacks@[i]) by {
                assert(self.callbacks.callbacks@[i] == g0.callbacks.callbacks@[i + d]);
            }
            assert forall|i: int| 0 <= i < due@.len() implies callback_ok(&self.tokens, #[trigger] due@[i]) by {
                assert(due@[i] == g0.callbacks.callbacks@[i]);
            }
        }
        let ghost gs = *self;
        assert(due@.take(0) =~= Seq::<Callback>::empty());
        let mut i: usize = 0;
        while i < due.len()
            invariant
                i <= due@.len(),
                self.wf(),
                *self == (GameBoard { tokens: self.tokens, swap: self.swap, alloc: self.alloc, callbacks: self.callbacks, ..g0 }),
                forall|k: u64| #[trigger] g0.tokens.tokens@.contains_key(k) ==> self.tokens.tokens@.contains_key(k),
                forall|j: int| 0 <= j < due@.len() ==> callback_ok(&g0.tokens, #[trigger] due@[j]),
                self.alloc.0 <= g0.alloc.0 || self.alloc.0 <= u64::MAX - 124,
                ran_events(&gs, self, due@.take(i as int)),
            decreases due.len() - i,
        {
            let cb = due[i];
            proof {
                lemma_callback_ok_grows(&g0.tokens, &self.tokens, cb);
            }
            let ghost gm = *self;
            self.run_callback(cb);
            proof {
                let t1 = due@.take(i + 1);
                assert(t1.drop_last() =~= due@.take(i as int));
                assert(t1.last() == cb);
                assert(ran_event(&gm, self, t1.last()));
            }
            i = i + 1;
        }
        assert(due@.take(due@.len() as int) =~= due@);
    }
}


/// The steps of a move of `from` that was in sequence and sane: `g2`
/// records its number and updates the player's and the game's clocks, `g3`
/// ran the events then due (see `ticks_processed`), `g4` logged the move,
/// `g5` carried it out (see `played`); `g1` is `g5`, with the refusal
/// logged when the move was refused.
pub open spec fn accepted_move(g0: &GameBoard, g1: &GameBoard, g2: &GameBoard, g3: &GameBoard, g4: &GameBoard, g5: &GameBoard, env: MoveEnvelope, from: EntityID, r: Result<(), MoveRejectReason>) -> bool {
    &&& *g2 == (GameBoard { player_move_sequence: g2.player_move_sequence, ticks: g2.ticks, elapsed_time: g2.elapsed_time, ..*g0 })
    &&& g2.player_move_sequence@ == g0.player_move_sequence@.insert(from.0, env.sequence)
    &&& ticked(g0.ticks@, from, env.time_millis, g2.ticks@)
    &&& g2.elapsed_time == (if median(sorted_u64(elapsed_times(g2.ticks@))) > g0.elapsed_time {
        median(sorted_u64(elapsed_times(g2.ticks@))) as u64
    } else {
        g0.elapsed_time
    })
    &&& ticks_processed(g2, g3)
    &&& *g4 == (GameBoard { event_log: g4.event_log, event_log_counter: g4.event_log_counter, ..*g3 })
    &&& g4.event_log_counter == g3.event_log_counter + 1
    &&& g4.event_log@ == bounded_push(g3.event_log@, (g4.event_log_counter, from, LogEvent::GameMove(env.d.0)))
    &&& played(g4, g5, env.d.0, from, r)
    &&& match r {
        Ok(_) => *g1 == *g5,
        Err(e) => {
            &&& *g1 == (GameBoard { event_log: g1.event_log, event_log_counter: g1.event_log_counter, ..*g5 })
            &&& g1.event_log_counter == g5.event_log_counter + 1
            &&& g1.event_log@ == bounded_push(g5.event_log@, (g1.event_log_counter, from, LogEvent::MoveRejectReason(e)))
        },
    }
}

/// The sequence number of `from`'s last move (zero before any).
pub open spec fn last_sequence(m: Map<u64, u64>, from: u64) -> u64 {
    if m.contains_key(from) { m[from] } else { 0 }
}

/// A move numbered `sequence` follows a last move numbered `last`: it is the
/// next number, or the first move (numbered zero) of a player.
pub open spec fn in_sequence(last: u64, sequence: u64) -> bool {
    last + 1 == sequence || (last == 0 && sequence == 0)
}

/// Reporting a time turns no player's clock back: every clock keeps its
/// owner and its start, and its elapsed time does not shrink.
pub proof fn law_ticks_never_go_back(t: Seq<(EntityID, Tick)>, from: EntityID, time: u64, t2: Seq<(EntityID, Tick)>)
    requires
        ticked(t, from, time, t2),
    ensures
        t2.len() >= t.len(),
        forall|i: int| 0 <= i < t.len() ==> {
            &&& (#[trigger] t2[i]).0 == t[i].0
            &&& t2[i].1.first_time == t[i].1.first_time
            &&& t2[i].1.elapsed >= t[i].1.elapsed
        },
{
}

/// Playing a move never turns the game's clock back.
pub proof fn law_clock_never_goes_back(g0: &GameBoard, g1: &GameBoard, env: MoveEnvelope, signed_by: Seq<char>, r: Result<(), MoveRejectReason>)
    requires
        play_post(g0, g1, env, signed_by, r),
    ensures
        g1.elapsed_time >= g0.elapsed_time,
{
}

/// Playing a move never lowers the number of any player's last move, so a
/// move cannot be replayed.
pub proof fn law_move_numbers_never_go_back(g0: &GameBoard, g1: &GameBoard, env: MoveEnvelope, signed_by: Seq<char>, r: Result<(), MoveRejectReason>, who: u64)
    requires
        play_post(g0, g1, env, signed_by, r),
    ensures
        last_sequence(g1.player_move_sequence@, who) >= last_sequence(g0.player_move_sequence@, who),
{
}

/// A move is refused only as a refused trade.
pub proof fn lemma_played_err(g0: &GameBoard, g1: &GameBoard, m: GameMove, from: EntityID, r: Result<(), MoveRejectReason>)
    requires
        played(g0, g1, m, from, r),
    ensures
        r is Ok || r matches Err(MoveRejectReason::TradeRejected(_)),
{
    if let GameMove::Trade(t) = m {
        let tr = choose|tr: Result<TradeOutcome, TradeError>| {
            &&& (if t.sell {
                crate::token_swap::sell_trade_post(&g0.tokens, &g0.swap, g0.alloc.0, &g1.tokens, &g1.swap, t.pair, t.amount_a, t.amount_b, t.cap, false, from.0, tr)
            } else {
                crate::token_swap::buy_trade_post(&g0.tokens, &g0.swap, g0.alloc.0, &g1.tokens, &g1.swap, t.pair, t.amount_a, t.amount_b, t.cap, false, from.0, tr)
            })
            &&& r == (match tr {
                Ok(_) => Ok::<(), MoveRejectReason>(()),
                Err(e) => Err(MoveRejectReason::TradeRejected(e)),
            })
            &&& *g1 == (GameBoard { tokens: g1.tokens, swap: g1.swap, alloc: g1.alloc, ..*g0 })
        };
    }
}

/// The identifier found for a key is a listed player's.
proof fn lemma_user_id_of_listed(u: Seq<(String, EntityID)>, key: Seq<char>)
    ensures
        user_id_of(u, key) matches Some(id) ==> exists|i: int| 0 <= i < u.len() && u[i].1 == id,
    decreases u.len(),
{
    if u.len() > 0 && u[0].0@ != key {
        lemma_user_id_of_listed(u.drop_first(), key);
        if let Some(id) = user_id_of(u, key) {
            let i = choose|i: int| 0 <= i < u.drop_first().len() && u.drop_first()[i].1 == id;
            assert(u[i + 1].1 == id);
        }
    }
}

/// What playing a move did (see `GameBoard::play`).
pub open spec fn play_post(g0: &GameBoard, g1: &GameBoard, env: MoveEnvelope, signed_by: Seq<char>, r: Result<(), MoveRejectReason>) -> bool {
    match user_id_of(g0.users_by_key@, signed_by) {
        None => *g1 == *g0 && r == Err::<(), MoveRejectReason>(MoveRejectReason::NoSuchUser),
        Some(from) => match finish_reason(g0) {
            Some(reason) => {
                &&& r == Err::<(), MoveRejectReason>(MoveRejectReason::GameIsFinished(reason))
                &&& *g1 == (GameBoard { event_log: g1.event_log, event_log_counter: g1.event_log_counter, ..*g0 })
                &&& g1.event_log_counter == g0.event_log_counter + 1
                &&& g1.event_log@ == bounded_push(g0.event_log@, (g1.event_log_counter, from, LogEvent::MoveRejectReason(MoveRejectReason::GameIsFinished(reason))))
            },
            None => {
                let last = last_sequence(g0.player_move_sequence@, from.0);
                if !in_sequence(last, env.sequence) {
                    &&& r is Ok
                    &&& *g1 == (GameBoard { player_move_sequence: g1.player_move_sequence, ..*g0 })
                    &&& g1.player_move_sequence@ == g0.player_move_sequence@.insert(from.0, last)
                } else {
                    &&& g1.player_move_sequence@ == g0.player_move_sequence@.insert(from.0, env.sequence)
                    &&& !crate::game_move::move_ok(g0, env.d.0) ==> {
                        &&& r == Err::<(), MoveRejectReason>(MoveRejectReason::MoveSanitizationError(()))
                        &&& *g1 == (GameBoard { player_move_sequence: g1.player_move_sequence, ..*g0 })
                    }
                    &&& crate::game_move::move_ok(g0, env.d.0) ==> {
                        &&& exists|g2: GameBoard, g3: GameBoard, g4: GameBoard, g5: GameBoard|
                            #[trigger] accepted_move(g0, g1, &g2, &g3, &g4, &g5, env, from, r)
                        &&& ticked(g0.ticks@, from, env.time_millis, g1.ticks@)
                        &&& g1.elapsed_time == (if median(sorted_u64(elapsed_times(g1.ticks@))) > g0.elapsed_time {
                            median(sorted_u64(elapsed_times(g1.ticks@))) as u64
                        } else {
                            g0.elapsed_time
                        })
                        &&& (r is Ok || r matches Err(MoveRejectReason::TradeRejected(_)))
                        &&& g1.users@ == g0.users@
                        &&& g1.users_by_key@ == g0.users_by_key@
                        &&& g1.event_log_counter == g0.event_log_counter + (if r is Ok { 1int } else { 2int })
                    }
                }
            },
        },
    }
}

impl GameBoard {
    /// Plays a move signed by the player with key `signed_by`. The move is
    /// refused when the key is unknown or the game is over (the refusal is
    /// logged). A move out of the player's sequence is ignored; otherwise
    /// the move is sanitized, the player's clock and the game's clock are
    /// updated, due events run, the move is logged and carried out (see
    /// `play_inner`), and a refusal of it is logged too.
    #[verifier::rlimit(60)]
    pub fn play(&mut self, env: MoveEnvelope, signed_by: String) -> (r: Result<(), MoveRejectReason>)
        requires
            old(self).wf(),
            old(self).alloc.0 + 64 <= u64::MAX,
            old(self).event_log_counter + 2 <= u64::MAX,
            old(self).chat_counter < u64::MAX,
            user_id_of(old(self).users_by_key@, signed_by@) matches Some(from) ==> move_in_range(old(self), env.d.0, from),
        ensures
            final(self).wf(),
            play_post(old(self), final(self), env, signed_by@, r),
    {
        let ghost g0 = *self;
        let from = match self.get_user_id(signed_by.as_str()) {
            Some(f) => f,
            None => {
                return Err(MoveRejectReason::NoSuchUser);
            },
        };
        proof {
            lemma_user_id_of_listed(g0.users_by_key@, signed_by@);
            let i = choose|i: int| 0 <= i < g0.users_by_key@.len() && g0.users_by_key@[i].1 == from;
            assert(g0.users@.contains_key(g0.users_by_key@[i].1.0));
        }
        match self.game_is_finished() {
            Some(reason) => {
                self.add_to_event_log(from, LogEvent::MoveRejectReason(MoveRejectReason::GameIsFinished(reason)));
                return Err(MoveRejectReason::GameIsFinished(reason));
            },
            None => {},
        }
        let last: u64 = match self.player_move_sequence.get(&from.0) {
            Some(v) => *v,
            None => 0,
        };
        let next = (last < u64::MAX && last + 1 == env.sequence) || (last == 0 && env.sequence == 0);
        if !next {
            self.player_move_sequence.insert(from.0, last);
            assert(play_post(&g0, self, env, signed_by@, Ok(())));
            return Ok(());
        }
        self.player_move_sequence.insert(from.0, env.sequence);
        let ghost g1 = *self;
        let mv = match env.d.0.sanitize(self) {
            Ok(m) => m,
            Err(u) => {
                assert(play_post(&g0, self, env, signed_by@, Err(MoveRejectReason::MoveSanitizationError(u))));
                return Err(MoveRejectReason::MoveSanitizationError(u));
            },
        };
        self.update_current_time(from, env.time_millis);
        let ghost g2 = *self;
        self.process_ticks();
        let ghost g3 = *self;
        proof {
            assert(move_in_range(&g0, mv, from));
            match mv {
                GameMove::SendTokens(t) => {
                    assert(g0.tokens.tokens@.contains_key(t.currency.0.0));
                },
                GameMove::Trade(t) => {
                    assert(g0.tokens.tokens@.contains_key(t.pair.asset_a.0.0));
                    assert(g0.tokens.tokens@.contains_key(t.pair.asset_b.0.0));
                },
                GameMove::PurchaseNFT(p) => {
                    assert(g0.tokens.tokens@.contains_key(p.currency.0.0));
                },
                GameMove::ListNFTForSale(l) => {
                    assert(g0.tokens.tokens@.contains_key(l.currency.0.0));
                },
                GameMove::RemoveTokens(x) => {
                    assert(g0.tokens.tokens@.contains_key(x.currency.0.0));
                },
                _ => {},
            }
            assert(move_in_range(self, mv, from));
            assert(crate::game_move::move_ok(self, mv));
        }
        self.add_to_event_log(from, LogEvent::GameMove(mv.duplicate()));
        let ghost g4 = *self;
        let res = self.play_inner(mv, from);
        let ghost g5 = *self;
        proof {
            lemma_played_err(&g4, self, mv, from, res);
        }
        match res {
            Ok(u) => {
                assert(accepted_move(&g0, self, &g2, &g3, &g4, &g5, env, from, res));
                assert(play_post(&g0, self, env, signed_by@, res));
                Ok(u)
            },
            Err(e) => {
                let logged = e.duplicate();
                self.add_to_event_log(from, LogEvent::MoveRejectReason(logged));
                assert(accepted_move(&g0, self, &g2, &g3, &g4, &g5, env, from, res));
                assert(play_post(&g0, self, env, signed_by@, Err(e)));
                Err(e)
            },
        }
    }
}


/// The price data shown for token `k`: its market against the virtual sats
/// (in the pair's normal order), the market's holdings and the names.
pub open spec fn price_data_ok(g: &GameBoard, k: u64, d: UXMaterialsPriceData) -> bool {
    let pair = (TradingPairID { asset_a: TokenPointer(EntityID(k)), asset_b: g.bitcoin_token_id }).normalized();
    let m = g.swap.markets@[pair.key()];
    &&& g.swap.markets@.contains_key(pair.key())
    &&& d.trading_pair == pair
    &&& d.mkt_qty_a == g.tokens.bal(pair.asset_a.0.0, m.id.0)
    &&& d.mkt_qty_b == g.tokens.bal(pair.asset_b.0.0, m.id.0)
    &&& d.asset_a@ == g.tokens.nick(pair.asset_a.0.0)
    &&& d.asset_b@ == g.tokens.nick(pair.asset_b.0.0)
    &&& d.display_asset@ == g.tokens.nick(k)
}

/// What the interface shows of plant `p`.
pub open spec fn plant_data_ok(g: &GameBoard, p: PowerPlant, d: crate::nfts::UXPlantData) -> bool {
    &&& d.id == p.id
    &&& d.coordinates == p.coordinates
    &&& d.for_sale == g.nft_sales.nfts@.contains_key(p.id.0.0)
    &&& d.miners == g.tokens.bal(g.asset_token_key(), p.id.0.0)
    &&& d.owner == g.nfts.nfts@[p.id.0.0].owner
    &&& d.plant_type == p.plant_type
    &&& d.watts == p.watts
    &&& d.hashrate == crate::nfts::plant_rate(&g.tokens, p)
}

impl GameBoard {
    /// The identifier of the hash-board token.
    pub open spec fn asset_token_key(&self) -> u64 {
        self.asic_token_id.0.0
    }

    /// The chat log, oldest message first.
    pub fn get_ux_chat_log(&self) -> (r: VecDeque<(u64, EntityID, String)>)
        ensures
            r@ == self.chat@,
    {
        let mut out: VecDeque<(u64, EntityID, String)> = VecDeque::new();
        let mut i: usize = 0;
        while i < self.chat.len()
            invariant
                i <= self.chat@.len(),
                out@ == self.chat@.take(i as int),
            decreases self.chat.len() - i,
        {
            let (n, who, text) = &self.chat[i];
            out.push_back((*n, *who, text.clone()));
            assert(out@ =~= self.chat@.take(i + 1));
            i = i + 1;
        }
        assert(self.chat@.take(i as int) =~= self.chat@);
        out
    }

    /// The event log, oldest event first.
    pub fn get_ux_event_log(&self) -> (r: VecDeque<(u64, EntityID, LogEvent)>)
        ensures
            r@ == self.event_log@,
    {
        let mut out: VecDeque<(u64, EntityID, LogEvent)> = VecDeque::new();
        let mut i: usize = 0;
        while i < self.event_log.len()
            invariant
                i <= self.event_log@.len(),
                out@ == self.event_log@.take(i as int),
            decreases self.event_log.len() - i,
        {
            let (n, who, e) = &self.event_log[i];
            out.push_back((*n, *who, e.duplicate()));
            assert(out@ =~= self.event_log@.take(i + 1));
            i = i + 1;
        }
        assert(self.event_log@.take(i as int) =~= self.event_log@);
        out
    }

    /// The market data of every token traded against the virtual sats (see
    /// `price_data_ok`), one entry per such token.
    pub fn get_ux_materials_prices(&self) -> (r: Vec<UXMaterialsPriceData>)
        requires
            self.wf(),
        ensures
            forall|i: int| 0 <= i < r@.len() ==> exists|k: u64| self.tokens.tokens@.contains_key(k) && price_data_ok(self, k, #[trigger] r@[i]),
            forall|k: u64| #[trigger] self.tokens.tokens@.contains_key(k) && self.swap.markets@.contains_key((TradingPairID { asset_a: TokenPointer(EntityID(k)), asset_b: self.bitcoin_token_id }).normalized().key())
                ==> exists|i: int| 0 <= i < r@.len() && price_data_ok(self, k, r@[i]),
    {
        let ids = self.tokens.token_ids();
        let btc = self.bitcoin_token_id;
        let mut res: Vec<UXMaterialsPriceData> = Vec::new();
        let mut i: usize = 0;
        while i < ids.len()
            invariant
                i <= ids@.len(),
                self.wf(),
                btc == self.bitcoin_token_id,
                ids@.to_set() == self.tokens.tokens@.dom(),
                forall|j: int| 0 <= j < res@.len() ==> exists|k: u64| self.tokens.tokens@.contains_key(k) && price_data_ok(self, k, #[trigger] res@[j]),
                forall|j: int| 0 <= j < i && self.swap.markets@.contains_key((TradingPairID { asset_a: TokenPointer(EntityID(ids@[j])), asset_b: btc }).normalized().key())
                    ==> exists|m: int| 0 <= m < res@.len() && price_data_ok(self, #[trigger] ids@[j], res@[m]),
            decreases ids.len() - i,
        {
            let k = ids[i];
            let ghost res0 = res@;
            assert(ids@.to_set().contains(k));
            let ptr = TokenPointer(EntityID(k));
            let mut pair = TradingPairID { asset_a: ptr, asset_b: btc };
            pair.normalize();
            if ConstantFunctionMarketMakerPair::has_market(&self.swap, pair) {
                let m = *self.swap.markets.get(&(pair.asset_a.0.0, pair.asset_b.0.0)).unwrap();
                proof {
                    assert(pair.normalized() == pair);
                    assert(crate::token_swap::market_ok(&self.tokens, m, pair.key(), self.alloc.0));
                }
                let qa = self.tokens.balance_check(pair.asset_a, &m.id);
                let qb = self.tokens.balance_check(pair.asset_b, &m.id);
                let d = UXMaterialsPriceData {
                    trading_pair: pair,
                    asset_a: self.tokens.nickname(pair.asset_a),
                    mkt_qty_a: qa,
                    asset_b: self.tokens.nickname(pair.asset_b),
                    mkt_qty_b: qb,
                    display_asset: self.tokens.nickname(ptr),
                };
                proof {
                    assert(price_data_ok(self, k, d));
                }
                res.push(d);
                proof {
                    assert forall|j: int| 0 <= j < res@.len() implies exists|kk: u64| self.tokens.tokens@.contains_key(kk) && price_data_ok(self, kk, #[trigger] res@[j]) by {
                        if j == res@.len() - 1 {
                            assert(price_data_ok(self, k, res@[j]));
                        }
                    }
                }
            }
            proof {
                assert forall|j: int| 0 <= j < i + 1 && self.swap.markets@.contains_key((TradingPairID { asset_a: TokenPointer(EntityID(ids@[j])), asset_b: btc }).normalized().key())
                    implies exists|m: int| 0 <= m < res@.len() && price_data_ok(self, #[trigger] ids@[j], res@[m]) by {
                    if j == i {
                        assert(price_data_ok(self, ids@[j], res@[res@.len() - 1]));
                    } else {
                        let m = choose|m: int| 0 <= m < res0.len() && price_data_ok(self, ids@[j], res0[m]);
                        assert(res@[m] == res0[m]);
                    }
                }
            }
            i = i + 1;
        }
        proof {
            assert forall|k: u64| #[trigger] self.tokens.tokens@.contains_key(k) && self.swap.markets@.contains_key((TradingPairID { asset_a: TokenPointer(EntityID(k)), asset_b: self.bitcoin_token_id }).normalized().key())
                implies exists|i: int| 0 <= i < res@.len() && price_data_ok(self, k, res@[i]) by {
                assert(ids@.to_set().contains(k));
                let j = choose|j: int| 0 <= j < ids@.len() && ids@[j] == k;
                assert(ids@[j] == k);
            }
        }
        res
    }

    /// What the interface shows of every power plant, in increasing order of
    /// identifier (see `plant_data_ok`; nothing is for sale).
    pub fn get_ux_power_plant_data(&self) -> (r: Vec<crate::nfts::UXPlantData>)
        requires
            self.wf(),
        ensures
            r@.len() == self.nfts.power_plants@.len(),
            forall|i: int| 0 <= i < r@.len() ==> plant_data_ok(self, self.nfts.power_plants@[i], #[trigger] r@[i]),
    {
        let mut out: Vec<crate::nfts::UXPlantData> = Vec::new();
        let mut i: usize = 0;
        while i < self.nfts.power_plants.len()
            invariant
                i <= self.nfts.power_plants@.len(),
                self.wf(),
                out@.len() == i,
                forall|j: int| 0 <= j < i ==> plant_data_ok(self, self.nfts.power_plants@[j], #[trigger] out@[j]),
            decreases self.nfts.power_plants.len() - i,
        {
            let p = self.nfts.power_plants[i];
            proof {
                assert(plant_ok(self, self.nfts.power_plants@[i as int]));
            }
            let owner = self.nfts.owner_of(p.id);
            let miners = self.tokens.balance_check(self.asic_token_id, &p.id.0);
            let hashrate = p.compute_hashrate(&self.tokens);
            out.push(crate::nfts::UXPlantData {
                id: p.id,
                coordinates: p.coordinates,
                for_sale: self.nft_sales.nfts.contains_key(&p.id.0.0),
                miners,
                owner,
                plant_type: p.plant_type,
                watts: p.watts,
                hashrate,
            });
            i = i + 1;
        }
        out
    }

    /// What the interface shows of the plants owned by `user_id`, keyed by
    /// plant identifier.
    pub fn get_user_power_plants(&self, user_id: EntityID) -> (r: crate::nfts::UXNFTRegistry)
        requires
            self.wf(),
        ensures
            forall|i: int| 0 <= i < self.nfts.power_plants@.len() && self.nfts.nfts@[(#[trigger] self.nfts.power_plants@[i]).id.0.0].owner == user_id
                ==> r.power_plant_data@.contains_key(self.nfts.power_plants@[i].id.0.0),
            forall|k: u64| #[trigger] r.power_plant_data@.contains_key(k) ==> exists|i: int| 0 <= i < self.nfts.power_plants@.len()
                && self.nfts.power_plants@[i].id.0.0 == k
                && self.nfts.nfts@[k].owner == user_id
                && plant_data_ok(self, self.nfts.power_plants@[i], r.power_plant_data@[k]),
    {
        let all = self.get_ux_power_plant_data();
        let mut m: BTreeMap<u64, crate::nfts::UXPlantData> = BTreeMap::new();
        let mut i: usize = 0;
        while i < all.len()
            invariant
                i <= all@.len(),
                all@.len() == self.nfts.power_plants@.len(),
                forall|j: int| 0 <= j < all@.len() ==> plant_data_ok(self, self.nfts.power_plants@[j], #[trigger] all@[j]),
                plants_ordered(self.nfts.power_plants@),
                forall|j: int| 0 <= j < i && self.nfts.nfts@[(#[trigger] self.nfts.power_plants@[j]).id.0.0].owner == user_id
                    ==> m@.contains_key(self.nfts.power_plants@[j].id.0.0),
                forall|k: u64| #[trigger] m@.contains_key(k) ==> exists|j: int| 0 <= j < i
                    && self.nfts.power_plants@[j].id.0.0 == k
                    && self.nfts.nfts@[k].owner == user_id
                    && plant_data_ok(self, self.nfts.power_plants@[j], m@[k]),
            decreases all.len() - i,
        {
            let d = all[i];
            if d.owner.0 == user_id.0 {
                m.insert(d.id.0.0, d);
                proof {
                    assert(d.owner == user_id);
                    assert forall|k: u64| #[trigger] m@.contains_key(k) implies exists|j: int| 0 <= j < i + 1
                        && self.nfts.power_plants@[j].id.0.0 == k
                        && self.nfts.nfts@[k].owner == user_id
                        && plant_data_ok(self, self.nfts.power_plants@[j], m@[k]) by {
                        if k == d.id.0.0 {
                            assert(self.nfts.power_plants@[i as int].id.0.0 == k);
                        } else {
                            let j = choose|j: int| 0 <= j < i
                                && self.nfts.power_plants@[j].id.0.0 == k
                                && self.nfts.nfts@[k].owner == user_id
                                && plant_data_ok(self, self.nfts.power_plants@[j], m@[k]);
                            assert(self.nfts.power_plants@[j].id.0.0 == k);
                        }
                    }
                }
            }
            i = i + 1;
        }
        crate::nfts::UXNFTRegistry { power_plant_data: m }
    }

    /// Simulates buying through a market (nothing moves; a missing market
    /// is created).
    pub fn simulate_buy_trade(&mut self, pair: TradingPairID, amount_a: u128, amount_b: u128, sender: EntityID) -> (r: Result<TradeOutcome, TradeError>)
        requires
            old(self).wf(),
            old(self).tokens.has(pair.asset_a),
            old(self).tokens.has(pair.asset_b),
            old(self).alloc.0 + 4 <= u64::MAX,
        ensures
            final(self).wf(),
            *final(self) == (GameBoard { tokens: final(self).tokens, swap: final(self).swap, alloc: final(self).alloc, ..*old(self) }),
            crate::token_swap::buy_trade_post(&old(self).tokens, &old(self).swap, old(self).alloc.0, &final(self).tokens, &final(self).swap, pair, amount_a, amount_b, None, true, sender.0, r),
    {
        self.buy_trade(pair, amount_a, amount_b, None, true, sender)
    }

    /// Simulates selling through a market (nothing moves; a missing market
    /// is created).
    pub fn simulate_sell_trade(&mut self, pair: TradingPairID, amount_a: u128, amount_b: u128, sender: EntityID) -> (r: Result<TradeOutcome, TradeError>)
        requires
            old(self).wf(),
            old(self).tokens.has(pair.asset_a),
            old(self).tokens.has(pair.asset_b),
            old(self).alloc.0 + 4 <= u64::MAX,
        ensures
            final(self).wf(),
            *final(self) == (GameBoard { tokens: final(self).tokens, swap: final(self).swap, alloc: final(self).alloc, ..*old(self) }),
            crate::token_swap::sell_trade_post(&old(self).tokens, &old(self).swap, old(self).alloc.0, &final(self).tokens, &final(self).swap, pair, amount_a, amount_b, None, true, sender.0, r),
    {
        self.sell_trade(pair, amount_a, amount_b, None, true, sender)
    }
}


/// The nickname of token `k` and the balance `id` holds of it.
pub open spec fn token_entry(g: &GameBoard, k: u64, id: EntityID) -> (Seq<char>, int) {
    (g.tokens.nick(k), g.tokens.bal(k, id.0))
}

/// What a player's inventory shows: a nickname and balance for every token
/// (each token once), and only plants the player owns.
pub open spec fn inventory_ok(g: &GameBoard, id: EntityID, inv: UXUserInventory) -> bool {
    &&& exists|ks: Seq<u64>| {
        &&& #[trigger] ks.to_set() == g.tokens.tokens@.dom()
        &&& ks.no_duplicates()
        &&& inv.user_token_balances@.map_values(|e: (String, u128)| (e.0@, e.1 as int)) == ks.map_values(|k: u64| token_entry(g, k, id))
    }
    &&& forall|k: u64| #[trigger] inv.user_power_plants@.contains_key(k) ==> g.nfts.nfts@[k].owner == id
}

impl GameBoard {
    /// What the player with key `user_key` owns: their plants (see
    /// `get_user_power_plants`) and, for every token, its nickname and their
    /// balance.
    pub fn get_ux_user_inventory(&self, user_key: String) -> (r: Result<UXUserInventory, ()>)
        requires
            self.wf(),
            user_id_of(self.users_by_key@, user_key@) is Some,
        ensures
            r matches Ok(inv) && inventory_ok(self, user_id_of(self.users_by_key@, user_key@).unwrap(), inv),
    {
        let user_id = self.get_user_id(user_key.as_str()).unwrap();
        let ghost id = user_id_of(self.users_by_key@, user_key@).unwrap();
        let plants = self.get_user_power_plants(user_id);
        let ids = self.tokens.token_ids();
        proof {
            ids@.unique_seq_to_set();
        }
        let mut balances: Vec<(String, u128)> = Vec::new();
        let mut i: usize = 0;
        while i < ids.len()
            invariant
                i <= ids@.len(),
                self.wf(),
                ids@.to_set() == self.tokens.tokens@.dom(),
                id == user_id,
                balances@.map_values(|e: (String, u128)| (e.0@, e.1 as int)) == ids@.take(i as int).map_values(|k: u64| token_entry(self, k, id)),
            decreases ids.len() - i,
        {
            let k = ids[i];
            assert(ids@.to_set().contains(k));
            let ptr = TokenPointer(EntityID(k));
            let b = self.tokens.balance_check(ptr, &user_id);
            let n = self.tokens.nickname(ptr);
            let ghost prev = balances@;
            balances.push((n, b));
            proof {
                assert(balances@.map_values(|e: (String, u128)| (e.0@, e.1 as int)) =~= prev.map_values(|e: (String, u128)| (e.0@, e.1 as int)).push((n@, b as int)));
                assert(ids@.take(i + 1).map_values(|k: u64| token_entry(self, k, id)) =~= ids@.take(i as int).map_values(|k: u64| token_entry(self, k, id)).push(token_entry(self, k, id)));
                assert(token_entry(self, k, id) == (n@, b as int));
            }
            i = i + 1;
        }
        assert(ids@.take(i as int) =~= ids@);
        let inv = UXUserInventory { user_power_plants: plants.power_plant_data, user_token_balances: balances };
        assert forall|k: u64| #[trigger] inv.user_power_plants@.contains_key(k) implies self.nfts.nfts@[k].owner == id by {
            let j = choose|j: int| 0 <= j < self.nfts.power_plants@.len()
                && self.nfts.power_plants@[j].id.0.0 == k
                && self.nfts.nfts@[k].owner == user_id
                && plant_data_ok(self, self.nfts.power_plants@[j], plants.power_plant_data@[k]);
        }
        assert(inv.user_token_balances@.map_values(|e: (String, u128)| (e.0@, e.1 as int)) == ids@.map_values(|k: u64| token_entry(self, k, id)));
        Ok(inv)
    }

    /// For each material of a plant of `plant_type` and `scale`: its name,
    /// the quantity needed and the virtual sats a purchase of it would cost
    /// now (simulated; a market missing is created). The first purchase
    /// that would be refused is returned as the error.
    pub fn get_power_plant_cost(&mut self, scale: u64, location: (i64, i64), plant_type: PlantType, signing_key: String) -> (r: Result<Vec<(String, u128, u128)>, TradeError>)
        requires
            old(self).wf(),
            old(self).alloc.0 + 64 <= u64::MAX,
            user_id_of(old(self).users_by_key@, signing_key@) is Some,
        ensures
            final(self).wf(),
            *final(self) == (GameBoard { tokens: final(self).tokens, swap: final(self).swap, alloc: final(self).alloc, ..*old(self) }),
            ({
                let bill = crate::nfts::scaled_bill(old(self).plant_prices.bill(plant_type), scale);
                let owner = user_id_of(old(self).users_by_key@, signing_key@).unwrap();
                match r {
                    Ok(v) => priced_all(old(self), final(self), bill, owner, cost_views(v@)),
                    Err(e) => exists|k: int, gm: GameBoard, costs: Seq<(Seq<char>, u128, u128)>|
                        #![trigger priced_all(old(self), &gm, bill.take(k), owner, costs)]
                        0 <= k < bill.len() && priced_all(old(self), &gm, bill.take(k), owner, costs)
                            && quote_done(&gm, final(self), material_pair(old(self), bill[k]), bill[k].1, owner, Err(e)),
                }
            }),
    {
        let owner = self.get_user_id(signing_key.as_str()).unwrap();
        let resources = plant_type.raw_materials_bill(&self.plant_prices, scale);
        proof {
            assert forall|k: int| 0 <= k < resources@.len() implies self.tokens.tokens@.contains_key(#[trigger] resources@[k].0.0.0) by {
                let b = self.plant_prices.bill(plant_type);
                assert(resources@[k].0 == b[k].0);
                assert(self.tokens.tokens@.contains_key(b[k].0.0.0));
            }
        }
        let ghost g0 = *self;
        let btc = self.bitcoin_token_id;
        let mut out: Vec<(String, u128, u128)> = Vec::new();
        let mut i: usize = 0;
        while i < resources.len()
            invariant
                i <= resources@.len(),
                resources@.len() <= 16,
                resources@ == crate::nfts::scaled_bill(g0.plant_prices.bill(plant_type), scale),
                self.wf(),
                *self == (GameBoard { tokens: self.tokens, swap: self.swap, alloc: self.alloc, ..g0 }),
                self.alloc.0 <= g0.alloc.0 + 2 * i,
                g0.alloc.0 + 64 <= u64::MAX,
                g0 == *old(self),
                btc == self.bitcoin_token_id,
                forall|k: int| 0 <= k < resources@.len() ==> self.tokens.tokens@.contains_key(#[trigger] resources@[k].0.0.0),
                out@.len() == i,
                owner == user_id_of(g0.users_by_key@, signing_key@).unwrap(),
                priced_all(&g0, self, resources@.take(i as int), owner, cost_views(out@)),
            decreases resources.len() - i,
        {
            let (material, qty) = resources[i];
            assert(self.tokens.tokens@.contains_key(resources@[i as int].0.0.0));
            let name = self.tokens.nickname(material);
            let ghost t0 = self.tokens;
            let ghost gm = *self;
            let sim = self.buy_trade(TradingPairID { asset_a: material, asset_b: btc }, qty, 0, None, true, owner);
            proof {
                assert forall|k: int| 0 <= k < resources@.len() implies self.tokens.tokens@.contains_key(#[trigger] resources@[k].0.0.0) by {
                    assert(t0.tokens@.contains_key(resources@[k].0.0.0));
                }
                assert(resources@[i as int] == (material, qty));
                assert(quote_done(&gm, self, material_pair(&g0, resources@[i as int]), resources@[i as int].1, owner, sim));
            }
            match sim {
                Ok(outcome) => {
                    let ghost before = out@;
                    out.push((name, qty, outcome.amount_player_sold));
                    proof {
                        let t1 = resources@.take(i + 1);
                        assert(t1.drop_last() =~= resources@.take(i as int));
                        assert(t1.last() == (material, qty));
                        assert(cost_views(out@).drop_last() =~= cost_views(before));
                        assert(cost_views(out@).last() == (gm.tokens.nick(material.0.0), qty, outcome.amount_player_sold));
                        assert(quote_done(&gm, self, material_pair(&g0, t1.last()), t1.last().1, owner, Ok(outcome)));
                    }
                },
                Err(e) => {
                    proof {
                        assert(quote_done(&gm, self, material_pair(&g0, resources@[i as int]), resources@[i as int].1, owner, Err(e)));
                        assert(priced_all(&g0, &gm, resources@.take(i as int), owner, cost_views(out@)));
                    }
                    return Err(e);
                },
            }
            i = i + 1;
        }
        assert(resources@.take(resources@.len() as int) =~= resources@);
        Ok(out)
    }
}

/// `g1` is `g0` after a simulated purchase by `owner` of `amount_a` of the
/// first asset of `pair`, with outcome `tr` (nothing moves; a missing market
/// is created).
pub open spec fn quote_done(g0: &GameBoard, g1: &GameBoard, pair: TradingPairID, amount_a: u128, owner: EntityID, tr: Result<TradeOutcome, TradeError>) -> bool {
    &&& *g1 == (GameBoard { tokens: g1.tokens, swap: g1.swap, alloc: g1.alloc, ..*g0 })
    &&& crate::token_swap::buy_trade_post(&g0.tokens, &g0.swap, g0.alloc.0, &g1.tokens, &g1.swap, pair, amount_a, 0, None, true, owner.0, tr)
}

/// The purchase of a material of a bill with virtual sats.
pub open spec fn material_pair(g: &GameBoard, item: (TokenPointer, u128)) -> TradingPairID {
    TradingPairID { asset_a: item.0, asset_b: g.bitcoin_token_id }
}

/// The prices of a cost estimate: name, quantity and virtual sats paid.
pub open spec fn cost_views(v: Seq<(String, u128, u128)>) -> Seq<(Seq<char>, u128, u128)> {
    v.map_values(|e: (String, u128, u128)| (e.0@, e.1, e.2))
}

/// `g1` is `g0` after the purchase of each material of `bill` by `owner`
/// was simulated in turn, all accepted; `costs` gives for each its name, its
/// quantity and the virtual sats it would cost.
pub open spec fn priced_all(g0: &GameBoard, g1: &GameBoard, bill: Seq<(TokenPointer, u128)>, owner: EntityID, costs: Seq<(Seq<char>, u128, u128)>) -> bool
    decreases bill.len(),
{
    if bill.len() == 0 {
        *g1 == *g0 && costs.len() == 0
    } else {
        exists|gm: GameBoard, outcome: TradeOutcome| {
            &&& priced_all(g0, &gm, bill.drop_last(), owner, costs.drop_last())
            &&& #[trigger] quote_done(&gm, g1, material_pair(g0, bill.last()), bill.last().1, owner, Ok(outcome))
            &&& costs.len() == bill.len()
            &&& costs.last() == (gm.tokens.nick(bill.last().0.0.0), bill.last().1, outcome.amount_player_sold)
        }
    }
}

impl GameSetup {
    /// Seats the players: each distinct key, in increasing order, gets a
    /// fresh identifier and `start_amount` of both sats tokens; the game's
    /// finish time is set.
    pub fn setup_game(&self, g: &mut GameBoard)
        requires
            old(g).wf(),
            old(g).users_by_key@.len() == 0,
            old(g).tokens.tokens@[old(g).bitcoin_token_id.0.0].total == 0,
            old(g).tokens.tokens@[old(g).real_sats_token_id.0.0].total == 0,
            old(g).tokens.tokens@[old(g).bitcoin_token_id.0.0].balances@ == Map::<u64, u128>::empty(),
            old(g).tokens.tokens@[old(g).real_sats_token_id.0.0].balances@ == Map::<u64, u128>::empty(),
            old(g).bitcoin_token_id != old(g).real_sats_token_id,
            old(g).alloc.0 + self.players@.len() + 16 <= u64::MAX,
            self.players@.len() <= u64::MAX,
        ensures
            final(g).wf(),
            final(g).finish_time == self.finish_time,
            players_seated(final(g), sorted_distinct(texts(self.players@)), old(g).alloc.0 + 1, self.start_amount as int),
            final(g).alloc.0 == old(g).alloc.0 + sorted_distinct(texts(self.players@)).len(),
            final(g).tokens.tokens@.dom() == old(g).tokens.tokens@.dom(),
            final(g).tokens.tokens@[old(g).bitcoin_token_id.0.0].total == self.start_amount * sorted_distinct(texts(self.players@)).len(),
            final(g).tokens.tokens@[old(g).real_sats_token_id.0.0].total == self.start_amount * sorted_distinct(texts(self.players@)).len(),
            final(g).users@.dom() == old(g).users@.dom().union(Set::new(|h: u64| old(g).alloc.0 < h <= final(g).alloc.0)),
            final(g).plant_prices == old(g).plant_prices,
            final(g).nft_sales == old(g).nft_sales,
            final(g).tokens.hashboards@ == old(g).tokens.hashboards@,
            forall|h: u64| h <= old(g).alloc.0 ==> #[trigger] final(g).tokens.bal(old(g).bitcoin_token_id.0.0, h) == 0,
            forall|h: u64| h <= old(g).alloc.0 ==> #[trigger] final(g).tokens.bal(old(g).real_sats_token_id.0.0, h) == 0,
            final(g).swap == old(g).swap,
            final(g).callbacks == old(g).callbacks,
            final(g).nfts == old(g).nfts,
            final(g).ticks == old(g).ticks,
            final(g).bitcoin_token_id == old(g).bitcoin_token_id,
            final(g).real_sats_token_id == old(g).real_sats_token_id,
            final(g).steel_token_id == old(g).steel_token_id,
            final(g).silicon_token_id == old(g).silicon_token_id,
            final(g).concrete_token_id == old(g).concrete_token_id,
            final(g).asic_token_id == old(g).asic_token_id,
            final(g).root_user == old(g).root_user,
            final(g).elapsed_time == old(g).elapsed_time,
            final(g).mining_subsidy == old(g).mining_subsidy,
            final(g).chat@ == old(g).chat@,
            final(g).event_log@ == old(g).event_log@,
            final(g).chat_counter == old(g).chat_counter,
            final(g).event_log_counter == old(g).event_log_counter,
            forall|k: u64| #[trigger] old(g).tokens.tokens@.contains_key(k) && k != old(g).bitcoin_token_id.0.0 && k != old(g).real_sats_token_id.0.0 ==> final(g).tokens.tokens@[k] == old(g).tokens.tokens@[k],
    {
        g.finish_time = self.finish_time;
        let p = sorted_distinct_strings(&self.players);
        let ghost keys = sorted_distinct(texts(self.players@));
        proof {
            crate::strings::law_sorted_distinct(texts(self.players@));
        }
        let ghost g0 = *g;
        let btc = g.bitcoin_token_id;
        let sats = g.real_sats_token_id;
        let start = self.start_amount as u128;
        let mut i: usize = 0;
        assert(user_keys(g.users_by_key@) =~= keys.take(0));
        while i < p.len()
            invariant
                0 <= i <= p@.len(),
                texts(p@) == keys,
                crate::strings::strictly_increasing(keys),
                keys.len() <= self.players@.len(),
                g0.alloc.0 + self.players@.len() + 16 <= u64::MAX,
                g.wf(),
                g0.wf(),
                btc == g.bitcoin_token_id,
                sats == g.real_sats_token_id,
                btc != sats,
                start == self.start_amount,
                g.alloc.0 == g0.alloc.0 + i,
                g.finish_time == self.finish_time,
                players_seated(g, keys.take(i as int), g0.alloc.0 + 1, start as int),
                g.users_by_key@.len() == i,
                g.tokens.tokens@.dom() == g0.tokens.tokens@.dom(),
                g.tokens.tokens@[btc.0.0].total == start * i,
                g.tokens.tokens@[sats.0.0].total == start * i,
                forall|h: u64| #[trigger] g.tokens.tokens@[btc.0.0].balances@.contains_key(h) ==> g0.alloc.0 < h <= g.alloc.0,
                forall|h: u64| #[trigger] g.tokens.tokens@[sats.0.0].balances@.contains_key(h) ==> g0.alloc.0 < h <= g.alloc.0,
                forall|h: u64| #[trigger] g.users@.contains_key(h) && !g0.users@.contains_key(h) ==> g0.alloc.0 < h <= g.alloc.0,
                forall|h: u64| #[trigger] g0.users@.contains_key(h) ==> g.users@.contains_key(h),
                g.users@.dom() == g0.users@.dom().union(Set::new(|h: u64| g0.alloc.0 < h <= g.alloc.0)),
                g.tokens.hashboards@ == g0.tokens.hashboards@,
                g.swap == g0.swap,
                g.callbacks == g0.callbacks,
                g.nfts == g0.nfts,
                g.ticks == g0.ticks,
                g.steel_token_id == g0.steel_token_id,
                g.silicon_token_id == g0.silicon_token_id,
                g.concrete_token_id == g0.concrete_token_id,
                g.asic_token_id == g0.asic_token_id,
                g.root_user == g0.root_user,
                g.elapsed_time == g0.elapsed_time,
                g.mining_subsidy == g0.mining_subsidy,
                g.chat@ == g0.chat@,
                g.event_log@ == g0.event_log@,
                g.chat_counter == g0.chat_counter,
                g.event_log_counter == g0.event_log_counter,
                g.plant_prices == g0.plant_prices,
                g.nft_sales == g0.nft_sales,
                forall|k: u64| #[trigger] g0.tokens.tokens@.contains_key(k) && k != btc.0.0 && k != sats.0.0 ==> g.tokens.tokens@[k] == g0.tokens.tokens@[k],
            decreases p.len() - i,
        {
            let id = g.alloc.make();
            let key = p[i].clone();
            g.users.insert(id.0, UserData { key: p[i].clone() });
            let ghost before = g.users_by_key@;
            g.users_by_key.push((key, id));
            assert(start * i + start == start * (i + 1)) by (nonlinear_arith);
            assert(start * i <= start * self.players@.len()) by (nonlinear_arith)
                requires i <= self.players@.len();
            assert(start * self.players@.len() <= 0xffff_ffff_ffff_ffff * 0xffff_ffff_ffff_ffff) by (nonlinear_arith)
                requires start <= 0xffff_ffff_ffff_ffff, self.players@.len() <= 0xffff_ffff_ffff_ffff;
            g.tokens.mint(sats, &id, start);
            g.tokens.mint(btc, &id, start);
            proof {
                let u = g.users_by_key@;
                assert(u[i as int].0@ == keys[i as int]);
                assert(keys.take(i + 1) =~= keys.take(i as int).push(keys[i as int]));
                assert(user_keys(u) =~= keys.take(i + 1));
                assert forall|a: int, b: int| 0 <= a < b < u.len() implies (#[trigger] u[a]).0@ != (#[trigger] u[b]).0@ && u[a].1 != u[b].1 by {
                    assert(crate::strings::text_lt(keys[a], keys[b]));
                    crate::strings::lemma_text_lt_irreflexive(keys[a]);
                    assert(user_keys(u)[a] == u[a].0@);
                    assert(user_keys(u)[b] == u[b].0@);
                    assert(keys.take(i + 1)[a] == keys[a]);
                    assert(keys.take(i + 1)[b] == keys[b]);
                }
                assert forall|k: u64| #[trigger] g.tokens.tokens@.contains_key(k) implies k <= g.alloc.0 by {
                    assert(g0.tokens.tokens@.contains_key(k));
                }
                assert forall|j: int| 0 <= j < i + 1 implies g.tokens.bal(btc.0.0, (#[trigger] u[j]).1.0) == start as int by {
                    if j < i {
                        assert(u[j] == before[j]);
                        assert(u[j].1.0 < id.0);
                    }
                }
                assert forall|j: int| 0 <= j < i + 1 implies g.tokens.bal(sats.0.0, (#[trigger] u[j]).1.0) == start as int by {
                    if j < i {
                        assert(u[j] == before[j]);
                        assert(u[j].1.0 < id.0);
                    }
                }
                assert forall|j: int| 0 <= j < i + 1 implies g.users@.contains_key((#[trigger] u[j]).1.0) by {
                    if j < i {
                        assert(u[j] == before[j]);
                    }
                }
                assert forall|kk: (u64, u64)| #[trigger] g.swap.markets@.contains_key(kk) implies crate::token_swap::market_ok(&g.tokens, g.swap.markets@[kk], kk, g.alloc.0) by {
                    assert(g0.swap.markets@.contains_key(kk));
                }
                assert forall|j: int| 0 <= j < g.callbacks.callbacks@.len() implies callback_ok(&g.tokens, #[trigger] g.callbacks.callbacks@[j]) by {
                    assert(callback_ok(&g0.tokens, g0.callbacks.callbacks@[j]));
                }
                assert forall|j: int| 0 <= j < g.nfts.power_plants@.len() implies plant_ok(g, #[trigger] g.nfts.power_plants@[j]) by {
                    assert(plant_ok(&g0, g0.nfts.power_plants@[j]));
                }
            }
            i = i + 1;
        }
        proof {
            assert(keys.take(i as int) =~= keys);
        }
    }
}

/// What a new game looks like: fresh tokens and identifiers, the players
/// seated in order of their keys with their starting sats, the funded
/// administrator, the clocks at zero and the logs empty, the first events
/// queued, a first plant per player holding one hash board, the price table
/// of the plants, the markets of the materials open and empty, no offers,
/// and the supply of every token: the players' and the administrator's
/// sats, no material, and one hash board per starting plant (with the
/// balances stated here and each total the sum of its balances, no other
/// account holds anything).
pub open spec fn fresh_board(g: &GameBoard, setup: &GameSetup) -> bool {
    let keys = sorted_distinct(texts(setup.players@));
    let n = keys.len();
    &&& fresh_ids(g)
    &&& players_seated(g, keys, ALLOCATOR_START + 8, setup.start_amount as int)
    &&& g.users@.dom() == Set::new(|k: u64| ALLOCATOR_START + 8 <= k < ALLOCATOR_START + 8 + n)
    &&& g.tokens.bal(g.bitcoin_token_id.0.0, g.root_user.0) == 10_000_000_000
    &&& g.tokens.bal(g.real_sats_token_id.0.0, g.root_user.0) == 30000
    &&& g.finish_time == setup.finish_time
    &&& g.elapsed_time == 0
    &&& g.mining_subsidy == 5_000_000_000
    &&& g.chat@.len() == 0
    &&& g.event_log@.len() == 0
    &&& g.chat_counter == 0
    &&& g.event_log_counter == 0
    &&& g.ticks@.len() == 0
    &&& g.tokens.hashboards@ == seq![(g.asic_token_id, HashBoardData { hash_per_watt: 300_000_000_000, reliability: 100 })]
    &&& g.callbacks.callbacks@ == first_events(g, (ALLOCATOR_START + 16 + n) as u64, (ALLOCATOR_START + 17 + n) as u64)
    &&& g.nfts.power_plants@.len() == n
    &&& forall|i: int| 0 <= i < n ==> {
        &&& (#[trigger] g.nfts.power_plants@[i]).plant_type == start_location(i).1
        &&& g.nfts.power_plants@[i].coordinates == start_location(i).0
        &&& g.nfts.nfts@[g.nfts.power_plants@[i].id.0.0].owner == g.users_by_key@[i].1
        &&& g.tokens.bal(g.asic_token_id.0.0, g.nfts.power_plants@[i].id.0.0) == 1
    }
    &&& g.plant_prices.solar@ == seq![(g.steel_token_id, 1u128), (g.silicon_token_id, 8u128), (g.concrete_token_id, 1u128)]
    &&& g.plant_prices.hydro@ == seq![(g.steel_token_id, 3u128), (g.silicon_token_id, 1u128), (g.concrete_token_id, 6u128)]
    &&& g.plant_prices.flare@ == seq![(g.steel_token_id, 4u128), (g.silicon_token_id, 2u128), (g.concrete_token_id, 4u128)]
    &&& material_markets_open(g)
    &&& g.swap.markets@.dom() == material_market_keys(g)
    &&& forall|kk: (u64, u64)| #[trigger] g.swap.markets@.contains_key(kk) ==> market_fresh(g, kk)
    &&& g.tokens.tokens@[g.bitcoin_token_id.0.0].total == 10_000_000_000 + setup.start_amount * n
    &&& g.tokens.tokens@[g.real_sats_token_id.0.0].total == 30000 + setup.start_amount * n
    &&& g.tokens.tokens@[g.steel_token_id.0.0].total == 0
    &&& g.tokens.tokens@[g.silicon_token_id.0.0].total == 0
    &&& g.tokens.tokens@[g.concrete_token_id.0.0].total == 0
    &&& g.tokens.tokens@[g.asic_token_id.0.0].total == n
    &&& forall|k: u64| #[trigger] g.tokens.bal(g.asic_token_id.0.0, k) == (if plant_id_seq(g.nfts.power_plants@).contains(k) { 1int } else { 0int })
    &&& g.nft_sales.nfts@ == Map::<u64, NFTSale>::empty()
}

impl GameBoard {
    /// Creates a game: six tokens (virtual sats, real-world sats, concrete,
    /// hash boards, steel, silicon), the administrator, the material price
    /// table of each plant kind, the players of `setup` (see
    /// `GameSetup::setup_game`) and what `post_init` adds.
    pub fn new(setup: &GameSetup) -> (g: GameBoard)
        requires
            sorted_distinct(texts(setup.players@)).len() <= 10,
            setup.players@.len() < 0x1_0000_0000_0000,
        ensures
            g.wf(),
            fresh_board(&g, setup),
    {
        let mut alloc = EntityIDAllocator::new();
        let btc = TokenBase::new_from_alloc(&mut alloc, String::from_str("Virtual Sats"));
        let real_sats = TokenBase::new_from_alloc(&mut alloc, String::from_str("Real World Sats"));
        let concrete = TokenBase::new_from_alloc(&mut alloc, String::from_str("Concrete (1mt)"));
        let asic = TokenBase::new_from_alloc(&mut alloc, String::from_str("ASIC Gen 1"));
        let steel = TokenBase::new_from_alloc(&mut alloc, String::from_str("Steel (1mt)"));
        let silicon = TokenBase::new_from_alloc(&mut alloc, String::from_str("Silicon (10kg)"));
        let mut tokens = TokenRegistry::new();
        let bitcoin_token_id = tokens.new_token(btc);
        let real_sats_token_id = tokens.new_token(real_sats);
        let concrete_token_id = tokens.new_token(concrete);
        let steel_token_id = tokens.new_token(steel);
        let silicon_token_id = tokens.new_token(silicon);
        let asic_token_id = tokens.new_token(asic);
        tokens.hashboards.push((asic_token_id, HashBoardData { hash_per_watt: 300_000_000_000, reliability: 100 }));
        tokens.steel.insert(steel_token_id.0.0, Steel { variety: SteelVariety::StructuralGrade, weight_in_kg: 1000 });
        tokens.silicon.insert(silicon_token_id.0.0, Silicon { weight_in_kg: 10 });
        let root_user = alloc.make();
        let plant_prices = PowerPlantPrices {
            solar: vec![(steel_token_id, 1), (silicon_token_id, 8), (concrete_token_id, 1)],
            hydro: vec![(steel_token_id, 3), (silicon_token_id, 1), (concrete_token_id, 6)],
            flare: vec![(steel_token_id, 4), (silicon_token_id, 2), (concrete_token_id, 4)],
        };
        let mut g = GameBoard {
            tokens,
            swap: ConstantFunctionMarketMaker::new(),
            turn_count: 0,
            alloc,
            users: BTreeMap::new(),
            users_by_key: Vec::new(),
            nfts: NFTRegistry::new(),
            nft_sales: NFTSaleRegistry::new(),
            player_move_sequence: BTreeMap::new(),
            bitcoin_token_id,
            real_sats_token_id,
            steel_token_id,
            silicon_token_id,
            concrete_token_id,
            asic_token_id,
            root_user,
            callbacks: CallbackRegistry::new(),
            elapsed_time: 0,
            finish_time: 0,
            mining_subsidy: 5_000_000_000,
            ticks: Vec::new(),
            chat: VecDeque::new(),
            nicks: BTreeMap::new(),
            chat_counter: 0,
            event_log: VecDeque::new(),
            event_log_counter: 0,
            plant_prices,
        };
        proof {
            assert(g.tokens.boards_ok());
            assert forall|k: u64| #[trigger] g.tokens.tokens@.contains_key(k) implies k <= g.alloc.0 by {
            }
            assert(bill_tokens_ok(&g.tokens, g.plant_prices.solar@));
            assert(bill_tokens_ok(&g.tokens, g.plant_prices.hydro@));
            assert(bill_tokens_ok(&g.tokens, g.plant_prices.flare@));
        }
        setup.setup_game(&mut g);
        let ghost g1 = g;
        proof {
            crate::strings::law_sorted_distinct(texts(setup.players@));
            let n = sorted_distinct(texts(setup.players@)).len();
            assert(setup.start_amount * n <= 0xffff_ffff_ffff_ffff * 10) by (nonlinear_arith)
                requires n <= 10, setup.start_amount <= 0xffff_ffff_ffff_ffff;
        }
        g.post_init();
        proof {
            let keys = sorted_distinct(texts(setup.players@));
            assert forall|i: int| 0 <= i < keys.len() implies g.tokens.bal(g.bitcoin_token_id.0.0, (#[trigger] g.users_by_key@[i]).1.0) == setup.start_amount as int by {
                assert(g1.users_by_key@[i].1.0 != g1.root_user.0);
            }
            assert forall|i: int| 0 <= i < keys.len() implies g.tokens.bal(g.real_sats_token_id.0.0, (#[trigger] g.users_by_key@[i]).1.0) == setup.start_amount as int by {
                assert(g1.users_by_key@[i].1.0 != g1.root_user.0);
            }
            assert(fresh_ids(&g));
            assert(players_seated(&g, keys, ALLOCATOR_START + 8, setup.start_amount as int));
            assert(g.users@.dom() =~= Set::new(|k: u64| ALLOCATOR_START + 8 <= k < ALLOCATOR_START + 8 + keys.len()));
            assert(g.tokens.bal(g.bitcoin_token_id.0.0, g.root_user.0) == 10_000_000_000);
            assert(g.tokens.bal(g.real_sats_token_id.0.0, g.root_user.0) == 30000);
            assert(g.finish_time == setup.finish_time);
            assert(g.chat@.len() == 0);
            assert(g.tokens.hashboards@ == seq![(g.asic_token_id, HashBoardData { hash_per_watt: 300_000_000_000, reliability: 100 })]);
            assert(g.callbacks.callbacks@ == first_events(&g, (ALLOCATOR_START + 16 + keys.len()) as u64, (ALLOCATOR_START + 17 + keys.len()) as u64));
            assert(g.swap.markets@.dom() == material_market_keys(&g));
            assert(g.tokens.tokens@[g.bitcoin_token_id.0.0].total == 10_000_000_000 + setup.start_amount * keys.len());
            assert(g.tokens.tokens@[g.real_sats_token_id.0.0].total == 30000 + setup.start_amount * keys.len());
            assert(g.tokens.tokens@[g.steel_token_id.0.0].total == 0);
            assert(g.tokens.tokens@[g.silicon_token_id.0.0].total == 0);
            assert(g.tokens.tokens@[g.concrete_token_id.0.0].total == 0);
            assert(g.tokens.tokens@[g.asic_token_id.0.0].total == keys.len());
            assert(g.nft_sales.nfts@ == Map::<u64, NFTSale>::empty());
        }
        g
    }
}

} // verus!
