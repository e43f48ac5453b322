//! Trading pairs and the constant-function market maker that trades them.
use vstd::prelude::*;
use std::collections::BTreeMap;
use crate::entity::{EntityID, EntityIDAllocator};
use crate::numfmt::{lemma_digit_char_value, digit_char, HexParseError, hex_parse, radix_digits, parse_hex_u64, to_hex_string, to_decimal_string, law_hex_roundtrip};
use crate::tokens::{TokenBase, TokenPointer, TokenRegistry, transferred, balance_of};
use crate::cfmm_math::{sell_quote_defined, sell_quote_buy, sell_quote_sell, buy_quote_defined, buy_quote_buy, buy_quote_sell, quote_sell, quote_buy, roundup_div, ceil_div, law_sell_quote, law_buy_quote, lemma_ceil_div_bounds};

verus! {

/// A trading pair, not necessarily normalized: the order of the assets says
/// in which order the amounts of a trade are given.
#[derive(Clone, Copy, Debug, PartialEq, Eq, Structural, Hash)]
pub struct TradingPairID {
    pub asset_a: TokenPointer,
    pub asset_b: TokenPointer,
}

impl TradingPairID {
    /// The pair lists its assets in increasing order.
    pub open spec fn normal(self) -> bool {
        self.asset_a.0.0 <= self.asset_b.0.0
    }

    /// The pair with its assets in increasing order.
    pub open spec fn normalized(self) -> TradingPairID {
        if self.normal() {
            self
        } else {
            TradingPairID { asset_a: self.asset_b, asset_b: self.asset_a }
        }
    }

    /// The key of the pair's market.
    pub open spec fn key(self) -> (u64, u64) {
        (self.asset_a.0.0, self.asset_b.0.0)
    }

    /// Sorts the two assets (for use as a map key). The amounts of a trade
    /// must be swapped along with them.
    pub fn normalize(&mut self)
        ensures
            *final(self) == old(self).normalized(),
    {
        if self.asset_a.0.0 <= self.asset_b.0.0 {
        } else {
            *self = TradingPairID { asset_a: self.asset_b, asset_b: self.asset_a };
        }
    }

    /// Whether the assets are in increasing order.
    pub fn is_normal(&self) -> (r: bool)
        ensures
            r == self.normal(),
    {
        self.asset_a.0.0 <= self.asset_b.0.0
    }

    /// Text form `"<asset_a hex>:<asset_b hex>"`.
    pub open spec fn text(self) -> Seq<char> {
        radix_digits(self.asset_a.0.0 as nat, 16) + seq![':'] + radix_digits(
            self.asset_b.0.0 as nat,
            16,
        )
    }

    /// Renders the pair as `"<asset_a hex>:<asset_b hex>"`.
    pub fn to_pair_string(&self) -> (s: String)
        ensures
            s@ == self.text(),
    {
        let mut s = to_hex_string(self.asset_a.0.0);
        s.append(":");
        proof {
            reveal_strlit(":");
        }
        let b = to_hex_string(self.asset_b.0.0);
        s.append(b.as_str());
        assert(s@ =~= self.text());
        s
    }

    /// Parses `"<hex>:<hex>"`. Text that does not split into exactly two
    /// terms at `:` is refused, then each term must parse as hexadecimal.
    pub fn try_from_str(value: &str) -> (r: Result<TradingPairID, TradingPairIDParseError>)
        ensures
            r == pair_parse(value@),
    {
        let n = value.unicode_len();
        let mut colon: usize = n;
        let mut count: usize = 0;
        let mut i: usize = 0;
        while i < n
            invariant
                n == value@.len(),
                0 <= i <= n,
                count <= 1,
                count == colon_count(value@.take(i as int)),
                count == 0 ==> colon == n,
                count >= 1 ==> colon < i && value@[colon as int] == ':' && colon_count(
                    value@.take(colon as int),
                ) == 0,
            decreases n - i,
        {
            assert(value@.take(i + 1).drop_last() =~= value@.take(i as int));
            if value.get_char(i) == ':' {
                if count == 0 {
                    colon = i;
                }
                count = count + 1;
                if count > 1 {
                    proof {
                        lemma_colon_count_monotone(value@, (i + 1) as nat);
                    }
                    return Err(TradingPairIDParseError::WrongNumberOfTerms);
                }
            }
            i = i + 1;
        }
        assert(value@.take(n as int) =~= value@);
        if count != 1 {
            return Err(TradingPairIDParseError::WrongNumberOfTerms);
        }
        let first = value.substring_char(0, colon);
        let second = value.substring_char(colon + 1, n);
        proof {
            lemma_first_colon(value@, colon as nat);
        }
        let a = match parse_hex_u64(first) {
            Ok(v) => v,
            Err(e) => {
                return Err(TradingPairIDParseError::EntityIDParseError(e));
            },
        };
        let b = match parse_hex_u64(second) {
            Ok(v) => v,
            Err(e) => {
                return Err(TradingPairIDParseError::EntityIDParseError(e));
            },
        };
        Ok(TradingPairID { asset_a: TokenPointer(EntityID(a)), asset_b: TokenPointer(EntityID(b)) })
    }
}

/// Why text did not parse as a trading pair.
#[derive(Clone, Copy, Debug, PartialEq, Eq, Structural)]
pub enum TradingPairIDParseError {
    /// The text does not split into exactly two terms at `:`.
    WrongNumberOfTerms,
    /// A term is not a hexadecimal identifier.
    EntityIDParseError(HexParseError),
}

/// Number of `:` characters in `s`.
pub open spec fn colon_count(s: Seq<char>) -> nat
    decreases s.len(),
{
    if s.len() == 0 {
        0
    } else {
        colon_count(s.drop_last()) + if s.last() == ':' {
            1nat
        } else {
            0nat
        }
    }
}

/// Index of the first `:` in `s` (meaningful when there is one).
pub open spec fn first_colon(s: Seq<char>) -> int {
    choose|i: int| 0 <= i < s.len() && s[i] == ':' && colon_count(s.take(i)) == 0
}

/// What parsing the text `s` as a trading pair gives.
pub open spec fn pair_parse(s: Seq<char>) -> Result<TradingPairID, TradingPairIDParseError> {
    if colon_count(s) != 1 {
        Err(TradingPairIDParseError::WrongNumberOfTerms)
    } else {
        let c = first_colon(s);
        match hex_parse(s.take(c)) {
            Err(e) => Err(TradingPairIDParseError::EntityIDParseError(e)),
            Ok(a) => match hex_parse(s.skip(c + 1)) {
                Err(e) => Err(TradingPairIDParseError::EntityIDParseError(e)),
                Ok(b) => Ok(
                    TradingPairID {
                        asset_a: TokenPointer(EntityID(a)),
                        asset_b: TokenPointer(EntityID(b)),
                    },
                ),
            },
        }
    }
}

proof fn lemma_colon_count_monotone(s: Seq<char>, i: nat)
    requires
        i <= s.len(),
    ensures
        colon_count(s) >= colon_count(s.take(i as int)),
    decreases s.len() - i,
{
    if i < s.len() {
        assert(s.take(i as int + 1).drop_last() =~= s.take(i as int));
        lemma_colon_count_monotone(s, i + 1);
    } else {
        assert(s.take(i as int) =~= s);
    }
}

proof fn lemma_colon_count_append(s: Seq<char>, t: Seq<char>)
    ensures
        colon_count(s + t) == colon_count(s) + colon_count(t),
    decreases t.len(),
{
    if t.len() == 0 {
        assert(s + t =~= s);
    } else {
        assert((s + t).drop_last() =~= s + t.drop_last());
        lemma_colon_count_append(s, t.drop_last());
    }
}

/// The first colon of a text with exactly one colon is the one found.
proof fn lemma_first_colon(s: Seq<char>, c: nat)
    requires
        c < s.len(),
        s[c as int] == ':',
        colon_count(s.take(c as int)) == 0,
    ensures
        first_colon(s) == c,
{
    let f = first_colon(s);
    assert(0 <= c < s.len() && s[c as int] == ':' && colon_count(s.take(c as int)) == 0);
    assert(0 <= f < s.len() && s[f] == ':' && colon_count(s.take(f)) == 0);
    if f < c {
        lemma_colon_count_monotone(s.take(c as int), (f + 1) as nat);
        assert(s.take(c as int).take(f + 1) =~= s.take(f + 1));
        assert(s.take(f + 1).drop_last() =~= s.take(f));
    } else if f > c {
        lemma_colon_count_monotone(s.take(f), (c + 1) as nat);
        assert(s.take(f).take(c as int + 1) =~= s.take(c as int + 1));
        assert(s.take(c as int + 1).drop_last() =~= s.take(c as int));
    }
}

proof fn lemma_hex_digits_no_colon(n: nat)
    ensures
        colon_count(radix_digits(n, 16)) == 0,
    decreases n,
{
    lemma_digit_char_value(n % 16);
    assert(digit_char(n % 16) != ':');
    if n >= 16 {
        lemma_hex_digits_no_colon(n / 16);
        assert(radix_digits(n, 16).drop_last() =~= radix_digits(n / 16, 16));
    } else {
        assert(radix_digits(n, 16).drop_last() =~= Seq::<char>::empty());
        assert(colon_count(Seq::<char>::empty()) == 0);
    }
}

/// The market of one trading pair: the pair (normalized), the entity that
/// holds the pooled coins, the token of its liquidity shares, and the
/// reserves recorded by deposits and swaps.
#[derive(Clone, Copy, Debug, PartialEq, Eq, Structural)]
pub struct ConstantFunctionMarketMakerPair {
    pub pair: TradingPairID,
    pub id: EntityID,
    pub lp: TokenPointer,
    pub reserve_a: u128,
    pub reserve_b: u128,
}

/// Registry of all markets, keyed by the normalized pair.
pub struct ConstantFunctionMarketMaker {
    pub markets: BTreeMap<(u64, u64), ConstantFunctionMarketMakerPair>,
}

impl ConstantFunctionMarketMaker {
    /// No markets yet.
    pub fn new() -> (r: Self)
        ensures
            r.markets@ == Map::<(u64, u64), ConstantFunctionMarketMakerPair>::empty(),
    {
        ConstantFunctionMarketMaker { markets: BTreeMap::new() }
    }
}

impl TradeError {
    /// A copy of the error.
    pub fn duplicate(&self) -> (r: Self)
        ensures
            r == *self,
    {
        match self {
            TradeError::InvalidTrade(m) => TradeError::InvalidTrade(m.clone()),
            TradeError::InsufficientTokens(m) => TradeError::InsufficientTokens(m.clone()),
            TradeError::MarketSlipped => TradeError::MarketSlipped,
        }
    }
}

/// Why a trade was refused.
#[derive(Clone, Debug)]
pub enum TradeError {
    InvalidTrade(String),
    InsufficientTokens(String),
    MarketSlipped,
}

/// What a trade did (or would do, when simulated).
#[derive(Clone, Debug)]
pub struct TradeOutcome {
    pub trading_pair: TradingPairID,
    pub asset_player_purchased: String,
    pub amount_player_purchased: u128,
    pub asset_player_sold: String,
    pub amount_player_sold: u128,
}

/// Quantities of a market, for price display.
#[derive(Debug)]
pub struct UXMaterialsPriceData {
    pub trading_pair: TradingPairID,
    pub asset_a: String,
    pub mkt_qty_a: u128,
    pub asset_b: String,
    pub mkt_qty_b: u128,
    pub display_asset: String,
}

/// Balances of two ledgers agree on every holder (entries holding zero and
/// absent entries are alike).
pub open spec fn same_balances(m1: Map<u64, u128>, m2: Map<u64, u128>) -> bool {
    forall|k: u64| #[trigger] balance_of(m1, k) == balance_of(m2, k)
}

/// A market is consistent with the token registry.
pub open spec fn market_ok(tokens: &TokenRegistry, m: ConstantFunctionMarketMakerPair, key: (u64, u64), next_id: u64) -> bool {
    &&& key == m.pair.key()
    &&& m.pair.normal()
    &&& tokens.has(m.pair.asset_a)
    &&& tokens.has(m.pair.asset_b)
    &&& tokens.has(m.lp)
    &&& m.id.0 <= next_id
}

/// The registry, the markets and the identifier counter fit together: every
/// token and market identifier has been handed out already.
pub open spec fn exchange_wf(tokens: &TokenRegistry, swap: &ConstantFunctionMarketMaker, next_id: u64) -> bool {
    &&& tokens.wf()
    &&& forall|k: u64| #[trigger] tokens.tokens@.contains_key(k) ==> k <= next_id
    &&& forall|key: (u64, u64)|
        #[trigger] swap.markets@.contains_key(key) ==> market_ok(
            tokens,
            swap.markets@[key],
            key,
            next_id,
        )
}

/// Nickname of the share token of a new market.
pub open spec fn lp_nickname(name_a: Seq<char>, name_b: Seq<char>) -> Seq<char> {
    "swap("@ + name_a + ","@ + name_b + ")::shares"@
}

/// The market of `pair` once `ensure` ran: the existing one, or a new one
/// with share token `next + 1` and holder `next + 2`.
pub open spec fn ensured_market(swap: &ConstantFunctionMarketMaker, pair: TradingPairID, next: u64) -> ConstantFunctionMarketMakerPair {
    let key = pair.normalized().key();
    if swap.markets@.contains_key(key) {
        swap.markets@[key]
    } else {
        ConstantFunctionMarketMakerPair {
            pair: pair.normalized(),
            id: EntityID((next + 2) as u64),
            lp: TokenPointer(EntityID((next + 1) as u64)),
            reserve_a: 0,
            reserve_b: 0,
        }
    }
}

/// What `ensure` does to the token registry: nothing when the market exists,
/// else it adds the new market's empty share token.
pub open spec fn ensured_tokens(old_t: &TokenRegistry, new_t: &TokenRegistry, swap: &ConstantFunctionMarketMaker, pair: TradingPairID, next: u64) -> bool {
    let key = pair.normalized().key();
    let lp = (next + 1) as u64;
    &&& new_t.hashboards@ == old_t.hashboards@
    &&& new_t.steel@ == old_t.steel@
    &&& new_t.silicon@ == old_t.silicon@
    &&& if swap.markets@.contains_key(key) {
        new_t.tokens@ == old_t.tokens@
    } else {
        &&& new_t.tokens@ == old_t.tokens@.insert(lp, new_t.tokens@[lp])
        &&& new_t.tokens@[lp].balances@ == Map::<u64, u128>::empty()
        &&& new_t.tokens@[lp].total == 0
        &&& new_t.tokens@[lp].this == EntityID(lp)
        &&& new_t.tokens@[lp].nickname is Some
        &&& new_t.tokens@[lp].nickname.unwrap()@ == lp_nickname(
            old_t.nick(pair.normalized().asset_a.0.0),
            old_t.nick(pair.normalized().asset_b.0.0),
        )
    }
}

/// How far `ensure` moves the identifier counter.
pub open spec fn ensure_ids(swap: &ConstantFunctionMarketMaker, pair: TradingPairID) -> int {
    if swap.markets@.contains_key(pair.normalized().key()) {
        0
    } else {
        2
    }
}

impl ConstantFunctionMarketMakerPair {
    /// Whether a market exists for `pair` (in either order).
    pub fn has_market(swap: &ConstantFunctionMarketMaker, pair: TradingPairID) -> (r: bool)
        ensures
            r == swap.markets@.contains_key(pair.normalized().key()),
    {
        let mut pair = pair;
        pair.normalize();
        swap.markets.contains_key(&(pair.asset_a.0.0, pair.asset_b.0.0))
    }

    /// Makes sure a market exists for `pair` and returns it; a new market
    /// gets a fresh share token and a fresh holder identifier.
    pub fn ensure(
        tokens: &mut TokenRegistry,
        swap: &mut ConstantFunctionMarketMaker,
        alloc: &mut EntityIDAllocator,
        pair: TradingPairID,
    ) -> (mkt: ConstantFunctionMarketMakerPair)
        requires
            exchange_wf(old(tokens), old(swap), old(alloc).0),
            old(tokens).has(pair.asset_a),
            old(tokens).has(pair.asset_b),
            old(alloc).0 + 2 <= u64::MAX,
        ensures
            exchange_wf(final(tokens), final(swap), final(alloc).0),
            mkt == ensured_market(old(swap), pair, old(alloc).0),
            final(swap).markets@ == old(swap).markets@.insert(pair.normalized().key(), mkt),
            ensured_tokens(old(tokens), final(tokens), old(swap), pair, old(alloc).0),
            final(alloc).0 == old(alloc).0 + ensure_ids(old(swap), pair),
    {
        let mut pair = pair;
        pair.normalize();
        let key = (pair.asset_a.0.0, pair.asset_b.0.0);
        match swap.markets.get(&key) {
            Some(m) => {
                let m = *m;
                assert(swap.markets@ =~= old(swap).markets@.insert(key, m));
                m
            },
            None => {
                let name_a = match tokens.tokens.get(&pair.asset_a.0.0).unwrap().nickname() {
                    Some(n) => n,
                    None => to_decimal_string(pair.asset_a.0.0),
                };
                let name_b = match tokens.tokens.get(&pair.asset_b.0.0).unwrap().nickname() {
                    Some(n) => n,
                    None => to_decimal_string(pair.asset_b.0.0),
                };
                let base_id = alloc.make();
                let id = alloc.make();
                let mut nick = String::from_str("swap(");
                nick.append(name_a.as_str());
                nick.append(",");
                nick.append(name_b.as_str());
                nick.append(")::shares");
                assert(nick@ =~= lp_nickname(name_a@, name_b@));
                let lp = tokens.new_token(TokenBase::with_id(base_id, Some(nick)));
                let m = ConstantFunctionMarketMakerPair { pair, id, lp, reserve_a: 0, reserve_b: 0 };
                swap.markets.insert(key, m);
                assert forall|k: u64| #[trigger] tokens.tokens@.contains_key(k) implies k <= alloc.0 by {
                    if k != base_id.0 {
                        assert(old(tokens).tokens@.contains_key(k));
                    }
                }
                assert forall|kk: (u64, u64)| #[trigger] swap.markets@.contains_key(kk) implies market_ok(
                    tokens,
                    swap.markets@[kk],
                    kk,
                    alloc.0,
                ) by {
                    if kk != key {
                        assert(old(swap).markets@.contains_key(kk));
                        let mm = old(swap).markets@[kk];
                        assert(old(tokens).tokens@.contains_key(mm.lp.0.0));
                        assert(tokens.tokens@.contains_key(mm.lp.0.0));
                        assert(tokens.tokens@.contains_key(mm.pair.asset_a.0.0));
                        assert(tokens.tokens@.contains_key(mm.pair.asset_b.0.0));
                    }
                }
                m
            },
        }
    }
}

/// The pair and the two amounts of a request, put in the pair's normal order.
pub open spec fn oriented(id: TradingPairID, a: u128, b: u128) -> (TradingPairID, u128, u128) {
    if id.normal() {
        (id, a, b)
    } else {
        (id.normalized(), b, a)
    }
}

/// The balances of every token of the registry.
pub open spec fn ledgers(tokens: &TokenRegistry) -> Map<u64, Map<u64, u128>> {
    Map::new(|k: u64| tokens.tokens@.contains_key(k), |k: u64| tokens.tokens@[k].balances@)
}

/// The ledgers once `amt` of token `moved` went from `from` to `to` (a zero
/// amount moves nothing).
pub open spec fn moved(l: Map<u64, Map<u64, u128>>, tok: u64, from: u64, to: u64, amt: u128) -> Map<u64, Map<u64, u128>> {
    if amt > 0 {
        l.insert(tok, transferred(l[tok], from, to, amt))
    } else {
        l
    }
}

/// Message of the refusal given where the market's `u128` arithmetic would
/// overflow, underflow or divide by zero.
pub open spec fn arithmetic_msg() -> Seq<char> {
    "Market arithmetic out of range"@
}

/// The token and amount a payout of `na` of asset a and `nb` of asset b
/// (one of them zero) moves.
pub open spec fn payout_side(m: ConstantFunctionMarketMakerPair, na: u128, nb: u128) -> (u64, u128) {
    if na > 0 {
        (m.pair.asset_a.0.0, na)
    } else {
        (m.pair.asset_b.0.0, nb)
    }
}

/// The ledgers after market `m` paid `na`/`nb` out to `sender`.
pub open spec fn paid_out(l: Map<u64, Map<u64, u128>>, m: ConstantFunctionMarketMakerPair, na: u128, nb: u128, sender: u64) -> Map<u64, Map<u64, u128>> {
    moved(l, payout_side(m, na, nb).0, m.id.0, sender, payout_side(m, na, nb).1)
}

/// The market's holdings of its two assets after the payout.
pub open spec fn holdings_after_payout(l: Map<u64, Map<u64, u128>>, m: ConstantFunctionMarketMakerPair, na: u128, nb: u128, sender: u64) -> (int, int) {
    let l2 = paid_out(l, m, na, nb, sender);
    (balance_of(l2[m.pair.asset_a.0.0], m.id.0), balance_of(l2[m.pair.asset_b.0.0], m.id.0))
}

/// Whether paying out `na` of asset a and `nb` of asset b from market `m`
/// to `sender` keeps the product of the market's holdings at least the
/// product of its recorded reserves, with everything in range.
pub open spec fn payout_ok(l: Map<u64, Map<u64, u128>>, m: ConstantFunctionMarketMakerPair, na: u128, nb: u128, sender: u64) -> bool {
    let (a2, b2) = holdings_after_payout(l, m, na, nb, sender);
    &&& a2 * b2 <= u128::MAX
    &&& m.reserve_a * m.reserve_b <= u128::MAX
    &&& a2 * b2 >= m.reserve_a * m.reserve_b
    &&& m.reserve_a >= na
    &&& m.reserve_b >= nb
}

/// Whether a refused payout was refused only because the product of the
/// holdings fell below that of the reserves.
pub open spec fn payout_reserves_not_preserved(l: Map<u64, Map<u64, u128>>, m: ConstantFunctionMarketMakerPair, na: u128, nb: u128, sender: u64) -> bool {
    let (a2, b2) = holdings_after_payout(l, m, na, nb, sender);
    &&& a2 * b2 <= u128::MAX
    &&& m.reserve_a * m.reserve_b <= u128::MAX
    &&& a2 * b2 < m.reserve_a * m.reserve_b
}

/// The market after a successful payout: reserves lowered by the amounts.
pub open spec fn after_payout(m: ConstantFunctionMarketMakerPair, na: u128, nb: u128) -> ConstantFunctionMarketMakerPair {
    ConstantFunctionMarketMakerPair {
        reserve_a: (m.reserve_a - na) as u128,
        reserve_b: (m.reserve_b - nb) as u128,
        ..m
    }
}

/// `new_t` keeps the identifier, nickname and supply of every token of
/// `old_t`, and the metadata of the other token kinds.
pub open spec fn same_meta(old_t: &TokenRegistry, new_t: &TokenRegistry) -> bool {
    &&& forall|k: u64| #[trigger] old_t.tokens@.contains_key(k) ==> {
        &&& new_t.tokens@.contains_key(k)
        &&& new_t.tokens@[k].this == old_t.tokens@[k].this
        &&& new_t.tokens@[k].nickname == old_t.tokens@[k].nickname
        &&& new_t.tokens@[k].total == old_t.tokens@[k].total
    }
    &&& new_t.hashboards@ == old_t.hashboards@
    &&& new_t.steel@ == old_t.steel@
    &&& new_t.silicon@ == old_t.silicon@
}

/// The ledgers `l1` and `l2` hold the same tokens and the same balances.
pub open spec fn same_values(l1: Map<u64, Map<u64, u128>>, l2: Map<u64, Map<u64, u128>>) -> bool {
    &&& l1.dom() == l2.dom()
    &&& forall|k: u64| #[trigger] l1.contains_key(k) ==> same_balances(l1[k], l2[k])
}

/// A transfer of nothing changes no balance.
proof fn lemma_transfer_zero(m: Map<u64, u128>, s: u64, r: u64)
    requires
        balance_of(m, s) >= 0,
    ensures
        same_balances(transferred(m, s, r, 0), m),
{
}

/// Transfers on ledgers with the same balances give ledgers with the same
/// balances.
proof fn lemma_transfer_congruent(m1: Map<u64, u128>, m2: Map<u64, u128>, s: u64, r: u64, amount: u128)
    requires
        same_balances(m1, m2),
    ensures
        same_balances(transferred(m1, s, r, amount), transferred(m2, s, r, amount)),
{
    assert(balance_of(m1, s) == balance_of(m2, s));
    let b1 = m1.insert(s, (balance_of(m1, s) - amount) as u128);
    let b2 = m2.insert(s, (balance_of(m2, s) - amount) as u128);
    assert forall|k: u64| #[trigger] balance_of(b1, k) == balance_of(b2, k) by {
        assert(balance_of(m1, k) == balance_of(m2, k));
    }
    assert(balance_of(b1, r) == balance_of(b2, r));
    let c1 = b1.insert(r, (balance_of(b1, r) + amount) as u128);
    let c2 = b2.insert(r, (balance_of(b2, r) + amount) as u128);
    assert forall|k: u64| #[trigger] balance_of(c1, k) == balance_of(c2, k) by {
        assert(balance_of(b1, k) == balance_of(b2, k));
    }
}

/// Transferring an amount to someone and then the same amount back leaves
/// every balance as it was.
proof fn lemma_round_trip(m: Map<u64, u128>, s: u64, r: u64, amount: u128)
    requires
        m.dom().finite(),
        crate::map_sum::map_sum(m) <= u128::MAX,
        balance_of(m, s) >= amount,
    ensures
        balance_of(transferred(m, s, r, amount), r) >= amount,
        same_balances(transferred(transferred(m, s, r, amount), r, s, amount), m),
{
    if s == r {
        assert forall|k: u64| #[trigger] balance_of(transferred(m, s, r, amount), k) == balance_of(m, k) by {
            crate::tokens::law_self_transfer_is_noop(m, s, amount, k);
        }
        let m1 = transferred(m, s, r, amount);
        assert forall|k: u64| #[trigger] balance_of(transferred(m1, r, s, amount), k) == balance_of(m, k) by {
            crate::tokens::law_self_transfer_is_noop(m1, r, amount, k);
        }
    } else {
        crate::tokens::law_transfer_back_restores(m, s, r, amount, s);
        assert forall|k: u64| #[trigger] balance_of(transferred(transferred(m, s, r, amount), r, s, amount), k) == balance_of(m, k) by {
            crate::tokens::law_transfer_back_restores(m, s, r, amount, k);
        }
    }
}

/// When `raw_swap` may be called: the market exists, one amount is zero and
/// the market holds what it pays out.
pub open spec fn raw_swap_pre(tokens: &TokenRegistry, swap: &ConstantFunctionMarketMaker, next: u64, id: TradingPairID, amount_a: u128, amount_b: u128) -> bool {
    let (nid, na, nb) = oriented(id, amount_a, amount_b);
    let m = swap.markets@[nid.key()];
    &&& exchange_wf(tokens, swap, next)
    &&& tokens.has(id.asset_a)
    &&& tokens.has(id.asset_b)
    &&& next + 2 <= u64::MAX
    &&& swap.markets@.contains_key(nid.key())
    &&& amount_a == 0 || amount_b == 0
    &&& tokens.bal(nid.asset_a.0.0, m.id.0) >= na
    &&& tokens.bal(nid.asset_b.0.0, m.id.0) >= nb
}

/// What `raw_swap` did: on success the payout stands and the reserves are
/// lowered; otherwise every balance and the market are as before.
pub open spec fn raw_swap_post(
    old_t: &TokenRegistry,
    old_s: &ConstantFunctionMarketMaker,
    new_t: &TokenRegistry,
    new_s: &ConstantFunctionMarketMaker,
    id: TradingPairID,
    amount_a: u128,
    amount_b: u128,
    sender: u64,
    r: Result<(), TradeError>,
) -> bool {
    let (nid, na, nb) = oriented(id, amount_a, amount_b);
    let key = nid.key();
    let m = old_s.markets@[key];
    let l = ledgers(old_t);
    let ok = payout_ok(l, m, na, nb, sender);
    &&& same_meta(old_t, new_t)
    &&& new_t.tokens@.dom() == old_t.tokens@.dom()
    &&& (r is Ok) == ok
    &&& ok ==> {
        &&& new_s.markets@ == old_s.markets@.insert(key, after_payout(m, na, nb))
        &&& ledgers(new_t) == paid_out(l, m, na, nb, sender)
    }
    &&& !ok ==> {
        &&& new_s.markets@ == old_s.markets@
        &&& same_values(ledgers(new_t), l)
        &&& r matches Err(TradeError::InvalidTrade(msg)) && msg@ == if payout_reserves_not_preserved(l, m, na, nb, sender) {
            "Reserves Not Preserved"@
        } else {
            arithmetic_msg()
        }
    }
}

impl ConstantFunctionMarketMaker {
    /// Pays `amount_a` and `amount_b` (one of them zero) out of the pair's
    /// market to `sender`, then checks that the product of the market's
    /// holdings is at least the product of its recorded reserves and lowers
    /// the reserves by the amounts paid. When the check fails the payout is
    /// taken back and the trade is refused; the same happens where the
    /// market's arithmetic would leave the range of `u128`.
    fn raw_swap(
        tokens: &mut TokenRegistry,
        swap: &mut ConstantFunctionMarketMaker,
        alloc: &mut EntityIDAllocator,
        id: TradingPairID,
        amount_a: u128,
        amount_b: u128,
        sender: EntityID,
    ) -> (r: Result<(), TradeError>)
        requires
            raw_swap_pre(old(tokens), old(swap), old(alloc).0, id, amount_a, amount_b),
        ensures
            exchange_wf(final(tokens), final(swap), final(alloc).0),
            final(alloc).0 == old(alloc).0,
            raw_swap_post(old(tokens), old(swap), final(tokens), final(swap), id, amount_a, amount_b, sender.0, r),
    {
        let ghost t0 = *old(tokens);
        let mut id = id;
        let mut amount_a = amount_a;
        let mut amount_b = amount_b;
        if !id.is_normal() {
            let t = amount_a;
            amount_a = amount_b;
            amount_b = t;
            id.normalize();
        }
        let mkt = ConstantFunctionMarketMakerPair::ensure(tokens, swap, alloc, id);
        let pa = mkt.pair.asset_a;
        let pb = mkt.pair.asset_b;
        let send_a_amt = if amount_a > 0 && tokens.transfer(pa, &mkt.id, &sender, amount_a) {
            amount_a
        } else {
            0
        };
        let send_b_amt = if amount_b > 0 && tokens.transfer(pb, &mkt.id, &sender, amount_b) {
            amount_b
        } else {
            0
        };
        if !(send_a_amt == amount_a && send_b_amt == amount_b) {
            // the market holds the amounts paid out, so both transfers succeed
            assert(false);
            return Err(TradeError::InsufficientTokens(String::from_str("Insufficient funds asset")));
        }
        let ghost t1 = *tokens;
        assert(ledgers(&t1) =~= paid_out(ledgers(&t0), mkt, amount_a, amount_b, sender.0));
        let a2 = tokens.balance_check(pa, &mkt.id);
        let b2 = tokens.balance_check(pb, &mkt.id);
        let k_2 = a2.checked_mul(b2);
        let k_1 = mkt.reserve_a.checked_mul(mkt.reserve_b);
        let reserves_short: bool = match (k_2, k_1) {
            (Some(k2), Some(k1)) => k2 < k1,
            _ => false,
        };
        let in_range: bool = match (k_2, k_1) {
            (Some(k2), Some(k1)) => k2 < k1 || (mkt.reserve_a >= amount_a && mkt.reserve_b >= amount_b),
            _ => false,
        };
        if reserves_short || !in_range {
            {
                // return the payout
                let ok_a = tokens.transfer(pa, &sender, &mkt.id, amount_a);
                let ghost t3 = *tokens;
                let ok_b = tokens.transfer(pb, &sender, &mkt.id, amount_b);
                proof {
                    let a = pa.0.0;
                    let b = pb.0.0;
                    let mid = mkt.id.0;
                    let snd = sender.0;
                    if amount_a > 0 {
                        lemma_round_trip(t0.tokens@[a].balances@, mid, snd, amount_a);
                        assert(ok_a);
                        assert(same_balances(t3.tokens@[a].balances@, t0.tokens@[a].balances@));
                        lemma_transfer_zero(t3.tokens@[b].balances@, snd, mid);
                        assert(same_balances(tokens.tokens@[b].balances@, t0.tokens@[b].balances@));
                    } else if amount_b > 0 {
                        lemma_transfer_zero(t1.tokens@[a].balances@, snd, mid);
                        assert(same_balances(t3.tokens@[a].balances@, t1.tokens@[a].balances@));
                        lemma_round_trip(t0.tokens@[b].balances@, mid, snd, amount_b);
                        if a == b {
                            lemma_transfer_congruent(t3.tokens@[b].balances@, t1.tokens@[b].balances@, snd, mid, amount_b);
                        }
                        assert(ok_b);
                        assert(same_balances(tokens.tokens@[b].balances@, t0.tokens@[b].balances@));
                        assert(same_balances(tokens.tokens@[a].balances@, t0.tokens@[a].balances@));
                    } else {
                        lemma_transfer_zero(t1.tokens@[a].balances@, snd, mid);
                        lemma_transfer_zero(t3.tokens@[b].balances@, snd, mid);
                        assert(same_balances(tokens.tokens@[a].balances@, t0.tokens@[a].balances@));
                        assert(same_balances(tokens.tokens@[b].balances@, t0.tokens@[b].balances@));
                    }
                    assert forall|k: u64| #[trigger] ledgers(tokens).contains_key(k) implies same_balances(
                        ledgers(tokens)[k],
                        ledgers(&t0)[k],
                    ) by {
                        if k != a && k != b {
                            assert(tokens.tokens@[k] == t0.tokens@[k]);
                        }
                    }
                    assert(tokens.tokens@.dom() =~= t0.tokens@.dom());
                    assert(ledgers(tokens).dom() =~= ledgers(&t0).dom());
                    assert(same_values(ledgers(tokens), ledgers(&t0)));
                    assert(same_meta(&t0, tokens));
                    assert(swap.markets@ =~= old(swap).markets@);
                    assert(tokens.tokens@.dom() == old(tokens).tokens@.dom());
                    assert(!payout_ok(ledgers(old(tokens)), old(swap).markets@[oriented(id, amount_a, amount_b).0.key()],
                        oriented(id, amount_a, amount_b).1, oriented(id, amount_a, amount_b).2, sender.0));
                    let ghost l = ledgers(&t0);
                    assert(holdings_after_payout(l, mkt, amount_a, amount_b, sender.0) == (a2 as int, b2 as int));
                    assert(!payout_ok(l, mkt, amount_a, amount_b, sender.0));
                    assert(reserves_short == payout_reserves_not_preserved(l, mkt, amount_a, amount_b, sender.0));
                }
                let msg = if reserves_short {
                    String::from_str("Reserves Not Preserved")
                } else {
                    String::from_str("Market arithmetic out of range")
                };
                return Err(TradeError::InvalidTrade(msg));
            }
        } else {
            {
                let mut m = *swap.markets.get(&(pa.0.0, pb.0.0)).unwrap();
                m.reserve_a = m.reserve_a - amount_a;
                m.reserve_b = m.reserve_b - amount_b;
                swap.markets.insert((pa.0.0, pb.0.0), m);
                proof {
                    let l = ledgers(&t0);
                    assert(ledgers(tokens) =~= paid_out(l, mkt, amount_a, amount_b, sender.0));
                    assert(tokens.tokens@.dom() =~= old(tokens).tokens@.dom());
                    assert(swap.markets@ =~= old(swap).markets@.insert(
                        (pa.0.0, pb.0.0),
                        after_payout(mkt, amount_a, amount_b),
                    ));
                }
                return Ok(());
            }
        }
    }
}

/// The ledgers once the sale of `sell` of token `selling` by `sender` to the
/// market holder `mid` was paid.
pub open spec fn paid_in(l: Map<u64, Map<u64, u128>>, selling: u64, sender: u64, mid: u64, sell: u128) -> Map<u64, Map<u64, u128>> {
    l.insert(selling, transferred(l[selling], sender, mid, sell))
}

/// The amounts a market pays out when `buy` of `buying` is bought with
/// `selling`: `(amount of asset a, amount of asset b)` of the market's pair.
pub open spec fn payout_amounts(selling: TokenPointer, buying: TokenPointer, buy: u128) -> (u128, u128) {
    let o = oriented(TradingPairID { asset_a: selling, asset_b: buying }, 0, buy);
    (o.1, o.2)
}

/// When `settle` may be called.
pub open spec fn settle_pre(tokens: &TokenRegistry, swap: &ConstantFunctionMarketMaker, next: u64, selling: TokenPointer, buying: TokenPointer, sell: u128, buy: u128, sender: u64) -> bool {
    let key = (TradingPairID { asset_a: selling, asset_b: buying }).normalized().key();
    let m = swap.markets@[key];
    &&& exchange_wf(tokens, swap, next)
    &&& next + 2 <= u64::MAX
    &&& tokens.has(selling)
    &&& tokens.has(buying)
    &&& swap.markets@.contains_key(key)
    &&& tokens.bal(selling.0.0, sender) >= sell
    &&& tokens.bal(buying.0.0, m.id.0) >= buy
}

/// What `settle` did.
pub open spec fn settle_post(old_t: &TokenRegistry, old_s: &ConstantFunctionMarketMaker, new_t: &TokenRegistry, new_s: &ConstantFunctionMarketMaker, selling: TokenPointer, buying: TokenPointer, sell: u128, buy: u128, sender: u64, r: Result<(), TradeError>) -> bool {
    let key = (TradingPairID { asset_a: selling, asset_b: buying }).normalized().key();
    let m = old_s.markets@[key];
    let l0 = ledgers(old_t);
    let l1 = paid_in(l0, selling.0.0, sender, m.id.0, sell);
    let (ra, rb) = payout_amounts(selling, buying, buy);
    let ok = payout_ok(l1, m, ra, rb, sender);
    &&& same_meta(old_t, new_t)
    &&& new_t.tokens@.dom() == old_t.tokens@.dom()
    &&& (r is Ok) == ok
    &&& ok ==> {
        &&& ledgers(new_t) == paid_out(l1, m, ra, rb, sender)
        &&& new_s.markets@ == old_s.markets@.insert(key, after_payout(m, ra, rb))
    }
    &&& !ok ==> {
        &&& same_values(ledgers(new_t), l0)
        &&& new_s.markets@ == old_s.markets@
        &&& r matches Err(TradeError::InvalidTrade(msg)) && msg@ == if payout_reserves_not_preserved(l1, m, ra, rb, sender) {
            "Reserves Not Preserved"@
        } else {
            arithmetic_msg()
        }
    }
}

/// Keeping the metadata is transitive.
proof fn lemma_same_meta_trans(a: &TokenRegistry, b: &TokenRegistry, c: &TokenRegistry)
    requires
        same_meta(a, b),
        same_meta(b, c),
    ensures
        same_meta(a, c),
{
    assert forall|k: u64| #[trigger] a.tokens@.contains_key(k) implies {
        &&& c.tokens@.contains_key(k)
        &&& c.tokens@[k].this == a.tokens@[k].this
        &&& c.tokens@[k].nickname == a.tokens@[k].nickname
        &&& c.tokens@[k].total == a.tokens@[k].total
    } by {
        assert(b.tokens@.contains_key(k));
    }
}

/// A change of one ledger keeps the metadata.
proof fn lemma_only_changed_meta(a: &TokenRegistry, b: &TokenRegistry, tok: u64)
    requires
        b.only_changed(a, tok),
    ensures
        same_meta(a, b),
        b.tokens@.dom() == a.tokens@.dom().insert(tok),
{
    assert forall|k: u64| #[trigger] a.tokens@.contains_key(k) implies {
        &&& b.tokens@.contains_key(k)
        &&& b.tokens@[k].this == a.tokens@[k].this
        &&& b.tokens@[k].nickname == a.tokens@[k].nickname
        &&& b.tokens@[k].total == a.tokens@[k].total
    } by {
        if k != tok {
            assert(b.tokens@[k] == a.tokens@[k]);
        }
    }
    assert(b.tokens@.dom() =~= a.tokens@.dom().insert(tok));
}

/// A change of one ledger keeps the metadata (see `lemma_only_changed_meta`).
pub proof fn lemma_only_changed_keeps_meta(a: &TokenRegistry, b: &TokenRegistry, tok: u64)
    requires
        b.only_changed(a, tok),
    ensures
        same_meta(a, b),
{
    lemma_only_changed_meta(a, b, tok);
}

/// Keeping the metadata is transitive (see `lemma_same_meta_trans`).
pub proof fn lemma_same_meta_chain(a: &TokenRegistry, b: &TokenRegistry, c: &TokenRegistry)
    requires
        same_meta(a, b),
        same_meta(b, c),
    ensures
        same_meta(a, c),
{
    lemma_same_meta_trans(a, b, c);
}

/// Ledgers with the same balances stay alike under the same transfer.
proof fn lemma_values_transfer(l1: Map<u64, Map<u64, u128>>, l2: Map<u64, Map<u64, u128>>, tok: u64, s: u64, r: u64, amount: u128)
    requires
        same_values(l1, l2),
        l1.contains_key(tok),
    ensures
        same_values(
            l1.insert(tok, transferred(l1[tok], s, r, amount)),
            l2.insert(tok, transferred(l2[tok], s, r, amount)),
        ),
{
    lemma_transfer_congruent(l1[tok], l2[tok], s, r, amount);
    let a = l1.insert(tok, transferred(l1[tok], s, r, amount));
    let b = l2.insert(tok, transferred(l2[tok], s, r, amount));
    assert(a.dom() =~= b.dom());
    assert forall|k: u64| #[trigger] a.contains_key(k) implies same_balances(a[k], b[k]) by {
        if k != tok {
            assert(same_balances(l1[k], l2[k]));
        }
    }
}

impl ConstantFunctionMarketMaker {
    /// Swaps through the pair's market from `selling` to `buying`, handing
    /// the amounts to `raw_swap` in the pair's order.
    fn swap_helper(
        selling: TokenPointer,
        buying: TokenPointer,
        tokens: &mut TokenRegistry,
        swap: &mut ConstantFunctionMarketMaker,
        alloc: &mut EntityIDAllocator,
        sell_amt: u128,
        buy_amt: u128,
        sender: EntityID,
    ) -> (r: Result<(), TradeError>)
        requires
            raw_swap_pre(old(tokens), old(swap), old(alloc).0, TradingPairID { asset_a: selling, asset_b: buying }, sell_amt, buy_amt),
        ensures
            exchange_wf(final(tokens), final(swap), final(alloc).0),
            final(alloc).0 == old(alloc).0,
            raw_swap_post(old(tokens), old(swap), final(tokens), final(swap), TradingPairID { asset_a: selling, asset_b: buying }, sell_amt, buy_amt, sender.0, r),
    {
        let mut trade_pair = TradingPairID { asset_a: selling, asset_b: buying };
        if trade_pair.is_normal() {
            Self::raw_swap(tokens, swap, alloc, trade_pair, sell_amt, buy_amt, sender)
        } else {
            trade_pair.normalize();
            Self::raw_swap(tokens, swap, alloc, trade_pair, buy_amt, sell_amt, sender)
        }
    }

    /// Takes `sell` of `selling` from `sender` into the market, then pays
    /// `buy` of `buying` out of it; when the payout is refused the sale is
    /// returned as well.
    fn settle(
        tokens: &mut TokenRegistry,
        swap: &mut ConstantFunctionMarketMaker,
        alloc: &mut EntityIDAllocator,
        mkt_id: EntityID,
        selling: TokenPointer,
        buying: TokenPointer,
        sell: u128,
        buy: u128,
        sender: EntityID,
    ) -> (r: Result<(), TradeError>)
        requires
            settle_pre(old(tokens), old(swap), old(alloc).0, selling, buying, sell, buy, sender.0),
            mkt_id == old(swap).markets@[(TradingPairID { asset_a: selling, asset_b: buying }).normalized().key()].id,
        ensures
            exchange_wf(final(tokens), final(swap), final(alloc).0),
            final(alloc).0 == old(alloc).0,
            settle_post(old(tokens), old(swap), final(tokens), final(swap), selling, buying, sell, buy, sender.0, r),
    {
        let ghost t0 = *old(tokens);
        let ghost key = (TradingPairID { asset_a: selling, asset_b: buying }).normalized().key();
        let ghost m = old(swap).markets@[key];
        let sent = tokens.transfer(selling, &sender, &mkt_id, sell);
        assert(sent);
        let ghost t1 = *tokens;
        proof {
            lemma_only_changed_meta(&t0, &t1, selling.0.0);
            let l0 = ledgers(&t0);
            assert(ledgers(&t1) =~= paid_in(l0, selling.0.0, sender.0, mkt_id.0, sell));
            // the market still holds what it pays out
            if selling.0.0 == buying.0.0 {
                if sender.0 != mkt_id.0 {
                    crate::tokens::law_transfer_moves_amount(l0[selling.0.0], sender.0, mkt_id.0, sell, mkt_id.0);
                } else {
                    crate::tokens::law_self_transfer_is_noop(l0[selling.0.0], sender.0, sell, mkt_id.0);
                }
            }
            assert(t1.bal(buying.0.0, mkt_id.0) >= buy);
        }
        match Self::swap_helper(selling, buying, tokens, swap, alloc, 0, buy, sender) {
            Ok(()) => {
                proof {
                    lemma_same_meta_trans(&t0, &t1, tokens);
                    assert(tokens.tokens@.dom() =~= t0.tokens@.dom());
                }
                Ok(())
            },
            Err(e) => {
                let ghost t2 = *tokens;
                let back = tokens.transfer(selling, &mkt_id, &sender, sell);
                proof {
                    let l0 = ledgers(&t0);
                    let l1 = ledgers(&t1);
                    let l2 = ledgers(&t2);
                    lemma_round_trip(l0[selling.0.0], sender.0, mkt_id.0, sell);
                    assert(l2.contains_key(selling.0.0));
                    assert(same_balances(l2[selling.0.0], l1[selling.0.0]));
                    assert(balance_of(l2[selling.0.0], mkt_id.0) == balance_of(l1[selling.0.0], mkt_id.0));
                    assert(back);
                    lemma_values_transfer(l2, l1, selling.0.0, mkt_id.0, sender.0, sell);
                    assert(ledgers(tokens) =~= l2.insert(selling.0.0, transferred(l2[selling.0.0], mkt_id.0, sender.0, sell)));
                    let lb = l1.insert(selling.0.0, transferred(l1[selling.0.0], mkt_id.0, sender.0, sell));
                    assert(lb.dom() =~= l0.dom());
                    assert forall|k: u64| #[trigger] lb.contains_key(k) implies same_balances(lb[k], l0[k]) by {}
                    lemma_same_meta_trans(&t0, &t1, &t2);
                    lemma_only_changed_meta(&t2, tokens, selling.0.0);
                    lemma_same_meta_trans(&t0, &t2, tokens);
                    assert(tokens.tokens@.dom() =~= t0.tokens@.dom());
                }
                return Err(e);
            },
        }
    }
}

/// The ledgers once `ensure` ran for `pair`: a new market brings its empty
/// share token.
pub open spec fn ensured_ledgers(old_t: &TokenRegistry, swap: &ConstantFunctionMarketMaker, pair: TradingPairID, next: u64) -> Map<u64, Map<u64, u128>> {
    if swap.markets@.contains_key(pair.normalized().key()) {
        ledgers(old_t)
    } else {
        ledgers(old_t).insert((next + 1) as u64, Map::<u64, u128>::empty())
    }
}

/// The token metadata once `ensure` ran for `pair` and any number of
/// transfers followed.
pub open spec fn ensured_meta(old_t: &TokenRegistry, new_t: &TokenRegistry, swap: &ConstantFunctionMarketMaker, pair: TradingPairID, next: u64) -> bool {
    let lp = (next + 1) as u64;
    &&& same_meta(old_t, new_t)
    &&& new_t.tokens@.dom() == ensured_ledgers(old_t, swap, pair, next).dom()
    &&& !swap.markets@.contains_key(pair.normalized().key()) ==> {
        &&& new_t.tokens@[lp].total == 0
        &&& new_t.tokens@[lp].this == EntityID(lp)
        &&& new_t.tokens@[lp].nickname is Some
        &&& new_t.tokens@[lp].nickname.unwrap()@ == lp_nickname(
            old_t.nick(pair.normalized().asset_a.0.0),
            old_t.nick(pair.normalized().asset_b.0.0),
        )
    }
}

/// `v` is below the optional minimum.
pub open spec fn below_min(min: Option<u128>, v: int) -> bool {
    match min {
        Some(m) => v < m,
        None => false,
    }
}

/// The charge `v` is above the optional cap on what may be sold (the buy
/// trade refuses such a request as slipped).
pub open spec fn above_cap(cap: Option<u128>, v: int) -> bool {
    match cap {
        Some(m) => v > m,
        None => false,
    }
}

/// The end of a trade whose checks passed: simulated, or settled through the
/// market (refused, with every balance restored, when the market's payout
/// check fails).
pub open spec fn trade_tail(
    old_t: &TokenRegistry,
    new_t: &TokenRegistry,
    old_s: &ConstantFunctionMarketMaker,
    new_s: &ConstantFunctionMarketMaker,
    l0: Map<u64, Map<u64, u128>>,
    nid: TradingPairID,
    m: ConstantFunctionMarketMakerPair,
    selling: TokenPointer,
    buying: TokenPointer,
    sell: u128,
    buy: u128,
    simulate: bool,
    sender: u64,
    r: Result<TradeOutcome, TradeError>,
) -> bool {
    let key = nid.key();
    let outcome_ok = r matches Ok(o) && {
        &&& o.trading_pair == nid
        &&& o.asset_player_purchased@ == old_t.nick(buying.0.0)
        &&& o.amount_player_purchased == buy
        &&& o.asset_player_sold@ == old_t.nick(selling.0.0)
        &&& o.amount_player_sold == sell
    };
    if simulate {
        &&& outcome_ok
        &&& ledgers(new_t) == l0
        &&& new_s.markets@ == old_s.markets@.insert(key, m)
    } else {
        let l1 = paid_in(l0, selling.0.0, sender, m.id.0, sell);
        let (ra, rb) = payout_amounts(selling, buying, buy);
        if payout_ok(l1, m, ra, rb, sender) {
            &&& outcome_ok
            &&& ledgers(new_t) == paid_out(l1, m, ra, rb, sender)
            &&& new_s.markets@ == old_s.markets@.insert(key, after_payout(m, ra, rb))
        } else {
            &&& same_values(ledgers(new_t), l0)
            &&& new_s.markets@ == old_s.markets@.insert(key, m)
            &&& r matches Err(TradeError::InvalidTrade(msg)) && msg@ == if payout_reserves_not_preserved(l1, m, ra, rb, sender) {
                "Reserves Not Preserved"@
            } else {
                arithmetic_msg()
            }
        }
    }
}

/// A trade refused before anything moved: only `ensure`'s market remains.
pub open spec fn trade_refused(new_t: &TokenRegistry, old_s: &ConstantFunctionMarketMaker, new_s: &ConstantFunctionMarketMaker, l0: Map<u64, Map<u64, u128>>, key: (u64, u64), m: ConstantFunctionMarketMakerPair, r: Result<TradeOutcome, TradeError>) -> bool {
    &&& r is Err
    &&& ledgers(new_t) == l0
    &&& new_s.markets@ == old_s.markets@.insert(key, m)
}

/// What selling a fixed amount does. Exactly one of the two amounts must be
/// non-zero; it is the amount sold of that asset, and the other asset is
/// bought.
pub open spec fn sell_trade_post(
    old_t: &TokenRegistry,
    old_s: &ConstantFunctionMarketMaker,
    next: u64,
    new_t: &TokenRegistry,
    new_s: &ConstantFunctionMarketMaker,
    id: TradingPairID,
    amount_a: u128,
    amount_b: u128,
    buy_min: Option<u128>,
    simulate: bool,
    sender: u64,
    r: Result<TradeOutcome, TradeError>,
) -> bool {
    let (nid, na, nb) = oriented(id, amount_a, amount_b);
    let key = nid.key();
    let m = ensured_market(old_s, nid, next);
    let l0 = ensured_ledgers(old_t, old_s, nid, next);
    let buying = if na == 0 { nid.asset_a } else { nid.asset_b };
    let selling = if na == 0 { nid.asset_b } else { nid.asset_a };
    let x = if na == 0 { nb } else { na };
    let s = balance_of(l0[selling.0.0], m.id.0) as u128;
    let b = balance_of(l0[buying.0.0], m.id.0) as u128;
    if na == 0 && nb == 0 {
        trade_refused(new_t, old_s, new_s, l0, key, m, r) && (r matches Err(TradeError::InvalidTrade(msg)) && msg@ == "Both token amounts cannot be zero"@)
    } else if na != 0 && nb != 0 {
        trade_refused(new_t, old_s, new_s, l0, key, m, r) && (r matches Err(TradeError::InvalidTrade(msg)) && msg@ == "One token amount must be zero"@)
    } else if below_min(buy_min, b as int) {
        trade_refused(new_t, old_s, new_s, l0, key, m, r) && (r matches Err(TradeError::InsufficientTokens(msg)) && msg@ == "Not Enough Liquidity to Buy Min"@)
    } else if !sell_quote_defined(s, b, x) {
        trade_refused(new_t, old_s, new_s, l0, key, m, r) && (r matches Err(TradeError::InvalidTrade(msg)) && msg@ == arithmetic_msg())
    } else if below_min(buy_min, sell_quote_buy(s, b, x)) {
        trade_refused(new_t, old_s, new_s, l0, key, m, r) && (r matches Err(TradeError::MarketSlipped))
    } else if sell_quote_sell(s, b, x) > balance_of(l0[selling.0.0], sender) {
        trade_refused(new_t, old_s, new_s, l0, key, m, r) && (r matches Err(TradeError::InsufficientTokens(msg)) && msg@ == "User has insufficient tokens"@)
    } else {
        trade_tail(old_t, new_t, old_s, new_s, l0, nid, m, selling, buying, sell_quote_sell(s, b, x) as u128, sell_quote_buy(s, b, x) as u128, simulate, sender, r)
    }
}

/// What buying a fixed amount does. Exactly one of the two amounts must be
/// non-zero; it is the amount bought of that asset, paid with the other.
pub open spec fn buy_trade_post(
    old_t: &TokenRegistry,
    old_s: &ConstantFunctionMarketMaker,
    next: u64,
    new_t: &TokenRegistry,
    new_s: &ConstantFunctionMarketMaker,
    id: TradingPairID,
    amount_a: u128,
    amount_b: u128,
    sell_max: Option<u128>,
    simulate: bool,
    sender: u64,
    r: Result<TradeOutcome, TradeError>,
) -> bool {
    let (nid, na, nb) = oriented(id, amount_a, amount_b);
    let key = nid.key();
    let m = ensured_market(old_s, nid, next);
    let l0 = ensured_ledgers(old_t, old_s, nid, next);
    let buying = if na == 0 { nid.asset_b } else { nid.asset_a };
    let selling = if na == 0 { nid.asset_a } else { nid.asset_b };
    let y = if na == 0 { nb } else { na };
    let s = balance_of(l0[selling.0.0], m.id.0) as u128;
    let b = balance_of(l0[buying.0.0], m.id.0) as u128;
    if na == 0 && nb == 0 {
        trade_refused(new_t, old_s, new_s, l0, key, m, r) && (r matches Err(TradeError::InvalidTrade(msg)) && msg@ == "Both token amounts cannot be zero"@)
    } else if na != 0 && nb != 0 {
        trade_refused(new_t, old_s, new_s, l0, key, m, r) && (r matches Err(TradeError::InvalidTrade(msg)) && msg@ == "One token amount must be zero"@)
    } else if y > b {
        trade_refused(new_t, old_s, new_s, l0, key, m, r) && (r matches Err(TradeError::InsufficientTokens(msg)) && msg@ == "Market has insufficient tokens"@)
    } else if !buy_quote_defined(s, b, y) {
        trade_refused(new_t, old_s, new_s, l0, key, m, r) && (r matches Err(TradeError::InvalidTrade(msg)) && msg@ == arithmetic_msg())
    } else if above_cap(sell_max, buy_quote_sell(s, b, y)) {
        trade_refused(new_t, old_s, new_s, l0, key, m, r) && (r matches Err(TradeError::MarketSlipped))
    } else if buy_quote_sell(s, b, y) > balance_of(l0[selling.0.0], sender) {
        trade_refused(new_t, old_s, new_s, l0, key, m, r) && (r matches Err(TradeError::InsufficientTokens(msg)) && msg@ == "User has insufficient tokens"@)
    } else {
        trade_tail(old_t, new_t, old_s, new_s, l0, nid, m, selling, buying, buy_quote_sell(s, b, y) as u128, buy_quote_buy(s, b, y) as u128, simulate, sender, r)
    }
}

/// Whether `quote_sell` may be asked: see `sell_quote_defined`.
fn sell_in_range(s: u128, b: u128, x: u128) -> (r: bool)
    ensures
        r == sell_quote_defined(s, b, x),
{
    match s.checked_mul(b) {
        None => false,
        Some(k) => match s.checked_add(x) {
            None => false,
            Some(d) => {
                if d == 0 || k == 0 {
                    return false;
                }
                match k.checked_add(d) {
                    None => false,
                    Some(_) => {
                        let c = roundup_div(k, d);
                        match k.checked_add(c) {
                            None => false,
                            Some(_) => true,
                        }
                    },
                }
            },
        },
    }
}

/// Whether `quote_buy` may be asked: see `buy_quote_defined`.
fn buy_in_range(s: u128, b: u128, y: u128) -> (r: bool)
    ensures
        r == buy_quote_defined(s, b, y),
{
    if y >= b {
        return false;
    }
    match s.checked_mul(b) {
        None => false,
        Some(k) => {
            if k == 0 {
                return false;
            }
            match k.checked_add(b - y) {
                None => false,
                Some(_) => {
                    let c = roundup_div(k, b - y);
                    match k.checked_add(c) {
                        None => false,
                        Some(_) => true,
                    }
                },
            }
        },
    }
}

/// What `ensure` leaves behind, in terms of ledgers and metadata.
proof fn lemma_ensured(old_t: &TokenRegistry, new_t: &TokenRegistry, swap: &ConstantFunctionMarketMaker, pair: TradingPairID, next: u64)
    requires
        old_t.wf(),
        forall|k: u64| #[trigger] old_t.tokens@.contains_key(k) ==> k <= next,
        next + 1 <= u64::MAX,
        ensured_tokens(old_t, new_t, swap, pair, next),
    ensures
        ledgers(new_t) == ensured_ledgers(old_t, swap, pair, next),
        ensured_meta(old_t, new_t, swap, pair, next),
{
    let lp = (next + 1) as u64;
    if !swap.markets@.contains_key(pair.normalized().key()) {
        assert(!old_t.tokens@.contains_key(lp));
        assert forall|k: u64| #[trigger] old_t.tokens@.contains_key(k) implies {
            &&& new_t.tokens@.contains_key(k)
            &&& new_t.tokens@[k].this == old_t.tokens@[k].this
            &&& new_t.tokens@[k].nickname == old_t.tokens@[k].nickname
            &&& new_t.tokens@[k].total == old_t.tokens@[k].total
        } by {
            assert(k != lp);
        }
        assert(new_t.tokens@.dom() =~= ensured_ledgers(old_t, swap, pair, next).dom());
    } else {
        assert(new_t.tokens@.dom() =~= ensured_ledgers(old_t, swap, pair, next).dom());
    }
    assert(ledgers(new_t) =~= ensured_ledgers(old_t, swap, pair, next));
}

/// The metadata left by `ensure` survives later transfers.
proof fn lemma_ensured_meta_kept(old_t: &TokenRegistry, t1: &TokenRegistry, t2: &TokenRegistry, swap: &ConstantFunctionMarketMaker, pair: TradingPairID, next: u64)
    requires
        ensured_meta(old_t, t1, swap, pair, next),
        same_meta(t1, t2),
        t2.tokens@.dom() == t1.tokens@.dom(),
    ensures
        ensured_meta(old_t, t2, swap, pair, next),
{
    lemma_same_meta_trans(old_t, t1, t2);
    let lp = (next + 1) as u64;
    if !swap.markets@.contains_key(pair.normalized().key()) {
        assert(t1.tokens@.contains_key(lp));
    }
}

impl ConstantFunctionMarketMaker {
    /// Sells a fixed amount through the pair's market using x * y = k. One
    /// of `amount_a` and `amount_b` must be zero, which gives the direction:
    /// the non-zero amount is sold. `buy_min` bounds the amount bought from
    /// below. With `simulate` nothing moves. Where the market's `u128`
    /// arithmetic would leave its range the trade is refused with
    /// `InvalidTrade`.
    #[verifier::rlimit(50)]
    pub fn internal_do_trade_sell_fixed_amount(
        tokens: &mut TokenRegistry,
        swap: &mut ConstantFunctionMarketMaker,
        alloc: &mut EntityIDAllocator,
        id: TradingPairID,
        amount_a: u128,
        amount_b: u128,
        buy_min: Option<u128>,
        simulate: bool,
        sender: EntityID,
    ) -> (r: Result<TradeOutcome, TradeError>)
        requires
            exchange_wf(old(tokens), old(swap), old(alloc).0),
            old(tokens).has(id.asset_a),
            old(tokens).has(id.asset_b),
            old(alloc).0 + 4 <= u64::MAX,
        ensures
            exchange_wf(final(tokens), final(swap), final(alloc).0),
            final(alloc).0 == old(alloc).0 + ensure_ids(old(swap), oriented(id, amount_a, amount_b).0),
            ensured_meta(old(tokens), final(tokens), old(swap), oriented(id, amount_a, amount_b).0, old(alloc).0),
            sell_trade_post(old(tokens), old(swap), old(alloc).0, final(tokens), final(swap), id, amount_a, amount_b, buy_min, simulate, sender.0, r),
    {
        let ghost t0 = *old(tokens);
        let mut id = id;
        let mut amount_a = amount_a;
        let mut amount_b = amount_b;
        if !id.is_normal() {
            let t = amount_a;
            amount_a = amount_b;
            amount_b = t;
            id.normalize();
        }
        let mkt = ConstantFunctionMarketMakerPair::ensure(tokens, swap, alloc, id);
        let ghost t1 = *tokens;
        proof {
            lemma_ensured(&t0, &t1, old(swap), id, old(alloc).0);
        }
        let (buying, selling, sell_amt) = if amount_a == 0 && amount_b == 0 {
            return Err(TradeError::InvalidTrade(String::from_str("Both token amounts cannot be zero")));
        } else if amount_a == 0 {
            (id.asset_a, id.asset_b, amount_b)
        } else if amount_b == 0 {
            (id.asset_b, id.asset_a, amount_a)
        } else {
            return Err(TradeError::InvalidTrade(String::from_str("One token amount must be zero")));
        };
        let asset_buying_name = tokens.nickname(buying);
        let asset_selling_name = tokens.nickname(selling);
        let mkt_qty_selling = tokens.balance_check(selling, &mkt.id);
        let mkt_qty_buying = tokens.balance_check(buying, &mkt.id);
        if let Some(min) = buy_min {
            if mkt_qty_buying < min {
                return Err(TradeError::InsufficientTokens(String::from_str("Not Enough Liquidity to Buy Min")));
            }
        }
        if !sell_in_range(mkt_qty_selling, mkt_qty_buying, sell_amt) {
            return Err(TradeError::InvalidTrade(String::from_str("Market arithmetic out of range")));
        }
        proof {
            law_sell_quote(mkt_qty_selling, mkt_qty_buying, sell_amt);
        }
        let (buy_amt, sell_amt) = quote_sell(mkt_qty_selling, mkt_qty_buying, sell_amt);
        if let Some(min) = buy_min {
            if buy_amt < min {
                return Err(TradeError::MarketSlipped);
            }
        }
        if sell_amt > tokens.balance_check(selling, &sender) {
            return Err(TradeError::InsufficientTokens(String::from_str("User has insufficient tokens")));
        }
        if !simulate {
            let settled = Self::settle(tokens, swap, alloc, mkt.id, selling, buying, sell_amt, buy_amt, sender);
            proof {
                lemma_ensured_meta_kept(&t0, &t1, tokens, old(swap), id, old(alloc).0);
                let key = id.key();
                assert((TradingPairID { asset_a: selling, asset_b: buying }).normalized().key() == key);
                let (ra, rb) = payout_amounts(selling, buying, buy_amt);
                if settled is Ok {
                    assert(swap.markets@ =~= old(swap).markets@.insert(key, after_payout(mkt, ra, rb)));
                } else {
                    assert(swap.markets@ =~= old(swap).markets@.insert(key, mkt));
                }
            }
            if let Err(e) = settled {
                return Err(e);
            }
        }
        Ok(
            TradeOutcome {
                trading_pair: id,
                asset_player_purchased: asset_buying_name,
                amount_player_purchased: buy_amt,
                asset_player_sold: asset_selling_name,
                amount_player_sold: sell_amt,
            },
        )
    }

    /// Buys a fixed amount through the pair's market using x * y = k. One of
    /// `amount_a` and `amount_b` must be zero: the non-zero amount is bought.
    /// `sell_max` bounds the amount sold: the request is refused as slipped
    /// when the charge is above it. With `simulate` nothing moves. Where the market's `u128`
    /// arithmetic would leave its range the trade is refused with
    /// `InvalidTrade`.
    #[verifier::rlimit(50)]
    pub fn internal_do_trade_buy_fixed_amount(
        tokens: &mut TokenRegistry,
        swap: &mut ConstantFunctionMarketMaker,
        alloc: &mut EntityIDAllocator,
        id: TradingPairID,
        amount_a: u128,
        amount_b: u128,
        sell_max: Option<u128>,
        simulate: bool,
        sender: EntityID,
    ) -> (r: Result<TradeOutcome, TradeError>)
        requires
            exchange_wf(old(tokens), old(swap), old(alloc).0),
            old(tokens).has(id.asset_a),
            old(tokens).has(id.asset_b),
            old(alloc).0 + 4 <= u64::MAX,
        ensures
            exchange_wf(final(tokens), final(swap), final(alloc).0),
            final(alloc).0 == old(alloc).0 + ensure_ids(old(swap), oriented(id, amount_a, amount_b).0),
            ensured_meta(old(tokens), final(tokens), old(swap), oriented(id, amount_a, amount_b).0, old(alloc).0),
            buy_trade_post(old(tokens), old(swap), old(alloc).0, final(tokens), final(swap), id, amount_a, amount_b, sell_max, simulate, sender.0, r),
    {
        let ghost t0 = *old(tokens);
        let mut id = id;
        let mut amount_a = amount_a;
        let mut amount_b = amount_b;
        if !id.is_normal() {
            let t = amount_a;
            amount_a = amount_b;
            amount_b = t;
            id.normalize();
        }
        let mkt = ConstantFunctionMarketMakerPair::ensure(tokens, swap, alloc, id);
        let ghost t1 = *tokens;
        proof {
            lemma_ensured(&t0, &t1, old(swap), id, old(alloc).0);
        }
        let (buying, selling, buy_amt) = if amount_a == 0 && amount_b == 0 {
            return Err(TradeError::InvalidTrade(String::from_str("Both token amounts cannot be zero")));
        } else if amount_a == 0 {
            (id.asset_b, id.asset_a, amount_b)
        } else if amount_b == 0 {
            (id.asset_a, id.asset_b, amount_a)
        } else {
            return Err(TradeError::InvalidTrade(String::from_str("One token amount must be zero")));
        };
        let selling_asset_name = tokens.nickname(selling);
        let buying_asset_name = tokens.nickname(buying);
        let mkt_qty_selling = tokens.balance_check(selling, &mkt.id);
        let mkt_qty_buying = tokens.balance_check(buying, &mkt.id);
        if buy_amt > mkt_qty_buying {
            return Err(TradeError::InsufficientTokens(String::from_str("Market has insufficient tokens")));
        }
        if !buy_in_range(mkt_qty_selling, mkt_qty_buying, buy_amt) {
            return Err(TradeError::InvalidTrade(String::from_str("Market arithmetic out of range")));
        }
        proof {
            law_buy_quote(mkt_qty_selling, mkt_qty_buying, buy_amt);
        }
        let (buy_amt, sell_amt) = quote_buy(mkt_qty_selling, mkt_qty_buying, buy_amt);
        if let Some(max) = sell_max {
            if sell_amt > max {
                return Err(TradeError::MarketSlipped);
            }
        }
        if sell_amt > tokens.balance_check(selling, &sender) {
            return Err(TradeError::InsufficientTokens(String::from_str("User has insufficient tokens")));
        }
        if !simulate {
            let settled = Self::settle(tokens, swap, alloc, mkt.id, selling, buying, sell_amt, buy_amt, sender);
            proof {
                lemma_ensured_meta_kept(&t0, &t1, tokens, old(swap), id, old(alloc).0);
                let key = id.key();
                assert((TradingPairID { asset_a: selling, asset_b: buying }).normalized().key() == key);
                let (ra, rb) = payout_amounts(selling, buying, buy_amt);
                if settled is Ok {
                    assert(swap.markets@ =~= old(swap).markets@.insert(key, after_payout(mkt, ra, rb)));
                } else {
                    assert(swap.markets@ =~= old(swap).markets@.insert(key, mkt));
                }
            }
            if let Err(e) = settled {
                return Err(e);
            }
        }
        Ok(
            TradeOutcome {
                trading_pair: id,
                asset_player_purchased: buying_asset_name,
                amount_player_purchased: buy_amt,
                asset_player_sold: selling_asset_name,
                amount_player_sold: sell_amt,
            },
        )
    }
}

/// The registries agree on every token's identifier and nickname and on the
/// other token kinds; the supply may differ only for token `tok`.
pub open spec fn same_meta_but_supply(old_t: &TokenRegistry, new_t: &TokenRegistry, tok: u64) -> bool {
    &&& forall|k: u64| #[trigger] old_t.tokens@.contains_key(k) ==> {
        &&& new_t.tokens@.contains_key(k)
        &&& new_t.tokens@[k].this == old_t.tokens@[k].this
        &&& new_t.tokens@[k].nickname == old_t.tokens@[k].nickname
        &&& k != tok ==> new_t.tokens@[k].total == old_t.tokens@[k].total
    }
    &&& new_t.hashboards@ == old_t.hashboards@
    &&& new_t.steel@ == old_t.steel@
    &&& new_t.silicon@ == old_t.silicon@
}

/// The share tokens minted for a deposit of `na` of asset a into a market
/// that held `a_before` of asset a, when `coins` shares exist: shares in
/// proportion to the part of the holding added, rounded down; the first
/// deposit (no shares yet, or nothing held) gets `na` shares.
pub open spec fn shares_for(coins: int, na: int, a_before: int) -> int {
    if coins == 0 || a_before == 0 {
        na
    } else {
        (coins * na) / a_before
    }
}

/// What a deposit does. Both amounts must be non-zero and in the ratio of
/// the market's holdings; the depositor receives share tokens in proportion
/// to the coins it adds. Where the arithmetic of the deposit leaves the range
/// of `u128`, the deposit is abandoned and any transfer is taken back.
pub open spec fn deposit_post(
    old_t: &TokenRegistry,
    old_s: &ConstantFunctionMarketMaker,
    next: u64,
    new_t: &TokenRegistry,
    new_s: &ConstantFunctionMarketMaker,
    new_next: u64,
    id: TradingPairID,
    amount_a: u128,
    amount_b: u128,
    from: u64,
) -> bool {
    let (nid, na, nb) = oriented(id, amount_a, amount_b);
    let key = nid.key();
    let m = ensured_market(old_s, nid, next);
    let l0 = ensured_ledgers(old_t, old_s, nid, next);
    let a = nid.asset_a.0.0;
    let b = nid.asset_b.0.0;
    let lp = m.lp.0.0;
    let mid = m.id.0;
    let sa = balance_of(l0[a], mid);
    let sb = balance_of(l0[b], mid);
    let l1 = paid_in(l0, a, from, mid, na);
    let l2 = paid_in(l1, b, from, mid, nb);
    let coins = if old_t.tokens@.contains_key(lp) { old_t.tokens@[lp].total as int } else { 0 };
    let minted = shares_for(coins, na as int, sa);
    if na == 0 || nb == 0 {
        &&& ledgers(new_t) == ledgers(old_t)
        &&& same_meta(old_t, new_t)
        &&& new_t.tokens@.dom() == old_t.tokens@.dom()
        &&& new_s.markets@ == old_s.markets@
        &&& new_next == next
    } else {
        &&& new_next == next + ensure_ids(old_s, nid)
        &&& new_t.tokens@.dom() == l0.dom()
        &&& if na * sb > u128::MAX || sa * nb > u128::MAX || na * sb != sa * nb
            || balance_of(l0[a], from) < na {
            &&& ledgers(new_t) == l0
            &&& ensured_meta(old_t, new_t, old_s, nid, next)
            &&& new_s.markets@ == old_s.markets@.insert(key, m)
        } else if balance_of(l1[b], from) < nb || (coins != 0 && sa != 0 && coins * na > u128::MAX)
            || coins + minted > u128::MAX || m.reserve_a + na > u128::MAX
            || m.reserve_b + nb > u128::MAX {
            &&& same_values(ledgers(new_t), l0)
            &&& ensured_meta(old_t, new_t, old_s, nid, next)
            &&& new_s.markets@ == old_s.markets@.insert(key, m)
        } else {
            &&& ledgers(new_t) == l2.insert(lp, l2[lp].insert(from, (balance_of(l2[lp], from) + minted) as u128))
            &&& same_meta_but_supply(old_t, new_t, lp)
            &&& new_t.tokens@[lp].total == coins + minted
            &&& new_t.tokens@[lp].this == m.lp.0
            &&& new_s.markets@ == old_s.markets@.insert(
                key,
                ConstantFunctionMarketMakerPair {
                    reserve_a: (m.reserve_a + na) as u128,
                    reserve_b: (m.reserve_b + nb) as u128,
                    ..m
                },
            )
        }
    }
}

/// Undoing the two transfers of a deposit restores every balance.
proof fn lemma_undo_deposit(t0: &TokenRegistry, t1: &TokenRegistry, t2: &TokenRegistry, a: u64, b: u64, from: u64, mid: u64, na: u128, nb: u128)
    requires
        t0.wf(), t1.wf(), t2.wf(),
        t0.tokens@.contains_key(a),
        t0.tokens@.contains_key(b),
        t0.bal(a, from) >= na,
        ledgers(t1) == paid_in(ledgers(t0), a, from, mid, na),
        t1.bal(b, from) >= nb,
        ledgers(t2) == paid_in(ledgers(t1), b, from, mid, nb),
    ensures
        t2.bal(b, mid) >= nb,
        balance_of(paid_in(ledgers(t2), b, mid, from, nb)[a], mid) >= na,
        same_values(paid_in(paid_in(ledgers(t2), b, mid, from, nb), a, mid, from, na), ledgers(t0)),
{
    let l0 = ledgers(t0);
    let l1 = ledgers(t1);
    let l2 = ledgers(t2);
    let l3 = paid_in(l2, b, mid, from, nb);
    assert(l0.contains_key(a) && l1.contains_key(b) && l2.contains_key(b) && l3.contains_key(a));
    assert(l1[b] == t1.tokens@[b].balances@);
    lemma_round_trip(l1[b], from, mid, nb);
    // undoing b brings the ledgers back to l1
    assert(same_values(l3, l1)) by {
        assert(l3.dom() =~= l1.dom());
        assert forall|k: u64| #[trigger] l3.contains_key(k) implies same_balances(l3[k], l1[k]) by {
            if k != b {
                assert(l3[k] == l1[k]);
            }
        }
    }
    lemma_round_trip(l0[a], from, mid, na);
    assert(same_balances(l3[a], l1[a]));
    assert(balance_of(l3[a], mid) == balance_of(l1[a], mid));
    lemma_values_transfer(l3, l1, a, mid, from, na);
    let l4b = paid_in(l1, a, mid, from, na);
    assert(same_values(l4b, l0)) by {
        assert(l4b.dom() =~= l0.dom());
        assert forall|k: u64| #[trigger] l4b.contains_key(k) implies same_balances(l4b[k], l0[k]) by {
            if k != a {
                assert(l4b[k] == l0[k]);
            }
        }
    }
    let l4 = paid_in(l3, a, mid, from, na);
    assert forall|k: u64| #[trigger] l4.contains_key(k) implies same_balances(l4[k], l0[k]) by {
        assert(same_balances(l4[k], l4b[k]));
        assert(same_balances(l4b[k], l0[k]));
    }
}

/// Taking back the first transfer of a deposit restores every balance.
proof fn lemma_undo_first(t0: &TokenRegistry, t1: &TokenRegistry, a: u64, from: u64, mid: u64, na: u128)
    requires
        t0.wf(),
        t0.tokens@.contains_key(a),
        t0.bal(a, from) >= na,
        ledgers(t1) == paid_in(ledgers(t0), a, from, mid, na),
    ensures
        balance_of(ledgers(t1)[a], mid) >= na,
        same_values(paid_in(ledgers(t1), a, mid, from, na), ledgers(t0)),
{
    let l0 = ledgers(t0);
    let l2 = paid_in(ledgers(t1), a, mid, from, na);
    lemma_round_trip(l0[a], from, mid, na);
    assert(l2.dom() =~= l0.dom());
    assert forall|k: u64| #[trigger] l2.contains_key(k) implies same_balances(l2[k], l0[k]) by {
        if k != a {
            assert(l2[k] == l0[k]);
        }
    }
}

impl ConstantFunctionMarketMaker {
    /// Adds `amount_a` and `amount_b` to the pair's market and mints share
    /// tokens to `from` in proportion to the coins added (see `shares_for`;
    /// the first deposit gets `amount_a` shares). Nothing happens
    /// when an amount is zero or the amounts are not in the ratio of the
    /// market's holdings, or when `from` lacks the coins (a transfer already
    /// made is taken back). Where the deposit's `u128` arithmetic would leave
    /// its range, the deposit is abandoned the same way.
    #[verifier::rlimit(80)]
    pub fn deposit(
        tokens: &mut TokenRegistry,
        swap: &mut ConstantFunctionMarketMaker,
        alloc: &mut EntityIDAllocator,
        id: TradingPairID,
        amount_a: u128,
        amount_b: u128,
        from: EntityID,
    )
        requires
            exchange_wf(old(tokens), old(swap), old(alloc).0),
            old(tokens).has(id.asset_a),
            old(tokens).has(id.asset_b),
            old(alloc).0 + 2 <= u64::MAX,
        ensures
            exchange_wf(final(tokens), final(swap), final(alloc).0),
            deposit_post(old(tokens), old(swap), old(alloc).0, final(tokens), final(swap), final(alloc).0, id, amount_a, amount_b, from.0),
            forall|k: u64| #[trigger] old(tokens).tokens@.contains_key(k) ==> final(tokens).tokens@.contains_key(k),
            final(tokens).hashboards@ == old(tokens).hashboards@,
            final(alloc).0 >= old(alloc).0,
    {
        let ghost t0 = *old(tokens);
        let mut id = id;
        let mut amount_a = amount_a;
        let mut amount_b = amount_b;
        if !id.is_normal() {
            let t = amount_a;
            amount_a = amount_b;
            amount_b = t;
            id.normalize();
        }
        if amount_a == 0 || amount_b == 0 {
            proof {
                assert(ledgers(tokens) =~= ledgers(&t0));
            }
            return;
        }
        let mkt = ConstantFunctionMarketMakerPair::ensure(tokens, swap, alloc, id);
        let ghost t1 = *tokens;
        proof {
            lemma_ensured(&t0, &t1, old(swap), id, old(alloc).0);
        }
        let pa = id.asset_a;
        let pb = id.asset_b;
        let amt_a = tokens.balance_check(pa, &mkt.id);
        let amt_b = tokens.balance_check(pb, &mkt.id);
        let lhs = amount_a.checked_mul(amt_b);
        let rhs = amt_a.checked_mul(amount_b);
        match (lhs, rhs) {
            (Some(x), Some(y)) => {
                if x != y {
                    return;
                }
            },
            _ => {
                return;
            },
        }
        if !tokens.transfer(pa, &from, &mkt.id, amount_a) {
            proof {
                lemma_only_changed_meta(&t1, tokens, pa.0.0);
                assert(ledgers(tokens) =~= ledgers(&t1));
                assert(tokens.tokens@.dom() =~= t1.tokens@.dom());
                lemma_ensured_meta_kept(&t0, &t1, tokens, old(swap), id, old(alloc).0);
            }
            return;
        }
        let ghost t2 = *tokens;
        proof {
            lemma_only_changed_meta(&t1, &t2, pa.0.0);
            assert(t2.tokens@.dom() =~= t1.tokens@.dom());
            assert(ledgers(&t2) =~= paid_in(ledgers(&t1), pa.0.0, from.0, mkt.id.0, amount_a));
        }
        if !tokens.transfer(pb, &from, &mkt.id, amount_b) {
            let ghost t2b = *tokens;
            proof {
                lemma_only_changed_meta(&t2, &t2b, pb.0.0);
                assert(ledgers(&t2b) =~= ledgers(&t2));
                lemma_undo_first(&t1, &t2, pa.0.0, from.0, mkt.id.0, amount_a);
            }
            let _ = tokens.transfer(pa, &mkt.id, &from, amount_a);
            proof {
                lemma_only_changed_meta(&t2b, tokens, pa.0.0);
                assert(ledgers(tokens) =~= paid_in(ledgers(&t2), pa.0.0, mkt.id.0, from.0, amount_a));
                lemma_same_meta_trans(&t1, &t2, &t2b);
                lemma_same_meta_trans(&t1, &t2b, tokens);
                assert(tokens.tokens@.dom() =~= t1.tokens@.dom());
                lemma_ensured_meta_kept(&t0, &t1, tokens, old(swap), id, old(alloc).0);
            }
            return;
        }
        let ghost t3 = *tokens;
        proof {
            lemma_only_changed_meta(&t2, &t3, pb.0.0);
            assert(t3.tokens@.dom() =~= t1.tokens@.dom());
            assert(ledgers(&t3) =~= paid_in(ledgers(&t2), pb.0.0, from.0, mkt.id.0, amount_b));
            lemma_same_meta_trans(&t1, &t2, &t3);
            lemma_ensured_meta_kept(&t0, &t1, &t3, old(swap), id, old(alloc).0);
        }
        let coins = tokens.total_coins(mkt.lp);
        let share: Option<u128> = if coins == 0 || amt_a == 0 {
            Some(amount_a)
        } else {
            match coins.checked_mul(amount_a) {
                None => None,
                Some(p) => Some(p / amt_a),
            }
        };
        let to_mint: Option<u128> = match share {
            None => None,
            Some(q) => match coins.checked_add(q) {
                None => None,
                Some(_) => Some(q),
            },
        };
        let new_ra = mkt.reserve_a.checked_add(amount_a);
        let new_rb = mkt.reserve_b.checked_add(amount_b);
        match (to_mint, new_ra, new_rb) {
            (Some(q), Some(ra), Some(rb)) => {
                tokens.mint(mkt.lp, &from, q);
                let mut m = mkt;
                m.reserve_a = ra;
                m.reserve_b = rb;
                swap.markets.insert((pa.0.0, pb.0.0), m);
                proof {
                    let lp = mkt.lp.0.0;
                    assert(ledgers(tokens) =~= ledgers(&t3).insert(lp, ledgers(&t3)[lp].insert(from.0, (balance_of(ledgers(&t3)[lp], from.0) + q) as u128)));
                    assert(tokens.tokens@.dom() =~= t3.tokens@.dom());
                    assert forall|k: u64| #[trigger] t0.tokens@.contains_key(k) implies {
                        &&& tokens.tokens@.contains_key(k)
                        &&& tokens.tokens@[k].this == t0.tokens@[k].this
                        &&& tokens.tokens@[k].nickname == t0.tokens@[k].nickname
                        &&& k != lp ==> tokens.tokens@[k].total == t0.tokens@[k].total
                    } by {
                        assert(t3.tokens@.contains_key(k));
                    }
                    assert(swap.markets@ =~= old(swap).markets@.insert((pa.0.0, pb.0.0), m));
                    assert forall|kk: (u64, u64)| #[trigger] swap.markets@.contains_key(kk) implies market_ok(
                        tokens,
                        swap.markets@[kk],
                        kk,
                        alloc.0,
                    ) by {
                        if kk != (pa.0.0, pb.0.0) {
                            assert(old(swap).markets@.contains_key(kk));
                        }
                    }
                }
            },
            _ => {
                proof {
                    lemma_undo_deposit(&t1, &t2, &t3, pa.0.0, pb.0.0, from.0, mkt.id.0, amount_a, amount_b);
                }
                let ghost t4 = *tokens;
                let _ = tokens.transfer(pb, &mkt.id, &from, amount_b);
                let ghost t5 = *tokens;
                proof {
                    lemma_only_changed_meta(&t4, &t5, pb.0.0);
                    assert(ledgers(&t5) =~= paid_in(ledgers(&t3), pb.0.0, mkt.id.0, from.0, amount_b));
                }
                let _ = tokens.transfer(pa, &mkt.id, &from, amount_a);
                proof {
                    lemma_only_changed_meta(&t5, tokens, pa.0.0);
                    assert(ledgers(tokens) =~= paid_in(ledgers(&t5), pa.0.0, mkt.id.0, from.0, amount_a));
                    lemma_same_meta_trans(&t1, &t3, &t5);
                    lemma_same_meta_trans(&t1, &t5, tokens);
                    assert(tokens.tokens@.dom() =~= t1.tokens@.dom());
                    lemma_ensured_meta_kept(&t0, &t1, tokens, old(swap), id, old(alloc).0);
                }
            },
        }
    }
}

impl ConstantFunctionMarketMaker {
    /// Sells through the pair's market: see `internal_do_trade_sell_fixed_amount`.
    pub fn do_sell_trade(
        tokens: &mut TokenRegistry,
        swap: &mut ConstantFunctionMarketMaker,
        alloc: &mut EntityIDAllocator,
        id: TradingPairID,
        amount_a: u128,
        amount_b: u128,
        buy_min: Option<u128>,
        simulate: bool,
        sender: EntityID,
    ) -> (r: Result<TradeOutcome, TradeError>)
        requires
            exchange_wf(old(tokens), old(swap), old(alloc).0),
            old(tokens).has(id.asset_a),
            old(tokens).has(id.asset_b),
            old(alloc).0 + 4 <= u64::MAX,
        ensures
            exchange_wf(final(tokens), final(swap), final(alloc).0),
            final(alloc).0 == old(alloc).0 + ensure_ids(old(swap), oriented(id, amount_a, amount_b).0),
            ensured_meta(old(tokens), final(tokens), old(swap), oriented(id, amount_a, amount_b).0, old(alloc).0),
            sell_trade_post(old(tokens), old(swap), old(alloc).0, final(tokens), final(swap), id, amount_a, amount_b, buy_min, simulate, sender.0, r),
    {
        Self::internal_do_trade_sell_fixed_amount(tokens, swap, alloc, id, amount_a, amount_b, buy_min, simulate, sender)
    }

    /// Buys through the pair's market: see `internal_do_trade_buy_fixed_amount`.
    pub fn do_buy_trade(
        tokens: &mut TokenRegistry,
        swap: &mut ConstantFunctionMarketMaker,
        alloc: &mut EntityIDAllocator,
        id: TradingPairID,
        amount_a: u128,
        amount_b: u128,
        sell_max: Option<u128>,
        simulate: bool,
        sender: EntityID,
    ) -> (r: Result<TradeOutcome, TradeError>)
        requires
            exchange_wf(old(tokens), old(swap), old(alloc).0),
            old(tokens).has(id.asset_a),
            old(tokens).has(id.asset_b),
            old(alloc).0 + 4 <= u64::MAX,
        ensures
            exchange_wf(final(tokens), final(swap), final(alloc).0),
            final(alloc).0 == old(alloc).0 + ensure_ids(old(swap), oriented(id, amount_a, amount_b).0),
            ensured_meta(old(tokens), final(tokens), old(swap), oriented(id, amount_a, amount_b).0, old(alloc).0),
            buy_trade_post(old(tokens), old(swap), old(alloc).0, final(tokens), final(swap), id, amount_a, amount_b, sell_max, simulate, sender.0, r),
    {
        Self::internal_do_trade_buy_fixed_amount(tokens, swap, alloc, id, amount_a, amount_b, sell_max, simulate, sender)
    }

    /// The market's holdings `(asset a, asset b)` of the pair `id` (as
    /// given, not normalized), creating the market when it is missing.
    pub fn get_pair_price_data(
        tokens: &mut TokenRegistry,
        swap: &mut ConstantFunctionMarketMaker,
        alloc: &mut EntityIDAllocator,
        id: TradingPairID,
    ) -> (r: (u128, u128))
        requires
            exchange_wf(old(tokens), old(swap), old(alloc).0),
            old(tokens).has(id.asset_a),
            old(tokens).has(id.asset_b),
            old(alloc).0 + 2 <= u64::MAX,
        ensures
            exchange_wf(final(tokens), final(swap), final(alloc).0),
            final(swap).markets@ == old(swap).markets@.insert(id.normalized().key(), ensured_market(old(swap), id, old(alloc).0)),
            ensured_tokens(old(tokens), final(tokens), old(swap), id, old(alloc).0),
            final(alloc).0 == old(alloc).0 + ensure_ids(old(swap), id),
            r.0 == final(tokens).bal(id.normalized().asset_a.0.0, ensured_market(old(swap), id, old(alloc).0).id.0),
            r.1 == final(tokens).bal(id.normalized().asset_b.0.0, ensured_market(old(swap), id, old(alloc).0).id.0),
    {
        let mkt = ConstantFunctionMarketMakerPair::ensure(tokens, swap, alloc, id);
        let a = tokens.balance_check(mkt.pair.asset_a, &mkt.id);
        let b = tokens.balance_check(mkt.pair.asset_b, &mkt.id);
        (a, b)
    }
}

/// Rendering a pair as text and parsing the text gives the pair back.
pub proof fn law_pair_text_roundtrip(p: TradingPairID)
    ensures
        pair_parse(p.text()) == Ok::<TradingPairID, TradingPairIDParseError>(p),
{
    let da = radix_digits(p.asset_a.0.0 as nat, 16);
    let db = radix_digits(p.asset_b.0.0 as nat, 16);
    let s = p.text();
    lemma_hex_digits_no_colon(p.asset_a.0.0 as nat);
    lemma_hex_digits_no_colon(p.asset_b.0.0 as nat);
    assert(colon_count(seq![':']) == 1) by {
        assert(seq![':'].drop_last() =~= Seq::<char>::empty());
        assert(seq![':'].last() == ':');
        assert(colon_count(Seq::<char>::empty()) == 0);
    }
    lemma_colon_count_append(da, seq![':']);
    lemma_colon_count_append(da + seq![':'], db);
    assert(s.take(da.len() as int) =~= da);
    assert(s.skip(da.len() as int + 1) =~= db);
    lemma_first_colon(s, da.len());
    law_hex_roundtrip(p.asset_a.0.0);
    law_hex_roundtrip(p.asset_b.0.0);
}

/// Normalizing twice is normalizing once, and the result is normal.
pub proof fn law_normalize_idempotent(p: TradingPairID)
    ensures
        p.normalized().normal(),
        p.normalized().normalized() == p.normalized(),
        p.normalized().key() == (TradingPairID { asset_a: p.asset_b, asset_b: p.asset_a }).normalized().key(),
{
}

/// Making sure of a market twice, with the pair in either order, finds the
/// market the first call made and hands out no identifiers or tokens; a
/// market made new starts with no reserves and an empty share token.
pub proof fn law_ensure_idempotent(
    t1: &TokenRegistry,
    s1: &ConstantFunctionMarketMaker,
    n1: u64,
    t2: &TokenRegistry,
    s2: &ConstantFunctionMarketMaker,
    n2: u64,
    t3: &TokenRegistry,
    pair: TradingPairID,
)
    requires
        exchange_wf(t1, s1, n1),
        s2.markets@ == s1.markets@.insert(pair.normalized().key(), ensured_market(s1, pair, n1)),
        ensured_tokens(t1, t2, s1, pair, n1),
    ensures
        ({
            let m1 = ensured_market(s1, pair, n1);
            let q = TradingPairID { asset_a: pair.asset_b, asset_b: pair.asset_a };
            &&& s2.markets@.contains_key(pair.normalized().key())
            &&& s2.markets@.contains_key(q.normalized().key())
            &&& m1.pair.normal()
            &&& ensured_market(s2, pair, n2) == m1
            &&& ensured_market(s2, q, n2) == m1
            &&& ensure_ids(s2, pair) == 0
            &&& ensure_ids(s2, q) == 0
            &&& ensured_tokens(t2, t3, s2, pair, n2) ==> t3.tokens@ == t2.tokens@
            &&& ensured_tokens(t2, t3, s2, q, n2) ==> t3.tokens@ == t2.tokens@
            &&& !s1.markets@.contains_key(pair.normalized().key()) ==> {
                &&& m1.reserve_a == 0
                &&& m1.reserve_b == 0
                &&& t2.tokens@[m1.lp.0.0].total == 0
                &&& t2.tokens@[m1.lp.0.0].balances@ == Map::<u64, u128>::empty()
            }
        }),
{
    law_normalize_idempotent(pair);
    let q = TradingPairID { asset_a: pair.asset_b, asset_b: pair.asset_a };
    law_normalize_idempotent(q);
}

/// A simulated buy that succeeds, followed on the state it leaves by a real
/// buy of the same amounts: the real buy sells and buys exactly what the
/// simulation quoted, or is refused by the final check on the market's
/// reserves, with nothing moved.
pub proof fn law_simulated_buy_predicts_buy(
    t0: &TokenRegistry,
    s0: &ConstantFunctionMarketMaker,
    n0: u64,
    t1: &TokenRegistry,
    s1: &ConstantFunctionMarketMaker,
    n1: u64,
    t2: &TokenRegistry,
    s2: &ConstantFunctionMarketMaker,
    id: TradingPairID,
    amount_a: u128,
    amount_b: u128,
    sender: u64,
    x: TradeOutcome,
    r: Result<TradeOutcome, TradeError>,
)
    requires
        buy_trade_post(t0, s0, n0, t1, s1, id, amount_a, amount_b, None, true, sender, Ok(x)),
        buy_trade_post(t1, s1, n1, t2, s2, id, amount_a, amount_b, None, false, sender, r),
    ensures
        r matches Ok(y) ==> y.amount_player_sold == x.amount_player_sold && y.amount_player_purchased == x.amount_player_purchased,
        r is Err ==> (r matches Err(TradeError::InvalidTrade(_))) && same_values(ledgers(t2), ledgers(t1)),
{
    let (nid, na, nb) = oriented(id, amount_a, amount_b);
    law_normalize_idempotent(nid);
    let m = ensured_market(s0, nid, n0);
    assert(s1.markets@.contains_key(nid.key()));
    assert(ensured_market(s1, nid, n1) == m);
    assert(ensured_ledgers(t1, s1, nid, n1) == ledgers(t1));
}

/// A simulated sell that succeeds, followed on the state it leaves by a real
/// sell of the same amounts: the real sell sells and buys exactly what the
/// simulation quoted, or is refused by the final check on the market's
/// reserves, with nothing moved.
pub proof fn law_simulated_sell_predicts_sell(
    t0: &TokenRegistry,
    s0: &ConstantFunctionMarketMaker,
    n0: u64,
    t1: &TokenRegistry,
    s1: &ConstantFunctionMarketMaker,
    n1: u64,
    t2: &TokenRegistry,
    s2: &ConstantFunctionMarketMaker,
    id: TradingPairID,
    amount_a: u128,
    amount_b: u128,
    sender: u64,
    x: TradeOutcome,
    r: Result<TradeOutcome, TradeError>,
)
    requires
        sell_trade_post(t0, s0, n0, t1, s1, id, amount_a, amount_b, None, true, sender, Ok(x)),
        sell_trade_post(t1, s1, n1, t2, s2, id, amount_a, amount_b, None, false, sender, r),
    ensures
        r matches Ok(y) ==> y.amount_player_sold == x.amount_player_sold && y.amount_player_purchased == x.amount_player_purchased,
        r is Err ==> (r matches Err(TradeError::InvalidTrade(_))) && same_values(ledgers(t2), ledgers(t1)),
{
    let (nid, na, nb) = oriented(id, amount_a, amount_b);
    law_normalize_idempotent(nid);
    let m = ensured_market(s0, nid, n0);
    assert(s1.markets@.contains_key(nid.key()));
    assert(ensured_market(s1, nid, n1) == m);
    assert(ensured_ledgers(t1, s1, nid, n1) == ledgers(t1));
}

/// A sell with a minimum `m` never settles for less: when it succeeds the
/// seller bought at least `m`; a well-formed sell whose quote buys less than
/// `m` (the market holding at least `m`) is refused as slipped, with every
/// balance as before; and a sell is refused as slipped only then.
pub proof fn law_sell_respects_minimum(
    old_t: &TokenRegistry,
    old_s: &ConstantFunctionMarketMaker,
    next: u64,
    new_t: &TokenRegistry,
    new_s: &ConstantFunctionMarketMaker,
    id: TradingPairID,
    amount_a: u128,
    amount_b: u128,
    m: u128,
    simulate: bool,
    sender: u64,
    r: Result<TradeOutcome, TradeError>,
)
    requires
        sell_trade_post(old_t, old_s, next, new_t, new_s, id, amount_a, amount_b, Some(m), simulate, sender, r),
    ensures
        r matches Ok(o) ==> o.amount_player_purchased >= m,
        ({
            let (nid, na, nb) = oriented(id, amount_a, amount_b);
            let mk = ensured_market(old_s, nid, next);
            let l0 = ensured_ledgers(old_t, old_s, nid, next);
            let buying = if na == 0 { nid.asset_a } else { nid.asset_b };
            let selling = if na == 0 { nid.asset_b } else { nid.asset_a };
            let x = if na == 0 { nb } else { na };
            let s = balance_of(l0[selling.0.0], mk.id.0) as u128;
            let b = balance_of(l0[buying.0.0], mk.id.0) as u128;
            &&& (na == 0) != (nb == 0) && b >= m && sell_quote_defined(s, b, x) && sell_quote_buy(s, b, x) < m ==> {
                &&& r matches Err(TradeError::MarketSlipped)
                &&& ledgers(new_t) == l0
            }
            &&& r matches Err(TradeError::MarketSlipped) ==> sell_quote_defined(s, b, x) && sell_quote_buy(s, b, x) < m
        }),
{
    let (nid, na, nb) = oriented(id, amount_a, amount_b);
    let mk = ensured_market(old_s, nid, next);
    let l0 = ensured_ledgers(old_t, old_s, nid, next);
    let buying = if na == 0 { nid.asset_a } else { nid.asset_b };
    let selling = if na == 0 { nid.asset_b } else { nid.asset_a };
    let x = if na == 0 { nb } else { na };
    let s = balance_of(l0[selling.0.0], mk.id.0) as u128;
    let b = balance_of(l0[buying.0.0], mk.id.0) as u128;
    if sell_quote_defined(s, b, x) {
        crate::cfmm_math::law_sell_quote(s, b, x);
    }
}

/// A buy with a cap `c` on what it sells never pays more: when it succeeds
/// the buyer sold at most `c`; a well-formed buy whose charge is above `c`
/// (the quote being defined) is refused as slipped, with every balance as
/// before; and a buy is refused as slipped only then.
pub proof fn law_buy_respects_cap(
    old_t: &TokenRegistry,
    old_s: &ConstantFunctionMarketMaker,
    next: u64,
    new_t: &TokenRegistry,
    new_s: &ConstantFunctionMarketMaker,
    id: TradingPairID,
    amount_a: u128,
    amount_b: u128,
    c: u128,
    simulate: bool,
    sender: u64,
    r: Result<TradeOutcome, TradeError>,
)
    requires
        buy_trade_post(old_t, old_s, next, new_t, new_s, id, amount_a, amount_b, Some(c), simulate, sender, r),
    ensures
        r matches Ok(o) ==> o.amount_player_sold <= c,
        ({
            let (nid, na, nb) = oriented(id, amount_a, amount_b);
            let mk = ensured_market(old_s, nid, next);
            let l0 = ensured_ledgers(old_t, old_s, nid, next);
            let buying = if na == 0 { nid.asset_b } else { nid.asset_a };
            let selling = if na == 0 { nid.asset_a } else { nid.asset_b };
            let y = if na == 0 { nb } else { na };
            let s = balance_of(l0[selling.0.0], mk.id.0) as u128;
            let b = balance_of(l0[buying.0.0], mk.id.0) as u128;
            &&& (na == 0) != (nb == 0) && y <= b && buy_quote_defined(s, b, y) && buy_quote_sell(s, b, y) > c ==> {
                &&& r matches Err(TradeError::MarketSlipped)
                &&& ledgers(new_t) == l0
            }
            &&& r matches Err(TradeError::MarketSlipped) ==> buy_quote_defined(s, b, y) && buy_quote_sell(s, b, y) > c
        }),
{
    let (nid, na, nb) = oriented(id, amount_a, amount_b);
    let mk = ensured_market(old_s, nid, next);
    let l0 = ensured_ledgers(old_t, old_s, nid, next);
    let buying = if na == 0 { nid.asset_b } else { nid.asset_a };
    let selling = if na == 0 { nid.asset_a } else { nid.asset_b };
    let y = if na == 0 { nb } else { na };
    let s = balance_of(l0[selling.0.0], mk.id.0) as u128;
    let b = balance_of(l0[buying.0.0], mk.id.0) as u128;
    if buy_quote_defined(s, b, y) {
        law_buy_quote(s, b, y);
    }
}

/// A trade that succeeds never lowers the product of the market's holdings:
/// with `s` and `b` the holdings of the sold and bought asset before it,
/// `(s + sold) * (b - bought) >= s * b`; a sell sells at most what was
/// offered, and a buy buys at least what was asked.
pub proof fn law_trades_keep_the_product(
    old_t: &TokenRegistry,
    old_s: &ConstantFunctionMarketMaker,
    next: u64,
    new_t: &TokenRegistry,
    new_s: &ConstantFunctionMarketMaker,
    id: TradingPairID,
    amount_a: u128,
    amount_b: u128,
    limit: Option<u128>,
    simulate: bool,
    sender: u64,
    r_sell: Result<TradeOutcome, TradeError>,
    r_buy: Result<TradeOutcome, TradeError>,
    new_t2: &TokenRegistry,
    new_s2: &ConstantFunctionMarketMaker,
)
    requires
        sell_trade_post(old_t, old_s, next, new_t, new_s, id, amount_a, amount_b, limit, simulate, sender, r_sell),
        buy_trade_post(old_t, old_s, next, new_t2, new_s2, id, amount_a, amount_b, limit, simulate, sender, r_buy),
    ensures
        ({
            let (nid, na, nb) = oriented(id, amount_a, amount_b);
            let mk = ensured_market(old_s, nid, next);
            let l0 = ensured_ledgers(old_t, old_s, nid, next);
            let x = if na == 0 { nb } else { na };
            let sold_a = na != 0;
            // the sell: asset given is the one offered
            let ss = balance_of(l0[(if sold_a { nid.asset_a } else { nid.asset_b }).0.0], mk.id.0);
            let sb = balance_of(l0[(if sold_a { nid.asset_b } else { nid.asset_a }).0.0], mk.id.0);
            // the buy: asset taken is the one asked for
            let bs = balance_of(l0[(if sold_a { nid.asset_b } else { nid.asset_a }).0.0], mk.id.0);
            let bb = balance_of(l0[(if sold_a { nid.asset_a } else { nid.asset_b }).0.0], mk.id.0);
            &&& r_sell matches Ok(o) ==> {
                &&& o.amount_player_sold <= x
                &&& o.amount_player_purchased < sb
                &&& (ss + o.amount_player_sold) * (sb - o.amount_player_purchased) >= ss * sb
            }
            &&& r_buy matches Ok(o) ==> {
                &&& o.amount_player_purchased >= x
                &&& o.amount_player_purchased < bb
                &&& (bs + o.amount_player_sold) * (bb - o.amount_player_purchased) >= bs * bb
            }
        }),
{
    let (nid, na, nb) = oriented(id, amount_a, amount_b);
    let mk = ensured_market(old_s, nid, next);
    let l0 = ensured_ledgers(old_t, old_s, nid, next);
    let x = if na == 0 { nb } else { na };
    let sold_a = na != 0;
    let sel = (if sold_a { nid.asset_a } else { nid.asset_b }).0.0;
    let oth = (if sold_a { nid.asset_b } else { nid.asset_a }).0.0;
    let s1 = balance_of(l0[sel], mk.id.0) as u128;
    let b1 = balance_of(l0[oth], mk.id.0) as u128;
    if sell_quote_defined(s1, b1, x) {
        law_sell_quote(s1, b1, x);
    }
    if buy_quote_defined(b1, s1, x) {
        law_buy_quote(b1, s1, x);
    }
}

} // verus!

