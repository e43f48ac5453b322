//! The moves a player can make, their envelope, and their sanitization.
use vstd::prelude::*;
use crate::entity::EntityID;
use crate::game::GameBoard;
use crate::nfts::{NftPtr, PlantType};
use crate::token_swap::TradingPairID;
use crate::tokens::TokenPointer;

verus! {

/// A move of a player.
#[derive(Clone, Debug)]
pub enum GameMove {
    Heartbeat(Heartbeat),
    /// Trade coins.
    Trade(Trade),
    /// Buy NFTs.
    PurchaseNFT(PurchaseNFT),
    /// Sell NFTs.
    ListNFTForSale(ListNFTForSale),
    /// Send coins.
    SendTokens(SendTokens),
    /// Send a logged chat message to all players.
    Chat(Chat),
    /// Mint a power plant NFT.
    MintPowerPlant(MintPowerPlant),
    /// Buy the materials of a power plant and mint it.
    SuperMintPowerPlant(MintPowerPlant),
    /// Ship hash boards out of a power plant.
    RemoveTokens(RemoveTokens),
}

impl GameMove {
    /// A copy of the move.
    pub fn duplicate(&self) -> (r: Self)
        ensures
            r == *self,
    {
        match self {
            GameMove::Heartbeat(h) => GameMove::Heartbeat(*h),
            GameMove::Trade(t) => GameMove::Trade(*t),
            GameMove::PurchaseNFT(p) => GameMove::PurchaseNFT(*p),
            GameMove::ListNFTForSale(l) => GameMove::ListNFTForSale(*l),
            GameMove::SendTokens(t) => GameMove::SendTokens(*t),
            GameMove::Chat(c) => GameMove::Chat(Chat(c.0.clone())),
            GameMove::MintPowerPlant(m) => GameMove::MintPowerPlant(*m),
            GameMove::SuperMintPowerPlant(m) => GameMove::SuperMintPowerPlant(*m),
            GameMove::RemoveTokens(x) => GameMove::RemoveTokens(*x),
        }
    }
}

/// A move that does nothing but tell the time.
#[derive(Clone, Copy, Debug, PartialEq, Eq, Structural)]
pub struct Heartbeat();

/// A trade through a market: `sell` chooses between selling and buying the
/// non-zero amount, `cap` bounds the other side.
#[derive(Clone, Copy, Debug, PartialEq, Eq, Structural)]
pub struct Trade {
    pub pair: TradingPairID,
    pub amount_a: u128,
    pub amount_b: u128,
    pub sell: bool,
    pub cap: Option<u128>,
}

/// Mint a power plant of some kind and size at a place.
#[derive(Clone, Copy, Debug)]
pub struct MintPowerPlant {
    /// Size of the power plant.
    pub scale: u64,
    pub location: (i64, i64),
    pub plant_type: PlantType,
}

/// Buy a listed NFT.
#[derive(Clone, Copy, Debug, PartialEq, Eq, Structural)]
pub struct PurchaseNFT {
    pub nft_id: NftPtr,
    pub limit_price: u128,
    pub currency: TokenPointer,
}

/// List an NFT for sale.
#[derive(Clone, Copy, Debug, PartialEq, Eq, Structural)]
pub struct ListNFTForSale {
    pub nft_id: NftPtr,
    pub price: u128,
    pub currency: TokenPointer,
}

/// Send coins to someone.
#[derive(Clone, Copy, Debug, PartialEq, Eq, Structural)]
pub struct SendTokens {
    pub to: EntityID,
    pub amount: u128,
    pub currency: TokenPointer,
}

/// Ship `amount` of the hash boards `currency` out of the plant `nft_id`.
#[derive(Clone, Copy, Debug, PartialEq, Eq, Structural)]
pub struct RemoveTokens {
    pub nft_id: NftPtr,
    pub amount: u128,
    pub currency: TokenPointer,
}

/// A chat message.
#[derive(Clone, Debug)]
pub struct Chat(pub String);

/// Data that has not been checked against the board yet.
#[derive(Clone, Debug)]
pub struct Unsanitized<D>(pub D);

/// A signed move: the data and its place in the sender's sequence of moves.
#[derive(Clone, Debug)]
pub struct MoveEnvelope {
    /// The data.
    pub d: Unsanitized<GameMove>,
    /// The data should be immediately preceded by sequence - 1.
    pub sequence: u64,
    pub time_millis: u64,
}

impl MoveEnvelope {
    /// Wraps a move with its sequence number and time.
    pub fn create(g: GameMove, sequence: u64, _sig: String, _from: EntityID, time: u64) -> (e: Self)
        ensures
            e.d.0 == g,
            e.sequence == sequence,
            e.time_millis == time,
    {
        MoveEnvelope { d: Unsanitized(g), sequence, time_millis: time }
    }
}

/// Checking player data against the board.
pub trait Sanitizable: Sized {
    type Output;
    type Context;
    type Error;

    fn sanitize(self, context: &Self::Context) -> Result<Self::Output, Self::Error>;
}

/// The token `p` exists on the board.
pub open spec fn token_ok(g: &GameBoard, p: TokenPointer) -> bool {
    g.tokens.tokens@.contains_key(p.0.0)
}

/// Every token a move names exists on the board (the nickname chat, the
/// recipients of coins and the material of plants are not checked).
pub open spec fn move_ok(g: &GameBoard, m: GameMove) -> bool {
    match m {
        GameMove::Trade(t) => token_ok(g, t.pair.asset_a) && token_ok(g, t.pair.asset_b),
        GameMove::PurchaseNFT(p) => token_ok(g, p.currency),
        GameMove::ListNFTForSale(l) => token_ok(g, l.currency),
        GameMove::RemoveTokens(r) => token_ok(g, r.currency),
        _ => true,
    }
}

impl Sanitizable for TokenPointer {
    type Output = TokenPointer;
    type Context = GameBoard;
    type Error = ();

    /// A token pointer is sane when the token exists.
    fn sanitize(self, context: &GameBoard) -> (r: Result<TokenPointer, ()>)
        ensures
            r == (if token_ok(context, self) { Ok::<TokenPointer, ()>(self) } else { Err(()) }),
    {
        if context.tokens.tokens.contains_key(&self.0.0) {
            Ok(self)
        } else {
            Err(())
        }
    }
}

impl Sanitizable for NftPtr {
    type Output = NftPtr;
    type Context = GameBoard;
    type Error = ();

    /// Any NFT pointer passes.
    fn sanitize(self, _context: &GameBoard) -> (r: Result<NftPtr, ()>)
        ensures
            r == Ok::<NftPtr, ()>(self),
    {
        Ok(self)
    }
}

impl Sanitizable for TradingPairID {
    type Output = TradingPairID;
    type Context = GameBoard;
    type Error = ();

    /// A pair is sane when both its tokens exist.
    fn sanitize(self, context: &GameBoard) -> (r: Result<TradingPairID, ()>)
        ensures
            r == (if token_ok(context, self.asset_a) && token_ok(context, self.asset_b) {
                Ok::<TradingPairID, ()>(self)
            } else {
                Err(())
            }),
    {
        let asset_a = self.asset_a.sanitize(context)?;
        let asset_b = self.asset_b.sanitize(context)?;
        Ok(TradingPairID { asset_a, asset_b })
    }
}

impl Sanitizable for GameMove {
    type Output = GameMove;
    type Context = GameBoard;
    type Error = ();

    /// A move is sane when every token it names exists (see `move_ok`).
    fn sanitize(self, context: &GameBoard) -> (r: Result<GameMove, ()>)
        ensures
            r == (if move_ok(context, self) { Ok::<GameMove, ()>(self) } else { Err(()) }),
    {
        match self {
            GameMove::Trade(t) => {
                let pair = t.pair.sanitize(context)?;
                Ok(GameMove::Trade(Trade { pair, ..t }))
            },
            GameMove::PurchaseNFT(p) => {
                let nft_id = p.nft_id.sanitize(context)?;
                let currency = p.currency.sanitize(context)?;
                Ok(GameMove::PurchaseNFT(PurchaseNFT { nft_id, limit_price: p.limit_price, currency }))
            },
            GameMove::ListNFTForSale(l) => {
                let nft_id = l.nft_id.sanitize(context)?;
                let currency = l.currency.sanitize(context)?;
                Ok(GameMove::ListNFTForSale(ListNFTForSale { nft_id, price: l.price, currency }))
            },
            GameMove::RemoveTokens(x) => {
                let nft_id = x.nft_id.sanitize(context)?;
                let currency = x.currency.sanitize(context)?;
                Ok(GameMove::RemoveTokens(RemoveTokens { nft_id, amount: x.amount, currency }))
            },
            other => Ok(other),
        }
    }
}

impl Sanitizable for Unsanitized<GameMove> {
    type Output = GameMove;
    type Context = GameBoard;
    type Error = ();

    /// Sanitizes the wrapped move.
    fn sanitize(self, context: &GameBoard) -> (r: Result<GameMove, ()>)
        ensures
            r == (if move_ok(context, self.0) { Ok::<GameMove, ()>(self.0) } else { Err(()) }),
    {
        self.0.sanitize(context)
    }
}

} // verus!
