//! Protocol annotations attached to compiled contracts: which events a
//! contract listens to, who signs what, and the numbers that name each
//! protocol.
use vstd::prelude::*;
use crate::messages::{bytes_to_hex, hex_of_bytes};

verus! {

/// An x-only public key, as its 32 serialized bytes.
#[derive(Clone, Copy, Debug)]
pub struct PK(pub [u8; 32]);

/// Where events come from.
#[derive(Clone, Debug)]
pub struct EventSource(pub String);

/// The name of a kind of event; `*` stands for every kind.
#[derive(Clone, Debug)]
pub struct EventKey(pub String);

impl EventKey {
    /// Whether this key stands for every kind of event.
    pub fn is_wildcard(&self) -> (r: bool)
        ensures
            r == (self.0@ == "*"@),
    {
        proof {
            reveal_strlit("*");
        }
        let s = self.0.as_str();
        if s.unicode_len() == 1 && s.get_char(0) == '*' {
            assert(s@ =~= "*"@);
            true
        } else {
            false
        }
    }
}

/// The key that stands for every kind of event.
pub fn ek_wildcard() -> (k: EventKey)
    ensures
        k.0@ == "*"@,
{
    EventKey(String::from_str("*"))
}

/// The event of the players winning the game.
pub fn ek_game_action_win() -> (k: EventKey)
    ensures
        k.0@ == "game_action_players_win"@,
{
    EventKey(String::from_str("game_action_players_win"))
}

/// The event of the players losing the game.
pub fn ek_game_action_lose() -> (k: EventKey)
    ensures
        k.0@ == "game_action_players_lose"@,
{
    EventKey(String::from_str("game_action_players_lose"))
}

/// The bitcoin node, as a source of events.
pub fn source_bitcoin_rpc() -> (s: EventSource)
    ensures
        s.0@ == "bitcoin-rpc"@,
{
    EventSource(String::from_str("bitcoin-rpc"))
}

/// The event of a new block header.
pub fn ek_bitcoin_blockheader() -> (k: EventKey)
    ensures
        k.0@ == "blockheader"@,
{
    EventKey(String::from_str("blockheader"))
}

/// The text of the event of discovering the discrete log of key `x`.
pub open spec fn dlog_event_text(x: Seq<u8>) -> Seq<char> {
    "discrete_log_discovery("@ + hex_of_bytes(x) + ")"@
}

/// The event of discovering the discrete log of key `x`.
pub fn ek_new_dlog(x: &PK) -> (k: EventKey)
    ensures
        k.0@ == dlog_event_text(x.0@),
{
    let hex = bytes_to_hex(x.0.as_slice());
    let mut s = String::from_str("discrete_log_discovery(");
    s.append(hex.as_str());
    s.append(")");
    EventKey(s)
}

/// Recompile a contract when an event of a kind arrives from a source.
#[derive(Clone, Debug)]
pub struct EventRecompiler {
    pub source: EventSource,
    pub filter: EventKey,
}

impl EventRecompiler {
    /// The number that names this protocol.
    pub fn get_protocol_number() -> (n: i64)
        ensures
            n == -0xbeef,
    {
        -0xbeef
    }
}

/// What a signer does with a transaction it is given.
#[derive(Clone, Copy, Debug)]
pub struct AutBroadcastOptions {
    pub sign: bool,
    pub sign_all: bool,
    pub send: bool,
    pub finalize: bool,
}

/// Who signs and sends a transaction without being asked.
#[derive(Clone, Debug)]
pub struct AutoBroadcast {
    pub signer_roles: Vec<(PK, AutBroadcastOptions)>,
}

impl AutoBroadcast {
    /// The number that names this protocol.
    pub fn get_protocol_number() -> (n: i64)
        ensures
            n == -0xcafe,
    {
        -0xcafe
    }
}

/// Listen to the envelopes that an oracle signs.
#[derive(Clone, Copy, Debug)]
pub struct AttestContinuationPointSubscription {
    pub oracle_key: PK,
}

impl AttestContinuationPointSubscription {
    /// The number that names this protocol.
    pub fn get_protocol_number() -> (n: i64)
        ensures
            n == -0xa7735c09055,
    {
        -0xa7735c09055
    }
}

/// Listen for the discovery of the discrete log of a key.
#[derive(Clone, Copy, Debug)]
pub struct DLogSubscription {
    pub dlog_subscription: PK,
}

impl DLogSubscription {
    /// The number that names this protocol.
    pub fn get_protocol_number() -> (n: i64)
        ensures
            n == -0xd15c12337109,
    {
        -0xd15c12337109
    }
}

/// The stakes of a game: its host, each player with the amount (in sats)
/// they put in, and when it times out.
#[derive(Clone, Debug)]
pub struct GameKernel {
    pub game_host: PK,
    pub players: Vec<(PK, u64)>,
    pub timeout: u64,
}

impl GameKernel {
    /// The number that names this protocol.
    pub fn get_protocol_number() -> (n: i64)
        ensures
            n == -119,
    {
        -119
    }
}

} // verus!
