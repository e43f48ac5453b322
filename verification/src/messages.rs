//! Messages exchanged between the game host and the players, and the
//! envelopes that carry them.
use vstd::prelude::*;
use std::collections::VecDeque;
use crate::game::GameSetup;
use crate::game_move::{GameMove, MoveEnvelope, Unsanitized};
use crate::numfmt::{digit_char, hex_digit_value, lemma_digit_char_value};
use bitcoin::hashes::hex::{FromHex, ToHex};

verus! {

/// The canonical hash that names a signed envelope.
#[derive(Clone, Copy, Debug)]
pub struct EnvelopeHash(pub [u8; 32]);

impl View for EnvelopeHash {
    type V = Seq<u8>;

    open spec fn view(&self) -> Seq<u8> {
        self.0@
    }
}

/// Whether two 32-byte strings hold the same bytes.
pub fn bytes32_eq(a: &[u8; 32], b: &[u8; 32]) -> (r: bool)
    ensures
        r == (a@ == b@),
{
    let mut i: usize = 0;
    while i < 32
        invariant
            0 <= i <= 32,
            a@.len() == 32,
            b@.len() == 32,
            forall|j: int| 0 <= j < i ==> a@[j] == b@[j],
        decreases 32 - i,
    {
        if a[i] != b[i] {
            assert(a@[i as int] != b@[i as int]);
            return false;
        }
        i += 1;
    }
    assert(a@ =~= b@);
    true
}

impl EnvelopeHash {
    /// Whether two hashes are the same.
    pub fn same(&self, other: &EnvelopeHash) -> (r: bool)
        ensures
            r == (self@ == other@),
    {
        bytes32_eq(&self.0, &other.0)
    }
}

/// Where a peer of the game host can be reached.
#[derive(Clone, Debug)]
pub struct Peer {
    pub service_url: String,
    pub port: u16,
}

/// What the game host broadcasts to all players.
#[derive(Clone, Debug)]
pub enum BroadcastByHost {
    GameSetup(GameSetup),
    /// The order in which the listed envelopes are to be played.
    Sequence(VecDeque<EnvelopeHash>),
    NewPeer(Peer),
    Heartbeat,
}

impl BroadcastByHost {
    /// Whether this broadcast orders a batch of moves.
    pub fn is_sequence(&self) -> (r: bool)
        ensures
            r == (self is Sequence),
    {
        match self {
            BroadcastByHost::Sequence(_) => true,
            _ => false,
        }
    }
}

/// What a player sends to the game host.
#[derive(Clone, Debug)]
pub enum SendToHost {
    AddPeer(Peer),
    MakeMove(GameMove),
}

/// A message on a named channel.
#[derive(Clone, Debug)]
pub struct Channelized<T> {
    pub data: T,
    pub channel: String,
}

/// A message on a named channel, as the players send it.
#[derive(Clone, Debug)]
pub struct Multiplexed<T> {
    pub data: T,
    pub channel: String,
}

/// What a participant signs and publishes.
#[derive(Clone, Debug)]
pub enum ParticipantAction {
    MoveEnvelope(MoveEnvelope),
    /// Any other payload, as its canonical JSON text.
    Custom(String),
    /// A partially signed transaction, as its base64 text, on a channel.
    PsbtSigningCoordination(Multiplexed<String>),
}

impl ParticipantAction {
    /// A move with its sequence number and time.
    pub fn new(d: Unsanitized<GameMove>, sequence: u64, time_millis: u64) -> (a: Self)
        ensures
            a == ParticipantAction::MoveEnvelope(MoveEnvelope { d, sequence, time_millis }),
    {
        ParticipantAction::MoveEnvelope(MoveEnvelope { d, sequence, time_millis })
    }
}

/// Why a player could not be added to a game.
#[derive(Clone, Copy, Debug, PartialEq, Eq, Structural)]
pub enum AddPlayerError {
    AlreadySetup,
    NoMorePlayers,
    NotGenesisEnvelope,
    WrongFirstMessage,
}

impl AddPlayerError {
    /// The name of the error, as it is displayed.
    pub fn describe(&self) -> (r: String)
        ensures
            r@ == self.name(),
    {
        match self {
            AddPlayerError::AlreadySetup => String::from_str("AlreadySetup"),
            AddPlayerError::NoMorePlayers => String::from_str("NoMorePlayers"),
            AddPlayerError::NotGenesisEnvelope => String::from_str("NotGenesisEnvelope"),
            AddPlayerError::WrongFirstMessage => String::from_str("WrongFirstMessage"),
        }
    }

    /// The name of the error.
    pub open spec fn name(self) -> Seq<char> {
        match self {
            AddPlayerError::AlreadySetup => "AlreadySetup"@,
            AddPlayerError::NoMorePlayers => "NoMorePlayers"@,
            AddPlayerError::NotGenesisEnvelope => "NotGenesisEnvelope"@,
            AddPlayerError::WrongFirstMessage => "WrongFirstMessage"@,
        }
    }
}

/// The arguments of a request for a new game.
#[derive(Clone, Copy, Debug)]
pub struct NewGameArgs {
    pub duration_minutes: u16,
}

/// Lower-case hexadecimal text of bytes, two digits per byte, most
/// significant digit first.
pub open spec fn hex_of_bytes(b: Seq<u8>) -> Seq<char>
    decreases b.len(),
{
    if b.len() == 0 {
        seq![]
    } else {
        seq![digit_char((b[0] / 16) as nat), digit_char((b[0] % 16) as nat)] + hex_of_bytes(
            b.drop_first(),
        )
    }
}

/// Text made of characters below 128 only.
pub open spec fn is_ascii_text(s: Seq<char>) -> bool {
    forall|i: int| 0 <= i < s.len() ==> (#[trigger] s[i] as nat) < 128
}

/// Bytes read from hexadecimal text two digits at a time (a last odd digit
/// is ignored), or the first character that is not a hexadecimal digit.
pub open spec fn hex_pairs(s: Seq<char>) -> Result<Seq<u8>, char>
    decreases s.len(),
{
    if s.len() < 2 {
        Ok(seq![])
    } else {
        match (hex_digit_value(s[0]), hex_digit_value(s[1])) {
            (None, _) => Err(s[0]),
            (Some(_), None) => Err(s[1]),
            (Some(hi), Some(lo)) => match hex_pairs(s.subrange(2, s.len() as int)) {
                Ok(rest) => Ok(seq![(hi * 16 + lo) as u8] + rest),
                Err(c) => Err(c),
            },
        }
    }
}

/// Why hexadecimal text is not the code it should be.
#[derive(Clone, Copy, Debug, PartialEq, Eq, Structural)]
pub enum HexError {
    /// A character (given by its byte) that is not a hexadecimal digit.
    InvalidChar(u8),
    /// The text has an odd length.
    OddLengthString(usize),
    /// The text has the wrong length: (expected, found).
    InvalidLength(usize, usize),
}

/// What ASCII text of a 16-byte code reads as: its length is checked first,
/// then its digits from left to right.
pub open spec fn code16_parse(s: Seq<char>) -> Result<Seq<u8>, HexError> {
    if s.len() % 2 != 0 {
        Err(HexError::OddLengthString(s.len() as usize))
    } else if s.len() != 32 {
        Err(HexError::InvalidLength(32, s.len() as usize))
    } else {
        match hex_pairs(s) {
            Ok(b) => Ok(b),
            Err(c) => Err(HexError::InvalidChar(c as u8)),
        }
    }
}

/// The lower-case hexadecimal text of some bytes, from `ToHex::to_hex` of
/// `bitcoin::hashes::hex` on a byte slice. Its source writes each byte with
/// `{:02x}`, in order, which is what the contract states.
#[verifier::external_body]
pub(crate) fn bytes_to_hex(bytes: &[u8]) -> (s: String)
    ensures
        s@ == hex_of_bytes(bytes@),
{
    bytes.to_hex()
}

/// Reads a 16-byte code from hexadecimal text with `FromHex::from_hex` of
/// `bitcoin::hashes::hex` for `[u8; 16]`, and names its error variants here.
/// Its source checks that the length in bytes is even, then that it is 32,
/// then turns each pair of digits (either case) into a byte, failing on the
/// first byte that is not a digit. On text of ASCII characters this is
/// `code16_parse`; on other text the contract says only that it fails (which
/// error depends on the text's length in bytes).
#[verifier::external_body]
fn code16_from_hex(s: &str) -> (r: Result<[u8; 16], HexError>)
    ensures
        is_ascii_text(s@) ==> match r {
            Ok(b) => code16_parse(s@) == Ok::<Seq<u8>, HexError>(b@),
            Err(e) => code16_parse(s@) == Err::<Seq<u8>, HexError>(e),
        },
        !is_ascii_text(s@) ==> r is Err,
{
    let parsed: Result<[u8; 16], bitcoin::hashes::hex::Error> = FromHex::from_hex(s);
    match parsed {
        Ok(b) => Ok(b),
        Err(bitcoin::hashes::hex::Error::InvalidChar(c)) => Err(HexError::InvalidChar(c)),
        Err(bitcoin::hashes::hex::Error::OddLengthString(n)) => Err(HexError::OddLengthString(n)),
        Err(bitcoin::hashes::hex::Error::InvalidLength(a, b)) => Err(HexError::InvalidLength(a, b)),
    }
}

/// A code that lets a player join a game, or the host finish one; its text
/// is 32 lower-case hexadecimal digits.
#[derive(Clone, Copy, Debug, PartialEq, Eq, PartialOrd, Ord, Hash)]
pub struct JoinCode(pub [u8; 16]);

impl JoinCode {
    /// The code's text.
    pub fn to_text(&self) -> (s: String)
        ensures
            s@ == hex_of_bytes(self.0@),
    {
        bytes_to_hex(self.0.as_slice())
    }

    /// Reads a code from its text (digits of either case). On text of ASCII
    /// characters the result is exactly `code16_parse`; other text is
    /// refused.
    pub fn try_from_text(value: &str) -> (r: Result<JoinCode, HexError>)
        ensures
            is_ascii_text(value@) ==> match r {
                Ok(c) => code16_parse(value@) == Ok::<Seq<u8>, HexError>(c.0@),
                Err(e) => code16_parse(value@) == Err::<Seq<u8>, HexError>(e),
            },
            !is_ascii_text(value@) ==> r is Err,
    {
        match code16_from_hex(value) {
            Ok(b) => Ok(JoinCode(b)),
            Err(e) => Err(e),
        }
    }
}

/// The text of any bytes is read back as those bytes.
proof fn lemma_hex_pairs_of_hex(b: Seq<u8>)
    ensures
        hex_of_bytes(b).len() == 2 * b.len(),
        is_ascii_text(hex_of_bytes(b)),
        hex_pairs(hex_of_bytes(b)) == Ok::<Seq<u8>, char>(b),
    decreases b.len(),
{
    if b.len() > 0 {
        let hi = (b[0] / 16) as nat;
        let lo = (b[0] % 16) as nat;
        lemma_digit_char_value(hi);
        lemma_digit_char_value(lo);
        lemma_hex_pairs_of_hex(b.drop_first());
        let s = hex_of_bytes(b);
        let rest = hex_of_bytes(b.drop_first());
        assert(s.subrange(2, s.len() as int) =~= rest);
        assert(s[0] == digit_char(hi));
        assert(s[1] == digit_char(lo));
        assert((hi * 16 + lo) as u8 == b[0]);
        assert(seq![b[0]] + b.drop_first() =~= b);
        assert(s.len() >= 2);
        assert(hex_digit_value(s[0]) == Some(hi));
        assert(hex_digit_value(s[1]) == Some(lo));
        assert(hex_pairs(s.subrange(2, s.len() as int)) == Ok::<Seq<u8>, char>(b.drop_first()));
        assert(hex_pairs(s) == Ok::<Seq<u8>, char>(seq![(hi * 16 + lo) as u8] + b.drop_first()));
        assert forall|i: int| 0 <= i < s.len() implies (#[trigger] s[i] as nat) < 128 by {
            if i >= 2 {
                assert(s[i] == rest[i - 2]);
            }
        }
    } else {
        assert(hex_of_bytes(b) =~= seq![]);
        assert(b =~= seq![]);
    }
}

/// The text of a code reads back as the same code.
pub proof fn law_join_code_text_roundtrip(c: JoinCode)
    ensures
        is_ascii_text(hex_of_bytes(c.0@)),
        code16_parse(hex_of_bytes(c.0@)) == Ok::<Seq<u8>, HexError>(c.0@),
{
    lemma_hex_pairs_of_hex(c.0@);
}

/// What the host needs to settle a finished game.
#[derive(Clone, Copy, Debug)]
pub struct FinishArgs {
    pub passcode: JoinCode,
    pub code: JoinCode,
    pub start_amount: u64,
}

/// The codes of a newly made game: one to administer it, one to join it.
#[derive(Clone, Copy, Debug)]
pub struct NewGame {
    pub password: JoinCode,
    pub join: JoinCode,
}

} // verus!
