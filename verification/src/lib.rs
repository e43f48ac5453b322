//! Verified core of the "mine with friends" board game: entity identifiers,
//! token ledgers, a constant-product market maker, power-plant NFTs, the
//! scheduled-event queue and the game board that ties them together; the
//! messages between host and players, the gathering of players, the
//! sequencing of their signed moves, and the records of the contract
//! litigator.

pub mod entity;
pub mod map_sum;
pub mod tokens;
pub mod cfmm_math;
pub mod numfmt;
pub mod token_swap;
pub mod nfts;
pub mod sale;
pub mod callbacks;
pub mod strings;
pub mod game_move;
pub mod game;
pub mod payout;
pub mod messages;
pub mod sequencer;
pub mod batching;
pub mod replay;
pub mod config;
pub mod recompile;
pub mod litigator;
pub mod simps;
pub mod event_log;
pub mod game_init;
