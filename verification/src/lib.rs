//! A fee-paying relay for a UTXO-style private-payment ledger.
//!
//! The crate holds the coordination rules of the relay: which coins pay a
//! fee and when they are handed back, how the local wallet follows the
//! ledger's transaction stream, and how spend proofs are kept ready ahead of
//! demand. Every function states what it computes, and the statements are
//! verified.

pub mod balancing;
pub mod cache;
pub mod cache_laws;
pub mod coin;
pub mod custody;
pub mod encoding;
pub mod endpoints;
pub mod error;
pub mod hexcodec;
pub mod ledger;
pub mod ordering;
pub mod seqs;
pub mod sync;
pub mod utils;
pub mod wallet;
pub mod whitelisting;
pub mod zswap;
pub mod wallet_laws;

pub use coin::{Coin, Nonce, Nullifier, OwnedCoin, TokenType};
pub use error::Error;
pub use utils::OnDrop;
