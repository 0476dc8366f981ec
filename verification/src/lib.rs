//! A minimal append-only ledger secured by a proof-of-work puzzle.
//!
//! Blocks carry a list of transactions, a timestamp, a reference to the
//! previous block's hash, and a nonce; the chain validates the hash linkage
//! and the content digest of every non-genesis block, and can be written to
//! and read back from a canonical text snapshot.
pub mod block;
pub mod chain;
pub mod codec;
pub mod digest;
pub mod text;
