//! A single-node ledger: an append-only chain of blocks and the set of
//! outputs that may still be spent.
//!
//! [`Blockchain::update_with_block`] decides whether a candidate block may
//! follow the chain held so far. An accepted block is appended and its
//! transactions are settled against the unspent outputs; a rejected block
//! leaves the ledger as it was and is answered with the reason.

use vstd::prelude::*;

pub mod block;
pub mod blockchain;
pub mod hashable;
pub mod hashes;
pub mod output;
pub mod transaction;
pub mod validator;

pub use block::{check_difficulty, Block};
pub use blockchain::{BlockValidationError, Blockchain};
pub use hashable::u64_bytes;
pub use hashes::Hashes;
pub use output::Output;
pub use transaction::{Transaction, TransactionSummary};

verus! {

/// A digest: the identity under which outputs are tracked and blocks are
/// linked. A well-formed one is [`hashable::HASH_LEN`] bytes long.
pub type Hash = Vec<u8>;

/// Whoever an output pays to.
pub type Address = String;

} // verus!
