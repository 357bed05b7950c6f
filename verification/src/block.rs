//! Blocks and the difficulty their hashes are held to.

use crate::hashable::{pow256, HASH_LEN};
use crate::transaction::{Transaction, TransactionView};
use vstd::prelude::*;

verus! {

/// A candidate for the chain, as its producer reports it.
#[derive(Debug, Clone, PartialEq, Eq)]
pub struct Block {
    /// The position the block claims in the chain.
    pub index: u32,
    pub timestamp: u128,
    /// The digest the block reports of itself.
    pub hash: crate::Hash,
    /// The digest of the block it follows; all zero for the first block.
    pub prev_block_hash: crate::Hash,
    /// The coinbase first, where there are any.
    pub transactions: Vec<Transaction>,
    /// The target that the block's own hash has to stay below. It is taken
    /// as reported: nothing here derives what it ought to be.
    pub difficulty: u128,
}

impl Block {
    /// What settlement reads of the block's transactions, in order.
    pub open spec fn views(&self) -> Seq<TransactionView> {
        self.transactions@.map_values(|transaction: Transaction| transaction@)
    }
}

/// The number that `bytes` spell, least significant byte first.
pub open spec fn le_value(bytes: Seq<u8>) -> nat
    decreases bytes.len(),
{
    if bytes.len() == 0 {
        0
    } else {
        bytes[0] as nat + 256 * le_value(bytes.drop_first())
    }
}

/// The number by which a digest is measured: its last sixteen bytes, the
/// very last one the most significant.
pub open spec fn difficulty_value(hash: Seq<u8>) -> nat {
    le_value(hash.subrange(16, 32))
}

/// Whether `hash` is a digest of the right length whose measure stays
/// below the target `difficulty`.
pub open spec fn meets_difficulty(hash: Seq<u8>, difficulty: u128) -> bool {
    hash.len() == HASH_LEN && difficulty_value(hash) < difficulty
}

/// Powers of 256 are positive and grow with the exponent.
proof fn lemma_pow256_grows(n: nat, m: nat)
    requires
        n <= m,
    ensures
        0 < pow256(n) <= pow256(m),
    decreases m,
{
    if n < m {
        lemma_pow256_grows(n, (m - 1) as nat);
    } else if 0 < m {
        lemma_pow256_grows((n - 1) as nat, (m - 1) as nat);
    }
}

/// Reads the measure of a digest, from its last byte down to the
/// seventeenth.
fn measure(hash: &crate::Hash) -> (value: u128)
    requires
        hash@.len() == HASH_LEN,
    ensures
        value == difficulty_value(hash@),
{
    let mut value: u128 = 0;
    let mut i: usize = 32;
    while i > 16
        invariant
            16 <= i <= 32,
            hash@.len() == 32,
            value == le_value(hash@.subrange(i as int, 32)),
            value < pow256((32 - i) as nat),
        decreases i,
    {
        i -= 1;
        proof {
            assert(hash@.subrange(i as int, 32).drop_first() =~= hash@.subrange(i + 1, 32));
            lemma_pow256_grows((32 - i) as nat, 16);
            assert(pow256(16) == 0x1_0000_0000_0000_0000_0000_0000_0000_0000) by {
                reveal_with_fuel(pow256, 17);
            }
        }
        value = value * 256 + hash[i] as u128;
    }
    value
}

/// Whether `hash` satisfies the target `difficulty`.
pub fn check_difficulty(hash: &crate::Hash, difficulty: u128) -> (ok: bool)
    ensures
        ok == meets_difficulty(hash@, difficulty),
{
    hash.len() == HASH_LEN && measure(hash) < difficulty
}

} // verus!
