//! The ledger: the chain of accepted blocks and the outputs still unspent.

use crate::block::Block;
use crate::hashes::Hashes;
use crate::validator::{created, linkage_fault, rejection, settled, spent, validate, zero_hash};
use vstd::prelude::*;

verus! {

/// Why a block was turned down.
#[derive(Debug, Clone, Copy, PartialEq, Eq, Structural)]
pub enum BlockValidationError {
    /// The block's index is not the length of the chain.
    MismatchedIndex,
    /// The block's hash does not satisfy the block's difficulty.
    InvalidHash,
    /// The block is not later than the block it follows.
    AchronologicalTimestamps,
    /// The block does not name the hash of the block it follows.
    MismatchedPreviousHash,
    /// The first block does not name the all-zero hash as its predecessor.
    InvalidGenesisBlockFormat,
    /// A transaction spends an output that is not unspent, or one that an
    /// earlier transaction of the same block has spent.
    InvalidInput,
    /// A transaction creates more value than it spends.
    InsufficientInputValue,
    /// The first transaction is no coinbase, or it creates less value than
    /// the block's fees come to.
    InvalidCoinbaseTransaction,
}

/// The unspent outputs that a chain leaves: starting from none, each block
/// in turn takes away what it spends and then adds what it creates.
pub open spec fn replay(chain: Seq<Block>) -> Set<Seq<u8>>
    decreases chain.len(),
{
    if chain.len() == 0 {
        Set::empty()
    } else {
        settled(replay(chain.drop_last()), chain.last())
    }
}

/// Whether every block of `chain` was fit to follow the blocks before it,
/// with what they leave unspent.
pub open spec fn accepted(chain: Seq<Block>) -> bool {
    forall|k: int|
        0 <= k < chain.len() ==> rejection(
            #[trigger] chain.take(k),
            replay(chain.take(k)),
            chain[k],
        ) is None
}

/// Whether each block of `chain` sits at its index and is tied to the one
/// before it: the first names the all-zero hash, every other names the
/// hash of its predecessor and is later than it.
pub open spec fn linked(chain: Seq<Block>) -> bool {
    forall|i: int|
        0 <= i < chain.len() ==> {
            &&& (#[trigger] chain[i]).index == i
            &&& i == 0 ==> chain[i].prev_block_hash@ == zero_hash()
            &&& i > 0 ==> chain[i].prev_block_hash@ == chain[i - 1].hash@
            &&& i > 0 ==> chain[i].timestamp > chain[i - 1].timestamp
        }
}

/// Every output that some block of `chain` creates.
pub open spec fn all_created(chain: Seq<Block>) -> Set<Seq<u8>> {
    Set::new(
        |hash: Seq<u8>|
            exists|k: int|
                0 <= k < chain.len() && created((#[trigger] chain[k]).views()).contains(hash),
    )
}

/// Every output that some block of `chain` spends.
pub open spec fn all_spent(chain: Seq<Block>) -> Set<Seq<u8>> {
    Set::new(
        |hash: Seq<u8>|
            exists|k: int|
                0 <= k < chain.len() && spent((#[trigger] chain[k]).views()).contains(hash),
    )
}

/// The chain of accepted blocks and the outputs that may still be spent.
#[derive(Debug)]
pub struct Blockchain {
    blocks: Vec<Block>,
    unspent_outputs: Hashes,
}

impl Blockchain {
    /// The accepted blocks, oldest first.
    pub closed spec fn chain(&self) -> Seq<Block> {
        self.blocks@
    }

    /// The identities of the outputs that may be spent.
    pub closed spec fn unspent(&self) -> Set<Seq<u8>> {
        self.unspent_outputs@
    }

    /// Whether the ledger is one that accepting blocks leads to: its chain
    /// is made of blocks that were each fit to be accepted, and its unspent
    /// outputs are those that the chain leaves.
    pub open spec fn wf(&self) -> bool {
        &&& accepted(self.chain())
        &&& self.unspent() == replay(self.chain())
    }

    /// A ledger with no block and no unspent output.
    pub fn new() -> (ledger: Self)
        ensures
            ledger.chain() == Seq::<Block>::empty(),
            ledger.unspent() == Set::<Seq<u8>>::empty(),
            ledger.wf(),
    {
        Blockchain { blocks: Vec::new(), unspent_outputs: Hashes::new() }
    }

    /// The accepted blocks, oldest first.
    pub fn blocks(&self) -> (blocks: &Vec<Block>)
        ensures
            blocks@ == self.chain(),
    {
        &self.blocks
    }

    /// The outputs that may be spent.
    pub fn unspent_outputs(&self) -> (unspent: &Hashes)
        ensures
            unspent@ == self.unspent(),
    {
        &self.unspent_outputs
    }

    /// Appends `block` if it may follow the chain, and settles its
    /// transactions: what it spends leaves the unspent outputs, then what
    /// it creates joins them. A block that may not follow is answered with
    /// the first rule it breaks, and the ledger stays as it was.
    pub fn update_with_block(&mut self, block: Block) -> (r: Result<(), BlockValidationError>)
        ensures
            match r {
                Ok(()) => {
                    &&& rejection(old(self).chain(), old(self).unspent(), block) is None
                    &&& final(self).chain() == old(self).chain().push(block)
                    &&& final(self).unspent() == settled(old(self).unspent(), block)
                },
                Err(reason) => {
                    &&& rejection(old(self).chain(), old(self).unspent(), block) == Some(reason)
                    &&& *final(self) == *old(self)
                },
            },
            old(self).wf() ==> final(self).wf(),
    {
        match validate(&self.blocks, &self.unspent_outputs, &block) {
            Err(reason) => Err(reason),
            Ok(delta) => {
                proof {
                    if old(self).wf() {
                        lemma_accepted_push(old(self).chain(), block);
                    }
                }
                self.unspent_outputs.remove_all(&delta.spent);
                self.unspent_outputs.extend(&delta.created);
                self.blocks.push(block);
                Ok(())
            },
        }
    }
}

/// A chain of accepted blocks stays one when a block is added that is fit
/// to follow it, and then leaves what settling that block leaves.
pub proof fn lemma_accepted_push(chain: Seq<Block>, block: Block)
    requires
        accepted(chain),
        rejection(chain, replay(chain), block) is None,
    ensures
        accepted(chain.push(block)),
        replay(chain.push(block)) == settled(replay(chain), block),
{
    let longer = chain.push(block);
    assert(longer.drop_last() =~= chain);
    assert forall|k: int| 0 <= k < longer.len() implies rejection(
        #[trigger] longer.take(k),
        replay(longer.take(k)),
        longer[k],
    ) is None by {
        if k < chain.len() {
            assert(longer.take(k) =~= chain.take(k));
        }
    }
}

/// In a chain of accepted blocks every block's index is its position, the
/// first block names the all-zero hash as its predecessor, and every
/// other block names the hash of the block before it and bears a later
/// timestamp.
pub proof fn lemma_accepted_is_linked(chain: Seq<Block>)
    requires
        accepted(chain),
    ensures
        linked(chain),
{
    assert forall|i: int| 0 <= i < chain.len() implies {
        &&& (#[trigger] chain[i]).index == i
        &&& i == 0 ==> chain[i].prev_block_hash@ == zero_hash()
        &&& i > 0 ==> chain[i].prev_block_hash@ == chain[i - 1].hash@
        &&& i > 0 ==> chain[i].timestamp > chain[i - 1].timestamp
    } by {
        let before = chain.take(i);
        assert(rejection(before, replay(before), chain[i]) is None);
    }
}

/// Whatever a chain leaves unspent, one of its blocks created.
pub proof fn lemma_unspent_was_created(chain: Seq<Block>)
    ensures
        replay(chain).subset_of(all_created(chain)),
    decreases chain.len(),
{
    if chain.len() > 0 {
        let before = chain.drop_last();
        lemma_unspent_was_created(before);
        assert forall|hash: Seq<u8>| replay(chain).contains(hash) implies all_created(
            chain,
        ).contains(hash) by {
            if !created(chain.last().views()).contains(hash) {
                let k = choose|k: int|
                    0 <= k < before.len() && created((#[trigger] before[k]).views()).contains(hash);
                assert(chain[k] == before[k]);
            }
        }
    }
}

/// Whatever a block of a chain created and none of its blocks spent, the
/// chain leaves unspent.
pub proof fn lemma_never_spent_stays_unspent(chain: Seq<Block>)
    ensures
        all_created(chain).difference(all_spent(chain)).subset_of(replay(chain)),
    decreases chain.len(),
{
    if chain.len() > 0 {
        let before = chain.drop_last();
        lemma_never_spent_stays_unspent(before);
        assert forall|hash: Seq<u8>|
            all_created(chain).contains(hash) && !all_spent(chain).contains(
                hash,
            ) implies replay(chain).contains(hash) by {
            let k = choose|k: int|
                0 <= k < chain.len() && created((#[trigger] chain[k]).views()).contains(hash);
            if k < before.len() {
                assert(before[k] == chain[k]);
                if all_spent(before).contains(hash) {
                    let j = choose|j: int|
                        0 <= j < before.len() && spent((#[trigger] before[j]).views()).contains(
                            hash,
                        );
                    assert(chain[j] == before[j]);
                }
            }
        }
    }
}

/// The unspent outputs of a ledger that accepting blocks has led to are
/// the outputs that the blocks of its chain created, less those that they
/// spent. This holds wherever no output that a block spent is unspent in
/// the end, as one is that was created once more by that block or a later
/// one.
pub proof fn lemma_unspent_is_created_less_spent(ledger: Blockchain)
    requires
        ledger.wf(),
        ledger.unspent().disjoint(all_spent(ledger.chain())),
    ensures
        ledger.unspent() == all_created(ledger.chain()).difference(all_spent(ledger.chain())),
{
    lemma_unspent_was_created(ledger.chain());
    lemma_never_spent_stays_unspent(ledger.chain());
}

} // verus!
