//! The rules a candidate block is held to, in the order they are checked.

use crate::block::{check_difficulty, meets_difficulty, Block};
use crate::blockchain::BlockValidationError;
use crate::hashable::HASH_LEN;
use crate::hashes::{same_digest, Hashes};
use crate::transaction::{Transaction, TransactionSummary, TransactionView};
use vstd::prelude::*;

verus! {

/// What accepting a block does to the unspent outputs: first `spent`
/// leaves the set, then `created` joins it.
#[derive(Debug)]
pub struct Delta {
    pub spent: Hashes,
    pub created: Hashes,
}

/// The hash that the first block names as its predecessor.
pub open spec fn zero_hash() -> Seq<u8> {
    Seq::new(HASH_LEN as nat, |i: int| 0u8)
}

/// The first of the rules on a block's place in the chain that `block`
/// breaks as a successor of `chain`, if it breaks any.
pub open spec fn linkage_fault(chain: Seq<Block>, block: Block) -> Option<BlockValidationError> {
    if block.index as int != chain.len() {
        Some(BlockValidationError::MismatchedIndex)
    } else if !meets_difficulty(block.hash@, block.difficulty) {
        Some(BlockValidationError::InvalidHash)
    } else if chain.len() == 0 {
        if block.prev_block_hash@ != zero_hash() {
            Some(BlockValidationError::InvalidGenesisBlockFormat)
        } else {
            None
        }
    } else if block.timestamp <= chain.last().timestamp {
        Some(BlockValidationError::AchronologicalTimestamps)
    } else if block.prev_block_hash@ != chain.last().hash@ {
        Some(BlockValidationError::MismatchedPreviousHash)
    } else {
        None
    }
}

/// What the transactions at positions `from` up to, not including, `to`
/// spend.
pub open spec fn inputs_of(txs: Seq<TransactionView>, from: int, to: int) -> Set<Seq<u8>> {
    Set::new(
        |hash: Seq<u8>|
            exists|j: int|
                from <= j < to && 0 <= j < txs.len() && (#[trigger] txs[j]).input_hashes.contains(
                    hash,
                ),
    )
}

/// What the transactions at positions `from` up to, not including, `to`
/// create.
pub open spec fn outputs_of(txs: Seq<TransactionView>, from: int, to: int) -> Set<Seq<u8>> {
    Set::new(
        |hash: Seq<u8>|
            exists|j: int|
                from <= j < to && 0 <= j < txs.len() && (#[trigger] txs[j]).output_hashes.contains(
                    hash,
                ),
    )
}

/// What a block with the transactions `txs` spends: the inputs of all but
/// the first.
pub open spec fn spent(txs: Seq<TransactionView>) -> Set<Seq<u8>> {
    inputs_of(txs, 1, txs.len() as int)
}

/// What a block with the transactions `txs` creates: the outputs of all.
pub open spec fn created(txs: Seq<TransactionView>) -> Set<Seq<u8>> {
    outputs_of(txs, 0, txs.len() as int)
}

/// The fees that the transactions after the first and before position `to`
/// leave: what each spends beyond what it creates.
pub open spec fn fees(txs: Seq<TransactionView>, to: int) -> int
    decreases to,
{
    if to <= 1 {
        0
    } else {
        fees(txs, to - 1) + txs[to - 1].input_value - txs[to - 1].output_value
    }
}

/// What is wrong with the transaction at position `k`, taken after those
/// before it, if anything is.
pub open spec fn fault(unspent: Set<Seq<u8>>, txs: Seq<TransactionView>, k: int) -> Option<
    BlockValidationError,
> {
    if !txs[k].input_hashes.subset_of(unspent) || !txs[k].input_hashes.disjoint(
        inputs_of(txs, 1, k),
    ) {
        Some(BlockValidationError::InvalidInput)
    } else if txs[k].output_value > txs[k].input_value {
        Some(BlockValidationError::InsufficientInputValue)
    } else {
        None
    }
}

/// The fault of the first transaction at or after position `from` that has
/// one.
pub open spec fn first_fault(unspent: Set<Seq<u8>>, txs: Seq<TransactionView>, from: int) -> Option<
    BlockValidationError,
>
    decreases txs.len() - from,
{
    if from >= txs.len() {
        None
    } else if fault(unspent, txs, from) is Some {
        fault(unspent, txs, from)
    } else {
        first_fault(unspent, txs, from + 1)
    }
}

/// Why the transactions `txs` of one block cannot be settled against
/// `unspent`, if they cannot.
pub open spec fn settlement_fault(unspent: Set<Seq<u8>>, txs: Seq<TransactionView>) -> Option<
    BlockValidationError,
> {
    if txs.len() == 0 {
        None
    } else if !txs[0].is_coinbase {
        Some(BlockValidationError::InvalidCoinbaseTransaction)
    } else if first_fault(unspent, txs, 1) is Some {
        first_fault(unspent, txs, 1)
    } else if txs[0].output_value < fees(txs, txs.len() as int) {
        Some(BlockValidationError::InvalidCoinbaseTransaction)
    } else {
        None
    }
}

/// Why `block` may not follow `chain` with `unspent` as the unspent
/// outputs, if it may not: the first rule it breaks.
pub open spec fn rejection(chain: Seq<Block>, unspent: Set<Seq<u8>>, block: Block) -> Option<
    BlockValidationError,
> {
    if linkage_fault(chain, block) is Some {
        linkage_fault(chain, block)
    } else {
        settlement_fault(unspent, block.views())
    }
}

/// The unspent outputs once `block` is accepted: what it spends has left
/// `unspent`, then what it creates has joined.
pub open spec fn settled(unspent: Set<Seq<u8>>, block: Block) -> Set<Seq<u8>> {
    unspent.difference(spent(block.views())).union(created(block.views()))
}

/// The views of a list of summaries, in order.
pub open spec fn views_of(summaries: Seq<TransactionSummary>) -> Seq<TransactionView> {
    summaries.map_values(|summary: TransactionSummary| summary@)
}

/// Whether `hash` is the all-zero hash.
fn is_zero_hash(hash: &crate::Hash) -> (zero: bool)
    ensures
        zero == (hash@ == zero_hash()),
{
    if hash.len() != HASH_LEN {
        return false;
    }
    let mut i: usize = 0;
    while i < HASH_LEN
        invariant
            i <= HASH_LEN,
            hash@.len() == HASH_LEN,
            forall|j: int| 0 <= j < i ==> hash@[j] == 0,
        decreases HASH_LEN - i,
    {
        if hash[i] != 0 {
            return false;
        }
        i += 1;
    }
    assert(hash@ =~= zero_hash());
    true
}

/// Checks the block's place in the chain: its index, its hash against its
/// difficulty, and its link to the block before it.
pub fn check_linkage(chain: &Vec<Block>, block: &Block) -> (r: Result<(), BlockValidationError>)
    ensures
        match r {
            Ok(()) => linkage_fault(chain@, *block) is None,
            Err(reason) => linkage_fault(chain@, *block) == Some(reason),
        },
{
    let height = chain.len();
    if block.index as usize != height {
        Err(BlockValidationError::MismatchedIndex)
    } else if !check_difficulty(&block.hash, block.difficulty) {
        Err(BlockValidationError::InvalidHash)
    } else if height == 0 {
        if !is_zero_hash(&block.prev_block_hash) {
            Err(BlockValidationError::InvalidGenesisBlockFormat)
        } else {
            Ok(())
        }
    } else {
        let prev_block = &chain[height - 1];
        if block.timestamp <= prev_block.timestamp {
            Err(BlockValidationError::AchronologicalTimestamps)
        } else if !same_digest(&block.prev_block_hash, &prev_block.hash) {
            Err(BlockValidationError::MismatchedPreviousHash)
        } else {
            Ok(())
        }
    }
}

/// Settles the transactions of one block against `unspent`: each after the
/// first may spend only what is unspent and what no earlier one of them has
/// spent, and may not create more than it spends; the first, a coinbase,
/// has to create at least the fees that the others leave.
pub fn settle(unspent: &Hashes, transactions: &Vec<TransactionSummary>) -> (r: Result<
    Delta,
    BlockValidationError,
>)
    ensures
        match r {
            Ok(delta) => {
                &&& settlement_fault(unspent@, views_of(transactions@)) is None
                &&& delta.spent@ == spent(views_of(transactions@))
                &&& delta.created@ == created(views_of(transactions@))
            },
            Err(reason) => settlement_fault(unspent@, views_of(transactions@)) == Some(reason),
        },
{
    let ghost txs = views_of(transactions@);
    let mut block_spent = Hashes::new();
    let mut block_created = Hashes::new();
    if transactions.len() == 0 {
        return Ok(Delta { spent: block_spent, created: block_created });
    }
    let coinbase = &transactions[0];
    if !coinbase.is_coinbase {
        return Err(BlockValidationError::InvalidCoinbaseTransaction);
    }
    let mut total_fee: u128 = 0;
    let mut beyond: bool = false;
    let mut k: usize = 1;
    while k < transactions.len()
        invariant
            1 <= k <= transactions@.len(),
            txs == views_of(transactions@),
            txs[0].is_coinbase,
            block_spent@ == inputs_of(txs, 1, k as int),
            block_created@ == outputs_of(txs, 1, k as int),
            first_fault(unspent@, txs, 1) == first_fault(unspent@, txs, k as int),
            !beyond ==> total_fee == fees(txs, k as int),
            beyond ==> fees(txs, k as int) > u128::MAX,
        decreases transactions@.len() - k,
    {
        let transaction = &transactions[k];
        let ghost tx = txs[k as int];
        let foreign = transaction.input_hashes.difference(unspent);
        let respent = transaction.input_hashes.intersection(&block_spent);
        proof {
            if foreign@ == Set::<Seq<u8>>::empty() {
                assert forall|hash: Seq<u8>|
                    tx.input_hashes.contains(hash) implies unspent@.contains(hash) by {
                    assert(!foreign@.contains(hash));
                }
            }
            if respent@ == Set::<Seq<u8>>::empty() {
                assert forall|hash: Seq<u8>|
                    tx.input_hashes.contains(hash) implies !block_spent@.contains(hash) by {
                    assert(!respent@.contains(hash));
                }
            }
            if tx.input_hashes.subset_of(unspent@) {
                assert(foreign@ =~= Set::<Seq<u8>>::empty());
            }
            if tx.input_hashes.disjoint(inputs_of(txs, 1, k as int)) {
                assert(respent@ =~= Set::<Seq<u8>>::empty());
            }
        }
        if !foreign.is_empty() || !respent.is_empty() {
            return Err(BlockValidationError::InvalidInput);
        }
        if transaction.output_value > transaction.input_value {
            return Err(BlockValidationError::InsufficientInputValue);
        }
        let fee = transaction.input_value - transaction.output_value;
        if beyond || fee > u128::MAX - total_fee {
            beyond = true;
        } else {
            total_fee = total_fee + fee;
        }
        block_spent.extend(&transaction.input_hashes);
        block_created.extend(&transaction.output_hashes);
        k += 1;
    }
    if beyond || coinbase.output_value < total_fee {
        return Err(BlockValidationError::InvalidCoinbaseTransaction);
    }
    block_created.extend(&coinbase.output_hashes);
    Ok(Delta { spent: block_spent, created: block_created })
}

/// Gathers what settlement reads of each transaction.
fn summarize(transactions: &Vec<Transaction>) -> (summaries: Vec<TransactionSummary>)
    ensures
        views_of(summaries@) == transactions@.map_values(|transaction: Transaction| transaction@),
{
    let mut summaries: Vec<TransactionSummary> = Vec::new();
    let mut i: usize = 0;
    while i < transactions.len()
        invariant
            i <= transactions@.len(),
            summaries@.len() == i,
            forall|j: int| 0 <= j < i ==> (#[trigger] summaries@[j])@ == transactions@[j]@,
        decreases transactions@.len() - i,
    {
        summaries.push(transactions[i].summary());
        i += 1;
    }
    summaries
}

/// Decides whether `block` may follow `chain`, with `unspent` as the
/// outputs that may be spent, and says what accepting it does to them.
/// The rules are checked in a fixed order and the first one broken is the
/// reason given.
pub fn validate(chain: &Vec<Block>, unspent: &Hashes, block: &Block) -> (r: Result<
    Delta,
    BlockValidationError,
>)
    ensures
        match r {
            Ok(delta) => {
                &&& rejection(chain@, unspent@, *block) is None
                &&& delta.spent@ == spent(block.views())
                &&& delta.created@ == created(block.views())
            },
            Err(reason) => rejection(chain@, unspent@, *block) == Some(reason),
        },
{
    match check_linkage(chain, block) {
        Err(reason) => Err(reason),
        Ok(()) => {
            let summaries = summarize(&block.transactions);
            settle(unspent, &summaries)
        },
    }
}

/// Where the transaction at `k` is at fault and none from `from` up to it
/// is at fault for another reason, that reason is the first fault from
/// `from` on.
pub proof fn lemma_first_fault_is(
    unspent: Set<Seq<u8>>,
    txs: Seq<TransactionView>,
    from: int,
    k: int,
    reason: BlockValidationError,
)
    requires
        from <= k < txs.len(),
        fault(unspent, txs, k) == Some(reason),
        forall|j: int|
            from <= j < k ==> fault(unspent, txs, j) is None || fault(unspent, txs, j) == Some(
                reason,
            ),
    ensures
        first_fault(unspent, txs, from) == Some(reason),
    decreases k - from,
{
    if from < k {
        lemma_first_fault_is(unspent, txs, from + 1, k, reason);
    }
}

/// A fault of any transaction from `from` on means that there is a first
/// one.
pub proof fn lemma_fault_is_found(
    unspent: Set<Seq<u8>>,
    txs: Seq<TransactionView>,
    from: int,
    k: int,
)
    requires
        from <= k < txs.len(),
        fault(unspent, txs, k) is Some,
    ensures
        first_fault(unspent, txs, from) is Some,
    decreases k - from,
{
    if from < k {
        lemma_fault_is_found(unspent, txs, from + 1, k);
    }
}

/// A block without transactions breaks no rule of settlement, and
/// accepting it leaves the unspent outputs as they were.
pub proof fn lemma_empty_block_settles_nothing(unspent: Set<Seq<u8>>, block: Block)
    requires
        block.views().len() == 0,
    ensures
        settlement_fault(unspent, block.views()) is None,
        settled(unspent, block) == unspent,
{
}

/// A block whose first transaction is no coinbase is rejected, whatever
/// else holds of it; the reason is `InvalidCoinbaseTransaction` wherever
/// the block's place in the chain is in order.
pub proof fn lemma_first_transaction_must_be_coinbase(
    chain: Seq<Block>,
    unspent: Set<Seq<u8>>,
    block: Block,
)
    requires
        block.views().len() > 0,
        !block.views()[0].is_coinbase,
    ensures
        rejection(chain, unspent, block) is Some,
        linkage_fault(chain, block) is None ==> rejection(chain, unspent, block) == Some(
            BlockValidationError::InvalidCoinbaseTransaction,
        ),
{
}

/// A block is rejected if one of its transactions after the first spends
/// an output that is not unspent, or one that an earlier transaction of
/// the block has spent. The reason is `InvalidInput` wherever the block's
/// place in the chain is in order, its first transaction is a coinbase and
/// no earlier transaction is at fault for another reason.
pub proof fn lemma_invalid_input_is_rejected(
    chain: Seq<Block>,
    unspent: Set<Seq<u8>>,
    block: Block,
    k: int,
    hash: Seq<u8>,
)
    requires
        1 <= k < block.views().len(),
        block.views()[k].input_hashes.contains(hash),
        !unspent.contains(hash) || inputs_of(block.views(), 1, k).contains(hash),
    ensures
        rejection(chain, unspent, block) is Some,
        ({
            &&& linkage_fault(chain, block) is None
            &&& block.views()[0].is_coinbase
            &&& forall|j: int|
                1 <= j < k ==> fault(unspent, block.views(), j) != Some(
                    BlockValidationError::InsufficientInputValue,
                )
        }) ==> rejection(chain, unspent, block) == Some(BlockValidationError::InvalidInput),
{
    let txs = block.views();
    let reason = BlockValidationError::InvalidInput;
    lemma_fault_is_found(unspent, txs, 1, k);
    if forall|j: int|
        1 <= j < k ==> fault(unspent, txs, j) != Some(BlockValidationError::InsufficientInputValue) {
        lemma_first_fault_is(unspent, txs, 1, k, reason);
    }
}

/// A block is rejected if one of its transactions after the first creates
/// more value than it spends. The reason is `InsufficientInputValue`
/// wherever the block's place in the chain is in order, its first
/// transaction is a coinbase, the transaction's own inputs may be spent and
/// no earlier transaction is at fault for another reason.
pub proof fn lemma_insufficient_input_value_is_rejected(
    chain: Seq<Block>,
    unspent: Set<Seq<u8>>,
    block: Block,
    k: int,
)
    requires
        1 <= k < block.views().len(),
        block.views()[k].output_value > block.views()[k].input_value,
    ensures
        rejection(chain, unspent, block) is Some,
        ({
            &&& linkage_fault(chain, block) is None
            &&& block.views()[0].is_coinbase
            &&& block.views()[k].input_hashes.subset_of(unspent)
            &&& block.views()[k].input_hashes.disjoint(inputs_of(block.views(), 1, k))
            &&& forall|j: int|
                1 <= j < k ==> fault(unspent, block.views(), j) != Some(
                    BlockValidationError::InvalidInput,
                )
        }) ==> rejection(chain, unspent, block) == Some(
            BlockValidationError::InsufficientInputValue,
        ),
{
    let txs = block.views();
    let reason = BlockValidationError::InsufficientInputValue;
    lemma_fault_is_found(unspent, txs, 1, k);
    if fault(unspent, txs, k) == Some(reason) && forall|j: int|
        1 <= j < k ==> fault(unspent, txs, j) != Some(BlockValidationError::InvalidInput) {
        lemma_first_fault_is(unspent, txs, 1, k, reason);
    }
}

/// A block is rejected if its first transaction creates less value than
/// the fees of the others come to. The reason is
/// `InvalidCoinbaseTransaction` wherever the block's place in the chain is
/// in order and, if the first transaction is a coinbase, none of the others
/// is at fault.
pub proof fn lemma_coinbase_below_fees_is_rejected(
    chain: Seq<Block>,
    unspent: Set<Seq<u8>>,
    block: Block,
)
    requires
        block.views().len() > 0,
        block.views()[0].output_value < fees(block.views(), block.views().len() as int),
    ensures
        rejection(chain, unspent, block) is Some,
        ({
            &&& linkage_fault(chain, block) is None
            &&& block.views()[0].is_coinbase ==> first_fault(unspent, block.views(), 1) is None
        }) ==> rejection(chain, unspent, block) == Some(
            BlockValidationError::InvalidCoinbaseTransaction,
        ),
{
}

} // verus!
