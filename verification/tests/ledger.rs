use blockchainlib::{Block, BlockValidationError, Blockchain, Hashes, Output, Transaction};

fn output(to_addr: &str, value: u64) -> Output {
    Output { to_addr: to_addr.to_string(), value }
}

fn coinbase(outputs: Vec<Output>) -> Transaction {
    Transaction { inputs: vec![], outputs }
}

fn tagged(tag: u8) -> Vec<u8> {
    let mut hash = vec![0u8; 32];
    hash[0] = tag;
    hash
}

fn block(
    index: u32,
    timestamp: u128,
    tag: u8,
    prev_tag: u8,
    transactions: Vec<Transaction>,
) -> Block {
    Block {
        index,
        timestamp,
        hash: tagged(tag),
        prev_block_hash: tagged(prev_tag),
        transactions,
        difficulty: 1,
    }
}

fn genesis() -> Block {
    block(0, 100, 1, 0, vec![coinbase(vec![output("Alice", 50), output("Bob", 7)])])
}

fn second() -> Block {
    block(
        1,
        200,
        2,
        1,
        vec![
            coinbase(vec![output("Miner", 2)]),
            Transaction {
                inputs: vec![output("Alice", 50)],
                outputs: vec![output("Alice", 36), output("Bob", 12)],
            },
        ],
    )
}

fn third() -> Block {
    block(
        2,
        300,
        3,
        2,
        vec![
            coinbase(vec![output("Miner", 3)]),
            Transaction { inputs: vec![output("Bob", 7)], outputs: vec![output("Carol", 6)] },
            Transaction {
                inputs: vec![output("Bob", 12), output("Miner", 2)],
                outputs: vec![output("Dave", 12)],
            },
        ],
    )
}

fn ledger_of(blocks: Vec<Block>) -> Blockchain {
    let mut ledger = Blockchain::new();
    for block in blocks {
        assert_eq!(ledger.update_with_block(block), Ok(()));
    }
    ledger
}

fn holds_exactly(set: &Hashes, outputs: &[Output]) -> bool {
    set.len() == outputs.len() && outputs.iter().all(|output| set.contains(&output.hash()))
}

fn created_less_spent(chain: &Vec<Block>) -> (Vec<Vec<u8>>, Vec<Vec<u8>>) {
    let mut created: Vec<Vec<u8>> = Vec::new();
    let mut spent: Vec<Vec<u8>> = Vec::new();
    for block in chain {
        for transaction in &block.transactions {
            for input in &transaction.inputs {
                spent.push(input.hash());
            }
            for output in &transaction.outputs {
                created.push(output.hash());
            }
        }
    }
    created.sort();
    created.dedup();
    let rest: Vec<Vec<u8>> =
        created.iter().filter(|hash| !spent.contains(*hash)).cloned().collect();
    (rest, spent)
}

#[test]
fn a_new_ledger_is_empty() {
    let ledger = Blockchain::new();
    assert!(ledger.blocks().is_empty());
    assert!(ledger.unspent_outputs().is_empty());
}

#[test]
fn genesis_with_a_coinbase_is_accepted() {
    let mut ledger = Blockchain::new();
    let candidate = block(0, 0, 1, 0, vec![coinbase(vec![output("Alice", 50), output("Bob", 7)])]);
    assert_eq!(ledger.update_with_block(candidate.clone()), Ok(()));
    assert_eq!(ledger.blocks(), &vec![candidate]);
    assert!(holds_exactly(ledger.unspent_outputs(), &[output("Alice", 50), output("Bob", 7)]));
}

#[test]
fn resubmitting_index_zero_is_a_mismatched_index() {
    let mut ledger = ledger_of(vec![genesis()]);
    assert_eq!(
        ledger.update_with_block(genesis()),
        Err(BlockValidationError::MismatchedIndex)
    );
    assert_eq!(ledger.blocks(), &vec![genesis()]);
    assert!(holds_exactly(ledger.unspent_outputs(), &[output("Alice", 50), output("Bob", 7)]));
}

#[test]
fn a_block_not_later_than_the_one_before_is_achronological() {
    let mut ledger = ledger_of(vec![genesis()]);
    let mut same_time = second();
    same_time.timestamp = 100;
    assert_eq!(
        ledger.update_with_block(same_time),
        Err(BlockValidationError::AchronologicalTimestamps)
    );
    let mut earlier = second();
    earlier.timestamp = 99;
    assert_eq!(
        ledger.update_with_block(earlier),
        Err(BlockValidationError::AchronologicalTimestamps)
    );
    assert_eq!(ledger.blocks().len(), 1);
    assert_eq!(ledger.update_with_block(second()), Ok(()));
}

#[test]
fn accepted_blocks_are_linked() {
    let ledger = ledger_of(vec![genesis(), second(), third()]);
    let chain = ledger.blocks();
    assert_eq!(chain.len(), 3);
    assert_eq!(chain[0].prev_block_hash, vec![0u8; 32]);
    for i in 0..chain.len() {
        assert_eq!(chain[i].index as usize, i);
        if i > 0 {
            assert_eq!(chain[i].prev_block_hash, chain[i - 1].hash);
            assert!(chain[i].timestamp > chain[i - 1].timestamp);
        }
    }
}

#[test]
fn settlement_moves_outputs_in_and_out() {
    let mut ledger = ledger_of(vec![genesis()]);
    assert_eq!(ledger.update_with_block(second()), Ok(()));
    assert!(holds_exactly(
        ledger.unspent_outputs(),
        &[output("Bob", 7), output("Miner", 2), output("Alice", 36), output("Bob", 12)]
    ));
    assert_eq!(ledger.update_with_block(third()), Ok(()));
    assert!(holds_exactly(
        ledger.unspent_outputs(),
        &[output("Alice", 36), output("Miner", 3), output("Carol", 6), output("Dave", 12)]
    ));
}

#[test]
fn unspent_outputs_are_created_less_spent() {
    let ledger = ledger_of(vec![genesis(), second(), third()]);
    let (rest, spent) = created_less_spent(ledger.blocks());
    assert_eq!(ledger.unspent_outputs().len(), rest.len());
    for hash in &rest {
        assert!(ledger.unspent_outputs().contains(hash));
    }
    for hash in &spent {
        assert!(!ledger.unspent_outputs().contains(hash));
    }
}

#[test]
fn an_output_created_again_after_it_was_spent_is_unspent() {
    let mut ledger = ledger_of(vec![genesis(), second()]);
    let again = block(
        2,
        300,
        3,
        2,
        vec![
            coinbase(vec![output("Alice", 50)]),
            Transaction { inputs: vec![output("Bob", 7)], outputs: vec![output("Bob", 7)] },
        ],
    );
    assert_eq!(ledger.update_with_block(again), Ok(()));
    assert!(ledger.unspent_outputs().contains(&output("Alice", 50).hash()));
    assert!(ledger.unspent_outputs().contains(&output("Bob", 7).hash()));
    assert_eq!(ledger.unspent_outputs().len(), 5);
}

#[test]
fn a_rejected_block_changes_nothing() {
    let mut ledger = ledger_of(vec![genesis(), second()]);
    let before = ledger.blocks().clone();
    let mut overdrawn = third();
    overdrawn.transactions[2].outputs = vec![output("Dave", 15)];
    assert_eq!(
        ledger.update_with_block(overdrawn),
        Err(BlockValidationError::InsufficientInputValue)
    );
    assert_eq!(ledger.blocks(), &before);
    assert!(holds_exactly(
        ledger.unspent_outputs(),
        &[output("Bob", 7), output("Miner", 2), output("Alice", 36), output("Bob", 12)]
    ));
    assert_eq!(ledger.update_with_block(third()), Ok(()));
}

#[test]
fn a_block_without_transactions_is_appended_and_settles_nothing() {
    let mut ledger = Blockchain::new();
    assert_eq!(ledger.update_with_block(block(0, 1, 1, 0, vec![])), Ok(()));
    assert_eq!(ledger.blocks().len(), 1);
    assert!(ledger.unspent_outputs().is_empty());
    let mut ledger = ledger_of(vec![genesis()]);
    assert_eq!(ledger.update_with_block(block(1, 101, 2, 1, vec![])), Ok(()));
    assert_eq!(ledger.blocks().len(), 2);
    assert!(holds_exactly(ledger.unspent_outputs(), &[output("Alice", 50), output("Bob", 7)]));
}

#[test]
fn a_first_transaction_that_spends_is_no_coinbase() {
    let mut ledger = ledger_of(vec![genesis()]);
    let mut candidate = second();
    candidate.transactions.remove(0);
    assert_eq!(
        ledger.update_with_block(candidate),
        Err(BlockValidationError::InvalidCoinbaseTransaction)
    );
    let mut with_later_faults = second();
    with_later_faults.transactions[0].inputs = vec![output("Bob", 7)];
    with_later_faults.transactions[1].inputs = vec![output("Nobody", 1)];
    assert_eq!(
        ledger.update_with_block(with_later_faults),
        Err(BlockValidationError::InvalidCoinbaseTransaction)
    );
    assert_eq!(ledger.blocks().len(), 1);
}

#[test]
fn spending_what_is_not_unspent_is_an_invalid_input() {
    let mut ledger = ledger_of(vec![genesis()]);
    let mut candidate = second();
    candidate.transactions[1].inputs = vec![output("Alice", 51)];
    assert_eq!(ledger.update_with_block(candidate), Err(BlockValidationError::InvalidInput));
    assert_eq!(ledger.update_with_block(second()), Ok(()));
    let mut spent_already = third();
    spent_already.transactions[1].inputs = vec![output("Alice", 50)];
    assert_eq!(ledger.update_with_block(spent_already), Err(BlockValidationError::InvalidInput));
}

#[test]
fn spending_an_output_twice_in_one_block_is_an_invalid_input() {
    let mut ledger = ledger_of(vec![genesis()]);
    let candidate = block(
        1,
        200,
        2,
        1,
        vec![
            coinbase(vec![output("Miner", 0)]),
            Transaction { inputs: vec![output("Alice", 50)], outputs: vec![output("Carol", 50)] },
            Transaction { inputs: vec![output("Alice", 50)], outputs: vec![output("Dave", 50)] },
        ],
    );
    assert_eq!(ledger.update_with_block(candidate), Err(BlockValidationError::InvalidInput));
    assert!(holds_exactly(ledger.unspent_outputs(), &[output("Alice", 50), output("Bob", 7)]));
}

#[test]
fn spending_an_output_of_the_same_block_is_an_invalid_input() {
    let mut ledger = ledger_of(vec![genesis()]);
    let candidate = block(
        1,
        200,
        2,
        1,
        vec![
            coinbase(vec![output("Miner", 0)]),
            Transaction { inputs: vec![output("Alice", 50)], outputs: vec![output("Carol", 50)] },
            Transaction { inputs: vec![output("Carol", 50)], outputs: vec![output("Dave", 50)] },
        ],
    );
    assert_eq!(ledger.update_with_block(candidate), Err(BlockValidationError::InvalidInput));
}

#[test]
fn creating_more_than_is_spent_is_insufficient_input_value() {
    let mut ledger = ledger_of(vec![genesis()]);
    let mut candidate = second();
    candidate.transactions[1].outputs = vec![output("Alice", 36), output("Bob", 15)];
    assert_eq!(
        ledger.update_with_block(candidate),
        Err(BlockValidationError::InsufficientInputValue)
    );
}

#[test]
fn a_coinbase_below_the_fees_is_invalid() {
    let mut ledger = ledger_of(vec![genesis()]);
    let mut candidate = second();
    candidate.transactions[0].outputs = vec![output("Miner", 1)];
    assert_eq!(
        ledger.update_with_block(candidate),
        Err(BlockValidationError::InvalidCoinbaseTransaction)
    );
    let mut generous = second();
    generous.transactions[0].outputs = vec![output("Miner", 2000)];
    assert_eq!(ledger.update_with_block(generous), Ok(()));
}

#[test]
fn a_hash_that_misses_the_difficulty_is_invalid() {
    let mut ledger = Blockchain::new();
    let mut candidate = genesis();
    candidate.hash[20] = 1;
    assert_eq!(ledger.update_with_block(candidate), Err(BlockValidationError::InvalidHash));
    let mut eased = genesis();
    eased.hash[20] = 1;
    eased.difficulty = u128::MAX;
    assert_eq!(ledger.update_with_block(eased), Ok(()));
}

#[test]
fn a_first_block_with_a_predecessor_is_no_genesis() {
    let mut ledger = Blockchain::new();
    let mut candidate = genesis();
    candidate.prev_block_hash = tagged(9);
    assert_eq!(
        ledger.update_with_block(candidate),
        Err(BlockValidationError::InvalidGenesisBlockFormat)
    );
    assert!(ledger.blocks().is_empty());
}

#[test]
fn a_block_that_names_another_predecessor_is_mismatched() {
    let mut ledger = ledger_of(vec![genesis()]);
    let mut candidate = second();
    candidate.prev_block_hash = tagged(7);
    assert_eq!(
        ledger.update_with_block(candidate),
        Err(BlockValidationError::MismatchedPreviousHash)
    );
}

#[test]
fn the_first_broken_rule_is_the_reason() {
    let mut ledger = ledger_of(vec![genesis()]);
    let mut candidate = second();
    candidate.index = 5;
    candidate.hash[31] = 1;
    candidate.timestamp = 1;
    candidate.prev_block_hash = tagged(7);
    candidate.transactions.remove(0);
    assert_eq!(
        ledger.update_with_block(candidate.clone()),
        Err(BlockValidationError::MismatchedIndex)
    );
    candidate.index = 1;
    assert_eq!(
        ledger.update_with_block(candidate.clone()),
        Err(BlockValidationError::InvalidHash)
    );
    candidate.hash[31] = 0;
    assert_eq!(
        ledger.update_with_block(candidate.clone()),
        Err(BlockValidationError::AchronologicalTimestamps)
    );
    candidate.timestamp = 200;
    assert_eq!(
        ledger.update_with_block(candidate.clone()),
        Err(BlockValidationError::MismatchedPreviousHash)
    );
    candidate.prev_block_hash = tagged(1);
    assert_eq!(
        ledger.update_with_block(candidate),
        Err(BlockValidationError::InvalidCoinbaseTransaction)
    );
}

#[test]
fn an_output_listed_twice_by_one_transaction_counts_twice() {
    let mut ledger = ledger_of(vec![genesis()]);
    let candidate = block(
        1,
        200,
        2,
        1,
        vec![
            coinbase(vec![output("Miner", 0)]),
            Transaction {
                inputs: vec![output("Bob", 7), output("Bob", 7)],
                outputs: vec![output("Carol", 14)],
            },
        ],
    );
    assert_eq!(ledger.update_with_block(candidate), Ok(()));
    assert!(holds_exactly(
        ledger.unspent_outputs(),
        &[output("Alice", 50), output("Miner", 0), output("Carol", 14)]
    ));
}
