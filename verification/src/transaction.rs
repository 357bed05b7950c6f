//! Transactions and what settlement reads of them.

use crate::hashes::Hashes;
use crate::output::Output;
use vstd::prelude::*;

verus! {

/// A transfer: the outputs it spends and the outputs it creates.
#[derive(Debug, Clone, PartialEq, Eq)]
pub struct Transaction {
    pub inputs: Vec<Output>,
    pub outputs: Vec<Output>,
}

/// What settlement reads of a transaction, as mathematical values.
pub struct TransactionView {
    /// The identities of the outputs it spends.
    pub input_hashes: Set<Seq<u8>>,
    /// The identities of the outputs it creates.
    pub output_hashes: Set<Seq<u8>>,
    /// The sum of the values it spends.
    pub input_value: nat,
    /// The sum of the values it creates.
    pub output_value: nat,
    /// Whether it is a coinbase: the transaction that collects a block's fees.
    pub is_coinbase: bool,
}

/// What settlement reads of a transaction, as plain values.
#[derive(Debug)]
pub struct TransactionSummary {
    pub input_hashes: Hashes,
    pub output_hashes: Hashes,
    pub input_value: u128,
    pub output_value: u128,
    pub is_coinbase: bool,
}

impl View for TransactionSummary {
    type V = TransactionView;

    open spec fn view(&self) -> TransactionView {
        TransactionView {
            input_hashes: self.input_hashes@,
            output_hashes: self.output_hashes@,
            input_value: self.input_value as nat,
            output_value: self.output_value as nat,
            is_coinbase: self.is_coinbase,
        }
    }
}

/// The sum of the values of `outputs`.
pub open spec fn total_value(outputs: Seq<Output>) -> nat
    decreases outputs.len(),
{
    if outputs.len() == 0 {
        0
    } else {
        total_value(outputs.drop_last()) + outputs.last().value as nat
    }
}

/// The identities of `outputs`, in order.
pub open spec fn identities(outputs: Seq<Output>) -> Seq<Seq<u8>> {
    outputs.map_values(|output: Output| output.spec_hash())
}

/// The set of the identities of `outputs`.
pub open spec fn hash_set(outputs: Seq<Output>) -> Set<Seq<u8>> {
    identities(outputs).to_set()
}

/// Adds up the values of `outputs`. The sum of as many 64-bit values as a
/// vector can hold fits in 128 bits.
fn sum_values(outputs: &Vec<Output>) -> (total: u128)
    ensures
        total == total_value(outputs@),
{
    let mut total: u128 = 0;
    let mut i: usize = 0;
    while i < outputs.len()
        invariant
            i <= outputs@.len(),
            total == total_value(outputs@.take(i as int)),
            total <= i * u64::MAX,
        decreases outputs@.len() - i,
    {
        proof {
            assert(outputs@.take(i + 1).drop_last() =~= outputs@.take(i as int));
            assert((i + 1) * u64::MAX <= u64::MAX * u64::MAX) by (nonlinear_arith)
                requires
                    i + 1 <= u64::MAX,
            ;
        }
        total = total + outputs[i].value as u128;
        i += 1;
    }
    proof {
        assert(outputs@.take(outputs@.len() as int) =~= outputs@);
    }
    total
}

/// Collects the identities of `outputs`.
fn hashes_of(outputs: &Vec<Output>) -> (set: Hashes)
    ensures
        set@ == hash_set(outputs@),
{
    let mut set = Hashes::new();
    let mut i: usize = 0;
    while i < outputs.len()
        invariant
            i <= outputs@.len(),
            set@ == hash_set(outputs@.take(i as int)),
        decreases outputs@.len() - i,
    {
        proof {
            let seen = identities(outputs@.take(i as int));
            let next = outputs@[i as int].spec_hash();
            assert(identities(outputs@.take(i + 1)) =~= seen.push(next));
            seen.lemma_push_to_set_commute(next);
        }
        set.insert(outputs[i].hash());
        i += 1;
    }
    proof {
        assert(outputs@.take(outputs@.len() as int) =~= outputs@);
    }
    set
}

impl View for Transaction {
    type V = TransactionView;

    open spec fn view(&self) -> TransactionView {
        TransactionView {
            input_hashes: hash_set(self.inputs@),
            output_hashes: hash_set(self.outputs@),
            input_value: total_value(self.inputs@),
            output_value: total_value(self.outputs@),
            is_coinbase: self.inputs@.len() == 0,
        }
    }
}

impl Transaction {
    /// The sum of the values of the outputs it spends.
    pub fn input_value(&self) -> (value: u128)
        ensures
            value == self@.input_value,
    {
        sum_values(&self.inputs)
    }

    /// The sum of the values of the outputs it creates.
    pub fn output_value(&self) -> (value: u128)
        ensures
            value == self@.output_value,
    {
        sum_values(&self.outputs)
    }

    /// The identities of the outputs it spends.
    pub fn input_hashes(&self) -> (set: Hashes)
        ensures
            set@ == self@.input_hashes,
    {
        hashes_of(&self.inputs)
    }

    /// The identities of the outputs it creates.
    pub fn output_hashes(&self) -> (set: Hashes)
        ensures
            set@ == self@.output_hashes,
    {
        hashes_of(&self.outputs)
    }

    /// Whether the transaction spends nothing, as a coinbase does.
    pub fn is_coinbase(&self) -> (coinbase: bool)
        ensures
            coinbase == self@.is_coinbase,
    {
        self.inputs.len() == 0
    }

    /// Gathers what settlement reads of the transaction.
    pub fn summary(&self) -> (summary: TransactionSummary)
        ensures
            summary@ == self@,
    {
        TransactionSummary {
            input_hashes: self.input_hashes(),
            output_hashes: self.output_hashes(),
            input_value: self.input_value(),
            output_value: self.output_value(),
            is_coinbase: self.is_coinbase(),
        }
    }
}

} // verus!
