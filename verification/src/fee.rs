//! Fee accounting: declared fees, their coverage by inputs, block fee totals
//! and miner payouts.
use vstd::prelude::*;
use crate::transaction::{spec_is_coinbase, spec_validate_basic, Transaction, TransactionModel};
use crate::utxo::{
    spec_input_sum, spec_input_value_ok, spec_output_sum, spec_output_value_ok, UtxoKey, UtxoModel,
    UtxoSet,
};

verus! {

/// Models of a sequence of transactions.
pub open spec fn txs_model(v: Seq<Transaction>) -> Seq<TransactionModel> {
    v.map_values(|t: Transaction| t@)
}

/// A transaction may enter a block's fee total: a coinbase with zero fee or
/// a structurally valid normal transaction.
pub open spec fn fee_countable(t: TransactionModel) -> bool {
    if spec_is_coinbase(t) {
        t.fee == 0
    } else {
        spec_validate_basic(t)
    }
}

/// Sum of the declared fees.
pub open spec fn spec_fee_sum(s: Seq<TransactionModel>) -> int
    decreases s.len(),
{
    if s.len() == 0 {
        0
    } else {
        spec_fee_sum(s.drop_last()) + s.last().fee
    }
}

/// Whether a block's fee total can be computed: every transaction countable
/// and the sum inside `u64`.
pub open spec fn spec_total_fees_ok(s: Seq<TransactionModel>) -> bool {
    (forall|i: int| 0 <= i < s.len() ==> fee_countable(#[trigger] s[i])) && spec_fee_sum(s) <= u64::MAX
}

/// Whether the inputs cover the outputs and the declared fee.
pub open spec fn spec_fee_covered(m: Map<UtxoKey, UtxoModel>, t: TransactionModel) -> bool {
    &&& !spec_is_coinbase(t)
    &&& spec_input_value_ok(m, t)
    &&& spec_output_value_ok(t)
    &&& spec_output_sum(t.outputs) + t.fee <= u64::MAX
    &&& spec_input_sum(m, t.inputs) >= spec_output_sum(t.outputs) + t.fee
}

pub proof fn lemma_fee_sum_step(s: Seq<TransactionModel>, i: int)
    requires
        0 <= i < s.len(),
    ensures
        spec_fee_sum(s.take(i + 1)) == spec_fee_sum(s.take(i)) + s[i].fee,
{
    assert(s.take(i + 1).drop_last() =~= s.take(i));
}

pub proof fn lemma_fee_sum_prefix(s: Seq<TransactionModel>, i: int)
    requires
        0 <= i <= s.len(),
    ensures
        spec_fee_sum(s.take(i)) <= spec_fee_sum(s),
    decreases s.len(),
{
    if i == s.len() {
        assert(s.take(i) =~= s);
    } else {
        lemma_fee_sum_prefix(s.drop_last(), i);
        assert(s.drop_last().take(i) =~= s.take(i));
    }
}

#[derive(Debug, Clone, Copy, PartialEq, Eq)]
pub struct FeeAccounting;

impl FeeAccounting {
    pub fn new() -> (r: Self)
        ensures
            r == FeeAccounting,
    {
        FeeAccounting
    }

    /// The fee a transaction declares.
    pub fn transaction_fee(transaction: &Transaction) -> (r: u64)
        ensures
            r == transaction.fee,
    {
        transaction.fee
    }

    /// Checks that the inputs cover the outputs plus the declared fee.
    pub fn validate_transaction_fee(utxo_set: &UtxoSet, transaction: &Transaction) -> (r: Result<(), String>)
        requires
            utxo_set.wf(),
        ensures
            r is Ok <==> spec_fee_covered(utxo_set@, transaction@),
    {
        if transaction.is_coinbase() {
            return Err(String::from_str("coinbase transaction cannot contain a fee"));
        }
        let input_total = match utxo_set.input_value(transaction) {
            Ok(v) => v,
            Err(e) => return Err(e),
        };
        let output_total = match UtxoSet::output_value(transaction) {
            Ok(v) => v,
            Err(e) => return Err(e),
        };
        let required = match output_total.checked_add(transaction.fee) {
            Some(v) => v,
            None => return Err(String::from_str("output value plus fee overflow")),
        };
        if input_total < required {
            return Err(String::from_str("inputs do not cover outputs and fee"));
        }
        Ok(())
    }

    /// Sum of the declared fees of a block's transactions; fails for a
    /// coinbase with a fee, a structurally invalid transaction or overflow.
    pub fn total_fees(transactions: &[Transaction]) -> (r: Result<u64, String>)
        ensures
            r is Ok <==> spec_total_fees_ok(txs_model(transactions@)),
            r matches Ok(v) ==> v == spec_fee_sum(txs_model(transactions@)),
    {
        let ghost s = txs_model(transactions@);
        let mut total: u64 = 0;
        let n = transactions.len();
        for i in 0..n
            invariant
                n == s.len(),
                s == txs_model(transactions@),
                forall|k: int| 0 <= k < i ==> fee_countable(#[trigger] s[k]),
                total == spec_fee_sum(s.take(i as int)),
        {
            let transaction = &transactions[i];
            assert(s[i as int] == transaction@);
            proof {
                lemma_fee_sum_step(s, i as int);
            }
            if transaction.is_coinbase() {
                if transaction.fee != 0 {
                    assert(!fee_countable(s[i as int]));
                    return Err(String::from_str("coinbase fee must be zero"));
                }
            } else {
                if !transaction.validate_basic() {
                    assert(!fee_countable(s[i as int]));
                    return Err(String::from_str("invalid transaction while calculating fees"));
                }
            }
            if transaction.is_coinbase() {
                assert(total == spec_fee_sum(s.take(i + 1)));
            } else {
                match total.checked_add(transaction.fee) {
                    Some(v) => {
                        total = v;
                    },
                    None => {
                        proof {
                            lemma_fee_sum_prefix(s, i + 1);
                        }
                        return Err(String::from_str("block fee total overflow"));
                    },
                }
            }
        }
        assert(s.take(n as int) =~= s);
        Ok(total)
    }

    /// Base reward plus fees; fails on overflow.
    pub fn miner_payout(base_reward: u64, total_fees: u64) -> (r: Result<u64, String>)
        ensures
            r is Ok <==> base_reward + total_fees <= u64::MAX,
            r matches Ok(v) ==> v == base_reward + total_fees,
    {
        match base_reward.checked_add(total_fees) {
            Some(v) => Ok(v),
            None => Err(String::from_str("miner payout overflow")),
        }
    }
}

impl Default for FeeAccounting {
    fn default() -> (r: Self) {
        Self::new()
    }
}

} // verus!
