//! Stand-alone consensus validation of a block against an expected tip,
//! mining supply and UTXO state.
use vstd::prelude::*;
use crate::block::{Block, BlockModel};
use crate::bytes::{hash_eq, zero_hash};
use crate::chain::apply_seq;
use crate::economy::{spec_block_reward, Economy, MINING_ALLOCATION_UNITS};
use crate::fee::spec_fee_sum;
use crate::mining::{spec_pow_valid, Miner};
use crate::transaction::TransactionModel;
use crate::utxo::{lemma_map_state_hash, map_state_hash, spec_actual_fee, UtxoKey, UtxoModel, UtxoSet};
use crate::chain::lemma_apply_seq_prefix_fails;

verus! {

/// Header acceptance: expected height and previous hash, nonzero
/// difficulty, and a matching Merkle root when the block has transactions.
pub open spec fn spec_header_ok(b: BlockModel, expected_previous_hash: Seq<u8>, expected_height: u64) -> bool {
    &&& b.header.height == expected_height
    &&& b.header.previous_hash@ == expected_previous_hash
    &&& b.header.difficulty != 0
    &&& (b.transactions.len() != 0 ==> b.has_valid_merkle_root())
}

/// Full block acceptance by consensus, given the expected tip, supply and
/// UTXO state.
pub open spec fn spec_block_accepted(
    b: BlockModel,
    expected_previous_hash: Seq<u8>,
    expected_height: u64,
    supply: u64,
    m: Map<UtxoKey, UtxoModel>,
) -> bool {
    let base = spec_block_reward(b.header.height, supply);
    &&& supply <= MINING_ALLOCATION_UNITS
    &&& spec_header_ok(b, expected_previous_hash, expected_height)
    &&& spec_pow_valid(b)
    &&& apply_seq(m, b.transactions) is Some
    &&& spec_fee_sum(b.transactions) <= u64::MAX
    &&& base + spec_fee_sum(b.transactions) <= u64::MAX
    &&& b.miner_reward == base + spec_fee_sum(b.transactions)
    &&& supply + base <= MINING_ALLOCATION_UNITS
    &&& !(map_state_hash(apply_seq(m, b.transactions).unwrap()) == zero_hash() && apply_seq(
        m,
        b.transactions,
    ).unwrap().len() != 0)
}

proof fn lemma_fee_sum_step(s: Seq<TransactionModel>, i: int)
    requires
        0 <= i < s.len(),
    ensures
        spec_fee_sum(s.take(i + 1)) == spec_fee_sum(s.take(i)) + s[i].fee,
{
    assert(s.take(i + 1).drop_last() =~= s.take(i));
}

proof fn lemma_fee_sum_prefix(s: Seq<TransactionModel>, i: int)
    requires
        0 <= i <= s.len(),
    ensures
        spec_fee_sum(s.take(i)) <= spec_fee_sum(s),
    decreases s.len(),
{
    if i == s.len() {
        assert(s.take(i) =~= s);
    } else {
        lemma_fee_sum_prefix(s.drop_last(), i);
        assert(s.drop_last().take(i) =~= s.take(i));
    }
}

pub struct ConsensusValidator;

impl ConsensusValidator {
    /// Applies a block's transactions to `state`, rejecting coinbases, and
    /// sums their fees; `None` at the first failure or on overflow.
    fn apply_and_sum_fees(state: &mut UtxoSet, block: &Block) -> (r: Option<u64>)
        requires
            old(state).wf(),
        ensures
            final(state).wf(),
            r is Some <==> (apply_seq(old(state)@, block@.transactions) is Some && spec_fee_sum(block@.transactions) <= u64::MAX),
            r matches Some(v) ==> v == spec_fee_sum(block@.transactions) && Some(final(state)@) == apply_seq(old(state)@, block@.transactions),
    {
        let ghost txs = block@.transactions;
        let ghost m0 = state@;
        let mut total_fees: u64 = 0;
        let n = block.transactions.len();
        for i in 0..n
            invariant
                n == txs.len(),
                txs == block@.transactions,
                m0 == old(state)@,
                state.wf(),
                apply_seq(m0, txs.take(i as int)) == Some(state@),
                total_fees == spec_fee_sum(txs.take(i as int)),
        {
            let transaction = &block.transactions[i];
            assert(txs[i as int] == transaction@);
            assert(txs.take(i + 1).drop_last() =~= txs.take(i as int));
            assert(txs.take(i + 1).last() == txs[i as int]);
            proof {
                lemma_fee_sum_step(txs, i as int);
            }
            if transaction.is_coinbase() {
                proof {
                    assert(apply_seq(m0, txs.take(i + 1)) is None);
                    lemma_apply_seq_prefix_fails(m0, txs, i + 1);
                }
                return None;
            }
            let ghost before = state@;
            let fee = match state.apply_transaction(transaction) {
                Ok(v) => {
                    assert(apply_seq(m0, txs.take(i + 1)) == Some(crate::utxo::spec_apply(before, txs[i as int])));
                    v
                },
                Err(_) => {
                    proof {
                        assert(apply_seq(m0, txs.take(i + 1)) is None);
                        lemma_apply_seq_prefix_fails(m0, txs, i + 1);
                    }
                    return None;
                },
            };
            total_fees = match total_fees.checked_add(fee) {
                Some(v) => v,
                None => {
                    proof {
                        lemma_fee_sum_prefix(txs, i + 1);
                    }
                    return None;
                },
            };
        }
        assert(txs.take(n as int) =~= txs);
        Some(total_fees)
    }

    /// Complete block validation; returns the block's total fees. The
    /// caller's UTXO state is never changed: transactions are applied to a
    /// copy.
    pub fn validate_block(
        block: &Block,
        expected_previous_hash: [u8; 32],
        expected_height: u64,
        current_mining_supply: u64,
        utxos: &UtxoSet,
    ) -> (r: Result<u64, String>)
        requires
            utxos.wf(),
        ensures
            r is Ok <==> spec_block_accepted(block@, expected_previous_hash@, expected_height, current_mining_supply, utxos@),
            r matches Ok(v) ==> v == spec_fee_sum(block@.transactions),
    {
        if !Economy::is_supply_valid(current_mining_supply) {
            return Err(String::from_str("current mining supply exceeds hard cap"));
        }
        if block.header.height != expected_height {
            return Err(String::from_str("invalid block height"));
        }
        if !hash_eq(&block.header.previous_hash, &expected_previous_hash) {
            return Err(String::from_str("invalid previous block hash"));
        }
        if block.transactions.len() != 0 && !block.has_valid_merkle_root() {
            return Err(String::from_str("invalid merkle root"));
        }
        if block.header.difficulty == 0 {
            return Err(String::from_str("block difficulty cannot be zero"));
        }
        if !Miner::validate(block) {
            return Err(String::from_str("invalid proof of work"));
        }
        let expected_base_reward = Economy::block_reward(block.header.height, current_mining_supply);
        let mut candidate_utxos = utxos.clone();
        let total_fees = match Self::apply_and_sum_fees(&mut candidate_utxos, block) {
            Some(v) => v,
            None => return Err(String::from_str("invalid transaction in block")),
        };
        let expected_payout = match expected_base_reward.checked_add(total_fees) {
            Some(v) => v,
            None => return Err(String::from_str("miner payout overflow")),
        };
        if block.miner_reward != expected_payout {
            return Err(String::from_str("invalid miner payout"));
        }
        if block.miner_reward < expected_base_reward {
            return Err(String::from_str("miner reward is below required base reward"));
        }
        let next_mining_supply = match current_mining_supply.checked_add(expected_base_reward) {
            Some(v) => v,
            None => return Err(String::from_str("mining supply overflow")),
        };
        if !Economy::is_supply_valid(next_mining_supply) {
            return Err(String::from_str("resulting mining supply exceeds hard cap"));
        }
        let candidate_hash = candidate_utxos.state_hash();
        proof {
            lemma_map_state_hash(candidate_utxos);
        }
        if crate::bytes::is_zero_hash(&candidate_hash) && !candidate_utxos.is_empty() {
            return Err(String::from_str("invalid candidate UTXO state hash"));
        }
        Ok(total_fees)
    }

    /// Header validation: height, previous hash, nonzero difficulty and the
    /// Merkle root of a nonempty block.
    pub fn validate_header(block: &Block, expected_previous_hash: [u8; 32], expected_height: u64) -> (r: Result<(), String>)
        ensures
            r is Ok <==> spec_header_ok(block@, expected_previous_hash@, expected_height),
    {
        if block.header.height != expected_height {
            return Err(String::from_str("invalid block height"));
        }
        if !hash_eq(&block.header.previous_hash, &expected_previous_hash) {
            return Err(String::from_str("invalid previous hash"));
        }
        if block.header.difficulty == 0 {
            return Err(String::from_str("invalid zero difficulty"));
        }
        if block.transactions.len() != 0 && !block.has_valid_merkle_root() {
            return Err(String::from_str("invalid merkle root"));
        }
        Ok(())
    }
}

} // verus!
