//! Block templates: fee-ordered transaction selection, validation against a
//! copy of the UTXO state, template assembly, mining and commit.
use vstd::prelude::*;
use crate::block::{spec_merkle_root, Block, BlockModel};
use crate::chain::{
    apply_seq, lemma_apply_seq_prefix_fails, lemma_supply_within_cap, spec_block_step, spec_next_difficulty,
    supply_of, Blockchain,
};
use crate::difficulty::DifficultyAdjustment;
use crate::economy::{lemma_reward_within_cap, spec_block_reward, Economy};
use crate::fee::{fee_countable, lemma_fee_sum_prefix, lemma_fee_sum_step, spec_fee_sum, spec_total_fees_ok, txs_model};
use crate::mempool::{
    fee_selection, lemma_fee_selection_pooled, lemma_pooled_removal_count, pooled_distinct, remove_ids_state,
    reservations_sound, Mempool,
};
use crate::mining::{hash_with_nonce, spec_meets_target, spec_pow_valid, Miner};
use crate::transaction::{spec_tx_id, Transaction, TransactionId, TransactionModel};
use crate::utxo::{spec_apply, spec_outputs_fresh, spec_transaction_valid, UtxoKey, UtxoModel, UtxoSet};

verus! {

/// Whether a list of transactions can be applied in order to the state `m`
/// with a fee total inside `u64`.
pub open spec fn selection_valid(m: Map<UtxoKey, UtxoModel>, txs: Seq<TransactionModel>) -> bool {
    apply_seq(m, txs) is Some && spec_fee_sum(txs) <= u64::MAX
}

/// Whether a template can be built on `blocks` (with UTXO state `m`) from
/// `pool`, taking at most `max` transactions, at `timestamp`: the next
/// height fits, the timestamp advances, the required difficulty is known and
/// within 1..=32, the selection applies with a fee total inside `u64`, and
/// reward plus fees fit in `u64`.
pub open spec fn template_ok(
    da: DifficultyAdjustment,
    blocks: Seq<BlockModel>,
    m: Map<UtxoKey, UtxoModel>,
    pool: Map<Seq<u8>, TransactionModel>,
    max: int,
    timestamp: u64,
) -> bool {
    let prev = blocks.last();
    let height = (prev.header.height + 1) as u64;
    let d = spec_next_difficulty(da, blocks, height);
    let sel = fee_selection(pool, max);
    &&& prev.header.height < u64::MAX
    &&& timestamp > prev.header.timestamp
    &&& d is Some
    &&& 1 <= d.unwrap() <= 32
    &&& selection_valid(m, sel)
    &&& spec_block_reward(height, supply_of(blocks)) + spec_fee_sum(sel) <= u64::MAX
}

/// `b` is the template for those inputs, whatever its nonce: version 1, the
/// next height, linked to the tip, the given timestamp, the required
/// difficulty, the fee selection with its Merkle root, and reward plus fees
/// as miner payout.
pub open spec fn is_template(
    b: BlockModel,
    da: DifficultyAdjustment,
    blocks: Seq<BlockModel>,
    pool: Map<Seq<u8>, TransactionModel>,
    max: int,
    timestamp: u64,
) -> bool {
    let prev = blocks.last();
    let sel = fee_selection(pool, max);
    &&& b.header.version == 1
    &&& b.header.height == prev.header.height + 1
    &&& b.header.previous_hash@ == prev.hash()
    &&& b.header.timestamp == timestamp
    &&& spec_next_difficulty(da, blocks, b.header.height) == Some(b.header.difficulty)
    &&& b.header.merkle_root@ == spec_merkle_root(sel)
    &&& b.transactions == sel
    &&& b.miner_reward == spec_block_reward(b.header.height, supply_of(blocks)) + spec_fee_sum(sel)
}

/// Every transaction of a list that applies in order is countable towards
/// a block's fees.
pub proof fn lemma_apply_seq_countable(m: Map<UtxoKey, UtxoModel>, txs: Seq<TransactionModel>)
    requires
        apply_seq(m, txs) is Some,
    ensures
        forall|i: int| 0 <= i < txs.len() ==> fee_countable(#[trigger] txs[i]),
    decreases txs.len(),
{
    if txs.len() > 0 {
        lemma_apply_seq_countable(m, txs.drop_last());
        assert forall|i: int| 0 <= i < txs.len() implies fee_countable(#[trigger] txs[i]) by {
            if i < txs.len() - 1 {
                assert(txs[i] == txs.drop_last()[i]);
            }
        }
    }
}

/// A template that meets its proof-of-work target is accepted on the chain
/// it was built for: the state becomes the selection applied to the UTXO
/// state and the supply grows by the block reward.
pub proof fn lemma_template_accepted(
    da: DifficultyAdjustment,
    blocks: Seq<BlockModel>,
    m: Map<UtxoKey, UtxoModel>,
    pool: Map<Seq<u8>, TransactionModel>,
    max: int,
    timestamp: u64,
    b: BlockModel,
)
    requires
        blocks.len() >= 1,
        template_ok(da, blocks, m, pool, max, timestamp),
        is_template(b, da, blocks, pool, max, timestamp),
        spec_pow_valid(b),
    ensures
        spec_block_step(da, blocks, m, supply_of(blocks), b) == Some(
            (
                apply_seq(m, b.transactions).unwrap(),
                (supply_of(blocks) + spec_block_reward(b.header.height, supply_of(blocks))) as u64,
            ),
        ),
{
    lemma_supply_within_cap(blocks);
    lemma_reward_within_cap(b.header.height, supply_of(blocks));
    lemma_apply_seq_countable(m, b.transactions);
    assert(spec_total_fees_ok(b.transactions));
}

pub struct BlockBuilder;

impl BlockBuilder {
    /// The first `max_transactions` pending transactions in fee order,
    /// copied out of the pool.
    pub fn select_transactions(mempool: &Mempool, max_transactions: usize) -> (r: Vec<Transaction>)
        requires
            mempool.wf(),
        ensures
            txs_model(r@) == fee_selection(mempool.pool(), max_transactions as int),
            pooled_distinct(mempool.pool(), fee_selection(mempool.pool(), max_transactions as int)),
    {
        let ghost pool = mempool.pool();
        if max_transactions == 0 {
            let r: Vec<Transaction> = Vec::new();
            assert(txs_model(r@) =~= fee_selection(pool, 0));
            return r;
        }
        let ordered = mempool.transactions_by_fee_desc();
        let ghost order = ordered@.map_values(|t: &Transaction| t@);
        proof {
            lemma_fee_selection_pooled(pool, max_transactions as int);
        }
        let n = ordered.len();
        let count = if max_transactions < n { max_transactions } else { n };
        let mut out: Vec<Transaction> = Vec::new();
        for k in 0..count
            invariant
                count <= n,
                n == ordered@.len(),
                order == ordered@.map_values(|t: &Transaction| t@),
                out@.len() == k,
                forall|x: int| 0 <= x < k ==> (#[trigger] out@[x])@ == order[x],
        {
            out.push(ordered[k].clone());
        }
        assert(txs_model(out@) =~= order.take(count as int));
        out
    }

    /// Checks the transactions in order against a copy of `utxos` (each
    /// valid, its outputs fresh, applied before the next) and returns their
    /// fee total; `utxos` itself is not modified.
    pub fn validate_selected_transactions(transactions: &[Transaction], utxos: &UtxoSet) -> (r: Result<u64, String>)
        requires
            utxos.wf(),
        ensures
            r is Ok <==> selection_valid(utxos@, txs_model(transactions@)),
            r matches Ok(v) ==> v == spec_fee_sum(txs_model(transactions@)),
    {
        let ghost s = txs_model(transactions@);
        let ghost m = utxos@;
        let mut candidate = utxos.clone();
        let mut total: u64 = 0;
        let n = transactions.len();
        assert(s.take(0) =~= Seq::<TransactionModel>::empty());
        for i in 0..n
            invariant
                n == s.len(),
                s == txs_model(transactions@),
                m == utxos@,
                candidate.wf(),
                apply_seq(m, s.take(i as int)) == Some(candidate@),
                total == spec_fee_sum(s.take(i as int)),
        {
            let transaction = &transactions[i];
            let ghost before = candidate@;
            proof {
                assert(s[i as int] == transaction@);
                assert(s.take(i + 1).drop_last() =~= s.take(i as int));
                assert(s.take(i + 1).last() == transaction@);
                lemma_fee_sum_step(s, i as int);
            }
            if !transaction.validate_basic() {
                proof {
                    assert(!spec_transaction_valid(before, transaction@));
                    assert(apply_seq(m, s.take(i + 1)) is None);
                    lemma_apply_seq_prefix_fails(m, s, i + 1);
                }
                return Err(String::from_str("invalid transaction"));
            }
            if !transaction.validate_signatures() {
                proof {
                    assert(!spec_transaction_valid(before, transaction@));
                    assert(apply_seq(m, s.take(i + 1)) is None);
                    lemma_apply_seq_prefix_fails(m, s, i + 1);
                }
                return Err(String::from_str("invalid transaction signature"));
            }
            let fee = match candidate.apply_transaction(transaction) {
                Ok(v) => v,
                Err(_) => {
                    proof {
                        lemma_apply_seq_prefix_fails(m, s, i + 1);
                    }
                    return Err(String::from_str("invalid transaction UTXO state"));
                },
            };
            total = match total.checked_add(fee) {
                Some(v) => v,
                None => {
                    proof {
                        lemma_fee_sum_prefix(s, i + 1);
                    }
                    return Err(String::from_str("total transaction fees overflow"));
                },
            };
        }
        assert(s.take(n as int) =~= s);
        Ok(total)
    }

    /// A template must carry its transactions' Merkle root and a difficulty
    /// from 1 to 32.
    pub fn validate_block_template(block: &Block) -> (r: Result<(), String>)
        ensures
            r is Ok <==> block@.has_valid_merkle_root() && 1 <= block.header.difficulty <= 32,
    {
        if !block.has_valid_merkle_root() {
            return Err(String::from_str("invalid merkle root in block template"));
        }
        if block.header.difficulty == 0 {
            return Err(String::from_str("block difficulty must be greater than zero"));
        }
        if block.header.difficulty > 32 {
            return Err(String::from_str("block difficulty cannot exceed 32"));
        }
        Ok(())
    }

    /// Assembles the next block on `blockchain` from the best-paying pending
    /// transactions (nonce 0, not mined).
    pub fn build_template(blockchain: &Blockchain, mempool: &Mempool, max_transactions: usize, timestamp: u64) -> (r: Result<Block, String>)
        requires
            blockchain.wf(),
            mempool.wf(),
        ensures
            r is Ok <==> template_ok(
                blockchain.spec_difficulty_adjustment(),
                blockchain.spec_blocks(),
                blockchain.spec_utxo_set()@,
                mempool.pool(),
                max_transactions as int,
                timestamp,
            ),
            r matches Ok(b) ==> is_template(
                b@,
                blockchain.spec_difficulty_adjustment(),
                blockchain.spec_blocks(),
                mempool.pool(),
                max_transactions as int,
                timestamp,
            ) && b.header.nonce == 0,
            r is Ok ==> pooled_distinct(mempool.pool(), fee_selection(mempool.pool(), max_transactions as int)),
    {
        let ghost blocks = blockchain.spec_blocks();
        let ghost sel = fee_selection(mempool.pool(), max_transactions as int);
        let previous = blockchain.latest_block();
        let height = match previous.header.height.checked_add(1) {
            Some(v) => v,
            None => return Err(String::from_str("block height overflow")),
        };
        if timestamp <= previous.header.timestamp {
            return Err(String::from_str("new block timestamp must be greater than previous block timestamp"));
        }
        let difficulty = match blockchain.expected_next_difficulty() {
            Ok(v) => v,
            Err(e) => return Err(e),
        };
        if difficulty == 0 {
            return Err(String::from_str("calculated difficulty is zero"));
        }
        if difficulty > 32 {
            return Err(String::from_str("calculated difficulty exceeds SHA-256 hash size"));
        }
        let transactions = Self::select_transactions(mempool, max_transactions);
        let total_fees = match Self::validate_selected_transactions(transactions.as_slice(), blockchain.utxo_set()) {
            Ok(v) => v,
            Err(e) => return Err(e),
        };
        let current_supply = blockchain.mining_supply();
        if !Economy::is_supply_valid(current_supply) {
            return Err(String::from_str("current mining supply is invalid"));
        }
        let base_reward = Economy::block_reward(height, current_supply);
        let miner_payout = match base_reward.checked_add(total_fees) {
            Some(v) => v,
            None => return Err(String::from_str("miner payout overflow")),
        };
        let previous_hash = previous.hash();
        let block = Block::new_with_transactions(
            1,
            height,
            previous_hash,
            timestamp,
            difficulty,
            0,
            miner_payout,
            transactions,
        );
        match Self::validate_block_template(&block) {
            Ok(()) => {},
            Err(e) => return Err(e),
        }
        Ok(block)
    }

    /// Builds the template and searches for a nonce from 0 upward that meets
    /// its difficulty.
    pub fn build_and_mine(blockchain: &Blockchain, mempool: &Mempool, max_transactions: usize, timestamp: u64) -> (r: Result<Block, String>)
        requires
            blockchain.wf(),
            mempool.wf(),
        ensures
            !template_ok(
                blockchain.spec_difficulty_adjustment(),
                blockchain.spec_blocks(),
                blockchain.spec_utxo_set()@,
                mempool.pool(),
                max_transactions as int,
                timestamp,
            ) ==> r is Err,
            r matches Ok(b) ==> template_ok(
                blockchain.spec_difficulty_adjustment(),
                blockchain.spec_blocks(),
                blockchain.spec_utxo_set()@,
                mempool.pool(),
                max_transactions as int,
                timestamp,
            ) && is_template(
                b@,
                blockchain.spec_difficulty_adjustment(),
                blockchain.spec_blocks(),
                mempool.pool(),
                max_transactions as int,
                timestamp,
            ) && spec_pow_valid(b@) && forall|n: u64| n < b.header.nonce ==> !spec_meets_target(
                #[trigger] hash_with_nonce(b.header, b.miner_reward, n),
                b.header.difficulty as int,
            ),
            r is Err && template_ok(
                blockchain.spec_difficulty_adjustment(),
                blockchain.spec_blocks(),
                blockchain.spec_utxo_set()@,
                mempool.pool(),
                max_transactions as int,
                timestamp,
            ) ==> forall|b: BlockModel, n: u64| is_template(
                b,
                blockchain.spec_difficulty_adjustment(),
                blockchain.spec_blocks(),
                mempool.pool(),
                max_transactions as int,
                timestamp,
            ) ==> !spec_meets_target(#[trigger] hash_with_nonce(b.header, b.miner_reward, n), b.header.difficulty as int),
            r is Ok ==> pooled_distinct(mempool.pool(), fee_selection(mempool.pool(), max_transactions as int)),
    {
        let mut block = match Self::build_template(blockchain, mempool, max_transactions, timestamp) {
            Ok(b) => b,
            Err(e) => return Err(e),
        };
        let ghost t = block;
        match Miner::mine(&mut block) {
            Ok(_) => {},
            Err(e) => {
                proof {
                    assert forall|b: BlockModel, n: u64| is_template(
                        b,
                        blockchain.spec_difficulty_adjustment(),
                        blockchain.spec_blocks(),
                        mempool.pool(),
                        max_transactions as int,
                        timestamp,
                    ) implies !spec_meets_target(#[trigger] hash_with_nonce(b.header, b.miner_reward, n), b.header.difficulty as int) by {
                        assert(hash_with_nonce(b.header, b.miner_reward, n) == hash_with_nonce(t.header, t.miner_reward, n)) by {
                            assert(crate::block::spec_block_preimage(crate::block::BlockHeader { nonce: n, ..b.header }, b.miner_reward)
                                =~= crate::block::spec_block_preimage(crate::block::BlockHeader { nonce: n, ..t.header }, t.miner_reward));
                        }
                    }
                }
                return Err(e);
            },
        }
        if !Miner::validate(&block) {
            return Err(String::from_str("mined block failed proof-of-work validation"));
        }
        proof {
            assert(block@.transactions == t@.transactions);
            assert forall|n: u64| n < block.header.nonce implies !spec_meets_target(
                #[trigger] hash_with_nonce(block.header, block.miner_reward, n),
                block.header.difficulty as int,
            ) by {
                assert(crate::block::BlockHeader { nonce: n, ..block.header } == crate::block::BlockHeader { nonce: n, ..t.header });
                assert(hash_with_nonce(block.header, block.miner_reward, n) == hash_with_nonce(t.header, t.miner_reward, n));
            }
        }
        Ok(block)
    }

    /// Builds and mines the next block, appends it to `blockchain` and
    /// removes its transactions from `mempool`. On failure neither changes.
    pub fn build_mine_and_commit(
        blockchain: &mut Blockchain,
        mempool: &mut Mempool,
        max_transactions: usize,
        timestamp: u64,
    ) -> (r: Result<Block, String>)
        requires
            old(blockchain).wf(),
            old(mempool).wf(),
        ensures
            final(blockchain).wf(),
            final(mempool).wf(),
            final(blockchain).spec_difficulty_adjustment() == old(blockchain).spec_difficulty_adjustment(),
            final(mempool).spec_config() == old(mempool).spec_config(),
            !template_ok(
                old(blockchain).spec_difficulty_adjustment(),
                old(blockchain).spec_blocks(),
                old(blockchain).spec_utxo_set()@,
                old(mempool).pool(),
                max_transactions as int,
                timestamp,
            ) ==> r is Err,
            r matches Ok(b) ==> {
                &&& template_ok(
                    old(blockchain).spec_difficulty_adjustment(),
                    old(blockchain).spec_blocks(),
                    old(blockchain).spec_utxo_set()@,
                    old(mempool).pool(),
                    max_transactions as int,
                    timestamp,
                )
                &&& is_template(
                    b@,
                    old(blockchain).spec_difficulty_adjustment(),
                    old(blockchain).spec_blocks(),
                    old(mempool).pool(),
                    max_transactions as int,
                    timestamp,
                )
                &&& spec_pow_valid(b@)
                &&& forall|n: u64| n < b.header.nonce ==> !spec_meets_target(
                    #[trigger] hash_with_nonce(b.header, b.miner_reward, n),
                    b.header.difficulty as int,
                )
                &&& final(blockchain).spec_blocks() == old(blockchain).spec_blocks().push(b@)
                &&& Some(final(blockchain).spec_utxo_set()@) == apply_seq(old(blockchain).spec_utxo_set()@, b@.transactions)
                &&& (final(mempool).pool(), final(mempool).reservations()) == remove_ids_state(
                    old(mempool).pool(),
                    old(mempool).reservations(),
                    b@.transactions.map_values(|t: TransactionModel| spec_tx_id(t)),
                )
            },
            r is Err ==> final(blockchain).spec_blocks() == old(blockchain).spec_blocks()
                && final(blockchain).spec_utxo_set()@ == old(blockchain).spec_utxo_set()@
                && final(mempool).pool() == old(mempool).pool()
                && final(mempool).reservations() == old(mempool).reservations(),
            r is Err && template_ok(
                old(blockchain).spec_difficulty_adjustment(),
                old(blockchain).spec_blocks(),
                old(blockchain).spec_utxo_set()@,
                old(mempool).pool(),
                max_transactions as int,
                timestamp,
            ) ==> forall|b: BlockModel, n: u64| is_template(
                b,
                old(blockchain).spec_difficulty_adjustment(),
                old(blockchain).spec_blocks(),
                old(mempool).pool(),
                max_transactions as int,
                timestamp,
            ) ==> !spec_meets_target(#[trigger] hash_with_nonce(b.header, b.miner_reward, n), b.header.difficulty as int),
            r is Ok && old(blockchain).consistent() ==> final(blockchain).consistent(),
            reservations_sound(old(mempool).pool(), old(mempool).reservations()) ==> reservations_sound(
                final(mempool).pool(),
                final(mempool).reservations(),
            ),
            r matches Ok(b) ==> final(mempool).pool().len() == old(mempool).pool().len() - b@.transactions.len()
                && forall|i: int| 0 <= i < b@.transactions.len() ==> !final(mempool).pool().contains_key(
                spec_tx_id(#[trigger] b@.transactions[i]),
            ),
    {
        let block = match Self::build_and_mine(blockchain, mempool, max_transactions, timestamp) {
            Ok(b) => b,
            Err(e) => return Err(e),
        };
        let ghost blocks = blockchain.spec_blocks();
        let ghost m = blockchain.spec_utxo_set()@;
        let mut transaction_ids: Vec<TransactionId> = Vec::new();
        let n = block.transactions.len();
        for i in 0..n
            invariant
                n == block.transactions@.len(),
                transaction_ids@.len() == i,
                forall|j: int| 0 <= j < i ==> (#[trigger] transaction_ids@[j])@ == spec_tx_id(block.transactions@[j]@),
        {
            transaction_ids.push(block.transactions[i].id());
        }
        proof {
            lemma_template_accepted(
                blockchain.spec_difficulty_adjustment(),
                blocks,
                m,
                mempool.pool(),
                max_transactions as int,
                timestamp,
                block@,
            );
        }
        match blockchain.add_block(block.clone()) {
            Ok(()) => {},
            Err(e) => {
                return Err(e);
            },
        }
        proof {
            mempool.lemma_pool_keys();
        }
        mempool.remove_many(transaction_ids.as_slice());
        proof {
            assert(crate::mempool::id_seq(transaction_ids@) =~= block@.transactions.map_values(|t: TransactionModel| spec_tx_id(t)));
            lemma_pooled_removal_count(old(mempool).pool(), block@.transactions);
            assert forall|i: int| 0 <= i < block@.transactions.len() implies !mempool.pool().contains_key(
                spec_tx_id(#[trigger] block@.transactions[i]),
            ) by {
                assert(crate::mempool::id_seq(transaction_ids@)[i] == spec_tx_id(block@.transactions[i]));
            }
        }
        Ok(block)
    }
}

} // verus!
