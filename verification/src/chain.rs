//! The blockchain: genesis, block acceptance with UTXO state, difficulty and
//! mining supply, and full-chain validation.
use vstd::prelude::*;
use crate::block::{Block, BlockModel, clone_transactions};
use crate::bytes::{hash_eq, is_zero_hash, zero_hash};
use crate::difficulty::DifficultyAdjustment;
use crate::economy::{lemma_reward_within_cap, spec_block_reward, Economy, MINING_ALLOCATION_UNITS};
use crate::fee::{spec_fee_sum, spec_total_fees_ok};
use crate::genesis::GenesisState;
use crate::mining::{spec_pow_valid, Miner};
use crate::transaction::TransactionModel;
use crate::utxo::{spec_apply, spec_outputs_fresh, spec_transaction_valid, UtxoKey, UtxoModel, UtxoSet};

verus! {

/// The only block version that a block added to the chain may carry.
pub const BLOCK_VERSION: u32 = 1;

/// Mining supply after the blocks of `blocks` past genesis: each block adds
/// the reward consensus allows at its height and the supply before it.
pub open spec fn supply_of(blocks: Seq<BlockModel>) -> u64
    decreases blocks.len(),
{
    if blocks.len() <= 1 {
        0
    } else {
        let s = supply_of(blocks.drop_last());
        (s + spec_block_reward(blocks.last().header.height, s)) as u64
    }
}

/// The mining supply never exceeds the mining allocation.
pub proof fn lemma_supply_within_cap(blocks: Seq<BlockModel>)
    ensures
        supply_of(blocks) <= MINING_ALLOCATION_UNITS,
    decreases blocks.len(),
{
    if blocks.len() > 1 {
        lemma_supply_within_cap(blocks.drop_last());
        lemma_reward_within_cap(blocks.last().header.height, supply_of(blocks.drop_last()));
    }
}

/// State after applying transactions in order; `None` as soon as one of them
/// is invalid against the state before it or would overwrite an output.
pub open spec fn apply_seq(m: Map<UtxoKey, UtxoModel>, txs: Seq<TransactionModel>) -> Option<Map<UtxoKey, UtxoModel>>
    decreases txs.len(),
{
    if txs.len() == 0 {
        Some(m)
    } else {
        match apply_seq(m, txs.drop_last()) {
            Some(m2) => if spec_transaction_valid(m2, txs.last()) && spec_outputs_fresh(m2, txs.last()) {
                Some(spec_apply(m2, txs.last()))
            } else {
                None
            },
            None => None,
        }
    }
}

/// Difficulty required of a block at `next_height` after the blocks
/// `prefix`; `None` when it cannot be computed.
pub open spec fn spec_next_difficulty(
    da: DifficultyAdjustment,
    prefix: Seq<BlockModel>,
    next_height: u64,
) -> Option<u32> {
    let prev = prefix.last();
    let interval = da.adjustment_interval;
    if interval == 0 {
        None
    } else if next_height % interval != 0 {
        Some(prev.header.difficulty)
    } else if prefix.len() < (interval as usize) {
        Some(prev.header.difficulty)
    } else {
        let start = prefix[prefix.len() - (interval as usize)];
        if !da.spec_adjustment_ok(start.header.timestamp, prev.header.timestamp, interval) {
            None
        } else {
            let e = da.spec_expected_difficulty(
                prev.header.difficulty as u64,
                start.header.timestamp,
                prev.header.timestamp,
                interval,
            );
            if e > u32::MAX {
                None
            } else {
                Some(e as u32)
            }
        }
    }
}

/// Acceptance of block `b` after the blocks `prefix`, with UTXO state
/// `state` and mining supply `supply`: the new state and supply, or `None`
/// when a consensus rule fails.
pub open spec fn spec_block_step(
    da: DifficultyAdjustment,
    prefix: Seq<BlockModel>,
    state: Map<UtxoKey, UtxoModel>,
    supply: u64,
    b: BlockModel,
) -> Option<(Map<UtxoKey, UtxoModel>, u64)> {
    let prev = prefix.last();
    let base = spec_block_reward(b.header.height, supply);
    if !(prev.header.height < u64::MAX && b.header.height == prev.header.height + 1) {
        None
    } else if b.header.previous_hash@ != prev.hash() {
        None
    } else if b.header.timestamp <= prev.header.timestamp {
        None
    } else if spec_next_difficulty(da, prefix, b.header.height) != Some(b.header.difficulty) {
        None
    } else if supply > MINING_ALLOCATION_UNITS {
        None
    } else if !b.has_valid_merkle_root() {
        None
    } else {
        match apply_seq(state, b.transactions) {
            None => None,
            Some(s2) => if !spec_total_fees_ok(b.transactions) {
                None
            } else if base + spec_fee_sum(b.transactions) > u64::MAX || b.miner_reward != base
                + spec_fee_sum(b.transactions) {
                None
            } else if supply + base > MINING_ALLOCATION_UNITS {
                None
            } else if !spec_pow_valid(b) {
                None
            } else {
                Some((s2, (supply + base) as u64))
            },
        }
    }
}

/// State and supply after validating `blocks[1..n]` in order from an empty
/// UTXO set; `None` when some block fails.
pub open spec fn replay(
    da: DifficultyAdjustment,
    blocks: Seq<BlockModel>,
    n: int,
) -> Option<(Map<UtxoKey, UtxoModel>, u64)>
    decreases n,
{
    if n <= 1 {
        Some((Map::empty(), 0u64))
    } else {
        match replay(da, blocks, n - 1) {
            Some(st) => spec_block_step(da, blocks.take(n - 1), st.0, st.1, blocks[n - 1]),
            None => None,
        }
    }
}

/// The genesis block rules.
pub open spec fn genesis_ok(b: BlockModel) -> bool {
    &&& b.header.height == 0
    &&& b.header.previous_hash@ == zero_hash()
    &&& b.header.timestamp == 0
    &&& b.miner_reward == 0
    &&& b.transactions.len() == 0
    &&& b.header.merkle_root@ == zero_hash()
}

/// A valid chain: a genesis block and every later block accepted in turn.
pub open spec fn spec_chain_valid(da: DifficultyAdjustment, blocks: Seq<BlockModel>) -> bool {
    &&& blocks.len() >= 1
    &&& genesis_ok(blocks[0])
    &&& replay(da, blocks, blocks.len() as int) is Some
}

/// The supply that replay tracks is the mining supply of the blocks.
pub proof fn lemma_replay_supply(da: DifficultyAdjustment, blocks: Seq<BlockModel>, n: int)
    requires
        1 <= n <= blocks.len(),
        replay(da, blocks, n) is Some,
    ensures
        replay(da, blocks, n).unwrap().1 == supply_of(blocks.take(n)),
    decreases n,
{
    if n > 1 {
        lemma_replay_supply(da, blocks, n - 1);
        assert(blocks.take(n).drop_last() =~= blocks.take(n - 1));
    } else {
        assert(blocks.take(n).len() == 1);
    }
}

/// Models of a list of blocks.
pub open spec fn blocks_model(v: Seq<Block>) -> Seq<BlockModel> {
    v.map_values(|b: Block| b@)
}

#[derive(Debug)]
pub struct Blockchain {
    blocks: Vec<Block>,
    difficulty_adjustment: DifficultyAdjustment,
    utxo_set: UtxoSet,
}

impl Blockchain {
    /// The stored blocks.
    pub closed spec fn block_vec(&self) -> Seq<Block> {
        self.blocks@
    }

    pub closed spec fn spec_blocks(&self) -> Seq<BlockModel> {
        blocks_model(self.blocks@)
    }

    pub closed spec fn spec_difficulty_adjustment(&self) -> DifficultyAdjustment {
        self.difficulty_adjustment
    }

    pub closed spec fn spec_utxo_set(&self) -> UtxoSet {
        self.utxo_set
    }

    /// At least one block, a well-formed UTXO set and the default
    /// difficulty adjustment.
    pub open spec fn wf(&self) -> bool {
        &&& self.spec_blocks().len() >= 1
        &&& self.spec_utxo_set().wf()
        &&& self.spec_difficulty_adjustment() == DifficultyAdjustment::default_model()
    }

    /// A valid chain whose UTXO set is the state its blocks produce.
    pub open spec fn consistent(&self) -> bool {
        &&& self.wf()
        &&& spec_chain_valid(self.spec_difficulty_adjustment(), self.spec_blocks())
        &&& replay(self.spec_difficulty_adjustment(), self.spec_blocks(), self.spec_blocks().len() as int).unwrap().0
            == self.spec_utxo_set()@
    }

    /// A chain holding only the genesis block, an empty UTXO set and the
    /// default difficulty adjustment.
    pub fn new() -> (r: Self)
        ensures
            r.wf(),
            r.consistent(),
            r.spec_blocks().len() == 1,
            genesis_ok(r.spec_blocks()[0]),
            r.spec_blocks()[0].header.version == 1,
            r.spec_blocks()[0].header.difficulty == 1,
            r.spec_blocks()[0].header.nonce == 0,
            r.spec_difficulty_adjustment() == DifficultyAdjustment::default_model(),
            r.spec_utxo_set()@ == Map::<UtxoKey, UtxoModel>::empty(),
    {
        let genesis_state = GenesisState::new();
        let zero = [0u8; 32];
        assert(zero@ =~= zero_hash());
        let genesis = Block::new(1, 0, zero, 0, 1, 0, 0);
        let mut blocks: Vec<Block> = Vec::new();
        blocks.push(genesis);
        let r = Blockchain {
            blocks,
            difficulty_adjustment: DifficultyAdjustment::default(),
            utxo_set: UtxoSet::new(),
        };
        assert(r.spec_blocks()[0].transactions =~= Seq::<TransactionModel>::empty());
        r
    }

    pub fn len(&self) -> (r: usize)
        ensures
            r == self.spec_blocks().len(),
    {
        self.blocks.len()
    }

    pub fn is_empty(&self) -> (r: bool)
        ensures
            r == (self.spec_blocks().len() == 0),
    {
        self.blocks.len() == 0
    }

    pub fn genesis(&self) -> (r: &Block)
        requires
            self.wf(),
        ensures
            r@ == self.spec_blocks()[0],
    {
        &self.blocks[0]
    }

    pub fn latest_block(&self) -> (r: &Block)
        requires
            self.wf(),
        ensures
            r@ == self.spec_blocks().last(),
    {
        &self.blocks[self.blocks.len() - 1]
    }

    pub fn blocks(&self) -> (r: &[Block])
        ensures
            blocks_model(r@) == self.spec_blocks(),
    {
        self.blocks.as_slice()
    }

    /// Mutable access to the stored blocks.
    pub fn blocks_mut(&mut self) -> (r: &mut [Block])
        ensures
            r@ == old(self).block_vec(),
            final(r)@ == final(self).block_vec(),
            final(self).spec_utxo_set() == old(self).spec_utxo_set(),
            final(self).spec_difficulty_adjustment() == old(self).spec_difficulty_adjustment(),
    {
        self.blocks.as_mut_slice()
    }

    pub fn utxo_set(&self) -> (r: &UtxoSet)
        ensures
            *r == self.spec_utxo_set(),
    {
        &self.utxo_set
    }

    /// Newly minted supply: the sum of the consensus rewards of the blocks
    /// past genesis. Fees and the project reserve are not counted.
    pub fn mining_supply(&self) -> (r: u64)
        ensures
            r == supply_of(self.spec_blocks()),
            r <= MINING_ALLOCATION_UNITS,
    {
        let ghost bs = self.spec_blocks();
        let mut supply: u64 = 0;
        let n = self.blocks.len();
        if n == 0 {
            return 0;
        }
        let mut i: usize = 1;
        while i < n
            invariant
                1 <= i <= n,
                n == bs.len(),
                bs == self.spec_blocks(),
                supply == supply_of(bs.take(i as int)),
            decreases n - i,
        {
            let block = &self.blocks[i];
            proof {
                lemma_supply_within_cap(bs.take(i as int));
                lemma_reward_within_cap(block.header.height, supply);
                assert(bs.take(i + 1).drop_last() =~= bs.take(i as int));
                assert(bs[i as int] == block@);
            }
            let reward = Economy::block_reward(block.header.height, supply);
            supply = supply + reward;
            i = i + 1;
        }
        assert(bs.take(n as int) =~= bs);
        proof {
            lemma_supply_within_cap(bs);
        }
        supply
    }

    /// Difficulty required after the blocks `self.blocks[..end]` at
    /// `next_height`.
    fn difficulty_after(&self, end: usize, next_height: u64) -> (r: Result<u32, String>)
        requires
            1 <= end <= self.spec_blocks().len(),
            self.wf(),
        ensures
            r is Ok <==> spec_next_difficulty(self.difficulty_adjustment, self.spec_blocks().take(end as int), next_height) is Some,
            r matches Ok(d) ==> spec_next_difficulty(self.difficulty_adjustment, self.spec_blocks().take(end as int), next_height) == Some(d),
    {
        let ghost prefix = self.spec_blocks().take(end as int);
        let previous = &self.blocks[end - 1];
        assert(prefix.last() == previous@);
        let interval = self.difficulty_adjustment.adjustment_interval;
        if interval == 0 {
            return Err(String::from_str("adjustment interval cannot be zero"));
        }
        if !next_height.is_multiple_of(interval) {
            return Ok(previous.header.difficulty);
        }
        let interval_usize = interval as usize;
        if end < interval_usize {
            return Ok(previous.header.difficulty);
        }
        let start_index = end - interval_usize;
        let start_block = &self.blocks[start_index];
        assert(prefix[prefix.len() - (interval as usize)] == start_block@);
        let current_difficulty = previous.header.difficulty as u64;
        let expected = match self.difficulty_adjustment.expected_difficulty(
            current_difficulty,
            start_block.header.timestamp,
            previous.header.timestamp,
            interval,
        ) {
            Ok(v) => v,
            Err(e) => return Err(e),
        };
        if expected > 4294967295u64 {
            return Err(String::from_str("calculated difficulty exceeds u32"));
        }
        Ok(expected as u32)
    }

    /// Difficulty required of the next block.
    pub fn expected_next_difficulty(&self) -> (r: Result<u32, String>)
        requires
            self.wf(),
        ensures
            r is Ok <==> (self.spec_blocks().last().header.height < u64::MAX && spec_next_difficulty(
                self.spec_difficulty_adjustment(),
                self.spec_blocks(),
                (self.spec_blocks().last().header.height + 1) as u64,
            ) is Some),
            r matches Ok(d) ==> spec_next_difficulty(
                self.spec_difficulty_adjustment(),
                self.spec_blocks(),
                (self.spec_blocks().last().header.height + 1) as u64,
            ) == Some(d),
    {
        let previous = self.latest_block();
        let next_height = match previous.header.height.checked_add(1) {
            Some(v) => v,
            None => return Err(String::from_str("block height overflow")),
        };
        assert(self.spec_blocks().take(self.blocks@.len() as int) =~= self.spec_blocks());
        self.difficulty_after(self.blocks.len(), next_height)
    }
}

/// Once a transaction fails, applying a longer list fails too.
pub proof fn lemma_apply_seq_prefix_fails(m: Map<UtxoKey, UtxoModel>, txs: Seq<TransactionModel>, i: int)
    requires
        0 <= i <= txs.len(),
        apply_seq(m, txs.take(i)) is None,
    ensures
        apply_seq(m, txs) is None,
    decreases txs.len(),
{
    if i == txs.len() {
        assert(txs.take(i) =~= txs);
    } else {
        assert(txs.drop_last().take(i) =~= txs.take(i));
        lemma_apply_seq_prefix_fails(m, txs.drop_last(), i);
    }
}

/// Replay reads only the blocks before `n`.
pub proof fn lemma_replay_prefix(da: DifficultyAdjustment, a: Seq<BlockModel>, b: Seq<BlockModel>, n: int)
    requires
        0 <= n <= a.len(),
        n <= b.len(),
        a.take(n) == b.take(n),
    ensures
        replay(da, a, n) == replay(da, b, n),
    decreases n,
{
    if n > 1 {
        assert(a.take(n - 1) =~= a.take(n).take(n - 1));
        assert(b.take(n - 1) =~= b.take(n).take(n - 1));
        assert(a[n - 1] == a.take(n)[n - 1]);
        assert(b[n - 1] == b.take(n)[n - 1]);
        lemma_replay_prefix(da, a, b, n - 1);
    }
}

/// Applies a block's transactions in order to `state`; true when all of
/// them apply, and then `state` holds the result.
fn apply_block_transactions(state: &mut UtxoSet, block: &Block) -> (r: bool)
    requires
        old(state).wf(),
    ensures
        final(state).wf(),
        r == (apply_seq(old(state)@, block@.transactions) is Some),
        r ==> Some(final(state)@) == apply_seq(old(state)@, block@.transactions),
{
    let ghost txs = block@.transactions;
    let ghost m0 = state@;
    let n = block.transactions.len();
    for i in 0..n
        invariant
            n == txs.len(),
            txs == block@.transactions,
            m0 == old(state)@,
            state.wf(),
            apply_seq(m0, txs.take(i as int)) == Some(state@),
    {
        let transaction = &block.transactions[i];
        assert(txs[i as int] == transaction@);
        assert(txs.take(i + 1).drop_last() =~= txs.take(i as int));
        assert(txs.take(i + 1).last() == txs[i as int]);
        if !transaction.validate_basic() {
            proof {
                assert(!spec_transaction_valid(state@, txs[i as int]));
                assert(apply_seq(m0, txs.take(i + 1)) is None);
                lemma_apply_seq_prefix_fails(m0, txs, i + 1);
            }
            return false;
        }
        if !transaction.validate_signatures() {
            proof {
                assert(!spec_transaction_valid(state@, txs[i as int]));
                assert(apply_seq(m0, txs.take(i + 1)) is None);
                lemma_apply_seq_prefix_fails(m0, txs, i + 1);
            }
            return false;
        }
        let ghost before = state@;
        match state.apply_transaction(transaction) {
            Ok(_) => {
                assert(apply_seq(m0, txs.take(i + 1)) == Some(spec_apply(before, txs[i as int])));
            },
            Err(_) => {
                proof {
                    assert(apply_seq(m0, txs.take(i + 1)) is None);
                    lemma_apply_seq_prefix_fails(m0, txs, i + 1);
                }
                return false;
            },
        }
    }
    assert(txs.take(n as int) =~= txs);
    true
}

impl Blockchain {
    /// Index-based difficulty of a stored block, as full validation uses it.
    fn expected_difficulty_for_index(&self, index: usize) -> (r: Result<u32, String>)
        requires
            self.wf(),
            index < self.spec_blocks().len(),
        ensures
            index > 0 ==> (r is Ok <==> spec_next_difficulty(self.difficulty_adjustment, self.spec_blocks().take(index as int), self.spec_blocks()[index as int].header.height) is Some),
            index > 0 ==> (r matches Ok(d) ==> spec_next_difficulty(self.difficulty_adjustment, self.spec_blocks().take(index as int), self.spec_blocks()[index as int].header.height) == Some(d)),
    {
        if index == 0 {
            return Ok(self.blocks[0].header.difficulty);
        }
        let next_height = self.blocks[index].header.height;
        self.difficulty_after(index, next_height)
    }

    /// Appends a block after checking every consensus rule against the chain
    /// tip, the UTXO state and the mining supply; the block's transactions
    /// are applied to a copy of the state that replaces it only on success.
    /// On failure the chain is unchanged. A consistent chain stays
    /// consistent.
    pub fn add_block(&mut self, block: Block) -> (r: Result<(), String>)
        requires
            old(self).wf(),
        ensures
            final(self).wf(),
            final(self).spec_difficulty_adjustment() == old(self).spec_difficulty_adjustment(),
            block.header.version != BLOCK_VERSION ==> r is Err,
            r is Ok <==> block.header.version == BLOCK_VERSION && spec_block_step(
                old(self).spec_difficulty_adjustment(),
                old(self).spec_blocks(),
                old(self).spec_utxo_set()@,
                supply_of(old(self).spec_blocks()),
                block@,
            ) is Some,
            r is Ok ==> final(self).spec_blocks() == old(self).spec_blocks().push(block@) && Some(
                (final(self).spec_utxo_set()@, supply_of(final(self).spec_blocks())),
            ) == spec_block_step(
                old(self).spec_difficulty_adjustment(),
                old(self).spec_blocks(),
                old(self).spec_utxo_set()@,
                supply_of(old(self).spec_blocks()),
                block@,
            ),
            r is Err ==> final(self).spec_blocks() == old(self).spec_blocks() && final(self).spec_utxo_set()@
                == old(self).spec_utxo_set()@,
            r is Ok && old(self).consistent() ==> final(self).consistent(),
    {
        let ghost bs = self.spec_blocks();
        let ghost da = self.difficulty_adjustment;
        let ghost m = self.utxo_set@;
        let ghost b = block@;
        if block.header.version != BLOCK_VERSION {
            return Err(String::from_str("invalid block version"));
        }
        let previous = self.latest_block();
        let expected_height = match previous.header.height.checked_add(1) {
            Some(v) => v,
            None => return Err(String::from_str("block height overflow")),
        };
        if block.header.height != expected_height {
            return Err(String::from_str("invalid block height"));
        }
        let previous_hash = previous.hash();
        if !hash_eq(&block.header.previous_hash, &previous_hash) {
            return Err(String::from_str("invalid previous hash"));
        }
        if block.header.timestamp <= previous.header.timestamp {
            return Err(String::from_str("invalid block timestamp"));
        }
        let expected_difficulty = match self.expected_next_difficulty() {
            Ok(v) => v,
            Err(e) => return Err(e),
        };
        if block.header.difficulty != expected_difficulty {
            return Err(String::from_str("invalid block difficulty"));
        }
        let current_supply = self.mining_supply();
        if !Economy::is_supply_valid(current_supply) {
            return Err(String::from_str("current mining supply is invalid"));
        }
        let expected_base_reward = Economy::block_reward(block.header.height, current_supply);
        if !block.has_valid_merkle_root() {
            return Err(String::from_str("invalid merkle root"));
        }
        let mut candidate_utxos = self.utxo_set.clone();
        if !apply_block_transactions(&mut candidate_utxos, &block) {
            return Err(String::from_str("invalid block transaction"));
        }
        let total_fees = match block.total_transaction_fees() {
            Ok(v) => v,
            Err(e) => return Err(e),
        };
        let expected_payout = match expected_base_reward.checked_add(total_fees) {
            Some(v) => v,
            None => return Err(String::from_str("miner payout overflow")),
        };
        if block.miner_reward != expected_payout {
            return Err(String::from_str("invalid miner payout"));
        }
        let new_mining_supply = match current_supply.checked_add(expected_base_reward) {
            Some(v) => v,
            None => return Err(String::from_str("mining supply overflow")),
        };
        if !Economy::is_supply_valid(new_mining_supply) {
            return Err(String::from_str("mining supply exceeds hard cap"));
        }
        if !Miner::validate(&block) {
            return Err(String::from_str("invalid proof of work"));
        }
        self.utxo_set = candidate_utxos;
        self.blocks.push(block);
        proof {
            let nb = self.spec_blocks();
            assert(nb =~= bs.push(b));
            assert(nb.drop_last() =~= bs);
            if old(self).consistent() {
                let n = bs.len() as int;
                assert(nb.take(n) =~= bs.take(n));
                assert(bs.take(n) =~= bs);
                assert(nb.take(n + 1) =~= nb);
                lemma_replay_prefix(da, nb, bs, n);
                lemma_replay_supply(da, bs, n);
                assert(nb[n] == b);
            }
        }
        Ok(())
    }

    /// Checks stored block `index` against the blocks before it, the state
    /// rebuilt so far and the supply so far; on success applies its
    /// transactions to `state` and returns the new supply.
    fn validate_block_at(&self, index: usize, state: &mut UtxoSet, mining_supply: u64) -> (r: Option<u64>)
        requires
            self.wf(),
            1 <= index < self.spec_blocks().len(),
            old(state).wf(),
        ensures
            final(state).wf(),
            r is Some <==> spec_block_step(self.difficulty_adjustment, self.spec_blocks().take(index as int), old(state)@, mining_supply, self.spec_blocks()[index as int]) is Some,
            r matches Some(v) ==> spec_block_step(self.difficulty_adjustment, self.spec_blocks().take(index as int), old(state)@, mining_supply, self.spec_blocks()[index as int]) == Some((final(state)@, v)),
    {
        let ghost bs = self.spec_blocks();
        let ghost da = self.difficulty_adjustment;
            let block = &self.blocks[index];
            let previous = &self.blocks[index - 1];
            let ghost prefix = bs.take(index as int);
            proof {
                assert(bs[index as int] == block@);
                assert(prefix.last() == previous@);
            }
            let expected_height = match previous.header.height.checked_add(1) {
                Some(v) => v,
                None => return None,
            };
            if block.header.height != expected_height {
                return None;
            }
            let previous_hash = previous.hash();
            if !hash_eq(&block.header.previous_hash, &previous_hash) {
                return None;
            }
            if block.header.timestamp <= previous.header.timestamp {
                return None;
            }
            let expected_difficulty = match self.expected_difficulty_for_index(index) {
                Ok(v) => v,
                Err(_) => return None,
            };
            if block.header.difficulty != expected_difficulty {
                return None;
            }
            if !Economy::is_supply_valid(mining_supply) {
                return None;
            }
            let expected_base_reward = Economy::block_reward(block.header.height, mining_supply);
            if !block.has_valid_merkle_root() {
                return None;
            }
            if !apply_block_transactions(state, block) {
                return None;
            }
            let total_fees = match block.total_transaction_fees() {
                Ok(v) => v,
                Err(_) => return None,
            };
            let expected_payout = match expected_base_reward.checked_add(total_fees) {
                Some(v) => v,
                None => return None,
            };
            if block.miner_reward != expected_payout {
                return None;
            }
            let new_supply = match mining_supply.checked_add(expected_base_reward) {
                Some(v) => v,
                None => return None,
            };
            if !Economy::is_supply_valid(new_supply) {
                return None;
            }
            if !Miner::validate(block) {
                return None;
            }
            Some(new_supply)
    }

    /// Full validation from genesis: genesis rules, then every block checked
    /// in order against the rebuilt UTXO state and mining supply.
    pub fn is_valid(&self) -> (r: bool)
        requires
            self.wf(),
        ensures
            r == spec_chain_valid(self.spec_difficulty_adjustment(), self.spec_blocks()),
    {
        let ghost bs = self.spec_blocks();
        let ghost da = self.difficulty_adjustment;
        if self.blocks.len() == 0 {
            return false;
        }
        let genesis_state = GenesisState::new();
        if !genesis_state.is_valid() {
            return false;
        }
        if genesis_state.initial_mining_supply() != 0 {
            return false;
        }
        if genesis_state.mining_cap() != Economy::mining_cap() {
            return false;
        }
        let genesis = &self.blocks[0];
        if genesis.header.height != 0 {
            return false;
        }
        if !is_zero_hash(&genesis.header.previous_hash) {
            return false;
        }
        if genesis.header.timestamp != 0 {
            return false;
        }
        if genesis.miner_reward != 0 {
            return false;
        }
        if genesis.transactions.len() != 0 {
            return false;
        }
        if !is_zero_hash(&genesis.header.merkle_root) {
            return false;
        }
        let mut state = UtxoSet::new();
        let mut mining_supply: u64 = 0;
        let n = self.blocks.len();
        let mut index: usize = 1;
        assert(state@ =~= Map::<UtxoKey, UtxoModel>::empty());
        while index < n
            invariant
                1 <= index <= n,
                n == bs.len(),
                bs == self.spec_blocks(),
                da == self.difficulty_adjustment,
                self.wf(),
                state.wf(),
                replay(da, bs, index as int) == Some((state@, mining_supply)),
            decreases n - index,
        {
            proof {
                assert(replay(da, bs, index + 1) == spec_block_step(da, bs.take(index as int), state@, mining_supply, bs[index as int]));
            }
            match self.validate_block_at(index, &mut state, mining_supply) {
                Some(v) => {
                    mining_supply = v;
                },
                None => {
                    proof {
                        lemma_replay_fails_after(da, bs, index + 1, n as int);
                    }
                    return false;
                },
            }
            index = index + 1;
        }
        if mining_supply > Economy::mining_cap() {
            return false;
        }
        true
    }
}

/// A failed block leaves later replay failed: validity of a chain needs
/// every block valid.
pub proof fn lemma_replay_fails_after(da: DifficultyAdjustment, blocks: Seq<BlockModel>, i: int, n: int)
    requires
        1 <= i <= n,
        replay(da, blocks, i) is None,
    ensures
        replay(da, blocks, n) is None,
    decreases n - i,
{
    if n > i {
        lemma_replay_fails_after(da, blocks, i, n - 1);
    }
}

impl DifficultyAdjustment {
    pub open spec fn default_model() -> DifficultyAdjustment {
        DifficultyAdjustment { target_block_time: 60, adjustment_interval: 2_016, min_difficulty: 1, max_difficulty: 32 }
    }
}

impl Default for Blockchain {
    fn default() -> (r: Self)
        ensures
            r.wf(),
            r.consistent(),
            r.spec_blocks().len() == 1,
            genesis_ok(r.spec_blocks()[0]),
            r.spec_difficulty_adjustment() == DifficultyAdjustment::default_model(),
            r.spec_utxo_set()@ == Map::<UtxoKey, UtxoModel>::empty(),
    {
        Self::new()
    }
}

/// At a height that is a multiple of the adjustment interval, with a full
/// interval of blocks stored, the required difficulty is the previous one
/// adjusted over the interval's timestamps (from the block `interval` back
/// to the previous block), whenever that fits a `u32`.
pub proof fn lemma_retarget_at_interval(da: DifficultyAdjustment, prefix: Seq<BlockModel>, next_height: u64)
    requires
        da.adjustment_interval != 0,
        da.adjustment_interval <= usize::MAX,
        next_height % da.adjustment_interval == 0,
        prefix.len() >= da.adjustment_interval,
        da.spec_adjustment_ok(
            prefix[prefix.len() - da.adjustment_interval].header.timestamp,
            prefix.last().header.timestamp,
            da.adjustment_interval,
        ),
        da.spec_expected_difficulty(
            prefix.last().header.difficulty as u64,
            prefix[prefix.len() - da.adjustment_interval].header.timestamp,
            prefix.last().header.timestamp,
            da.adjustment_interval,
        ) <= u32::MAX,
    ensures
        spec_next_difficulty(da, prefix, next_height) == Some(
            da.spec_expected_difficulty(
                prefix.last().header.difficulty as u64,
                prefix[prefix.len() - da.adjustment_interval].header.timestamp,
                prefix.last().header.timestamp,
                da.adjustment_interval,
            ) as u32,
        ),
{
}

/// Off an adjustment height the required difficulty is the previous block's.
pub proof fn lemma_no_retarget_between_intervals(da: DifficultyAdjustment, prefix: Seq<BlockModel>, next_height: u64)
    requires
        da.adjustment_interval != 0,
        next_height % da.adjustment_interval != 0,
    ensures
        spec_next_difficulty(da, prefix, next_height) == Some(prefix.last().header.difficulty),
{
}

} // verus!
