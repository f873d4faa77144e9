//! Blocks: header, Merkle root over transaction identifiers, block hash and
//! reward/fee checks.
use vstd::prelude::*;
use crate::bytes::{push_bytes, push_u32_le, push_u64_le, spec_u32_le, spec_u64_le, zero_hash};
use crate::crypto::{sha256, spec_sha256};
use crate::economy::{spec_block_reward, Economy, MINING_ALLOCATION_UNITS};
use crate::fee::{spec_fee_sum, spec_total_fees_ok, txs_model, FeeAccounting};
use crate::transaction::{spec_tx_id, Transaction, TransactionModel};

verus! {

#[derive(Debug, Clone, Copy, PartialEq, Eq)]
pub struct BlockHeader {
    pub version: u32,
    pub height: u64,
    pub previous_hash: [u8; 32],
    pub merkle_root: [u8; 32],
    pub timestamp: u64,
    pub difficulty: u32,
    pub nonce: u64,
}

#[derive(Debug)]
pub struct Block {
    pub header: BlockHeader,
    pub miner_reward: u64,
    pub transactions: Vec<Transaction>,
}

/// SHA-256 applied twice to the concatenation of two hashes.
pub open spec fn spec_hash_pair(left: Seq<u8>, right: Seq<u8>) -> Seq<u8> {
    spec_sha256(spec_sha256(left + right))
}

/// One Merkle level: an odd count is padded by repeating the last hash, then
/// neighbours are paired.
pub open spec fn merkle_level(h: Seq<Seq<u8>>) -> Seq<Seq<u8>> {
    Seq::new(
        ((h.len() + 1) / 2) as nat,
        |i: int| spec_hash_pair(h[2 * i], if 2 * i + 1 < h.len() { h[2 * i + 1] } else { h[h.len() - 1] }),
    )
}

/// Merkle root of a nonempty list of hashes.
pub open spec fn merkle_root_of(h: Seq<Seq<u8>>) -> Seq<u8>
    decreases h.len(),
{
    if h.len() <= 1 {
        h[0]
    } else {
        merkle_root_of(merkle_level(h))
    }
}

/// Identifiers of a list of transactions.
pub open spec fn tx_ids(txs: Seq<TransactionModel>) -> Seq<Seq<u8>> {
    txs.map_values(|t: TransactionModel| spec_tx_id(t))
}

/// Merkle root of a block's transactions; all zeros when there are none.
pub open spec fn spec_merkle_root(txs: Seq<TransactionModel>) -> Seq<u8> {
    if txs.len() == 0 {
        zero_hash()
    } else {
        merkle_root_of(tx_ids(txs))
    }
}

/// The bytes a block hash covers: the header fields and the miner reward.
pub open spec fn spec_block_preimage(h: BlockHeader, miner_reward: u64) -> Seq<u8> {
    spec_u32_le(h.version) + spec_u64_le(h.height) + h.previous_hash@ + h.merkle_root@ + spec_u64_le(
        h.timestamp,
    ) + spec_u32_le(h.difficulty) + spec_u64_le(h.nonce) + spec_u64_le(miner_reward)
}

pub open spec fn spec_block_hash(h: BlockHeader, miner_reward: u64) -> Seq<u8> {
    spec_sha256(spec_block_preimage(h, miner_reward))
}

/// Mathematical value of a block.
pub struct BlockModel {
    pub header: BlockHeader,
    pub miner_reward: u64,
    pub transactions: Seq<TransactionModel>,
}

impl View for Block {
    type V = BlockModel;

    open spec fn view(&self) -> BlockModel {
        BlockModel {
            header: self.header,
            miner_reward: self.miner_reward,
            transactions: txs_model(self.transactions@),
        }
    }
}

impl BlockModel {
    pub open spec fn hash(self) -> Seq<u8> {
        spec_block_hash(self.header, self.miner_reward)
    }

    pub open spec fn has_valid_merkle_root(self) -> bool {
        self.header.merkle_root@ == spec_merkle_root(self.transactions)
    }

    pub open spec fn expected_reward(self, supply: u64) -> u64 {
        spec_block_reward(self.header.height, supply)
    }

    /// Whether base reward plus fees can be computed.
    pub open spec fn payout_ok(self, supply: u64) -> bool {
        spec_total_fees_ok(self.transactions) && self.expected_reward(supply) + spec_fee_sum(
            self.transactions,
        ) <= u64::MAX
    }

    pub open spec fn expected_payout(self, supply: u64) -> int {
        self.expected_reward(supply) + spec_fee_sum(self.transactions)
    }
}

/// Copies a list of transactions.
pub fn clone_transactions(v: &Vec<Transaction>) -> (r: Vec<Transaction>)
    ensures
        txs_model(r@) == txs_model(v@),
{
    let mut out: Vec<Transaction> = Vec::new();
    let n = v.len();
    for i in 0..n
        invariant
            n == v@.len(),
            out@.len() == i,
            forall|j: int| 0 <= j < i ==> #[trigger] out@[j]@ == v@[j]@,
    {
        out.push(v[i].clone());
    }
    assert(txs_model(out@) =~= txs_model(v@));
    out
}

impl Clone for Block {
    fn clone(&self) -> (r: Self)
        ensures
            r@ == self@,
    {
        Block {
            header: self.header,
            miner_reward: self.miner_reward,
            transactions: clone_transactions(&self.transactions),
        }
    }
}

proof fn lemma_merkle_level_padded(h: Seq<Seq<u8>>)
    requires
        h.len() % 2 == 1,
    ensures
        merkle_level(h.push(h.last())) == merkle_level(h),
{
    assert(merkle_level(h.push(h.last())) =~= merkle_level(h));
}

impl Block {
    pub fn new(
        version: u32,
        height: u64,
        previous_hash: [u8; 32],
        timestamp: u64,
        difficulty: u32,
        nonce: u64,
        miner_reward: u64,
    ) -> (r: Self)
        ensures
            r.header.version == version,
            r.header.height == height,
            r.header.previous_hash == previous_hash,
            r.header.merkle_root@ == zero_hash(),
            r.header.timestamp == timestamp,
            r.header.difficulty == difficulty,
            r.header.nonce == nonce,
            r.miner_reward == miner_reward,
            r.transactions@.len() == 0,
    {
        let r = Block {
            header: BlockHeader {
                version,
                height,
                previous_hash,
                merkle_root: [0u8; 32],
                timestamp,
                difficulty,
                nonce,
            },
            miner_reward,
            transactions: Vec::new(),
        };
        assert(r.header.merkle_root@ =~= zero_hash());
        r
    }

    /// A block holding `transactions`, with their Merkle root in the header.
    pub fn new_with_transactions(
        version: u32,
        height: u64,
        previous_hash: [u8; 32],
        timestamp: u64,
        difficulty: u32,
        nonce: u64,
        miner_reward: u64,
        transactions: Vec<Transaction>,
    ) -> (r: Self)
        ensures
            r.header.version == version,
            r.header.height == height,
            r.header.previous_hash == previous_hash,
            r.header.merkle_root@ == spec_merkle_root(txs_model(transactions@)),
            r.header.timestamp == timestamp,
            r.header.difficulty == difficulty,
            r.header.nonce == nonce,
            r.miner_reward == miner_reward,
            r.transactions == transactions,
    {
        let merkle_root = Self::calculate_merkle_root(transactions.as_slice());
        Block {
            header: BlockHeader {
                version,
                height,
                previous_hash,
                merkle_root,
                timestamp,
                difficulty,
                nonce,
            },
            miner_reward,
            transactions,
        }
    }

    /// Merkle root over the transaction identifiers: zero for no
    /// transactions; otherwise levels of double-SHA-256 pairs, repeating the
    /// last hash of an odd level.
    pub fn calculate_merkle_root(transactions: &[Transaction]) -> (r: [u8; 32])
        ensures
            r@ == spec_merkle_root(txs_model(transactions@)),
    {
        let ghost txs = txs_model(transactions@);
        if transactions.len() == 0 {
            let z = [0u8; 32];
            assert(z@ =~= zero_hash());
            return z;
        }
        let mut hashes: Vec<[u8; 32]> = Vec::new();
        let n = transactions.len();
        for i in 0..n
            invariant
                n == transactions@.len(),
                txs == txs_model(transactions@),
                hashes@.len() == i,
                forall|j: int| 0 <= j < i ==> #[trigger] hashes@[j]@ == spec_tx_id(txs[j]),
        {
            hashes.push(transactions[i].id());
        }
        let ghost target = merkle_root_of(tx_ids(txs));
        assert(hashes@.map_values(|a: [u8; 32]| a@) =~= tx_ids(txs));
        while hashes.len() > 1
            invariant
                hashes@.len() >= 1,
                merkle_root_of(hashes@.map_values(|a: [u8; 32]| a@)) == target,
            decreases hashes@.len(),
        {
            let ghost level = hashes@.map_values(|a: [u8; 32]| a@);
            if hashes.len() % 2 != 0 {
                let last = hashes[hashes.len() - 1];
                hashes.push(last);
                proof {
                    lemma_merkle_level_padded(level);
                    assert(hashes@.map_values(|a: [u8; 32]| a@) =~= level.push(level.last()));
                }
            }
            let ghost padded = hashes@.map_values(|a: [u8; 32]| a@);
            assert(merkle_level(padded) == merkle_level(level));
            let half = hashes.len() / 2;
            let mut next: Vec<[u8; 32]> = Vec::new();
            for i in 0..half
                invariant
                    half * 2 == hashes@.len(),
                    hashes@.len() == hashes.len(),
                    padded == hashes@.map_values(|a: [u8; 32]| a@),
                    next@.len() == i,
                    forall|j: int| 0 <= j < i ==> #[trigger] next@[j]@ == merkle_level(padded)[j],
            {
                next.push(Self::hash_pair(&hashes[2 * i], &hashes[2 * i + 1]));
            }
            assert(next@.map_values(|a: [u8; 32]| a@) =~= merkle_level(level));
            hashes = next;
        }
        hashes[0]
    }

    fn hash_pair(left: &[u8; 32], right: &[u8; 32]) -> (r: [u8; 32])
        ensures
            r@ == spec_hash_pair(left@, right@),
    {
        let mut data: Vec<u8> = Vec::new();
        push_bytes(&mut data, left);
        push_bytes(&mut data, right);
        let first = sha256(data.as_slice());
        sha256(&first)
    }

    pub fn calculated_merkle_root(&self) -> (r: [u8; 32])
        ensures
            r@ == spec_merkle_root(self@.transactions),
    {
        Self::calculate_merkle_root(self.transactions.as_slice())
    }

    /// Whether the header's Merkle root matches the transactions.
    pub fn has_valid_merkle_root(&self) -> (r: bool)
        ensures
            r == self@.has_valid_merkle_root(),
    {
        let root = self.calculated_merkle_root();
        crate::bytes::hash_eq(&self.header.merkle_root, &root)
    }

    /// Block hash: SHA-256 over the little-endian header fields and the
    /// miner reward.
    pub fn hash(&self) -> (r: [u8; 32])
        ensures
            r@ == self@.hash(),
    {
        let mut data: Vec<u8> = Vec::new();
        push_u32_le(&mut data, self.header.version);
        push_u64_le(&mut data, self.header.height);
        push_bytes(&mut data, &self.header.previous_hash);
        push_bytes(&mut data, &self.header.merkle_root);
        push_u64_le(&mut data, self.header.timestamp);
        push_u32_le(&mut data, self.header.difficulty);
        push_u64_le(&mut data, self.header.nonce);
        push_u64_le(&mut data, self.miner_reward);
        assert(data@ =~= spec_block_preimage(self.header, self.miner_reward));
        sha256(data.as_slice())
    }

    pub fn expected_reward(&self, current_mining_supply: u64) -> (r: u64)
        ensures
            r == self@.expected_reward(current_mining_supply),
    {
        Economy::block_reward(self.header.height, current_mining_supply)
    }

    pub fn has_valid_reward(&self, current_mining_supply: u64) -> (r: bool)
        ensures
            r == (self.miner_reward == self@.expected_reward(current_mining_supply)),
    {
        self.miner_reward == self.expected_reward(current_mining_supply)
    }

    pub fn total_transaction_fees(&self) -> (r: Result<u64, String>)
        ensures
            r is Ok <==> spec_total_fees_ok(self@.transactions),
            r matches Ok(v) ==> v == spec_fee_sum(self@.transactions),
    {
        FeeAccounting::total_fees(self.transactions.as_slice())
    }

    /// Base reward plus the block's fees.
    pub fn expected_miner_payout(&self, current_mining_supply: u64) -> (r: Result<u64, String>)
        ensures
            r is Ok <==> self@.payout_ok(current_mining_supply),
            r matches Ok(v) ==> v == self@.expected_payout(current_mining_supply),
    {
        let base_reward = self.expected_reward(current_mining_supply);
        let total_fees = match self.total_transaction_fees() {
            Ok(v) => v,
            Err(e) => return Err(e),
        };
        FeeAccounting::miner_payout(base_reward, total_fees)
    }

    pub fn has_valid_miner_payout(&self, current_mining_supply: u64) -> (r: bool)
        ensures
            r == (self@.payout_ok(current_mining_supply) && self.miner_reward == self@.expected_payout(
                current_mining_supply,
            )),
    {
        match self.expected_miner_payout(current_mining_supply) {
            Ok(expected) => self.miner_reward == expected,
            Err(_) => false,
        }
    }

    /// Supply inside the cap, exact base reward, matching Merkle root.
    pub fn validate_basic(&self, current_mining_supply: u64) -> (r: bool)
        ensures
            r == (current_mining_supply <= MINING_ALLOCATION_UNITS && self.miner_reward
                == self@.expected_reward(current_mining_supply) && self@.has_valid_merkle_root()),
    {
        if !Economy::is_supply_valid(current_mining_supply) {
            return false;
        }
        if !self.has_valid_reward(current_mining_supply) {
            return false;
        }
        if !self.has_valid_merkle_root() {
            return false;
        }
        true
    }
}

/// The Merkle root of a single transaction is its identifier.
pub proof fn lemma_merkle_root_single(t: TransactionModel)
    ensures
        spec_merkle_root(seq![t]) == spec_tx_id(t),
{
    assert(tx_ids(seq![t]) =~= seq![spec_tx_id(t)]);
}

/// A level with an odd number of hashes pairs its last hash with itself, so
/// repeating the last transaction of an odd list of two or more leaves the
/// Merkle root unchanged.
pub proof fn lemma_merkle_root_duplicate_last(txs: Seq<TransactionModel>)
    requires
        txs.len() > 1,
        txs.len() % 2 == 1,
    ensures
        spec_merkle_root(txs.push(txs.last())) == spec_merkle_root(txs),
{
    let h = tx_ids(txs);
    let h2 = tx_ids(txs.push(txs.last()));
    assert(h2 =~= h.push(h.last()));
    assert(merkle_level(h2) =~= merkle_level(h));
}

/// Each Merkle level pairs neighbours: element `i` of the next level is the
/// double SHA-256 of hashes `2i` and `2i + 1` joined, and a level of `n`
/// hashes gives `(n + 1) / 2`.
pub proof fn lemma_merkle_level_pairs_neighbours(h: Seq<Seq<u8>>, i: int)
    requires
        0 <= i,
        2 * i + 1 < h.len(),
    ensures
        merkle_level(h).len() == (h.len() + 1) / 2,
        merkle_level(h)[i] == spec_sha256(spec_sha256(h[2 * i] + h[2 * i + 1])),
{
}

/// The Merkle root of two transactions is the double SHA-256 of their
/// identifiers joined, first then second.
pub proof fn lemma_merkle_root_pair(first: TransactionModel, second: TransactionModel)
    ensures
        spec_merkle_root(seq![first, second]) == spec_sha256(spec_sha256(spec_tx_id(first) + spec_tx_id(second))),
{
    let ids = tx_ids(seq![first, second]);
    assert(ids =~= seq![spec_tx_id(first), spec_tx_id(second)]);
    let level = merkle_level(ids);
    assert(level.len() == 1);
    assert(level[0] == spec_sha256(spec_sha256(spec_tx_id(first) + spec_tx_id(second))));
    assert(merkle_root_of(level) == level[0]);
}

} // verus!
