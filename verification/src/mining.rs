//! Proof-of-work: nonce search and target checks.
use vstd::prelude::*;
use crate::block::{Block, BlockModel, spec_block_hash};
use crate::crypto::{sha256, spec_sha256};

verus! {

/// A hash meets difficulty `d` (1 to 32) when its first `d` bytes are zero.
pub open spec fn spec_meets_target(hash: Seq<u8>, difficulty: int) -> bool {
    &&& 1 <= difficulty <= 32
    &&& forall|i: int| 0 <= i < difficulty ==> hash[i] == 0
}

/// Whether a block's stored nonce satisfies its own difficulty.
pub open spec fn spec_pow_valid(b: BlockModel) -> bool {
    spec_meets_target(b.hash(), b.header.difficulty as int)
}

/// Hash of a block header with its nonce replaced.
pub open spec fn hash_with_nonce(h: crate::block::BlockHeader, miner_reward: u64, nonce: u64) -> Seq<u8> {
    spec_block_hash(crate::block::BlockHeader { nonce: nonce, ..h }, miner_reward)
}

pub struct Miner;

impl Miner {
    /// Searches nonces upward from the block's current nonce until the hash
    /// meets the block's difficulty, and leaves that nonce in the block;
    /// fails for a difficulty outside 1..=32 or when the nonce space runs out.
    pub fn mine(block: &mut Block) -> (r: Result<u64, String>)
        ensures
            final(block)@.transactions == old(block)@.transactions,
            final(block).transactions == old(block).transactions,
            final(block).miner_reward == old(block).miner_reward,
            final(block).header == (crate::block::BlockHeader { nonce: final(block).header.nonce, ..old(block).header }),
            (old(block).header.difficulty == 0 || old(block).header.difficulty > 32) ==> r is Err
                && final(block).header.nonce == old(block).header.nonce,
            r matches Ok(n) ==> n == final(block).header.nonce && n >= old(block).header.nonce
                && spec_pow_valid(final(block)@)
                && forall|m: u64| old(block).header.nonce <= m < n ==> !spec_meets_target(
                    #[trigger] hash_with_nonce(old(block).header, old(block).miner_reward, m),
                    old(block).header.difficulty as int,
                ),
            r is Err && 1 <= old(block).header.difficulty <= 32 ==> forall|m: u64| old(block).header.nonce <= m ==> !spec_meets_target(
                #[trigger] hash_with_nonce(old(block).header, old(block).miner_reward, m),
                old(block).header.difficulty as int,
            ),
    {
        let difficulty = block.header.difficulty as usize;
        if difficulty == 0 {
            return Err(String::from_str("difficulty must be greater than zero"));
        }
        if difficulty > 32 {
            return Err(String::from_str("difficulty cannot exceed 32"));
        }
        let ghost start = block.header;
        let mut nonce = block.header.nonce;
        loop
            invariant
                block.transactions == old(block).transactions,
                block.miner_reward == old(block).miner_reward,
                block.header == (crate::block::BlockHeader { nonce: block.header.nonce, ..start }),
                start == old(block).header,
                difficulty == start.difficulty as usize,
                1 <= difficulty <= 32,
                nonce >= start.nonce,
                forall|m: u64| start.nonce <= m < nonce ==> !spec_meets_target(
                    #[trigger] hash_with_nonce(start, old(block).miner_reward, m),
                    start.difficulty as int,
                ),
            decreases u64::MAX - nonce,
        {
            block.header.nonce = nonce;
            assert(block.header == (crate::block::BlockHeader { nonce: nonce, ..start }));
            if Self::meets_target(block, difficulty) {
                return Ok(nonce);
            }
            match nonce.checked_add(1) {
                Some(v) => {
                    nonce = v;
                },
                None => {
                    return Err(String::from_str("nonce overflow"));
                },
            }
        }
    }

    /// Whether the block hash has `difficulty` leading zero bytes; false for
    /// a difficulty outside 1..=32.
    pub fn meets_target(block: &Block, difficulty: usize) -> (r: bool)
        ensures
            r == spec_meets_target(block@.hash(), difficulty as int),
    {
        if difficulty == 0 || difficulty > 32 {
            return false;
        }
        let hash = block.hash();
        for i in 0..difficulty
            invariant
                difficulty <= 32,
                hash@ == block@.hash(),
                forall|j: int| 0 <= j < i ==> hash@[j] == 0,
        {
            if hash[i] != 0 {
                return false;
            }
        }
        true
    }

    /// Whether the block meets its own difficulty.
    pub fn validate(block: &Block) -> (r: bool)
        ensures
            r == spec_pow_valid(block@),
    {
        let difficulty = block.header.difficulty as usize;
        Self::meets_target(block, difficulty)
    }

    /// SHA-256 of arbitrary data.
    pub fn sha256(data: &[u8]) -> (r: [u8; 32])
        ensures
            r@ == spec_sha256(data@),
    {
        sha256(data)
    }
}

/// For difficulty `d` in 1..=32 a hash meets the target exactly when its
/// first `d` bytes are zero: a nonzero byte at index `d - 1` fails it, and a
/// hash that meets `d + 1` meets `d`.
pub proof fn lemma_target_is_leading_zero_bytes(hash: Seq<u8>, d: int)
    requires
        1 <= d <= 32,
    ensures
        hash[d - 1] != 0 ==> !spec_meets_target(hash, d),
        (forall|i: int| 0 <= i < d ==> hash[i] == 0) ==> spec_meets_target(hash, d),
        spec_meets_target(hash, d) ==> forall|i: int| 0 <= i < d ==> hash[i] == 0,
        d < 32 && spec_meets_target(hash, d + 1) ==> spec_meets_target(hash, d),
{
}

} // verus!
