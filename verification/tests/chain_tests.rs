use nio_blockchain::block::{Block};
use nio_blockchain::chain::{Blockchain};
use nio_blockchain::economy::{Economy};
use nio_blockchain::mining::{Miner};

#[test]
fn stress_long_chain_100_blocks() {
    let mut chain = Blockchain::new();

    for height in 1..=100u64 {
        let previous_hash = chain.latest_block().hash();

        let supply = chain.mining_supply();

        let reward = Economy::block_reward(height, supply);

        let difficulty = chain
            .expected_next_difficulty()
            .expect("difficulty calculation must succeed");

        let mut block =
            Block::new(1, height, previous_hash, height * 60, difficulty, 0, reward);

        Miner::mine(&mut block).expect("stress block must be mineable");

        chain
            .add_block(block)
            .expect("valid stress block must be accepted");

        assert_eq!(chain.len(), height as usize + 1);
    }

    assert_eq!(chain.len(), 101);
    assert!(chain.is_valid());
}

#[test]
fn stress_chain_state_remains_valid_after_each_block() {
    let mut chain = Blockchain::new();

    for height in 1..=50u64 {
        let previous_hash = chain.latest_block().hash();
        let supply = chain.mining_supply();
        let reward = Economy::block_reward(height, supply);

        let difficulty = chain
            .expected_next_difficulty()
            .expect("difficulty calculation must succeed");

        let mut block =
            Block::new(1, height, previous_hash, height * 60, difficulty, 0, reward);

        Miner::mine(&mut block).expect("block must be mineable");

        chain.add_block(block).expect("block must be accepted");

        assert!(
            chain.is_valid(),
            "chain became invalid at height {}",
            height
        );
    }
}

#[test]
fn stress_repeated_chain_validation() {
    let mut chain = Blockchain::new();

    for height in 1..=30u64 {
        let previous_hash = chain.latest_block().hash();
        let supply = chain.mining_supply();
        let reward = Economy::block_reward(height, supply);
        let difficulty = chain
            .expected_next_difficulty()
            .expect("difficulty calculation must succeed");

        let mut block =
            Block::new(1, height, previous_hash, height * 60, difficulty, 0, reward);

        Miner::mine(&mut block).expect("block must be mineable");

        chain.add_block(block).expect("block must be accepted");
    }

    for _ in 0..100 {
        assert!(chain.is_valid());
    }
}
