use nio_blockchain::economy::{DECIMALS, Economy, HALVING_ERAS, HALVING_INTERVAL_BLOCKS, INITIAL_REWARD_UNITS, MINING_ALLOCATION_UNITS, PROJECT_RESERVE_UNITS, TARGET_BLOCK_TIME_SECONDS, TOTAL_BLOCKS, TOTAL_SUPPLY_UNITS, UNITS_PER_NIO};

#[test]
fn decimals_are_14() {
    assert_eq!(DECIMALS, 14);
}

#[test]
fn one_nio_has_correct_units() {
    assert_eq!(UNITS_PER_NIO, 100_000_000_000_000);
}

#[test]
fn economy_total_supply_is_1000_nio() {
    assert_eq!(TOTAL_SUPPLY_UNITS, 1000 * UNITS_PER_NIO);
}

#[test]
fn economy_mining_allocation_is_900_nio() {
    assert_eq!(MINING_ALLOCATION_UNITS, 900 * UNITS_PER_NIO);
}

#[test]
fn economy_project_reserve_is_100_nio() {
    assert_eq!(PROJECT_RESERVE_UNITS, 100 * UNITS_PER_NIO);
}

#[test]
fn allocations_equal_total_supply() {
    assert!(Economy::allocations_are_valid());

    assert_eq!(
        MINING_ALLOCATION_UNITS + PROJECT_RESERVE_UNITS,
        TOTAL_SUPPLY_UNITS
    );
}

#[test]
fn block_time_is_60_seconds() {
    assert_eq!(TARGET_BLOCK_TIME_SECONDS, 60);
}

#[test]
fn total_blocks_are_correct() {
    assert_eq!(TOTAL_BLOCKS, 450_000_000);
}

#[test]
fn halving_interval_is_correct() {
    assert_eq!(HALVING_INTERVAL_BLOCKS, 2_102_400);
}

#[test]
fn halving_eras_are_correct() {
    assert_eq!(HALVING_ERAS, 10);
}

#[test]
fn initial_reward_is_correct() {
    assert_eq!(INITIAL_REWARD_UNITS, 1_000_977_517);

    assert_eq!(Economy::block_reward(0, 0), INITIAL_REWARD_UNITS);
}

#[test]
fn first_halving_is_correct() {
    assert_eq!(
        Economy::block_reward(HALVING_INTERVAL_BLOCKS, 0,),
        INITIAL_REWARD_UNITS / 2
    );
}

#[test]
fn second_halving_is_correct() {
    assert_eq!(
        Economy::block_reward(HALVING_INTERVAL_BLOCKS * 2, 0,),
        INITIAL_REWARD_UNITS / 4
    );
}

#[test]
fn halving_era_zero() {
    assert_eq!(Economy::halving_era(0), 0);

    assert_eq!(Economy::halving_era(HALVING_INTERVAL_BLOCKS - 1), 0);
}

#[test]
fn halving_boundary_is_correct() {
    assert_eq!(Economy::halving_era(HALVING_INTERVAL_BLOCKS), 1);
}

#[test]
fn reward_becomes_zero_after_final_era() {
    assert_eq!(Economy::block_reward(TOTAL_BLOCKS, 0,), 0);
}

#[test]
fn reward_is_zero_at_mining_cap() {
    assert_eq!(Economy::block_reward(0, MINING_ALLOCATION_UNITS), 0);
}

#[test]
fn reward_never_exceeds_remaining_supply() {
    let remaining = 10;

    let current = MINING_ALLOCATION_UNITS - remaining;

    assert_eq!(Economy::block_reward(0, current), remaining);
}

#[test]
fn economy_excessive_reward_is_rejected() {
    assert!(!Economy::is_valid_mining_reward(
        0,
        0,
        INITIAL_REWARD_UNITS + 1
    ));
}

#[test]
fn correct_reward_is_accepted() {
    assert!(Economy::is_valid_mining_reward(0, 0, INITIAL_REWARD_UNITS));
}

#[test]
fn economy_zero_reward_is_rejected_before_cap() {
    assert!(!Economy::is_valid_mining_reward(0, 0, 0));
}

#[test]
fn zero_reward_is_accepted_when_cap_is_reached() {
    assert!(Economy::is_valid_mining_reward(
        0,
        MINING_ALLOCATION_UNITS,
        0
    ));
}

#[test]
fn remaining_mining_is_correct() {
    assert_eq!(Economy::remaining_mining(0), MINING_ALLOCATION_UNITS);

    assert_eq!(Economy::remaining_mining(MINING_ALLOCATION_UNITS), 0);
}

#[test]
fn supply_above_cap_is_invalid() {
    assert!(!Economy::is_supply_valid(MINING_ALLOCATION_UNITS + 1));
}

#[test]
fn policy_is_valid() {
    assert!(Economy::policy_is_valid());
}
