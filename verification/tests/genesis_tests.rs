use nio_blockchain::economy::{Economy, MINING_ALLOCATION_UNITS, PROJECT_RESERVE_UNITS, TOTAL_SUPPLY_UNITS};
use nio_blockchain::genesis::{GenesisState};

#[test]
fn genesis_is_created_correctly() {
    let genesis = GenesisState::new();

    assert_eq!(genesis.total_supply(), TOTAL_SUPPLY_UNITS);
    assert_eq!(genesis.project_reserve(), PROJECT_RESERVE_UNITS);
    assert_eq!(genesis.mining_allocation(), MINING_ALLOCATION_UNITS);
}

#[test]
fn genesis_is_valid() {
    let genesis = GenesisState::new();

    assert!(genesis.is_valid());
}

#[test]
fn genesis_total_supply_is_1000_nio() {
    let genesis = GenesisState::new();

    assert_eq!(
        genesis.total_supply(),
        1_000 * nio_blockchain::economy::UNITS_PER_NIO
    );
}

#[test]
fn genesis_project_reserve_is_100_nio() {
    let genesis = GenesisState::new();

    assert_eq!(
        genesis.project_reserve(),
        100 * nio_blockchain::economy::UNITS_PER_NIO
    );
}

#[test]
fn genesis_mining_allocation_is_900_nio() {
    let genesis = GenesisState::new();

    assert_eq!(
        genesis.mining_allocation(),
        900 * nio_blockchain::economy::UNITS_PER_NIO
    );
}

#[test]
fn reserve_plus_mining_equals_total() {
    let genesis = GenesisState::new();

    assert_eq!(
        genesis.project_reserve() + genesis.mining_allocation(),
        genesis.total_supply()
    );
}

#[test]
fn genesis_mining_supply_starts_at_zero() {
    let genesis = GenesisState::new();

    assert_eq!(genesis.initial_mining_supply(), 0);
}

#[test]
fn mining_cap_is_900_nio() {
    let genesis = GenesisState::new();

    assert_eq!(genesis.mining_cap(), MINING_ALLOCATION_UNITS);
}

#[test]
fn reserve_is_outside_mining() {
    let genesis = GenesisState::new();

    assert!(genesis.reserve_is_outside_mining());
    assert_ne!(genesis.project_reserve(), 0);
    assert_ne!(genesis.mining_allocation(), genesis.total_supply());
}

#[test]
fn reserve_amount_is_valid() {
    let genesis = GenesisState::new();

    assert!(genesis.is_reserve_amount(PROJECT_RESERVE_UNITS));
    assert!(genesis.is_reserve_amount(0));
}

#[test]
fn mining_amount_is_valid() {
    let genesis = GenesisState::new();

    assert!(genesis.is_mining_amount(MINING_ALLOCATION_UNITS));
    assert!(genesis.is_mining_amount(0));
}

#[test]
fn mining_cannot_exceed_genesis_allocation() {
    let genesis = GenesisState::new();

    assert!(!genesis.is_mining_amount(MINING_ALLOCATION_UNITS + 1));
}

#[test]
fn reserve_cannot_exceed_genesis_allocation() {
    let genesis = GenesisState::new();

    assert!(!genesis.is_reserve_amount(PROJECT_RESERVE_UNITS + 1));
}

#[test]
fn economy_policy_matches_genesis() {
    let genesis = GenesisState::new();

    assert!(Economy::policy_is_valid());
    assert!(genesis.is_valid());
}
