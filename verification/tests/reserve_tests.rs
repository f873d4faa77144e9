use nio_blockchain::economy::{Economy};
use nio_blockchain::reserve::{ProjectReserve};

#[test]
fn reserve_is_exactly_100_nio() {
    let reserve = ProjectReserve::new().expect("reserve should be created");

    assert_eq!(reserve.amount(), Economy::project_reserve());
}

#[test]
fn reserve_is_valid() {
    let reserve = ProjectReserve::new().expect("reserve should be created");

    assert!(reserve.is_valid());
}

#[test]
fn reserve_is_separate_from_mining() {
    let reserve = ProjectReserve::new().expect("reserve should be created");

    assert!(reserve.is_separate_from_mining(0));
    assert!(reserve.is_separate_from_mining(Economy::mining_cap()));
}

#[test]
fn reserve_and_mining_equal_total_supply() {
    let reserve = ProjectReserve::new().expect("reserve should be created");

    assert!(reserve.allocation_is_valid());
}

#[test]
fn reserve_is_not_mining_supply() {
    let reserve = ProjectReserve::new().expect("reserve should be created");

    assert_ne!(reserve.amount(), Economy::mining_cap());
}

#[test]
fn reserve_cannot_be_zero() {
    let reserve = ProjectReserve::new().expect("reserve should be created");

    assert!(reserve.amount() > 0);
}
