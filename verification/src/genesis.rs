//! The immutable genesis allocation.
use vstd::prelude::*;
use crate::economy::{Economy, MINING_ALLOCATION_UNITS, PROJECT_RESERVE_UNITS, TOTAL_SUPPLY_UNITS};

verus! {

/// Genesis allocation: total supply, project reserve and mining allocation.
/// The reserve is not mining supply.
#[derive(Debug, Clone, Copy, PartialEq, Eq)]
pub struct GenesisState {
    total_supply: u64,
    project_reserve: u64,
    mining_allocation: u64,
}

impl GenesisState {
    pub closed spec fn spec_total_supply(self) -> u64 {
        self.total_supply
    }

    pub closed spec fn spec_project_reserve(self) -> u64 {
        self.project_reserve
    }

    pub closed spec fn spec_mining_allocation(self) -> u64 {
        self.mining_allocation
    }

    /// The canonical genesis state.
    pub fn new() -> (r: Self)
        ensures
            r.spec_total_supply() == TOTAL_SUPPLY_UNITS,
            r.spec_project_reserve() == PROJECT_RESERVE_UNITS,
            r.spec_mining_allocation() == MINING_ALLOCATION_UNITS,
    {
        GenesisState {
            total_supply: TOTAL_SUPPLY_UNITS,
            project_reserve: PROJECT_RESERVE_UNITS,
            mining_allocation: MINING_ALLOCATION_UNITS,
        }
    }

    pub fn total_supply(&self) -> (r: u64)
        ensures
            r == self.spec_total_supply(),
    {
        self.total_supply
    }

    pub fn project_reserve(&self) -> (r: u64)
        ensures
            r == self.spec_project_reserve(),
    {
        self.project_reserve
    }

    pub fn mining_allocation(&self) -> (r: u64)
        ensures
            r == self.spec_mining_allocation(),
    {
        self.mining_allocation
    }

    /// Whether this is the canonical allocation and reserve plus mining
    /// allocation make up the total supply.
    pub fn is_valid(&self) -> (r: bool)
        ensures
            r == (self.spec_total_supply() == TOTAL_SUPPLY_UNITS && self.spec_project_reserve()
                == PROJECT_RESERVE_UNITS && self.spec_mining_allocation() == MINING_ALLOCATION_UNITS),
    {
        self.total_supply == TOTAL_SUPPLY_UNITS && self.project_reserve == PROJECT_RESERVE_UNITS
            && self.mining_allocation == MINING_ALLOCATION_UNITS && self.project_reserve
            + self.mining_allocation == self.total_supply && Economy::allocations_are_valid()
    }

    /// Whether an amount fits the mining allocation.
    pub fn is_mining_amount(&self, amount: u64) -> (r: bool)
        ensures
            r == (amount <= self.spec_mining_allocation()),
    {
        amount <= self.mining_allocation
    }

    /// Whether an amount fits the project reserve.
    pub fn is_reserve_amount(&self, amount: u64) -> (r: bool)
        ensures
            r == (amount <= self.spec_project_reserve()),
    {
        amount <= self.project_reserve
    }

    /// Mining supply at genesis: always zero.
    pub fn initial_mining_supply(&self) -> (r: u64)
        ensures
            r == 0,
    {
        0
    }

    /// The mining cap: the mining allocation, nothing more.
    pub fn mining_cap(&self) -> (r: u64)
        ensures
            r == self.spec_mining_allocation(),
    {
        self.mining_allocation
    }

    /// Whether the mining allocation excludes the reserve.
    pub fn reserve_is_outside_mining(&self) -> (r: bool)
        ensures
            r == (self.spec_mining_allocation() + self.spec_project_reserve() == self.spec_total_supply()
                && self.spec_mining_allocation() != self.spec_total_supply()),
    {
        self.mining_allocation as u128 + self.project_reserve as u128 == self.total_supply as u128
            && self.mining_allocation != self.total_supply
    }
}

impl Default for GenesisState {
    fn default() -> (r: Self)
        ensures
            r.spec_total_supply() == TOTAL_SUPPLY_UNITS,
            r.spec_project_reserve() == PROJECT_RESERVE_UNITS,
            r.spec_mining_allocation() == MINING_ALLOCATION_UNITS,
    {
        Self::new()
    }
}

} // verus!
