//! The project reserve: part of the total supply, separate from mining.
use vstd::prelude::*;
use crate::economy::{Economy, MINING_ALLOCATION_UNITS, PROJECT_RESERVE_UNITS, TOTAL_SUPPLY_UNITS};

verus! {

#[derive(Debug, Clone, Copy, PartialEq, Eq)]
pub struct ProjectReserve {
    amount: u64,
}

impl ProjectReserve {
    pub closed spec fn spec_amount(self) -> u64 {
        self.amount
    }

    /// The reserve of the monetary policy; fails only if that is zero.
    pub fn new() -> (r: Result<Self, String>)
        ensures
            r is Ok,
            r matches Ok(p) ==> p.spec_amount() == PROJECT_RESERVE_UNITS,
    {
        let amount = Economy::project_reserve();
        if amount == 0 {
            return Err(String::from_str("project reserve cannot be zero"));
        }
        Ok(ProjectReserve { amount })
    }

    pub fn amount(&self) -> (r: u64)
        ensures
            r == self.spec_amount(),
    {
        self.amount
    }

    /// Whether the amount is the reserve of the monetary policy.
    pub fn is_valid(&self) -> (r: bool)
        ensures
            r == (self.spec_amount() == PROJECT_RESERVE_UNITS),
    {
        self.amount == Economy::project_reserve()
    }

    /// Whether a mining supply stays inside the mining cap while this reserve
    /// is the policy's reserve.
    pub fn is_separate_from_mining(&self, mining_supply: u64) -> (r: bool)
        ensures
            r == (mining_supply <= MINING_ALLOCATION_UNITS && self.spec_amount() == PROJECT_RESERVE_UNITS),
    {
        mining_supply <= Economy::mining_cap() && self.amount == Economy::project_reserve()
    }

    /// Whether reserve plus mining cap is exactly the total supply.
    pub fn allocation_is_valid(&self) -> (r: bool)
        ensures
            r == (self.spec_amount() + MINING_ALLOCATION_UNITS == TOTAL_SUPPLY_UNITS),
    {
        match self.amount.checked_add(Economy::mining_cap()) {
            Some(v) => v == Economy::total_supply(),
            None => false,
        }
    }
}

impl Default for ProjectReserve {
    fn default() -> (r: Self)
        ensures
            r.spec_amount() == PROJECT_RESERVE_UNITS,
    {
        match Self::new() {
            Ok(p) => p,
            Err(_) => ProjectReserve { amount: PROJECT_RESERVE_UNITS },
        }
    }
}

} // verus!
