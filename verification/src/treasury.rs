//! The treasury: a public address and the reserve allocated to it.
use vstd::prelude::*;
use crate::bytes::{is_all_zero, spec_all_zero};
use crate::economy::{Economy, MINING_ALLOCATION_UNITS, PROJECT_RESERVE_UNITS, TOTAL_SUPPLY_UNITS};
use crate::reserve::ProjectReserve;

verus! {

pub const TREASURY_ADDRESS_LENGTH: usize = 33;

/// Public address of the treasury; never all zeros.
#[derive(Debug, Clone, Copy, PartialEq, Eq)]
pub struct TreasuryAddress {
    bytes: [u8; TREASURY_ADDRESS_LENGTH],
}

impl TreasuryAddress {
    pub closed spec fn spec_bytes(&self) -> Seq<u8> {
        self.bytes@
    }

    /// An address from 33 bytes; fails when all of them are zero.
    pub fn new(bytes: [u8; TREASURY_ADDRESS_LENGTH]) -> (r: Result<Self, String>)
        ensures
            r is Ok <==> !spec_all_zero(bytes@),
            r matches Ok(a) ==> a.spec_bytes() == bytes@,
    {
        if is_all_zero(&bytes) {
            return Err(String::from_str("treasury address cannot be all zeros"));
        }
        Ok(TreasuryAddress { bytes })
    }

    pub fn as_bytes(&self) -> (r: &[u8; TREASURY_ADDRESS_LENGTH])
        ensures
            r@ == self.spec_bytes(),
    {
        &self.bytes
    }

    pub fn is_valid(&self) -> (r: bool)
        ensures
            r == !spec_all_zero(self.spec_bytes()),
    {
        !is_all_zero(&self.bytes)
    }
}

/// The reserve allocated to the treasury address.
#[derive(Debug, Clone, Copy, PartialEq, Eq)]
pub struct TreasuryAllocation {
    address: TreasuryAddress,
    amount: u64,
}

impl TreasuryAllocation {
    pub closed spec fn spec_address(&self) -> TreasuryAddress {
        self.address
    }

    pub closed spec fn spec_amount(&self) -> u64 {
        self.amount
    }

    /// The official allocation: always exactly the project reserve.
    pub fn new(address: TreasuryAddress) -> (r: Result<Self, String>)
        ensures
            r is Ok,
            r matches Ok(a) ==> a.spec_amount() == PROJECT_RESERVE_UNITS && a.spec_address() == address,
    {
        let reserve = match ProjectReserve::new() {
            Ok(r) => r,
            Err(e) => return Err(e),
        };
        if !reserve.is_valid() {
            return Err(String::from_str("invalid project reserve policy"));
        }
        let amount = reserve.amount();
        if amount != Economy::project_reserve() {
            return Err(String::from_str("treasury amount does not match project reserve"));
        }
        Ok(TreasuryAllocation { address, amount })
    }

    pub fn address(&self) -> (r: &TreasuryAddress)
        ensures
            *r == self.spec_address(),
    {
        &self.address
    }

    pub fn amount(&self) -> (r: u64)
        ensures
            r == self.spec_amount(),
    {
        self.amount
    }

    /// Valid address, amount equal to the reserve, reserve plus mining cap
    /// equal to the total supply.
    pub fn is_valid(&self) -> (r: bool)
        ensures
            r == (!spec_all_zero(self.spec_address().spec_bytes()) && self.spec_amount() == PROJECT_RESERVE_UNITS),
    {
        self.address.is_valid() && self.amount == Economy::project_reserve() && self.amount
            + Economy::mining_cap() == Economy::total_supply()
    }

    /// The treasury amount is the reserve and not the mining allocation.
    pub fn is_not_mining_supply(&self) -> (r: bool)
        ensures
            r == (self.spec_amount() == PROJECT_RESERVE_UNITS),
    {
        self.amount == Economy::project_reserve() && self.amount != Economy::mining_cap()
    }
}

} // verus!
