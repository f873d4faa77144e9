//! Monetary policy: supply allocation, halving schedule and block rewards.
use vstd::prelude::*;

verus! {

/// Number of decimal places of one NIO.
pub const DECIMALS: u32 = 14;

/// Smallest units in one NIO.
pub const UNITS_PER_NIO: u64 = 100_000_000_000_000;

pub const TOTAL_SUPPLY_NIO: u64 = 1_000;

pub const MINING_ALLOCATION_NIO: u64 = 900;

pub const PROJECT_RESERVE_NIO: u64 = 100;

pub const TOTAL_SUPPLY_UNITS: u64 = 100_000_000_000_000_000;

pub const MINING_ALLOCATION_UNITS: u64 = 90_000_000_000_000_000;

pub const PROJECT_RESERVE_UNITS: u64 = 10_000_000_000_000_000;

pub const TARGET_BLOCK_TIME_SECONDS: u64 = 60;

pub const TOTAL_BLOCKS: u64 = 450_000_000;

pub const HALVING_INTERVAL_BLOCKS: u64 = 2_102_400;

pub const HALVING_ERAS: u64 = 10;

/// Reward of a block in the first halving era, in units.
pub const INITIAL_REWARD_UNITS: u64 = 1_000_977_517;

/// Halving era of a block height.
pub open spec fn spec_halving_era(height: u64) -> u64 {
    height / HALVING_INTERVAL_BLOCKS
}

/// Scheduled reward of a height before the remaining mining allocation is
/// taken into account: the initial reward halved once per era, and zero from
/// the final era on.
pub open spec fn spec_base_reward(height: u64) -> u64 {
    if spec_halving_era(height) >= HALVING_ERAS {
        0
    } else {
        INITIAL_REWARD_UNITS >> spec_halving_era(height)
    }
}

/// Mining allocation still available after `supply` units were mined.
pub open spec fn spec_remaining_mining(supply: u64) -> u64 {
    if supply >= MINING_ALLOCATION_UNITS {
        0
    } else {
        (MINING_ALLOCATION_UNITS - supply) as u64
    }
}

/// Reward that consensus allows: the scheduled reward, cut down to the
/// remaining mining allocation.
pub open spec fn spec_block_reward(height: u64, supply: u64) -> u64 {
    if spec_base_reward(height) <= spec_remaining_mining(supply) {
        spec_base_reward(height)
    } else {
        spec_remaining_mining(supply)
    }
}

pub struct Economy;

impl Economy {
    /// Maximum amount that can ever be created through mining.
    pub fn mining_cap() -> (r: u64)
        ensures
            r == MINING_ALLOCATION_UNITS,
    {
        MINING_ALLOCATION_UNITS
    }

    /// Absolute maximum supply.
    pub fn total_supply() -> (r: u64)
        ensures
            r == TOTAL_SUPPLY_UNITS,
    {
        TOTAL_SUPPLY_UNITS
    }

    /// Permanent project reserve.
    pub fn project_reserve() -> (r: u64)
        ensures
            r == PROJECT_RESERVE_UNITS,
    {
        PROJECT_RESERVE_UNITS
    }

    /// Halving era of a block height.
    pub fn halving_era(height: u64) -> (r: u64)
        ensures
            r == spec_halving_era(height),
    {
        height / HALVING_INTERVAL_BLOCKS
    }

    /// Scheduled reward before the remaining-allocation limit.
    pub fn base_reward_at_height(height: u64) -> (r: u64)
        ensures
            r == spec_base_reward(height),
    {
        let era = Self::halving_era(height);
        if era >= HALVING_ERAS {
            return 0;
        }
        INITIAL_REWARD_UNITS >> era
    }

    /// Reward allowed by consensus; never more than the remaining allocation.
    pub fn block_reward(height: u64, current_mining_supply: u64) -> (r: u64)
        ensures
            r == spec_block_reward(height, current_mining_supply),
    {
        if current_mining_supply >= MINING_ALLOCATION_UNITS {
            return 0;
        }
        let theoretical = Self::base_reward_at_height(height);
        if theoretical == 0 {
            return 0;
        }
        let remaining = MINING_ALLOCATION_UNITS - current_mining_supply;
        if theoretical > remaining {
            remaining
        } else {
            theoretical
        }
    }

    /// Whether a claimed reward is exactly the reward consensus allows.
    pub fn is_valid_mining_reward(height: u64, current_mining_supply: u64, claimed_reward: u64) -> (r: bool)
        ensures
            r == (claimed_reward == spec_block_reward(height, current_mining_supply)),
    {
        claimed_reward == Self::block_reward(height, current_mining_supply)
    }

    /// Remaining mining allocation.
    pub fn remaining_mining(current_mining_supply: u64) -> (r: u64)
        ensures
            r == spec_remaining_mining(current_mining_supply),
    {
        MINING_ALLOCATION_UNITS.saturating_sub(current_mining_supply)
    }

    /// Whether a mining supply lies inside the hard cap.
    pub fn is_supply_valid(current_mining_supply: u64) -> (r: bool)
        ensures
            r == (current_mining_supply <= MINING_ALLOCATION_UNITS),
    {
        current_mining_supply <= MINING_ALLOCATION_UNITS
    }

    /// Whether mining allocation and reserve add up to the total supply.
    pub fn allocations_are_valid() -> (r: bool)
        ensures
            r == (MINING_ALLOCATION_UNITS + PROJECT_RESERVE_UNITS == TOTAL_SUPPLY_UNITS),
            r,
    {
        MINING_ALLOCATION_UNITS + PROJECT_RESERVE_UNITS == TOTAL_SUPPLY_UNITS
    }

    /// Whether the configured monetary policy is the published one.
    pub fn policy_is_valid() -> (r: bool)
        ensures
            r == (DECIMALS == 14 && TOTAL_SUPPLY_NIO == 1_000 && MINING_ALLOCATION_NIO == 900
                && PROJECT_RESERVE_NIO == 100 && TARGET_BLOCK_TIME_SECONDS == 60 && TOTAL_BLOCKS == 450_000_000
                && HALVING_INTERVAL_BLOCKS == 2_102_400 && HALVING_ERAS == 10 && MINING_ALLOCATION_UNITS
                + PROJECT_RESERVE_UNITS == TOTAL_SUPPLY_UNITS),
            r,
    {
        DECIMALS == 14 && TOTAL_SUPPLY_NIO == 1_000 && MINING_ALLOCATION_NIO == 900
            && PROJECT_RESERVE_NIO == 100 && TARGET_BLOCK_TIME_SECONDS == 60 && TOTAL_BLOCKS
            == 450_000_000 && HALVING_INTERVAL_BLOCKS == 2_102_400 && HALVING_ERAS == 10
            && Self::allocations_are_valid()
    }
}

/// The supply units are the NIO amounts scaled by the unit size.
pub proof fn lemma_units_match_nio_amounts()
    ensures
        TOTAL_SUPPLY_UNITS == TOTAL_SUPPLY_NIO * UNITS_PER_NIO,
        MINING_ALLOCATION_UNITS == MINING_ALLOCATION_NIO * UNITS_PER_NIO,
        PROJECT_RESERVE_UNITS == PROJECT_RESERVE_NIO * UNITS_PER_NIO,
        MINING_ALLOCATION_UNITS + PROJECT_RESERVE_UNITS == TOTAL_SUPPLY_UNITS,
{
}

/// The reward never exceeds what is left of the mining allocation, so a
/// supply inside the cap stays inside the cap after the reward is added.
pub proof fn lemma_reward_within_cap(height: u64, supply: u64)
    requires
        supply <= MINING_ALLOCATION_UNITS,
    ensures
        spec_block_reward(height, supply) <= MINING_ALLOCATION_UNITS - supply,
        supply + spec_block_reward(height, supply) <= MINING_ALLOCATION_UNITS,
{
}

/// The scheduled reward halves (by integer division) from one era to the next.
pub proof fn lemma_reward_halves(height: u64)
    requires
        spec_halving_era(height) + 1 < HALVING_ERAS,
        height + HALVING_INTERVAL_BLOCKS <= u64::MAX,
    ensures
        spec_base_reward((height + HALVING_INTERVAL_BLOCKS) as u64) == spec_base_reward(height) / 2,
{
    let e = spec_halving_era(height);
    assert(spec_halving_era((height + HALVING_INTERVAL_BLOCKS) as u64) == e + 1);
    let x = INITIAL_REWARD_UNITS;
    assert(e < 9);
    assert(x >> ((e + 1) as u64) == (x >> e) / 2) by (bit_vector)
        requires
            e < 9,
    ;
}

/// No reward is paid once the mining allocation is exhausted or the final
/// era is reached.
pub proof fn lemma_reward_zero_at_cap_or_final_era(height: u64, supply: u64)
    requires
        supply >= MINING_ALLOCATION_UNITS || spec_halving_era(height) >= HALVING_ERAS,
    ensures
        spec_block_reward(height, supply) == 0,
{
}

} // verus!
