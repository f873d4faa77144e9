//! Emission arithmetic of the halving schedule: what an initial reward emits
//! over all eras, and the largest initial reward whose emission stays under a
//! cap.
use vstd::prelude::*;
use crate::economy::HALVING_INTERVAL_BLOCKS;

verus! {

/// Number of halvings the emission sum takes into account.
pub const MAX_HALVINGS: u32 = 64;

/// Emission over `eras` eras of a per-block reward that starts at `reward`,
/// halves (by integer division) after each era and stops once it is zero.
pub open spec fn spec_emission(reward: nat, eras: nat) -> nat
    decreases eras,
{
    if eras == 0 || reward == 0 {
        0
    } else {
        (reward * HALVING_INTERVAL_BLOCKS) as nat + spec_emission(reward / 2, (eras - 1) as nat)
    }
}

/// Emission of an initial reward over the whole schedule.
pub open spec fn spec_total_emission(reward: nat) -> nat {
    spec_emission(reward, MAX_HALVINGS as nat)
}

/// The emission of a reward is at most twice its first era.
pub proof fn lemma_emission_bound(reward: nat, eras: nat)
    ensures
        spec_emission(reward, eras) <= 2 * reward * HALVING_INTERVAL_BLOCKS,
    decreases eras,
{
    if eras > 0 && reward > 0 {
        let half = reward / 2;
        lemma_emission_bound(half, (eras - 1) as nat);
        assert(2 * half * HALVING_INTERVAL_BLOCKS <= reward * HALVING_INTERVAL_BLOCKS)
            by (nonlinear_arith)
            requires
                half == reward / 2,
        ;
    }
}

/// A larger initial reward never emits less.
pub proof fn lemma_emission_monotone(small: nat, large: nat, eras: nat)
    requires
        small <= large,
    ensures
        spec_emission(small, eras) <= spec_emission(large, eras),
    decreases eras,
{
    if eras > 0 && small > 0 {
        lemma_emission_monotone(small / 2, large / 2, (eras - 1) as nat);
        assert(small * HALVING_INTERVAL_BLOCKS <= large * HALVING_INTERVAL_BLOCKS)
            by (nonlinear_arith)
            requires
                small <= large,
        ;
    }
}

/// A positive reward emits at least itself (every era has at least one block).
pub proof fn lemma_emission_at_least_reward(reward: nat, eras: nat)
    requires
        eras > 0,
    ensures
        spec_emission(reward, eras) >= reward,
{
    if reward > 0 {
        assert(reward * HALVING_INTERVAL_BLOCKS >= reward) by (nonlinear_arith)
            requires
                reward > 0,
        ;
    }
}

/// Number of blocks in one halving era.
pub fn blocks_per_era() -> (r: u64)
    ensures
        r == HALVING_INTERVAL_BLOCKS,
{
    HALVING_INTERVAL_BLOCKS
}

/// Units mined during one whole era at a constant per-block reward.
pub fn era_emission(reward_units: u64) -> (r: u128)
    ensures
        r == reward_units * HALVING_INTERVAL_BLOCKS,
{
    let blocks = blocks_per_era();
    assert((reward_units as u128) * (blocks as u128) <= 0xffff_ffff_ffff_ffffu128 * 2_102_400u128)
        by (nonlinear_arith)
        requires
            blocks == 2_102_400,
    ;
    (reward_units as u128) * (blocks as u128)
}

/// Total emission of an initial reward over the whole schedule.
pub fn total_emission(initial_reward_units: u64) -> (r: u128)
    ensures
        r == spec_total_emission(initial_reward_units as nat),
{
    let mut reward = initial_reward_units;
    let mut total: u128 = 0;
    let mut era: u32 = 0;
    proof {
        lemma_emission_bound(initial_reward_units as nat, MAX_HALVINGS as nat);
    }
    while era < MAX_HALVINGS && reward != 0
        invariant
            era <= MAX_HALVINGS,
            total + spec_emission(reward as nat, (MAX_HALVINGS - era) as nat)
                == spec_total_emission(initial_reward_units as nat),
            spec_total_emission(initial_reward_units as nat)
                <= 2 * initial_reward_units * HALVING_INTERVAL_BLOCKS,
        decreases MAX_HALVINGS - era,
    {
        let emitted = era_emission(reward);
        assert(2 * initial_reward_units * HALVING_INTERVAL_BLOCKS <= 2 * 0xffff_ffff_ffff_ffffu128
            * 2_102_400u128) by (nonlinear_arith);
        total = total + emitted;
        reward = reward / 2;
        era = era + 1;
    }
    total
}

/// The largest initial reward whose total emission does not exceed
/// `cap_units`.
pub fn find_max_safe_initial_reward(cap_units: u64) -> (r: u64)
    ensures
        r <= cap_units,
        spec_total_emission(r as nat) <= cap_units,
        forall|x: nat| x > r ==> #[trigger] spec_total_emission(x) > cap_units,
{
    let mut low: u64 = 0;
    let mut high: u64 = cap_units;
    assert forall|x: nat| x > high implies #[trigger] spec_total_emission(x) > cap_units by {
        lemma_emission_at_least_reward(x, MAX_HALVINGS as nat);
    }
    while low < high
        invariant
            low <= high <= cap_units,
            spec_total_emission(low as nat) <= cap_units,
            forall|x: nat| x > high ==> #[trigger] spec_total_emission(x) > cap_units,
        decreases high - low,
    {
        let gap = high - low;
        let mid = low + gap / 2 + gap % 2;
        let emission = total_emission(mid);
        if emission <= cap_units as u128 {
            low = mid;
        } else {
            assert forall|x: nat| x > mid - 1 implies #[trigger] spec_total_emission(x)
                > cap_units by {
                lemma_emission_monotone(mid as nat, x, MAX_HALVINGS as nat);
            }
            high = mid - 1;
        }
    }
    low
}

} // verus!
