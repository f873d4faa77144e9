//! Difficulty adjustment toward a target block time.
use vstd::prelude::*;

verus! {

#[derive(Debug, Clone, Copy, PartialEq, Eq)]
pub struct DifficultyAdjustment {
    pub target_block_time: u64,
    pub adjustment_interval: u64,
    pub min_difficulty: u64,
    pub max_difficulty: u64,
}

/// `x` limited to `[lo, hi]` (`lo <= hi`).
pub open spec fn spec_clamp(x: u64, lo: u64, hi: u64) -> u64 {
    if x < lo {
        lo
    } else if x > hi {
        hi
    } else {
        x
    }
}

/// Product limited to `u64::MAX`.
pub open spec fn spec_saturating_mul(a: u64, b: u64) -> u64 {
    if a * b > u64::MAX {
        u64::MAX
    } else {
        (a * b) as u64
    }
}

impl DifficultyAdjustment {
    /// Whether an adjustment can be computed with these parameters.
    pub open spec fn spec_adjustment_ok(
        self,
        previous_timestamp: u64,
        current_timestamp: u64,
        block_count: u64,
    ) -> bool {
        &&& self.target_block_time != 0
        &&& self.adjustment_interval != 0
        &&& self.min_difficulty <= self.max_difficulty
        &&& current_timestamp > previous_timestamp
        &&& block_count != 0
    }

    /// The adjusted difficulty: the current difficulty scaled by target time
    /// over average block time, limited to `[min, max]`; when blocks came in
    /// under a second on average, the current difficulty limited to the range.
    pub open spec fn spec_expected_difficulty(
        self,
        current_difficulty: u64,
        previous_timestamp: u64,
        current_timestamp: u64,
        block_count: u64,
    ) -> u64 {
        let average = ((current_timestamp - previous_timestamp) as u64) / block_count;
        if average == 0 {
            spec_clamp(current_difficulty, self.min_difficulty, self.max_difficulty)
        } else {
            spec_clamp(
                spec_saturating_mul(current_difficulty, self.target_block_time) / average,
                self.min_difficulty,
                self.max_difficulty,
            )
        }
    }

    pub fn new(
        target_block_time: u64,
        adjustment_interval: u64,
        min_difficulty: u64,
        max_difficulty: u64,
    ) -> (r: Self)
        ensures
            r == (DifficultyAdjustment { target_block_time, adjustment_interval, min_difficulty, max_difficulty }),
    {
        DifficultyAdjustment { target_block_time, adjustment_interval, min_difficulty, max_difficulty }
    }

    /// Difficulty expected at an adjustment point, from the timestamps that
    /// open and close `block_count` blocks; fails for zero target time, zero
    /// interval, an empty range, non-increasing timestamps or zero blocks.
    pub fn expected_difficulty(
        &self,
        current_difficulty: u64,
        previous_timestamp: u64,
        current_timestamp: u64,
        block_count: u64,
    ) -> (r: Result<u64, String>)
        ensures
            r is Ok <==> self.spec_adjustment_ok(previous_timestamp, current_timestamp, block_count),
            r matches Ok(d) ==> d == self.spec_expected_difficulty(
                current_difficulty,
                previous_timestamp,
                current_timestamp,
                block_count,
            ),
    {
        if self.target_block_time == 0 {
            return Err(String::from_str("target_block_time must be greater than zero"));
        }
        if self.adjustment_interval == 0 {
            return Err(String::from_str("adjustment_interval must be greater than zero"));
        }
        if self.min_difficulty > self.max_difficulty {
            return Err(String::from_str("min_difficulty cannot be greater than max_difficulty"));
        }
        if current_timestamp <= previous_timestamp {
            return Err(String::from_str("current_timestamp must be greater than previous_timestamp"));
        }
        if block_count == 0 {
            return Err(String::from_str("block_count must be greater than zero"));
        }
        let elapsed = current_timestamp - previous_timestamp;
        let average_block_time = elapsed / block_count;
        if average_block_time == 0 {
            let lower = if current_difficulty > self.min_difficulty {
                current_difficulty
            } else {
                self.min_difficulty
            };
            let result = if self.max_difficulty < lower {
                self.max_difficulty
            } else {
                lower
            };
            return Ok(result);
        }
        let product = match current_difficulty.checked_mul(self.target_block_time) {
            Some(v) => v,
            None => u64::MAX,
        };
        let next_difficulty = product / average_block_time;
        Ok(clamp_u64(next_difficulty, self.min_difficulty, self.max_difficulty))
    }

    /// Difficulty expected for the block at `next_height`: unchanged (only
    /// limited to the range) between adjustment points, adjusted over the
    /// last interval at a multiple of the interval.
    pub fn expected_difficulty_for_height(
        &self,
        current_difficulty: u64,
        previous_timestamp: u64,
        adjustment_start_timestamp: u64,
        next_height: u64,
    ) -> (r: Result<u64, String>)
        requires
            self.adjustment_interval != 0 && next_height != 0 && next_height % self.adjustment_interval
                != 0 ==> self.min_difficulty <= self.max_difficulty,
        ensures
            r is Ok <==> (self.adjustment_interval != 0 && next_height != 0 && (next_height
                % self.adjustment_interval != 0 || self.spec_adjustment_ok(
                adjustment_start_timestamp,
                previous_timestamp,
                self.adjustment_interval,
            ))),
            r matches Ok(d) ==> d == if next_height % self.adjustment_interval != 0 {
                spec_clamp(current_difficulty, self.min_difficulty, self.max_difficulty)
            } else {
                self.spec_expected_difficulty(
                    current_difficulty,
                    adjustment_start_timestamp,
                    previous_timestamp,
                    self.adjustment_interval,
                )
            },
    {
        if self.adjustment_interval == 0 {
            return Err(String::from_str("adjustment_interval must be greater than zero"));
        }
        if next_height == 0 {
            return Err(String::from_str("next_height must be greater than zero"));
        }
        if !next_height.is_multiple_of(self.adjustment_interval) {
            return Ok(clamp_u64(current_difficulty, self.min_difficulty, self.max_difficulty));
        }
        let block_count = self.adjustment_interval;
        self.expected_difficulty(
            current_difficulty,
            adjustment_start_timestamp,
            previous_timestamp,
            block_count,
        )
    }
}

/// `x` limited to `[lo, hi]`.
fn clamp_u64(x: u64, lo: u64, hi: u64) -> (r: u64)
    requires
        lo <= hi,
    ensures
        r == spec_clamp(x, lo, hi),
{
    if x < lo {
        lo
    } else if x > hi {
        hi
    } else {
        x
    }
}

/// An adjusted difficulty always lies in the configured range.
pub proof fn lemma_difficulty_in_range(
    d: DifficultyAdjustment,
    current: u64,
    previous_timestamp: u64,
    current_timestamp: u64,
    block_count: u64,
)
    requires
        d.spec_adjustment_ok(previous_timestamp, current_timestamp, block_count),
    ensures
        d.min_difficulty <= d.spec_expected_difficulty(current, previous_timestamp, current_timestamp, block_count) <= d.max_difficulty,
{
}

/// Adjustment scales the difficulty by target time over average block time.
/// With `a` the whole seconds per block over the window, nonzero, and
/// `p = current * target` fitting a `u64`: the result `r` lies in the range;
/// when `p / a` lies in the range, `r` is that quotient (`r * a <= p <
/// (r + 1) * a`); below or above the range it is the nearest bound.
pub proof fn lemma_adjustment_scales(
    d: DifficultyAdjustment,
    current: u64,
    previous_timestamp: u64,
    current_timestamp: u64,
    block_count: u64,
)
    requires
        d.spec_adjustment_ok(previous_timestamp, current_timestamp, block_count),
        (current_timestamp - previous_timestamp) / (block_count as int) > 0,
        current * d.target_block_time <= u64::MAX,
    ensures
        ({
            let a = (current_timestamp - previous_timestamp) / (block_count as int);
            let p = current * d.target_block_time;
            let r = d.spec_expected_difficulty(current, previous_timestamp, current_timestamp, block_count);
            &&& d.min_difficulty <= r <= d.max_difficulty
            &&& d.min_difficulty * a <= p < (d.max_difficulty + 1) * a ==> r * a <= p < (r + 1) * a
            &&& p < d.min_difficulty * a ==> r == d.min_difficulty
            &&& p >= (d.max_difficulty + 1) * a ==> r == d.max_difficulty
        }),
{
    let a = (current_timestamp - previous_timestamp) / (block_count as int);
    let p = current * d.target_block_time;
    let q = p / a;
    assert(q * a <= p < (q + 1) * a) by (nonlinear_arith)
        requires
            a > 0,
            p >= 0,
            q == p / a,
    ;
    assert(p < d.min_difficulty * a ==> q < d.min_difficulty) by (nonlinear_arith)
        requires
            a > 0,
            q * a <= p,
            q >= 0,
    ;
    assert(d.min_difficulty * a <= p ==> d.min_difficulty <= q) by (nonlinear_arith)
        requires
            a > 0,
            p < (q + 1) * a,
    ;
    assert(p < (d.max_difficulty + 1) * a ==> q <= d.max_difficulty) by (nonlinear_arith)
        requires
            a > 0,
            q * a <= p,
    ;
    assert(p >= (d.max_difficulty + 1) * a ==> q > d.max_difficulty) by (nonlinear_arith)
        requires
            a > 0,
            p < (q + 1) * a,
    ;
}

/// When `current * target` overflows a `u64`, the scaling uses `u64::MAX`
/// in its place: the result is `u64::MAX / a` limited to the range.
pub proof fn lemma_adjustment_saturates(
    d: DifficultyAdjustment,
    current: u64,
    previous_timestamp: u64,
    current_timestamp: u64,
    block_count: u64,
)
    requires
        d.spec_adjustment_ok(previous_timestamp, current_timestamp, block_count),
        (current_timestamp - previous_timestamp) / (block_count as int) > 0,
        current * d.target_block_time > u64::MAX,
    ensures
        ({
            let a = (current_timestamp - previous_timestamp) / (block_count as int);
            let r = d.spec_expected_difficulty(current, previous_timestamp, current_timestamp, block_count);
            &&& d.min_difficulty * a <= u64::MAX < (d.max_difficulty + 1) * a ==> r * a <= u64::MAX < (r + 1) * a
            &&& u64::MAX < d.min_difficulty * a ==> r == d.min_difficulty
            &&& u64::MAX >= (d.max_difficulty + 1) * a ==> r == d.max_difficulty
        }),
{
    let a = (current_timestamp - previous_timestamp) / (block_count as int);
    let p = u64::MAX as int;
    let q = p / a;
    assert(q * a <= p < (q + 1) * a) by (nonlinear_arith)
        requires
            a > 0,
            p >= 0,
            q == p / a,
    ;
    assert(p < d.min_difficulty * a ==> q < d.min_difficulty) by (nonlinear_arith)
        requires
            a > 0,
            q * a <= p,
            q >= 0,
    ;
    assert(d.min_difficulty * a <= p ==> d.min_difficulty <= q) by (nonlinear_arith)
        requires
            a > 0,
            p < (q + 1) * a,
    ;
    assert(p < (d.max_difficulty + 1) * a ==> q <= d.max_difficulty) by (nonlinear_arith)
        requires
            a > 0,
            q * a <= p,
    ;
    assert(p >= (d.max_difficulty + 1) * a ==> q > d.max_difficulty) by (nonlinear_arith)
        requires
            a > 0,
            p < (q + 1) * a,
    ;
}

/// Blocks coming twice as fast as the target double the difficulty, when
/// the doubled difficulty lies in the range.
pub proof fn lemma_twice_as_fast_doubles(
    d: DifficultyAdjustment,
    current: u64,
    previous_timestamp: u64,
    current_timestamp: u64,
    block_count: u64,
)
    requires
        d.spec_adjustment_ok(previous_timestamp, current_timestamp, block_count),
        ((current_timestamp - previous_timestamp) / (block_count as int)) * 2 == d.target_block_time,
        d.min_difficulty <= 2 * current <= d.max_difficulty,
        current * d.target_block_time <= u64::MAX,
    ensures
        d.spec_expected_difficulty(current, previous_timestamp, current_timestamp, block_count) == 2 * current,
{
    let a = (current_timestamp - previous_timestamp) / (block_count as int);
    assert(current * d.target_block_time == 2 * current * a) by (nonlinear_arith)
        requires
            a * 2 == d.target_block_time,
    ;
    assert((2 * current * a) / a == 2 * current) by (nonlinear_arith)
        requires
            a > 0,
    ;
}

/// Blocks coming in under a second on average leave the difficulty as it
/// is, limited to the range.
pub proof fn lemma_sub_second_blocks_keep_difficulty(
    d: DifficultyAdjustment,
    current: u64,
    previous_timestamp: u64,
    current_timestamp: u64,
    block_count: u64,
)
    requires
        d.spec_adjustment_ok(previous_timestamp, current_timestamp, block_count),
        current_timestamp - previous_timestamp < block_count,
        d.min_difficulty <= current <= d.max_difficulty,
    ensures
        d.spec_expected_difficulty(current, previous_timestamp, current_timestamp, block_count) == current,
{
    let elapsed = (current_timestamp - previous_timestamp) as u64;
    assert(elapsed / block_count == 0) by (nonlinear_arith)
        requires
            elapsed < block_count,
    ;
}

impl Default for DifficultyAdjustment {
    fn default() -> (r: Self)
        ensures
            r == (DifficultyAdjustment { target_block_time: 60, adjustment_interval: 2_016, min_difficulty: 1, max_difficulty: 32 }),
    {
        Self::new(60, 2_016, 1, 32)
    }
}

} // verus!
