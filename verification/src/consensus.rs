//! The difficulty retargeting algorithm: the next primary difficulty and
//! secondary proof-of-work scaling, computed from a trailing window of
//! header difficulty data with damping and clamping against timestamp
//! manipulation.

use vstd::prelude::*;
use std::collections::VecDeque;
use vstd::arithmetic::div_mod::{lemma_div_is_ordered, lemma_div_is_ordered_by_denominator};

verus! {

/// Target block interval in seconds.
pub const BLOCK_TIME_SEC: u64 = 60;

/// Headers in the retarget window.
pub const DIFFICULTY_ADJUST_WINDOW: u64 = 60;

/// Ideal span of the retarget window: `DIFFICULTY_ADJUST_WINDOW *
/// BLOCK_TIME_SEC` seconds.
pub const BLOCK_TIME_WINDOW: u64 = 3600;

/// Clamp factor for the adjusted window span.
pub const CLAMP_FACTOR: u64 = 2;

/// Dampening factor for the primary difficulty adjustment.
pub const DIFFICULTY_DAMP_FACTOR: u64 = 3;

/// Dampening factor for the secondary scaling adjustment.
pub const AR_SCALE_DAMP_FACTOR: u64 = 13;

/// Floor of the retargeted difficulty; keeps the adjustment from
/// sticking at the bottom under dampening.
pub const MIN_DIFFICULTY: u64 = 3;

/// Floor of the secondary scaling.
pub const MIN_AR_SCALE: u64 = 13;

/// Blocks in a year at the target interval.
pub const YEAR_HEIGHT: u64 = 524160;

/// Secondary scaling given to simulated pre-genesis window entries.
pub const INITIAL_SECONDARY_SCALING: u32 = 1;

/// Results remembered in the caller's cache.
pub const DIFFICULTY_CACHE_SIZE: usize = 60;

/// A cumulative proof-of-work difficulty.
#[derive(Clone, Copy, PartialEq, Eq, Structural, Debug)]
pub struct Difficulty {
    pub num: u64,
}

impl Difficulty {
    /// Difficulty of zero.
    pub fn zero() -> (r: Difficulty)
        ensures
            r.num == 0,
    {
        Difficulty { num: 0 }
    }

    /// The minimum difficulty the retarget can return.
    pub fn min() -> (r: Difficulty)
        ensures
            r.num == MIN_DIFFICULTY,
    {
        Difficulty { num: MIN_DIFFICULTY }
    }

    /// A difficulty from a plain number.
    pub fn from_num(num: u64) -> (r: Difficulty)
        ensures
            r.num == num,
    {
        Difficulty { num }
    }

    /// The plain number of this difficulty.
    pub fn to_num(&self) -> (r: u64)
        ensures
            r == self.num,
    {
        self.num
    }
}

/// The difficulty data of one header in the retarget window.
#[derive(Clone, Copy, Debug)]
pub struct HeaderDifficultyInfo {
    /// Sequence index of the entry, newest at zero.
    pub index: u64,
    /// Hash of the header, when one exists.
    pub block_hash: Option<crate::types::Hash>,
    /// Timestamp of the header, in seconds.
    pub timestamp: u64,
    /// Network difficulty the header was mined at.
    pub difficulty: Difficulty,
    /// Secondary proof-of-work scaling of the header.
    pub secondary_scaling: u32,
    /// Whether the header used the secondary proof of work.
    pub is_secondary: bool,
}

impl HeaderDifficultyInfo {
    /// An entry from all its parts.
    pub fn new(
        index: u64,
        block_hash: Option<crate::types::Hash>,
        timestamp: u64,
        difficulty: Difficulty,
        secondary_scaling: u32,
        is_secondary: bool,
    ) -> (r: HeaderDifficultyInfo)
        ensures
            r == (HeaderDifficultyInfo {
                index,
                block_hash,
                timestamp,
                difficulty,
                secondary_scaling,
                is_secondary,
            }),
    {
        HeaderDifficultyInfo { index, block_hash, timestamp, difficulty, secondary_scaling, is_secondary }
    }

    /// An entry from a timestamp and difficulty alone, as the simulated
    /// pre-genesis entries are made.
    pub fn from_ts_diff(timestamp: u64, difficulty: Difficulty) -> (r: HeaderDifficultyInfo)
        ensures
            r == spec_sim_record(timestamp, difficulty),
    {
        HeaderDifficultyInfo {
            index: 0,
            block_hash: None,
            timestamp,
            difficulty,
            secondary_scaling: INITIAL_SECONDARY_SCALING,
            is_secondary: true,
        }
    }

    /// An entry from a difficulty and scaling alone, as the retarget
    /// result is returned.
    pub fn from_diff_scaling(difficulty: Difficulty, secondary_scaling: u32) -> (r:
        HeaderDifficultyInfo)
        ensures
            r == (HeaderDifficultyInfo {
                index: 0,
                block_hash: None,
                timestamp: 1,
                difficulty,
                secondary_scaling,
                is_secondary: true,
            }),
    {
        HeaderDifficultyInfo {
            index: 0,
            block_hash: None,
            timestamp: 1,
            difficulty,
            secondary_scaling,
            is_secondary: true,
        }
    }
}

/// A simulated window entry: timestamp and difficulty, the rest defaulted.
pub open spec fn spec_sim_record(timestamp: u64, difficulty: Difficulty) -> HeaderDifficultyInfo {
    HeaderDifficultyInfo {
        index: 0,
        block_hash: None,
        timestamp,
        difficulty,
        secondary_scaling: INITIAL_SECONDARY_SCALING,
        is_secondary: true,
    }
}

/// `a - b`, floored at zero.
pub open spec fn spec_sub_floor(a: int, b: int) -> int {
    if a > b {
        a - b
    } else {
        0
    }
}

/// Moves `actual` toward `goal`, weighting the goal `damp_factor - 1`
/// times.
pub open spec fn spec_damp(actual: int, goal: int, damp_factor: int) -> int {
    (actual + (damp_factor - 1) * goal) / damp_factor
}

/// Clamps `actual` into `[goal / clamp_factor, goal * clamp_factor]`.
pub open spec fn spec_clamp(actual: int, goal: int, clamp_factor: int) -> int {
    let lower = goal / clamp_factor;
    let upper = goal * clamp_factor;
    if actual < lower {
        lower
    } else if actual > upper {
        upper
    } else {
        actual
    }
}

/// The window the retarget runs on, built from `cursor` (newest entry
/// first): the newest `DIFFICULTY_ADJUST_WINDOW + 1` entries, padded at
/// the early end with simulated perfectly-spaced blocks when the chain is
/// younger than the window, and ordered earliest first.
pub open spec fn spec_padded_window(cursor: Seq<HeaderDifficultyInfo>) -> Seq<
    HeaderDifficultyInfo,
> {
    let needed = DIFFICULTY_ADJUST_WINDOW + 1;
    let have = if cursor.len() > needed {
        needed as int
    } else {
        cursor.len() as int
    };
    let delta = if have > 1 {
        spec_sub_floor(cursor[0].timestamp as int, cursor[1].timestamp as int)
    } else {
        BLOCK_TIME_SEC as int
    };
    Seq::new(
        needed as nat,
        |i: int|
            {
                let j = needed - 1 - i;
                if j < have {
                    cursor[j]
                } else {
                    spec_sim_record(
                        spec_sub_floor(
                            cursor[have - 1].timestamp as int,
                            (j - have + 1) * delta,
                        ) as u64,
                        cursor[0].difficulty,
                    )
                }
            },
    )
}

/// The primary difficulty summed over the window, its earliest entry
/// excluded.
pub open spec fn spec_diff_sum(data: Seq<HeaderDifficultyInfo>) -> int
    decreases data.len(),
{
    if data.len() <= 1 {
        0
    } else {
        spec_diff_sum(data.drop_last()) + data.last().difficulty.num
    }
}

/// The secondary scaling summed over the window, its earliest entry
/// excluded.
pub open spec fn spec_scale_sum(data: Seq<HeaderDifficultyInfo>) -> int
    decreases data.len(),
{
    if data.len() <= 1 {
        0
    } else {
        spec_scale_sum(data.drop_last()) + data.last().secondary_scaling
    }
}

/// One hundred times the secondary-proof headers in the window, its
/// earliest entry excluded.
pub open spec fn spec_ar_count(data: Seq<HeaderDifficultyInfo>) -> int
    decreases data.len(),
{
    if data.len() <= 1 {
        0
    } else {
        spec_ar_count(data.drop_last()) + (if data.last().is_secondary {
            100int
        } else {
            0int
        })
    }
}

/// The span of the window: last timestamp minus first, floored at zero.
pub open spec fn spec_ts_delta(data: Seq<HeaderDifficultyInfo>) -> int {
    if data.len() == 0 {
        0
    } else {
        spec_sub_floor(data.last().timestamp as int, data.first().timestamp as int)
    }
}

/// The retargeted difficulty for a window with difficulty sum
/// `diff_sum` and span `ts_delta`: the span is damped toward the ideal
/// window and clamped, the difficulty scaled to it, floored at
/// [`MIN_DIFFICULTY`] and saturated at the counter's width.
pub open spec fn spec_retarget(diff_sum: int, ts_delta: int) -> int {
    let adj = spec_clamp(
        spec_damp(ts_delta, BLOCK_TIME_WINDOW as int, DIFFICULTY_DAMP_FACTOR as int),
        BLOCK_TIME_WINDOW as int,
        CLAMP_FACTOR as int,
    );
    let d = diff_sum * BLOCK_TIME_SEC / adj;
    let floored = if d < MIN_DIFFICULTY {
        MIN_DIFFICULTY as int
    } else {
        d
    };
    if floored > u64::MAX {
        u64::MAX as int
    } else {
        floored
    }
}

/// The share of secondary proof-of-work aimed for at `height`, in
/// percent, easing from ninety to zero over two years.
pub open spec fn spec_secondary_ratio(height: int) -> int {
    spec_sub_floor(90, height / ((2 * YEAR_HEIGHT / 90) as int))
}

/// The retargeted secondary scaling for a window: the secondary share is
/// damped toward its target and clamped, the scaling sum scaled to it,
/// floored at [`MIN_AR_SCALE`] and saturated at the scaling's width.
pub open spec fn spec_secondary_scaling(height: int, data: Seq<HeaderDifficultyInfo>) -> int {
    let target_pct = spec_secondary_ratio(height);
    let target_count = DIFFICULTY_ADJUST_WINDOW * target_pct;
    let adj_count = spec_clamp(
        spec_damp(spec_ar_count(data), target_count, AR_SCALE_DAMP_FACTOR as int),
        target_count,
        CLAMP_FACTOR as int,
    );
    let divisor = if adj_count < 1 {
        1int
    } else {
        adj_count
    };
    let scale = spec_scale_sum(data) * target_pct / divisor;
    let floored = if scale < MIN_AR_SCALE {
        MIN_AR_SCALE as int
    } else {
        scale
    };
    if floored > u32::MAX {
        u32::MAX as int
    } else {
        floored
    }
}

/// Builds the retarget window from `cursor` (newest entry first),
/// exactly [`spec_padded_window`].
fn padded_window(cursor: &Vec<HeaderDifficultyInfo>) -> (data: Vec<HeaderDifficultyInfo>)
    requires
        cursor@.len() >= 1,
    ensures
        data@ == spec_padded_window(cursor@),
        data@.len() == DIFFICULTY_ADJUST_WINDOW + 1,
{
    let needed: usize = (DIFFICULTY_ADJUST_WINDOW + 1) as usize;
    let have: usize = if cursor.len() > needed {
        needed
    } else {
        cursor.len()
    };
    let delta: u64 = if have > 1 {
        let t0 = cursor[0].timestamp;
        let t1 = cursor[1].timestamp;
        if t0 > t1 {
            t0 - t1
        } else {
            0
        }
    } else {
        BLOCK_TIME_SEC
    };
    let start = cursor[have - 1].timestamp;
    let fill_diff = cursor[0].difficulty;
    let mut data: Vec<HeaderDifficultyInfo> = Vec::new();
    let mut i: usize = 0;
    while i < needed
        invariant
            needed == DIFFICULTY_ADJUST_WINDOW + 1,
            0 <= i <= needed,
            cursor@.len() >= 1,
            have == (if cursor@.len() > needed {
                needed as int
            } else {
                cursor@.len() as int
            }),
            1 <= have <= cursor@.len(),
            start == cursor@[have - 1].timestamp,
            fill_diff == cursor@[0].difficulty,
            delta == (if have > 1 {
                spec_sub_floor(cursor@[0].timestamp as int, cursor@[1].timestamp as int)
            } else {
                BLOCK_TIME_SEC as int
            }),
            data@.len() == i,
            forall|k: int| 0 <= k < i ==> data@[k] == spec_padded_window(cursor@)[k],
        decreases needed - i,
    {
        let j = needed - 1 - i;
        if j < have {
            data.push(cursor[j]);
        } else {
            let k = (j - have + 1) as u64;
            proof {
                assert((k as int) * (delta as int) <= (u64::MAX as int) * (u64::MAX as int))
                    by (nonlinear_arith)
                    requires
                        0 <= k as int <= u64::MAX as int,
                        0 <= delta as int <= u64::MAX as int,
                ;
            }
            let prod: u128 = (k as u128) * (delta as u128);
            let ts: u64 = if prod >= start as u128 {
                0
            } else {
                start - (prod as u64)
            };
            proof {
                assert(ts as int == spec_sub_floor(start as int, k as int * delta as int));
            }
            data.push(HeaderDifficultyInfo::from_ts_diff(ts, fill_diff));
        }
        i += 1;
    }
    proof {
        assert(data@ =~= spec_padded_window(cursor@));
    }
    data
}

/// Computes the difficulty and secondary scaling of the next header from
/// the last [`DIFFICULTY_ADJUST_WINDOW`]` + 1` headers' difficulty data,
/// handed newest first in `cursor`; a younger chain is padded with
/// simulated perfectly-spaced blocks. The last results are remembered in
/// `cache_values` for callers that display recent adjustments.
///
/// The returned difficulty never falls below [`MIN_DIFFICULTY`].
pub fn next_difficulty(
    height: u64,
    cursor: Vec<HeaderDifficultyInfo>,
    cache_values: &mut VecDeque<HeaderDifficultyInfo>,
) -> (r: HeaderDifficultyInfo)
    requires
        cursor@.len() >= 1,
    ensures
        r.difficulty.num as int == spec_retarget(
            spec_diff_sum(spec_padded_window(cursor@)),
            spec_ts_delta(spec_padded_window(cursor@)),
        ),
        r.secondary_scaling as int == spec_secondary_scaling(
            height as int,
            spec_padded_window(cursor@),
        ),
        r.difficulty.num >= MIN_DIFFICULTY,
        final(cache_values)@ == (if old(cache_values)@.len() >= DIFFICULTY_CACHE_SIZE {
            old(cache_values)@.drop_first().push(r)
        } else {
            old(cache_values)@.push(r)
        }),
{
    let data = padded_window(&cursor);
    let n = data.len();

    // span of the window, damped toward the ideal and clamped
    let first_ts = data[0].timestamp;
    let last_ts = data[n - 1].timestamp;
    let ts_delta: u64 = if last_ts > first_ts {
        last_ts - first_ts
    } else {
        0
    };
    let damped_wide: u128 = ((ts_delta as u128) + ((DIFFICULTY_DAMP_FACTOR - 1)
        * BLOCK_TIME_WINDOW) as u128) / (DIFFICULTY_DAMP_FACTOR as u128);
    proof {
        lemma_div_is_ordered(
            ts_delta as int + (DIFFICULTY_DAMP_FACTOR - 1) * BLOCK_TIME_WINDOW,
            u64::MAX as int + (DIFFICULTY_DAMP_FACTOR - 1) * BLOCK_TIME_WINDOW,
            DIFFICULTY_DAMP_FACTOR as int,
        );
    }
    let damped: u64 = damped_wide as u64;
    proof {
        assert(damped as int == spec_damp(
            ts_delta as int,
            BLOCK_TIME_WINDOW as int,
            DIFFICULTY_DAMP_FACTOR as int,
        ));
    }
    let adj: u64 = if damped < BLOCK_TIME_WINDOW / CLAMP_FACTOR {
        BLOCK_TIME_WINDOW / CLAMP_FACTOR
    } else if damped > BLOCK_TIME_WINDOW * CLAMP_FACTOR {
        BLOCK_TIME_WINDOW * CLAMP_FACTOR
    } else {
        damped
    };

    // difficulty sum over the window, scaled to the adjusted span
    let mut diff_sum: u128 = 0;
    let mut i: usize = 1;
    while i < n
        invariant
            n == spec_padded_window_len(),
            data@.len() == n,
            1 <= i <= n,
            diff_sum == spec_diff_sum(data@.take(i as int)),
            diff_sum <= (i - 1) * (u64::MAX as u128),
        decreases n - i,
    {
        proof {
            assert(data@.take(i + 1).drop_last() =~= data@.take(i as int));
            assert(data@.take(i + 1).last() == data@[i as int]);
        }
        diff_sum = diff_sum + (data[i].difficulty.num as u128);
        i += 1;
    }
    proof {
        assert(data@.take(n as int) =~= data@);
    }

    proof {
        assert(diff_sum <= 60 * (u64::MAX as u128));
        assert(diff_sum * (BLOCK_TIME_SEC as u128) <= u128::MAX) by (nonlinear_arith)
            requires
                0 <= diff_sum as int <= 60 * (u64::MAX as int),
        ;
    }
    let scaled: u128 = diff_sum * (BLOCK_TIME_SEC as u128) / (adj as u128);
    let floored: u128 = if scaled < MIN_DIFFICULTY as u128 {
        MIN_DIFFICULTY as u128
    } else {
        scaled
    };
    let difficulty: u64 = if floored > u64::MAX as u128 {
        u64::MAX
    } else {
        floored as u64
    };

    let sec_scaling = secondary_pow_scaling_window(height, &data);

    let r = HeaderDifficultyInfo::from_diff_scaling(
        Difficulty { num: difficulty },
        sec_scaling,
    );
    if cache_values.len() >= DIFFICULTY_CACHE_SIZE {
        cache_values.pop_front();
    }
    cache_values.push_back(r);
    r
}

/// The window length as a spec value.
pub open spec fn spec_padded_window_len() -> int {
    DIFFICULTY_ADJUST_WINDOW + 1
}

/// The secondary scaling retarget over a built window.
fn secondary_pow_scaling_window(height: u64, data: &Vec<HeaderDifficultyInfo>) -> (r: u32)
    requires
        data@.len() == spec_padded_window_len(),
    ensures
        r as int == spec_secondary_scaling(height as int, data@),
{
    let n = data.len();
    let mut scale_sum: u64 = 0;
    let mut ar_count: u64 = 0;
    let mut i: usize = 1;
    while i < n
        invariant
            n == spec_padded_window_len(),
            data@.len() == n,
            1 <= i <= n,
            scale_sum == spec_scale_sum(data@.take(i as int)),
            ar_count == spec_ar_count(data@.take(i as int)),
            scale_sum <= (i - 1) * (u32::MAX as u64),
            ar_count <= (i - 1) * 100,
        decreases n - i,
    {
        proof {
            assert(data@.take(i + 1).drop_last() =~= data@.take(i as int));
            assert(data@.take(i + 1).last() == data@[i as int]);
        }
        scale_sum = scale_sum + (data[i].secondary_scaling as u64);
        if data[i].is_secondary {
            ar_count = ar_count + 100;
        }
        i += 1;
    }
    proof {
        assert(data@.take(n as int) =~= data@);
    }

    let target_pct: u64 = {
        let eased = height / (2 * YEAR_HEIGHT / 90);
        if eased >= 90 {
            0
        } else {
            90 - eased
        }
    };
    let target_count: u64 = DIFFICULTY_ADJUST_WINDOW * target_pct;

    let damped: u64 = (ar_count + (AR_SCALE_DAMP_FACTOR - 1) * target_count)
        / AR_SCALE_DAMP_FACTOR;
    proof {
        assert(damped as int == spec_damp(
            ar_count as int,
            target_count as int,
            AR_SCALE_DAMP_FACTOR as int,
        ));
    }
    let adj_count: u64 = if damped < target_count / CLAMP_FACTOR {
        target_count / CLAMP_FACTOR
    } else if damped > target_count * CLAMP_FACTOR {
        target_count * CLAMP_FACTOR
    } else {
        damped
    };
    let divisor: u64 = if adj_count < 1 {
        1
    } else {
        adj_count
    };

    proof {
        assert((scale_sum as int) * (target_pct as int) <= (u64::MAX as int) * 90)
            by (nonlinear_arith)
            requires
                0 <= scale_sum as int <= u64::MAX as int,
                0 <= target_pct as int <= 90,
        ;
    }
    let scale: u128 = (scale_sum as u128) * (target_pct as u128) / (divisor as u128);
    let floored: u128 = if scale < MIN_AR_SCALE as u128 {
        MIN_AR_SCALE as u128
    } else {
        scale
    };
    if floored > u32::MAX as u128 {
        u32::MAX
    } else {
        floored as u32
    }
}

/// Slower windows never raise the retargeted difficulty and faster
/// windows never lower it: for one difficulty sum, the retarget is
/// antitone in the window span.
pub proof fn lemma_retarget_monotonic(diff_sum: int, ts_short: int, ts_long: int)
    requires
        0 <= diff_sum,
        0 <= ts_short <= ts_long,
    ensures
        spec_retarget(diff_sum, ts_long) <= spec_retarget(diff_sum, ts_short),
{
    let goal = BLOCK_TIME_WINDOW as int;
    let damp_short = spec_damp(ts_short, goal, DIFFICULTY_DAMP_FACTOR as int);
    let damp_long = spec_damp(ts_long, goal, DIFFICULTY_DAMP_FACTOR as int);
    lemma_div_is_ordered(ts_short + 2 * goal, ts_long + 2 * goal, 3);
    lemma_div_is_ordered(0, ts_short + 2 * goal, 3);
    let adj_short = spec_clamp(damp_short, goal, CLAMP_FACTOR as int);
    let adj_long = spec_clamp(damp_long, goal, CLAMP_FACTOR as int);
    assert(1 <= adj_short <= adj_long);
    lemma_div_is_ordered_by_denominator(diff_sum * BLOCK_TIME_SEC, adj_short, adj_long);
}

/// The retargeted difficulty never falls below [`MIN_DIFFICULTY`]: the
/// output is floored before it is returned, whatever the window held.
pub proof fn lemma_retarget_floor(diff_sum: int, ts_delta: int)
    ensures
        spec_retarget(diff_sum, ts_delta) >= MIN_DIFFICULTY,
{
}

} // verus!
