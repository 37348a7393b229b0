//! The sample schedule: the blocks at which the pool is read.
//!
//! A window of whole days that ends at an anchor block is cut into as many
//! intervals as there are samples. The chain's block time turns an interval
//! into a number of blocks, and sample `i` of `n` lies `n - i` intervals
//! behind the anchor, so the schedule runs from the oldest block to the block
//! one interval behind the anchor.

use vstd::prelude::*;

verus! {

/// The seconds of one day.
pub const SECONDS_PER_DAY: u64 = 86_400;

/// Why no schedule can be derived.
#[derive(Clone, Copy, Debug, PartialEq, Eq)]
pub enum ScheduleError {
    /// No sample was asked for, so the window has no interval.
    NoSamples,
    /// The block time is zero seconds.
    NoBlockTime,
    /// The window's length in seconds does not fit in 64 bits.
    WindowTooLong,
}

/// The seconds between two samples: the window's seconds over the number of
/// samples, rounded down.
pub open spec fn interval_seconds(days: u64, samples: u64) -> int {
    (days * SECONDS_PER_DAY) / (samples as int)
}

/// The blocks between two samples: the interval's seconds over the seconds of
/// one block, rounded down.
pub open spec fn interval_blocks(days: u64, samples: u64, seconds_per_block: u64) -> int {
    interval_seconds(days, samples) / (seconds_per_block as int)
}

/// How many blocks behind the anchor sample `index` of `samples` lies.
pub open spec fn blocks_behind(samples: u64, per_interval: int, index: int) -> int {
    (samples - index) * per_interval
}

/// The block that lies `back` blocks behind `anchor`, and block 1 where the
/// chain does not reach that far back.
pub open spec fn block_at(anchor: u64, back: int) -> int {
    if back <= anchor {
        anchor - back
    } else {
        1
    }
}

/// What is wrong with the inputs, if anything: the first of no samples, no
/// block time and a window that is too long.
pub open spec fn schedule_error(days: u64, samples: u64, seconds_per_block: u64) -> Option<
    ScheduleError,
> {
    if samples == 0 {
        Some(ScheduleError::NoSamples)
    } else if seconds_per_block == 0 {
        Some(ScheduleError::NoBlockTime)
    } else if days * SECONDS_PER_DAY > u64::MAX {
        Some(ScheduleError::WindowTooLong)
    } else {
        None
    }
}

/// The schedule: one block for each sample, the oldest first.
pub open spec fn schedule(days: u64, samples: u64, seconds_per_block: u64, anchor: u64) -> Seq<
    u64,
> {
    Seq::new(
        samples as nat,
        |index: int|
            block_at(
                anchor,
                blocks_behind(samples, interval_blocks(days, samples, seconds_per_block), index),
            ) as u64,
    )
}

/// `outcome` is what deriving the schedule of these inputs gives: the error of
/// the inputs where they have one, and else their schedule.
pub open spec fn is_schedule_of(
    outcome: Result<Vec<u64>, ScheduleError>,
    days: u64,
    samples: u64,
    seconds_per_block: u64,
    anchor: u64,
) -> bool {
    match outcome {
        Ok(blocks) => schedule_error(days, samples, seconds_per_block) is None && blocks@
            == schedule(days, samples, seconds_per_block, anchor),
        Err(error) => schedule_error(days, samples, seconds_per_block) == Some(error),
    }
}

proof fn lemma_interval_bounds(days: u64, samples: u64, seconds_per_block: u64)
    requires
        samples > 0,
        seconds_per_block > 0,
    ensures
        0 <= interval_blocks(days, samples, seconds_per_block) <= interval_seconds(days, samples)
            <= days * SECONDS_PER_DAY,
        samples * interval_blocks(days, samples, seconds_per_block) <= days * SECONDS_PER_DAY,
{
    let window = days * SECONDS_PER_DAY;
    let seconds = window / (samples as int);
    let blocks = seconds / (seconds_per_block as int);
    assert(0 <= seconds <= window && samples * seconds <= window) by (nonlinear_arith)
        requires
            seconds == window / (samples as int),
            window >= 0,
            samples > 0,
    ;
    assert(0 <= blocks <= seconds) by (nonlinear_arith)
        requires
            blocks == seconds / (seconds_per_block as int),
            seconds >= 0,
            seconds_per_block > 0,
    ;
    assert(samples * blocks <= samples * seconds) by (nonlinear_arith)
        requires
            0 <= blocks <= seconds,
            samples > 0,
    ;
}

/// The samples never move away from the anchor: a later sample lies no more
/// blocks behind it than an earlier one, and none lies further behind than
/// the number of samples times the interval.
pub proof fn lemma_offsets_never_grow(samples: u64, per_interval: int, earlier: int, later: int)
    requires
        0 <= per_interval,
        0 <= earlier <= later <= samples,
    ensures
        samples * per_interval >= blocks_behind(samples, per_interval, earlier) >= blocks_behind(
            samples,
            per_interval,
            later,
        ) >= 0,
{
    assert((samples - 0) * per_interval >= (samples - earlier) * per_interval >= (samples - later)
        * per_interval >= 0) by (nonlinear_arith)
        requires
            0 <= per_interval,
            0 <= earlier <= later <= samples,
    ;
}

/// The schedule is a function of its inputs: two outcomes of deriving it from
/// the same inputs are the same error or hold the same blocks.
pub proof fn lemma_schedule_is_deterministic(
    first: Result<Vec<u64>, ScheduleError>,
    second: Result<Vec<u64>, ScheduleError>,
    days: u64,
    samples: u64,
    seconds_per_block: u64,
    anchor: u64,
)
    requires
        is_schedule_of(first, days, samples, seconds_per_block, anchor),
        is_schedule_of(second, days, samples, seconds_per_block, anchor),
    ensures
        match (first, second) {
            (Ok(blocks), Ok(again)) => blocks@ == again@,
            (Err(error), Err(again)) => error == again,
            _ => false,
        },
{
}

/// A sample that lies further behind the anchor than the chain is long is
/// read at block 1, and every other sample at a block at or before the anchor.
pub proof fn lemma_schedule_clamps(
    days: u64,
    samples: u64,
    seconds_per_block: u64,
    anchor: u64,
    index: int,
)
    requires
        0 <= index < samples,
    ensures
        ({
            let back = blocks_behind(
                samples,
                interval_blocks(days, samples, seconds_per_block),
                index,
            );
            let block = schedule(days, samples, seconds_per_block, anchor)[index];
            &&& back > anchor ==> block == 1
            &&& 0 <= back <= anchor ==> block == anchor - back
        }),
{
}

/// The number of blocks between two samples of a window of `days` days that
/// is cut into `samples` intervals, on a chain with a block every
/// `seconds_per_block` seconds.
pub fn blocks_per_interval(days: u64, samples: u64, seconds_per_block: u64) -> (outcome: Result<
    u64,
    ScheduleError,
>)
    ensures
        match outcome {
            Ok(blocks) => schedule_error(days, samples, seconds_per_block) is None && blocks
                == interval_blocks(days, samples, seconds_per_block),
            Err(error) => schedule_error(days, samples, seconds_per_block) == Some(error),
        },
{
    if samples == 0 {
        return Err(ScheduleError::NoSamples);
    }
    if seconds_per_block == 0 {
        return Err(ScheduleError::NoBlockTime);
    }
    match days.checked_mul(SECONDS_PER_DAY) {
        None => Err(ScheduleError::WindowTooLong),
        Some(window) => {
            proof {
                lemma_interval_bounds(days, samples, seconds_per_block);
            }
            Ok(window / samples / seconds_per_block)
        },
    }
}

/// The block that lies `blocks_back` blocks behind `anchor_block`, and block 1
/// where the chain does not reach that far back.
pub fn target_block(anchor_block: u64, blocks_back: u64) -> (block: u64)
    ensures
        block == block_at(anchor_block, blocks_back as int),
        blocks_back > anchor_block ==> block == 1,
        blocks_back <= anchor_block ==> block == anchor_block - blocks_back,
{
    if blocks_back > anchor_block {
        1
    } else {
        anchor_block - blocks_back
    }
}

/// Derives the blocks to sample, the oldest first, for a window of `days` days
/// that ends at `anchor_block` and is read `samples` times.
///
/// Sample `i` lies `samples - i` intervals behind the anchor, so the last one
/// lies one interval behind it; a sample that would lie before the start of
/// the chain is read at block 1.
pub fn derive_schedule(
    days: u64,
    samples: u64,
    seconds_per_block: u64,
    anchor_block: u64,
) -> (outcome: Result<Vec<u64>, ScheduleError>)
    ensures
        is_schedule_of(outcome, days, samples, seconds_per_block, anchor_block),
        outcome matches Ok(blocks) ==> blocks.len() == samples,
        outcome matches Ok(blocks) ==> blocks[samples - 1] == block_at(
            anchor_block,
            interval_blocks(days, samples, seconds_per_block),
        ),
        outcome matches Ok(blocks) ==> forall|index: int|
            0 <= index < samples && blocks_behind(
                samples,
                interval_blocks(days, samples, seconds_per_block),
                index,
            ) > anchor_block ==> #[trigger] blocks[index] == 1,
{
    let per_interval = match blocks_per_interval(days, samples, seconds_per_block) {
        Ok(blocks) => blocks,
        Err(error) => {
            return Err(error);
        },
    };
    let mut blocks: Vec<u64> = Vec::new();
    let mut index: u64 = 0;
    while index < samples
        invariant
            index <= samples,
            samples > 0,
            seconds_per_block > 0,
            days * SECONDS_PER_DAY <= u64::MAX,
            per_interval == interval_blocks(days, samples, seconds_per_block),
            blocks@ == schedule(days, samples, seconds_per_block, anchor_block).take(index as int),
        decreases samples - index,
    {
        proof {
            lemma_interval_bounds(days, samples, seconds_per_block);
            lemma_offsets_never_grow(samples, per_interval as int, index as int, index as int);
        }
        let back = (samples - index) * per_interval;
        blocks.push(target_block(anchor_block, back));
        index = index + 1;
    }
    assert(blocks@ =~= schedule(days, samples, seconds_per_block, anchor_block));
    assert(blocks_behind(samples, per_interval as int, samples - 1) == per_interval)
        by (nonlinear_arith);
    Ok(blocks)
}

} // verus!
