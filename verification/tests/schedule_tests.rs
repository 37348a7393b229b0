use pool_twap::schedule::{
    blocks_per_interval, derive_schedule, target_block, ScheduleError, SECONDS_PER_DAY,
};

#[test]
fn a_week_of_hourly_samples() {
    // 604800 s / 168 = 3600 s, at 2 s a block 1800 blocks.
    assert_eq!(blocks_per_interval(7, 168, 2), Ok(1800));
    let blocks = derive_schedule(7, 168, 2, 1_000_000).unwrap();
    assert_eq!(blocks.len(), 168);
    assert_eq!(blocks[0], 1_000_000 - 168 * 1800);
    assert_eq!(blocks[1], 1_000_000 - 167 * 1800);
    assert_eq!(blocks[166], 1_000_000 - 2 * 1800);
    assert_eq!(blocks[167], 1_000_000 - 1800);
}

#[test]
fn every_sample_follows_the_formula() {
    let blocks = derive_schedule(3, 10, 5, 500_000).unwrap();
    // 259200 s / 10 = 25920 s, at 5 s a block 5184 blocks.
    let mut index = 0;
    while index < 10 {
        assert_eq!(blocks[index as usize], 500_000 - (10 - index) * 5184);
        index += 1;
    }
}

#[test]
fn last_sample_lies_one_interval_behind_the_anchor() {
    let blocks = derive_schedule(1, 24, 2, 90_000).unwrap();
    assert_eq!(blocks_per_interval(1, 24, 2), Ok(1800));
    assert_eq!(blocks[23], 90_000 - 1800);
    assert_ne!(blocks[23], 90_000);
}

#[test]
fn intervals_are_rounded_down_twice() {
    // 86400 / 7 = 12342 remainder 6, and 12342 / 4 = 3085 remainder 2.
    assert_eq!(blocks_per_interval(1, 7, 4), Ok(3085));
    assert_eq!(blocks_per_interval(1, 7, 1), Ok(12342));
    assert_eq!(blocks_per_interval(1, 86_401, 1), Ok(0));
}

#[test]
fn interval_of_no_blocks_repeats_the_anchor() {
    let blocks = derive_schedule(1, 86_401, 2, 777).unwrap();
    assert_eq!(blocks.len(), 86_401);
    assert!(blocks.iter().all(|block| *block == 777));
}

#[test]
fn samples_before_the_chain_clamp_to_block_one() {
    // 1800 blocks an interval: samples 0 to 3 lie 7200, 5400, 3600 and 1800 back.
    let blocks = derive_schedule(1, 24, 2, 4000).unwrap();
    assert_eq!(blocks[20], 1);
    assert_eq!(blocks[21], 1);
    assert_eq!(blocks[22], 4000 - 3600);
    assert_eq!(blocks[23], 4000 - 1800);
    assert!(blocks[..22].iter().all(|block| *block == 1));
}

#[test]
fn sample_at_the_start_of_the_chain_is_block_zero() {
    let blocks = derive_schedule(1, 24, 2, 3600).unwrap();
    assert_eq!(blocks[21], 1);
    assert_eq!(blocks[22], 0);
    assert_eq!(blocks[23], 1800);
}

#[test]
fn target_block_clamps() {
    assert_eq!(target_block(100, 30), 70);
    assert_eq!(target_block(100, 100), 0);
    assert_eq!(target_block(100, 101), 1);
    assert_eq!(target_block(0, 1), 1);
    assert_eq!(target_block(0, 0), 0);
    assert_eq!(target_block(5, u64::MAX), 1);
    assert_eq!(target_block(u64::MAX, u64::MAX), 0);
}

#[test]
fn same_inputs_give_the_same_schedule() {
    assert_eq!(derive_schedule(7, 168, 2, 123_456), derive_schedule(7, 168, 2, 123_456));
    assert_eq!(derive_schedule(7, 0, 2, 123_456), derive_schedule(7, 0, 2, 123_456));
}

#[test]
fn no_samples_is_an_error() {
    assert_eq!(derive_schedule(7, 0, 2, 1000), Err(ScheduleError::NoSamples));
    assert_eq!(blocks_per_interval(7, 0, 2), Err(ScheduleError::NoSamples));
    assert_eq!(blocks_per_interval(7, 0, 0), Err(ScheduleError::NoSamples));
}

#[test]
fn no_block_time_is_an_error() {
    assert_eq!(derive_schedule(7, 168, 0, 1000), Err(ScheduleError::NoBlockTime));
    assert_eq!(blocks_per_interval(u64::MAX, 168, 0), Err(ScheduleError::NoBlockTime));
}

#[test]
fn window_beyond_64_bits_is_an_error() {
    let longest = u64::MAX / SECONDS_PER_DAY;
    assert_eq!(blocks_per_interval(longest, 1, 1), Ok(longest * 86_400));
    assert_eq!(blocks_per_interval(longest + 1, 1, 1), Err(ScheduleError::WindowTooLong));
    assert_eq!(derive_schedule(u64::MAX, 3, 2, 1000), Err(ScheduleError::WindowTooLong));
}

#[test]
fn longest_window_does_not_overflow() {
    let longest = u64::MAX / SECONDS_PER_DAY;
    let blocks = derive_schedule(longest, 2, 1, u64::MAX).unwrap();
    let interval = longest * 86_400 / 2;
    assert_eq!(blocks, vec![u64::MAX - 2 * interval, u64::MAX - interval]);
}

#[test]
fn window_of_no_days_samples_the_anchor() {
    assert_eq!(derive_schedule(0, 3, 2, 42), Ok(vec![42, 42, 42]));
}
