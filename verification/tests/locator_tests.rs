use pool_twap::locator::{find_block_at_timestamp, LocateError, Locator, LocatorAction};

/// Block `n` of this chain has the timestamp `1000 + 12 * n`.
fn steady_chain(blocks: u64) -> Vec<u64> {
    let mut chain = Vec::new();
    let mut number = 0;
    while number < blocks {
        chain.push(1000 + 12 * number);
        number += 1;
    }
    chain
}

/// The newest block from 1 on that is not after `target`, by looking at each.
fn newest_by_scan(chain: &[u64], target: u64) -> Option<u64> {
    let mut newest = None;
    let mut number = 1;
    while number < chain.len() {
        if chain[number] <= target {
            newest = Some(number as u64);
        }
        number += 1;
    }
    newest
}

/// Runs a search against `chain` and counts the timestamps it asks for.
fn drive(chain: &[u64], target: u64) -> (Result<u64, LocateError>, u32) {
    let mut state = Locator::start(target, chain.len() as u64 - 1);
    let mut lookups = 0;
    loop {
        match state.next_action() {
            LocatorAction::Fetch(block) => {
                lookups += 1;
                state = state.step(chain.get(block as usize).copied());
            }
            LocatorAction::Finish(block) => return (Ok(block), lookups),
            LocatorAction::Abort(error) => return (Err(error), lookups),
        }
    }
}

fn floor_log2(value: u64) -> u32 {
    63 - value.leading_zeros()
}

#[test]
fn target_at_or_after_the_head_gives_the_head() {
    let chain = steady_chain(100);
    assert_eq!(find_block_at_timestamp(&chain, 1000 + 12 * 99), Ok(99));
    assert_eq!(find_block_at_timestamp(&chain, 1000 + 12 * 99 + 1), Ok(99));
    assert_eq!(find_block_at_timestamp(&chain, u64::MAX), Ok(99));
}

#[test]
fn head_is_answered_after_one_lookup() {
    let chain = steady_chain(100);
    assert_eq!(drive(&chain, 5000), (Ok(99), 1));
}

#[test]
fn exact_timestamp_gives_its_block() {
    let chain = steady_chain(100);
    assert_eq!(find_block_at_timestamp(&chain, 1000 + 12 * 40), Ok(40));
    assert_eq!(find_block_at_timestamp(&chain, 1000 + 12), Ok(1));
    assert_eq!(find_block_at_timestamp(&chain, 1000 + 12 * 98), Ok(98));
}

#[test]
fn target_between_two_blocks_gives_the_earlier() {
    let chain = steady_chain(100);
    assert_eq!(find_block_at_timestamp(&chain, 1000 + 12 * 40 + 11), Ok(40));
    assert_eq!(find_block_at_timestamp(&chain, 1000 + 12 * 41 - 1), Ok(40));
}

#[test]
fn target_before_block_one_gives_block_one() {
    let chain = steady_chain(100);
    assert_eq!(find_block_at_timestamp(&chain, 1011), Ok(1));
    assert_eq!(find_block_at_timestamp(&chain, 1000), Ok(1));
    assert_eq!(find_block_at_timestamp(&chain, 0), Ok(1));
    assert_eq!(drive(&chain, 1011).0, Ok(1));
}

#[test]
fn target_before_the_first_of_eight_blocks_gives_block_one() {
    // Blocks 1 to 8 at 10 s, 20 s, ..., 80 s, and a target of 5 s.
    let chain = [0, 10, 20, 30, 40, 50, 60, 70, 80];
    assert_eq!(find_block_at_timestamp(&chain, 5), Ok(1));
    // The head, then the midpoints 4, 2 and 1, each too late.
    assert_eq!(drive(&chain, 5), (Ok(1), 4));
    assert_eq!(find_block_at_timestamp(&chain, 10), Ok(1));
    assert_eq!(find_block_at_timestamp(&chain, 9), Ok(1));
}

#[test]
fn target_before_the_only_block_after_genesis_gives_it() {
    assert_eq!(find_block_at_timestamp(&[0, 10], 5), Ok(1));
    assert_eq!(find_block_at_timestamp(&[0, 10], 10), Ok(1));
}

#[test]
fn equal_timestamps_give_the_newest_of_them() {
    let chain = [5, 10, 10, 10, 20, 20, 30];
    assert_eq!(find_block_at_timestamp(&chain, 10), Ok(3));
    assert_eq!(find_block_at_timestamp(&chain, 25), Ok(5));
    assert_eq!(find_block_at_timestamp(&chain, 29), Ok(5));
}

#[test]
fn empty_chain_has_no_head() {
    assert_eq!(find_block_at_timestamp(&[], 5), Err(LocateError::HeadNotFound));
}

#[test]
fn chain_of_the_genesis_block_alone() {
    assert_eq!(find_block_at_timestamp(&[50], 10), Ok(0));
    assert_eq!(find_block_at_timestamp(&[50], 50), Ok(0));
    assert_eq!(drive(&[50], 10), (Ok(0), 1));
}

#[test]
fn search_agrees_with_a_scan_for_every_target() {
    let mut blocks = 1;
    while blocks <= 40 {
        let chain = steady_chain(blocks);
        let head = blocks - 1;
        let mut target = 990;
        while target <= 1000 + 12 * blocks + 5 {
            let expected = if target >= chain[head as usize] {
                head
            } else {
                newest_by_scan(&chain, target).unwrap_or(if head >= 1 { 1 } else { head })
            };
            assert_eq!(find_block_at_timestamp(&chain, target), Ok(expected));
            assert_eq!(drive(&chain, target).0, Ok(expected));
            target += 1;
        }
        blocks += 1;
    }
}

#[test]
fn lookups_stay_within_the_logarithm() {
    let mut blocks = 2;
    while blocks <= 300 {
        let chain = steady_chain(blocks);
        let head = blocks - 1;
        let mut target = 1000;
        while target <= 1000 + 12 * blocks {
            let (_, lookups) = drive(&chain, target);
            assert!(lookups >= 1);
            assert!(lookups <= floor_log2(head) + 2);
            target += 7;
        }
        blocks += 1;
    }
}

#[test]
fn worst_case_of_eight_blocks_takes_five_lookups() {
    // Head 8: the head itself, then the midpoints 4, 6, 7 and 8.
    let chain = steady_chain(9);
    assert_eq!(drive(&chain, 1000 + 12 * 8 - 1), (Ok(7), 5));
}

#[test]
fn machine_walks_the_midpoints() {
    let state = Locator::start(100, 8);
    assert_eq!(state, Locator::AtHead { target: 100, head: 8 });
    assert_eq!(state.next_action(), LocatorAction::Fetch(8));
    let state = state.step(Some(200));
    assert_eq!(state, Locator::Searching { target: 100, low: 1, high: 8, best: 1 });
    assert_eq!(state.next_action(), LocatorAction::Fetch(4));
    let state = state.step(Some(50));
    assert_eq!(state, Locator::Searching { target: 100, low: 5, high: 8, best: 4 });
    assert_eq!(state.next_action(), LocatorAction::Fetch(6));
    let state = state.step(Some(150));
    assert_eq!(state, Locator::Searching { target: 100, low: 5, high: 5, best: 4 });
    assert_eq!(state.next_action(), LocatorAction::Fetch(5));
    let state = state.step(Some(100));
    assert_eq!(state, Locator::Found { block: 5 });
    assert_eq!(state.next_action(), LocatorAction::Finish(5));
}

#[test]
fn missing_head_fails_the_search() {
    let state = Locator::start(100, 8).step(None);
    assert_eq!(state, Locator::Failed { error: LocateError::HeadNotFound });
    assert_eq!(state.next_action(), LocatorAction::Abort(LocateError::HeadNotFound));
}

#[test]
fn missing_block_fails_the_search() {
    let state = Locator::start(100, 8).step(Some(200)).step(None);
    assert_eq!(state, Locator::Failed { error: LocateError::BlockNotFound(4) });
    assert_eq!(state.next_action(), LocatorAction::Abort(LocateError::BlockNotFound(4)));
    // Head 9, midpoints 5 and 7, and then the chain has no block 6.
    let state = Locator::start(45, 9).step(Some(90)).step(Some(40)).step(Some(70));
    assert_eq!(state.next_action(), LocatorAction::Fetch(6));
    assert_eq!(
        state.step(None).next_action(),
        LocatorAction::Abort(LocateError::BlockNotFound(6))
    );
}

#[test]
fn table_answers_every_block_up_to_its_head() {
    assert_eq!(drive(&[0, 10, 20, 30, 40, 50], 45), (Ok(4), 4));
    assert_eq!(find_block_at_timestamp(&[0, 10, 20, 30, 40, 50], 45), Ok(4));
}

#[test]
fn finished_search_ignores_further_answers() {
    let found = Locator::Found { block: 3 };
    assert_eq!(found.step(Some(1)), found);
    assert_eq!(found.step(None), found);
    let failed = Locator::Failed { error: LocateError::BlockNotFound(2) };
    assert_eq!(failed.step(Some(1)), failed);
    let spent = Locator::Searching { target: 1, low: 5, high: 4, best: 4 };
    assert_eq!(spent.next_action(), LocatorAction::Finish(4));
    assert_eq!(spent.step(Some(0)), spent);
}

#[test]
fn largest_head_does_not_overflow() {
    let state = Locator::start(10, u64::MAX).step(Some(20));
    assert_eq!(state, Locator::Searching { target: 10, low: 1, high: u64::MAX, best: 1 });
    assert_eq!(state.next_action(), LocatorAction::Fetch(1 << 63));
    let mut state = state;
    let mut lookups = 0;
    while let LocatorAction::Fetch(block) = state.next_action() {
        // Every block is early enough, so the search climbs to the top.
        state = state.step(Some(if block == u64::MAX { 10 } else { 5 }));
        lookups += 1;
    }
    assert_eq!(state, Locator::Found { block: u64::MAX });
    assert_eq!(lookups, 64);
}
