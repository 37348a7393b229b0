//! The block locator: which block was the newest at a given time.
//!
//! Asking a chain for a block's timestamp takes a round trip, so the search is
//! written as a state machine. [`Locator::next_action`] names the block whose
//! timestamp is wanted next, the caller fetches it, and [`Locator::step`] takes
//! the answer. [`find_block_at_timestamp`] drives the same machine over a table
//! of timestamps that is already in memory.

use vstd::prelude::*;

verus! {

/// Why a search ended without a block.
#[derive(Clone, Copy, Debug, PartialEq, Eq)]
pub enum LocateError {
    /// The chain has no head block, or gave no data for it.
    HeadNotFound,
    /// The chain gave no data for the block of this number.
    BlockNotFound(u64),
}

/// What the caller of a [`Locator`] has to do next.
#[derive(Clone, Copy, Debug, PartialEq, Eq)]
pub enum LocatorAction {
    /// Fetch the timestamp of this block and hand the answer to [`Locator::step`].
    Fetch(u64),
    /// The search is over, and this block is its result.
    Finish(u64),
    /// The search is over, and it has failed.
    Abort(LocateError),
}

/// A search for the newest block whose timestamp is not after `target`.
#[derive(Clone, Copy, Debug, PartialEq, Eq)]
pub enum Locator {
    /// The timestamp of the head block is awaited.
    AtHead { target: u64, head: u64 },
    /// The timestamp of the midpoint of `low..=high` is awaited. `best` is the
    /// result if no block at or after `low` is early enough.
    Searching { target: u64, low: u64, high: u64, best: u64 },
    /// The search has ended at `block`.
    Found { block: u64 },
    /// The search has failed.
    Failed { error: LocateError },
}

/// The block halfway between `low` and `high`, rounded down.
pub open spec fn midpoint(low: u64, high: u64) -> u64 {
    ((low + high) / 2) as u64
}

/// The state that goes on over the blocks from `low` to `high`: a search while
/// there are any, and `best` as the result once there are none.
pub open spec fn over(target: u64, low: int, high: int, best: u64) -> Locator {
    if low <= high {
        Locator::Searching { target, low: low as u64, high: high as u64, best }
    } else {
        Locator::Found { block: best }
    }
}

/// What a chain answers when it is asked for the timestamp of `block`: entry
/// `block` of `chain`, or nothing past its end.
pub open spec fn timestamp_at(chain: Seq<u64>, block: u64) -> Option<u64> {
    if block < chain.len() {
        Some(chain[block as int])
    } else {
        None
    }
}

/// No block of `chain` has an earlier timestamp than a block before it.
pub open spec fn never_decreases(chain: Seq<u64>) -> bool {
    forall|earlier: int, later: int|
        0 <= earlier <= later < chain.len() ==> chain[earlier] <= chain[later]
}

/// Some block from 1 on has a timestamp that is not after `target`.
pub open spec fn has_block_by(chain: Seq<u64>, target: u64) -> bool {
    exists|block: int| 1 <= block < chain.len() && #[trigger] chain[block] <= target
}

/// `block` is the newest block from 1 on whose timestamp is not after `target`.
pub open spec fn is_newest_by(chain: Seq<u64>, target: u64, block: u64) -> bool {
    &&& 1 <= block < chain.len()
    &&& chain[block as int] <= target
    &&& forall|later: int| block < later < chain.len() ==> #[trigger] chain[later] > target
}

/// The first block that a search looks at: block 1, and the head on a chain
/// that has no block but block 0.
pub open spec fn first_block(head: u64) -> u64 {
    if head >= 1 {
        1
    } else {
        head
    }
}

/// `block` is what the search owes on timestamps that never decrease: the head
/// where the target is not before the head's timestamp, else the newest block
/// from 1 on that is not after the target, and the first block where even
/// that one is after the target.
pub open spec fn is_newest_or_first(chain: Seq<u64>, target: u64, block: u64) -> bool {
    if target >= chain.last() {
        block == chain.len() - 1
    } else if has_block_by(chain, target) {
        is_newest_by(chain, target, block)
    } else {
        block == first_block((chain.len() - 1) as u64)
    }
}

/// The result of the search for `target` on `chain`, whose entry `n` is the
/// timestamp of block `n` and whose last entry is the head.
pub open spec fn located(chain: Seq<u64>, target: u64) -> Result<u64, LocateError> {
    if chain.len() == 0 {
        Err(LocateError::HeadNotFound)
    } else {
        Locator::AtHead { target, head: (chain.len() - 1) as u64 }.run(chain).result()
    }
}

impl Locator {
    /// What the search in this state asks of its caller.
    pub open spec fn action(self) -> LocatorAction {
        match self {
            Locator::AtHead { target, head } => LocatorAction::Fetch(head),
            Locator::Searching { target, low, high, best } => if low <= high {
                LocatorAction::Fetch(midpoint(low, high))
            } else {
                LocatorAction::Finish(best)
            },
            Locator::Found { block } => LocatorAction::Finish(block),
            Locator::Failed { error } => LocatorAction::Abort(error),
        }
    }

    /// The state after `answer` has come for the block that `action` asked for:
    /// its timestamp, or `None` where the chain has no such block.
    ///
    /// At the head, a target at or after the head's timestamp ends the search
    /// there; an earlier one opens the search over the blocks from 1 to the
    /// head, with the first block as the result until an earlier block is found.
    /// In the search, a midpoint that is early enough becomes the best block and
    /// the search goes on above it, and one that is too late sends it on below.
    /// A missing block fails the search, and a search that is over stays as it is.
    pub open spec fn after(self, answer: Option<u64>) -> Locator {
        match self {
            Locator::AtHead { target, head } => match answer {
                None => Locator::Failed { error: LocateError::HeadNotFound },
                Some(timestamp) => if target >= timestamp {
                    Locator::Found { block: head }
                } else {
                    over(target, 1, head as int, first_block(head))
                },
            },
            Locator::Searching { target, low, high, best } => if low <= high {
                let mid = midpoint(low, high);
                match answer {
                    None => Locator::Failed { error: LocateError::BlockNotFound(mid) },
                    Some(timestamp) => if timestamp <= target {
                        over(target, mid + 1, high as int, mid)
                    } else {
                        over(target, low as int, mid - 1, best)
                    },
                }
            } else {
                self
            },
            _ => self,
        }
    }

    /// The result of a search that is over. (Of one that still asks, the block
    /// it asks for; no run ends in one.)
    pub open spec fn result(self) -> Result<u64, LocateError> {
        match self.action() {
            LocatorAction::Abort(error) => Err(error),
            LocatorAction::Finish(block) => Ok(block),
            LocatorAction::Fetch(block) => Ok(block),
        }
    }

    /// A bound on the blocks that the search may still ask for: those between
    /// `low` and `high`, and at the head one more than any search has.
    pub open spec fn span(self) -> nat {
        match self {
            Locator::AtHead { target, head } => 0x1_0000_0000_0000_0001,
            Locator::Searching { target, low, high, best } => if low <= high {
                (high - low + 1) as nat
            } else {
                0
            },
            _ => 0,
        }
    }

    /// The state in which the search ends when `chain` answers every question.
    pub open spec fn run(self, chain: Seq<u64>) -> Locator
        decreases self.span(),
    {
        match self.action() {
            LocatorAction::Fetch(block) => self.after(timestamp_at(chain, block)).run(chain),
            _ => self,
        }
    }

    /// The number of timestamps that the search asks of `chain` until it ends.
    pub open spec fn lookups(self, chain: Seq<u64>) -> nat
        decreases self.span(),
    {
        match self.action() {
            LocatorAction::Fetch(block) => 1 + self.after(timestamp_at(chain, block)).lookups(
                chain,
            ),
            _ => 0,
        }
    }

    /// Begins the search for `target_timestamp` on a chain whose head is `head_block`.
    pub fn start(target_timestamp: u64, head_block: u64) -> (state: Locator)
        ensures
            state == (Locator::AtHead { target: target_timestamp, head: head_block }),
    {
        Locator::AtHead { target: target_timestamp, head: head_block }
    }

    /// What to do next: fetch a block's timestamp, or stop with the result.
    pub fn next_action(&self) -> (action: LocatorAction)
        ensures
            action == self.action(),
    {
        match *self {
            Locator::AtHead { target, head } => LocatorAction::Fetch(head),
            Locator::Searching { target, low, high, best } => {
                if low <= high {
                    LocatorAction::Fetch(low + (high - low) / 2)
                } else {
                    LocatorAction::Finish(best)
                }
            },
            Locator::Found { block } => LocatorAction::Finish(block),
            Locator::Failed { error } => LocatorAction::Abort(error),
        }
    }

    /// Takes the answer to the last `Fetch`: the block's timestamp, or `None`
    /// where the chain has no such block.
    pub fn step(self, answer: Option<u64>) -> (next: Locator)
        ensures
            next == self.after(answer),
            self.action() is Fetch ==> next.span() < self.span(),
    {
        match self {
            Locator::AtHead { target, head } => match answer {
                None => Locator::Failed { error: LocateError::HeadNotFound },
                Some(timestamp) => {
                    if target >= timestamp || head == 0 {
                        Locator::Found { block: head }
                    } else {
                        Locator::Searching { target, low: 1, high: head, best: 1 }
                    }
                },
            },
            Locator::Searching { target, low, high, best } => {
                if low > high {
                    return self;
                }
                let mid = low + (high - low) / 2;
                match answer {
                    None => Locator::Failed { error: LocateError::BlockNotFound(mid) },
                    Some(timestamp) => {
                        if timestamp <= target {
                            if mid == high {
                                Locator::Found { block: mid }
                            } else {
                                Locator::Searching { target, low: mid + 1, high, best: mid }
                            }
                        } else if mid == low {
                            Locator::Found { block: best }
                        } else {
                            Locator::Searching { target, low, high: mid - 1, best }
                        }
                    },
                }
            },
            Locator::Found { block } => self,
            Locator::Failed { error } => self,
        }
    }
}

/// Finds the block that was the newest at `target_timestamp` on a chain whose
/// block `n` has the timestamp `chain[n]` and whose head is the last entry.
///
/// The head is the result when the target is not before its timestamp. Else
/// the blocks from 1 to the head are searched by halving, and on timestamps
/// that never decrease the result is the newest of them that is not after the
/// target, or block 1 if even that one is after it.
pub fn find_block_at_timestamp(chain: &[u64], target_timestamp: u64) -> (found: Result<
    u64,
    LocateError,
>)
    ensures
        found == located(chain@, target_timestamp),
        chain.len() == 0 <==> found is Err,
        found matches Ok(block) ==> block < chain.len(),
        found matches Ok(block) ==> never_decreases(chain@) ==> is_newest_or_first(
            chain@,
            target_timestamp,
            block,
        ),
{
    if chain.len() == 0 {
        return Err(LocateError::HeadNotFound);
    }
    let head = (chain.len() - 1) as u64;
    let mut state = Locator::start(target_timestamp, head);
    proof {
        lemma_run_stays_in_chain(chain@, state);
        if never_decreases(chain@) {
            if target_timestamp >= chain@.last() || has_block_by(chain@, target_timestamp) {
                lemma_locate_finds_newest(chain@, target_timestamp);
            } else {
                lemma_locate_before_first_block(chain@, target_timestamp);
            }
        }
    }
    loop
        invariant
            chain.len() > 0,
            state.run(chain@).result() == located(chain@, target_timestamp),
            located(chain@, target_timestamp) matches Ok(block) && block < chain.len() && (
            never_decreases(chain@) ==> is_newest_or_first(chain@, target_timestamp, block)),
        decreases state.span(),
    {
        match state.next_action() {
            LocatorAction::Fetch(block) => {
                let answer = if block < chain.len() as u64 {
                    Some(chain[block as usize])
                } else {
                    None
                };
                state = state.step(answer);
            },
            LocatorAction::Finish(block) => {
                return Ok(block);
            },
            LocatorAction::Abort(error) => {
                return Err(error);
            },
        }
    }
}

/// The number of halvings that bring `width` down to nothing.
spec fn halvings(width: nat) -> nat
    decreases width,
{
    if width == 0 {
        0
    } else {
        1 + halvings(width / 2)
    }
}

proof fn lemma_halvings_ordered(narrow: nat, wide: nat)
    requires
        narrow <= wide,
    ensures
        halvings(narrow) <= halvings(wide),
    decreases wide,
{
    if narrow > 0 {
        lemma_halvings_ordered(narrow / 2, wide / 2);
    }
}

proof fn lemma_halvings_is_log(width: nat)
    requires
        width >= 1,
    ensures
        halvings(width) == vstd::arithmetic::logarithm::log(2, width as int) + 1,
    decreases width,
{
    if width < 2 {
        vstd::arithmetic::logarithm::lemma_log0(2, width as int);
        assert(halvings(0) == 0);
    } else {
        vstd::arithmetic::logarithm::lemma_log_s(2, width as int);
        lemma_halvings_is_log(width / 2);
    }
}

proof fn lemma_search_lookups(chain: Seq<u64>, state: Locator)
    requires
        !(state is AtHead),
    ensures
        state.lookups(chain) <= halvings(state.span()),
    decreases state.span(),
{
    if let LocatorAction::Fetch(block) = state.action() {
        let next = state.after(timestamp_at(chain, block));
        lemma_search_lookups(chain, next);
        lemma_halvings_ordered(next.span(), state.span() / 2);
    }
}

/// Whatever the chain answers, the search comes to an end: the state that a
/// run ends in asks for nothing more.
pub proof fn lemma_run_is_over(chain: Seq<u64>, state: Locator)
    ensures
        !(state.run(chain).action() is Fetch),
    decreases state.span(),
{
    if let LocatorAction::Fetch(block) = state.action() {
        lemma_run_is_over(chain, state.after(timestamp_at(chain, block)));
    }
}

proof fn lemma_run_stays_in_chain(chain: Seq<u64>, state: Locator)
    requires
        match state {
            Locator::AtHead { target, head } => head < chain.len(),
            Locator::Searching { target, low, high, best } => high < chain.len() && best
                < chain.len(),
            Locator::Found { block } => block < chain.len(),
            Locator::Failed { error } => false,
        },
    ensures
        state.run(chain).result() matches Ok(block) && block < chain.len(),
    decreases state.span(),
{
    if let LocatorAction::Fetch(block) = state.action() {
        lemma_run_stays_in_chain(chain, state.after(timestamp_at(chain, block)));
    }
}

proof fn lemma_search_finds_newest(chain: Seq<u64>, target: u64, low: int, high: int, best: u64)
    requires
        never_decreases(chain),
        1 <= low <= high + 1,
        high < chain.len() <= u64::MAX,
        2 <= chain.len(),
        forall|block: int| 1 <= block < low ==> #[trigger] chain[block] <= target,
        forall|block: int| high < block < chain.len() ==> #[trigger] chain[block] > target,
        best == if low > 1 {
            low - 1
        } else {
            1
        },
    ensures
        over(target, low, high, best).run(chain).result() matches Ok(block) && if has_block_by(
            chain,
            target,
        ) {
            is_newest_by(chain, target, block)
        } else {
            block == 1
        },
    decreases high - low + 1,
{
    if low <= high {
        let state = over(target, low, high, best);
        let mid = midpoint(low as u64, high as u64);
        assert(state.action() == LocatorAction::Fetch(mid));
        if chain[mid as int] <= target {
            lemma_search_finds_newest(chain, target, mid + 1, high, mid);
        } else {
            lemma_search_finds_newest(chain, target, low, mid - 1, best);
        }
    } else if low > 1 {
        assert(chain[best as int] <= target);
    }
}

/// On timestamps that never decrease, the search ends at the head where the
/// target is not before the head's timestamp, and else at the newest block
/// from 1 on whose timestamp is not after the target, where there is one.
pub proof fn lemma_locate_finds_newest(chain: Seq<u64>, target: u64)
    requires
        0 < chain.len() <= u64::MAX,
        never_decreases(chain),
        target >= chain.last() || has_block_by(chain, target),
    ensures
        located(chain, target) matches Ok(block) && if target >= chain.last() {
            block == chain.len() - 1
        } else {
            is_newest_by(chain, target, block)
        },
{
    let head = (chain.len() - 1) as u64;
    let state = Locator::AtHead { target, head };
    assert(state.action() == LocatorAction::Fetch(head));
    assert(state.run(chain) == state.after(Some(chain.last())).run(chain));
    if target < chain.last() {
        lemma_search_finds_newest(chain, target, 1, head as int, 1);
    } else {
        let end = Locator::Found { block: head };
        assert(end.run(chain) == end);
    }
}

/// Where the target is before the head's timestamp and even block 1 is after
/// it, the search over timestamps that never decrease ends at block 1; on a
/// chain of block 0 alone it ends there.
pub proof fn lemma_locate_before_first_block(chain: Seq<u64>, target: u64)
    requires
        0 < chain.len() <= u64::MAX,
        never_decreases(chain),
        target < chain.last(),
        !has_block_by(chain, target),
    ensures
        located(chain, target) == Ok::<u64, LocateError>(first_block((chain.len() - 1) as u64)),
        chain.len() >= 2 ==> located(chain, target) == Ok::<u64, LocateError>(1),
{
    let head = (chain.len() - 1) as u64;
    let state = Locator::AtHead { target, head };
    assert(state.action() == LocatorAction::Fetch(head));
    assert(state.run(chain) == state.after(Some(chain.last())).run(chain));
    if head >= 1 {
        lemma_search_finds_newest(chain, target, 1, head as int, 1);
    } else {
        let end = Locator::Found { block: head };
        assert(end.run(chain) == end);
    }
}

/// A search from the head block `head` asks for the head's timestamp and then
/// for at most one more than the base-2 logarithm of `head`, rounded down,
/// whatever the chain answers.
pub proof fn lemma_lookups_bounded(chain: Seq<u64>, target: u64, head: u64)
    ensures
        1 <= (Locator::AtHead { target, head }).lookups(chain),
        head == 0 ==> (Locator::AtHead { target, head }).lookups(chain) == 1,
        head >= 1 ==> (Locator::AtHead { target, head }).lookups(chain)
            <= vstd::arithmetic::logarithm::log(2, head as int) + 2,
{
    let state = Locator::AtHead { target, head };
    assert(state.action() == LocatorAction::Fetch(head));
    let next = state.after(timestamp_at(chain, head));
    lemma_search_lookups(chain, next);
    lemma_halvings_ordered(next.span(), head as nat);
    if head >= 1 {
        lemma_halvings_is_log(head as nat);
    } else {
        assert(halvings(0) == 0);
    }
}

} // verus!
