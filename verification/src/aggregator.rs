//! The aggregator: one time-weighted average out of many price observations.
//!
//! A price is a whole number of the caller's smallest price unit. Each price
//! counts for the seconds until the next observation, so the last one counts
//! for nothing in the average; it still is the current price and takes part in
//! the lowest and the highest. The aggregator keeps the last observation and
//! running totals only; the observations it has taken are its view.

use vstd::prelude::*;

verus! {

/// One reading of the pool: when it was taken, the reserve that the price is
/// measured against, and the price.
#[derive(Clone, Copy, Debug, PartialEq, Eq)]
pub struct Sample {
    /// Seconds since the Unix epoch.
    pub timestamp: u64,
    /// The reserve under the price. A reading with none is not counted.
    pub reserve: i128,
    /// The price, in the caller's smallest unit.
    pub price: u64,
}

/// One price at one time.
#[derive(Clone, Copy, Debug, PartialEq, Eq)]
pub struct Observation {
    /// Seconds since the Unix epoch.
    pub timestamp: u64,
    /// The price, in the caller's smallest unit.
    pub price: u64,
}

/// What the observations come to.
#[derive(Clone, Copy, Debug, PartialEq, Eq)]
pub struct TwapResult {
    /// The time-weighted average price, rounded down.
    pub twap: u64,
    /// The price of the last observation.
    pub current_price: u64,
    /// The lowest price of any observation.
    pub min_price: u64,
    /// The highest price of any observation.
    pub max_price: u64,
}

/// Why there is no result.
#[derive(Clone, Copy, Debug, PartialEq, Eq)]
pub enum AggregateError {
    /// No price data was collected: no reading was counted.
    NoData,
    /// A reading is older than the one counted before it.
    OutOfOrder,
}

/// Hundredths of a percent in one whole.
pub const BASIS_POINTS: u64 = 10_000;

/// A reading counts if its reserve is positive.
pub open spec fn accepts(sample: Sample) -> bool {
    sample.reserve > 0
}

/// `part` as a share of `whole`, in hundredths of a percent, rounded down.
pub open spec fn basis_points(part: int, whole: int) -> int {
    part * BASIS_POINTS / whole
}

/// The observation that a reading stands for.
pub open spec fn observed(sample: Sample) -> Observation {
    Observation { timestamp: sample.timestamp, price: sample.price }
}

/// The observations of the readings that count, in the readings' order.
pub open spec fn accepted(samples: Seq<Sample>) -> Seq<Observation>
    decreases samples.len(),
{
    if samples.len() == 0 {
        Seq::empty()
    } else if accepts(samples.last()) {
        accepted(samples.drop_last()).push(observed(samples.last()))
    } else {
        accepted(samples.drop_last())
    }
}

/// No observation is older than one before it.
pub open spec fn in_order(observations: Seq<Observation>) -> bool {
    forall|earlier: int, later: int|
        0 <= earlier <= later < observations.len() ==> observations[earlier].timestamp
            <= observations[later].timestamp
}

/// `sample` is not older than the last of `observations`.
pub open spec fn follows(observations: Seq<Observation>, sample: Sample) -> bool {
    observations.len() > 0 ==> observations.last().timestamp <= sample.timestamp
}

/// The seconds from the first observation to the last.
pub open spec fn elapsed(observations: Seq<Observation>) -> int {
    if observations.len() == 0 {
        0
    } else {
        observations.last().timestamp - observations.first().timestamp
    }
}

/// The sum, over every observation but the last, of its price times the
/// seconds until the next observation.
pub open spec fn weighted_sum(observations: Seq<Observation>) -> int
    decreases observations.len(),
{
    if observations.len() < 2 {
        0
    } else {
        let before = observations.drop_last();
        weighted_sum(before) + before.last().price * (observations.last().timestamp
            - before.last().timestamp)
    }
}

/// The time-weighted average price, rounded down: the weighted sum over the
/// elapsed seconds, and the last price where no time has elapsed.
pub open spec fn time_weighted_average(observations: Seq<Observation>) -> int {
    if elapsed(observations) > 0 {
        weighted_sum(observations) / elapsed(observations)
    } else {
        observations.last().price as int
    }
}

/// `price` is the price of some observation, and none has a lower one.
pub open spec fn is_lowest(price: u64, observations: Seq<Observation>) -> bool {
    &&& exists|at: int| 0 <= at < observations.len() && #[trigger] observations[at].price == price
    &&& forall|at: int| 0 <= at < observations.len() ==> price <= #[trigger] observations[at].price
}

/// `price` is the price of some observation, and none has a higher one.
pub open spec fn is_highest(price: u64, observations: Seq<Observation>) -> bool {
    &&& exists|at: int| 0 <= at < observations.len() && #[trigger] observations[at].price == price
    &&& forall|at: int| 0 <= at < observations.len() ==> price >= #[trigger] observations[at].price
}

/// `result` is what `observations` come to.
pub open spec fn summarizes(result: TwapResult, observations: Seq<Observation>) -> bool {
    &&& observations.len() > 0
    &&& result.twap == time_weighted_average(observations)
    &&& result.current_price == observations.last().price
    &&& is_lowest(result.min_price, observations)
    &&& is_highest(result.max_price, observations)
}

/// Taking one more observation adds the price before it, weighted by the
/// seconds between the two.
pub proof fn lemma_weighted_sum_push(observations: Seq<Observation>, next: Observation)
    requires
        observations.len() > 0,
    ensures
        weighted_sum(observations.push(next)) == weighted_sum(observations)
            + observations.last().price * (next.timestamp - observations.last().timestamp),
        elapsed(observations.push(next)) == elapsed(observations) + (next.timestamp
            - observations.last().timestamp),
{
    assert(observations.push(next).drop_last() =~= observations);
}

/// The price of the last observation has no weight: the weighted sum and the
/// elapsed seconds are the same whatever that price is.
pub proof fn lemma_last_price_has_no_weight(observations: Seq<Observation>, price: u64)
    requires
        observations.len() > 0,
    ensures
        ({
            let last = Observation { timestamp: observations.last().timestamp, price };
            let changed = observations.drop_last().push(last);
            &&& weighted_sum(changed) == weighted_sum(observations)
            &&& elapsed(changed) == elapsed(observations)
        }),
{
    let last = Observation { timestamp: observations.last().timestamp, price };
    let changed = observations.drop_last().push(last);
    assert(changed.drop_last() =~= observations.drop_last());
}

/// One observation alone is its own average: no time has elapsed, nothing is
/// weighted, and the average is its price.
pub proof fn lemma_single_observation(observations: Seq<Observation>)
    requires
        observations.len() == 1,
    ensures
        elapsed(observations) == 0,
        weighted_sum(observations) == 0,
        time_weighted_average(observations) == observations[0].price,
{
}

/// Where no reading counts, there is no observation.
pub proof fn lemma_none_accepted(samples: Seq<Sample>)
    requires
        forall|at: int| 0 <= at < samples.len() ==> !accepts(#[trigger] samples[at]),
    ensures
        accepted(samples).len() == 0,
    decreases samples.len(),
{
    if samples.len() > 0 {
        lemma_none_accepted(samples.drop_last());
    }
}

/// The observations of the first `count` readings are the first observations
/// of all the readings.
pub proof fn lemma_accepted_prefix(samples: Seq<Sample>, count: int)
    requires
        0 <= count <= samples.len(),
    ensures
        accepted(samples.take(count)).len() <= accepted(samples).len(),
        accepted(samples).take(accepted(samples.take(count)).len() as int) == accepted(
            samples.take(count),
        ),
    decreases samples.len(),
{
    if count == samples.len() {
        assert(samples.take(count) =~= samples);
        assert(accepted(samples).take(accepted(samples).len() as int) =~= accepted(samples));
    } else {
        lemma_accepted_prefix(samples.drop_last(), count);
        assert(samples.drop_last().take(count) =~= samples.take(count));
        let part = accepted(samples.take(count));
        assert(accepted(samples).take(part.len() as int) =~= accepted(samples.drop_last()).take(
            part.len() as int,
        ));
    }
}

impl Sample {
    /// Whether the reading counts: whether its reserve is positive.
    pub fn is_accepted(&self) -> (counts: bool)
        ensures
            counts == accepts(*self),
    {
        self.reserve > 0
    }
}

/// A difference of two prices in ten-thousandths.
fn scaled(difference: u128) -> (product: u128)
    requires
        difference <= u64::MAX,
    ensures
        product == difference * BASIS_POINTS,
        product <= u64::MAX * BASIS_POINTS,
{
    assert(difference * BASIS_POINTS <= u64::MAX * BASIS_POINTS) by (nonlinear_arith)
        requires
            difference <= u64::MAX,
    ;
    difference * (BASIS_POINTS as u128)
}

impl TwapResult {
    /// The spread from the lowest to the highest price as a share of the
    /// lowest, and nothing where the lowest price is zero or above the highest.
    pub open spec fn range(self) -> Option<int> {
        if 0 < self.min_price <= self.max_price {
            Some(basis_points(self.max_price - self.min_price, self.min_price as int))
        } else {
            None
        }
    }

    /// How far the current price lies from the average as a share of the
    /// average, below zero where it lies under it, rounded towards zero; and
    /// nothing where the average is zero.
    pub open spec fn deviation(self) -> Option<int> {
        if self.twap == 0 {
            None
        } else if self.current_price >= self.twap {
            Some(basis_points(self.current_price - self.twap, self.twap as int))
        } else {
            Some(-basis_points(self.twap - self.current_price, self.twap as int))
        }
    }

    /// The price range in hundredths of a percent of the lowest price.
    pub fn price_range(&self) -> (share: Option<u128>)
        ensures
            match share {
                Some(points) => self.range() == Some(points as int),
                None => self.range() is None,
            },
    {
        if self.min_price == 0 || self.max_price < self.min_price {
            None
        } else {
            let spread = (self.max_price - self.min_price) as u128;
            Some(scaled(spread) / (self.min_price as u128))
        }
    }

    /// The deviation of the current price from the average, in hundredths of a
    /// percent of the average.
    pub fn deviation_from_twap(&self) -> (share: Option<i128>)
        ensures
            match share {
                Some(points) => self.deviation() == Some(points as int),
                None => self.deviation() is None,
            },
    {
        if self.twap == 0 {
            None
        } else if self.current_price >= self.twap {
            let above = (self.current_price - self.twap) as u128;
            let points = scaled(above) / (self.twap as u128);
            Some(points as i128)
        } else {
            let below = (self.twap - self.current_price) as u128;
            let points = scaled(below) / (self.twap as u128);
            Some(-(points as i128))
        }
    }
}

/// A running time-weighted average. Its view is the observations it has taken.
pub struct Aggregator {
    taken: Ghost<Seq<Observation>>,
    last: Option<Observation>,
    weighted: u128,
    seconds: u64,
    lowest: u64,
    highest: u64,
}

impl View for Aggregator {
    type V = Seq<Observation>;

    closed spec fn view(&self) -> Seq<Observation> {
        self.taken@
    }
}

impl Aggregator {
    #[verifier::type_invariant]
    spec fn well_formed(self) -> bool {
        let taken = self.taken@;
        &&& in_order(taken)
        &&& self.last == if taken.len() > 0 {
            Some(taken.last())
        } else {
            None
        }
        &&& self.weighted == weighted_sum(taken)
        &&& self.seconds == elapsed(taken)
        &&& taken.len() > 0 ==> is_lowest(self.lowest, taken) && is_highest(self.highest, taken)
        &&& self.lowest * self.seconds <= self.weighted <= self.highest * self.seconds
    }

    /// An aggregator that has taken nothing yet.
    pub fn new() -> (empty: Aggregator)
        ensures
            empty@ == Seq::<Observation>::empty(),
    {
        Aggregator {
            taken: Ghost(Seq::empty()),
            last: None,
            weighted: 0,
            seconds: 0,
            lowest: 0,
            highest: 0,
        }
    }

    /// The seconds from the first observation taken to the last.
    pub fn total_time(&self) -> (seconds: u64)
        ensures
            seconds == elapsed(self@),
    {
        proof {
            use_type_invariant(self);
        }
        self.seconds
    }

    /// The sum of the prices taken, each weighted by the seconds until the next.
    pub fn total_weighted_price(&self) -> (weighted: u128)
        ensures
            weighted == weighted_sum(self@),
    {
        proof {
            use_type_invariant(self);
        }
        self.weighted
    }

    /// Offers one reading. `Ok(true)`: it counts and was taken. `Ok(false)`: its
    /// reserve is not positive, and it was passed over. `OutOfOrder`: it is
    /// older than the last observation taken, and was not taken.
    pub fn observe(&mut self, sample: Sample) -> (outcome: Result<bool, AggregateError>)
        ensures
            in_order(final(self)@),
            outcome == if !accepts(sample) {
                Ok::<bool, AggregateError>(false)
            } else if follows(old(self)@, sample) {
                Ok::<bool, AggregateError>(true)
            } else {
                Err::<bool, AggregateError>(AggregateError::OutOfOrder)
            },
            final(self)@ == if outcome == Ok::<bool, AggregateError>(true) {
                old(self)@.push(observed(sample))
            } else {
                old(self)@
            },
    {
        proof {
            use_type_invariant(&*self);
        }
        let next = Observation { timestamp: sample.timestamp, price: sample.price };
        match self.last {
            None => {
                if !sample.is_accepted() {
                    return Ok(false);
                }
                let ghost taken = self.taken@.push(next);
                proof {
                    assert(self.taken@ =~= Seq::empty());
                    lemma_first_observation(next);
                }
                *self = Aggregator {
                    taken: Ghost(taken),
                    last: Some(next),
                    weighted: 0,
                    seconds: 0,
                    lowest: next.price,
                    highest: next.price,
                };
                Ok(true)
            },
            Some(last) => {
                if !sample.is_accepted() {
                    return Ok(false);
                }
                if sample.timestamp < last.timestamp {
                    return Err(AggregateError::OutOfOrder);
                }
                let gap = sample.timestamp - last.timestamp;
                let lowest = if next.price < self.lowest {
                    next.price
                } else {
                    self.lowest
                };
                let highest = if next.price > self.highest {
                    next.price
                } else {
                    self.highest
                };
                let ghost before = self.taken@;
                let ghost taken = before.push(next);
                proof {
                    lemma_weighted_sum_push(before, next);
                    lemma_bounds_push(
                        self.weighted as int,
                        self.seconds as int,
                        self.lowest as int,
                        self.highest as int,
                        last.price as int,
                        gap as int,
                        lowest as int,
                        highest as int,
                    );
                    lemma_extremes_push(before, next, self.lowest, self.highest);
                }
                let weighted = self.weighted + (last.price as u128) * (gap as u128);
                let seconds = self.seconds + gap;
                *self = Aggregator {
                    taken: Ghost(taken),
                    last: Some(next),
                    weighted,
                    seconds,
                    lowest,
                    highest,
                };
                Ok(true)
            },
        }
    }

    /// What the observations taken so far come to, and `NoData` where none was
    /// taken. The average lies between the lowest and the highest price.
    pub fn finish(&self) -> (outcome: Result<TwapResult, AggregateError>)
        ensures
            match outcome {
                Ok(result) => summarizes(result, self@) && result.min_price <= result.twap
                    <= result.max_price,
                Err(error) => error == AggregateError::NoData && self@.len() == 0,
            },
    {
        proof {
            use_type_invariant(self);
        }
        match self.last {
            None => Err(AggregateError::NoData),
            Some(last) => {
                let twap = if self.seconds > 0 {
                    proof {
                        lemma_average_bounds(
                            self.weighted as int,
                            self.seconds as int,
                            self.lowest as int,
                            self.highest as int,
                        );
                    }
                    (self.weighted / (self.seconds as u128)) as u64
                } else {
                    last.price
                };
                Ok(
                    TwapResult {
                        twap,
                        current_price: last.price,
                        min_price: self.lowest,
                        max_price: self.highest,
                    },
                )
            },
        }
    }
}

proof fn lemma_first_observation(first: Observation)
    ensures
        ({
            let alone = Seq::<Observation>::empty().push(first);
            &&& alone.len() == 1
            &&& alone.last() == first
            &&& in_order(alone)
            &&& weighted_sum(alone) == 0
            &&& elapsed(alone) == 0
            &&& is_lowest(first.price, alone)
            &&& is_highest(first.price, alone)
        }),
{
    let alone = Seq::<Observation>::empty().push(first);
    assert(alone[0].price == first.price);
}

proof fn lemma_bounds_push(
    weighted: int,
    seconds: int,
    lowest: int,
    highest: int,
    price: int,
    gap: int,
    new_lowest: int,
    new_highest: int,
)
    requires
        lowest * seconds <= weighted <= highest * seconds,
        0 <= seconds,
        0 <= gap,
        seconds + gap <= u64::MAX,
        0 <= new_lowest <= lowest <= price <= highest <= new_highest <= u64::MAX,
    ensures
        new_lowest * (seconds + gap) <= weighted + price * gap <= new_highest * (seconds + gap),
        weighted + price * gap <= u128::MAX,
        price * gap <= u128::MAX,
{
    assert(new_lowest * (seconds + gap) <= lowest * seconds + price * gap) by (nonlinear_arith)
        requires
            0 <= new_lowest <= lowest <= price,
            0 <= seconds,
            0 <= gap,
    ;
    assert(highest * seconds + price * gap <= new_highest * (seconds + gap)) by (nonlinear_arith)
        requires
            0 <= price <= highest <= new_highest,
            0 <= seconds,
            0 <= gap,
    ;
    assert(new_highest * (seconds + gap) <= 0xffff_ffff_ffff_ffff * 0xffff_ffff_ffff_ffff)
        by (nonlinear_arith)
        requires
            0 <= new_highest <= 0xffff_ffff_ffff_ffff,
            0 <= seconds + gap <= 0xffff_ffff_ffff_ffff,
    ;
    assert(0 <= price * gap <= new_highest * (seconds + gap)) by (nonlinear_arith)
        requires
            0 <= price <= new_highest,
            0 <= seconds,
            0 <= gap,
    ;
}

proof fn lemma_average_bounds(weighted: int, seconds: int, lowest: int, highest: int)
    requires
        lowest * seconds <= weighted <= highest * seconds,
        0 < seconds,
        0 <= lowest,
    ensures
        lowest <= weighted / seconds <= highest,
{
    assert(lowest <= weighted / seconds <= highest) by (nonlinear_arith)
        requires
            lowest * seconds <= weighted <= highest * seconds,
            0 < seconds,
    ;
}

proof fn lemma_extremes_push(
    observations: Seq<Observation>,
    next: Observation,
    lowest: u64,
    highest: u64,
)
    requires
        observations.len() > 0,
        in_order(observations),
        observations.last().timestamp <= next.timestamp,
        is_lowest(lowest, observations),
        is_highest(highest, observations),
    ensures
        in_order(observations.push(next)),
        is_lowest(
            if next.price < lowest {
                next.price
            } else {
                lowest
            },
            observations.push(next),
        ),
        is_highest(
            if next.price > highest {
                next.price
            } else {
                highest
            },
            observations.push(next),
        ),
        lowest <= observations.last().price <= highest,
{
    let longer = observations.push(next);
    let low = choose|at: int| 0 <= at < observations.len() && observations[at].price == lowest;
    let high = choose|at: int| 0 <= at < observations.len() && observations[at].price == highest;
    assert(longer[low] == observations[low]);
    assert(longer[high] == observations[high]);
    assert(longer[observations.len() as int] == next);
    assert forall|earlier: int, later: int| 0 <= earlier <= later < longer.len() implies
        longer[earlier].timestamp <= longer[later].timestamp by {
        if later < observations.len() {
        } else if earlier < observations.len() {
            assert(observations[earlier].timestamp <= observations.last().timestamp);
        }
    }
}

/// Takes the readings in their order and gives what those that count come to.
///
/// `OutOfOrder` where a reading that counts is older than one that counts
/// before it; `NoData` where none counts, as when every reserve is zero or less.
pub fn aggregate(samples: &[Sample]) -> (outcome: Result<TwapResult, AggregateError>)
    ensures
        match outcome {
            Ok(result) => in_order(accepted(samples@)) && summarizes(result, accepted(samples@))
                && result.min_price <= result.twap <= result.max_price,
            Err(AggregateError::OutOfOrder) => !in_order(accepted(samples@)),
            Err(AggregateError::NoData) => accepted(samples@).len() == 0,
        },
        (forall|at: int| 0 <= at < samples.len() ==> !accepts(#[trigger] samples[at])) ==> outcome
            == Err::<TwapResult, AggregateError>(AggregateError::NoData),
{
    let mut running = Aggregator::new();
    let mut at: usize = 0;
    while at < samples.len()
        invariant
            at <= samples.len(),
            running@ == accepted(samples@.take(at as int)),
            in_order(running@),
        decreases samples.len() - at,
    {
        let ghost before = running@;
        let outcome = running.observe(samples[at]);
        proof {
            assert(samples@.take(at + 1).drop_last() =~= samples@.take(at as int));
            lemma_accepted_prefix(samples@, at + 1);
        }
        if let Err(error) = outcome {
            proof {
                let part = before.push(observed(samples[at as int]));
                let whole = accepted(samples@);
                assert(whole[part.len() - 2] == part[part.len() - 2]);
                assert(whole[part.len() - 1] == part[part.len() - 1]);
            }
            return Err(error);
        }
        at = at + 1;
    }
    proof {
        assert(samples@.take(at as int) =~= samples@);
        if forall|at: int| 0 <= at < samples.len() ==> !accepts(#[trigger] samples[at]) {
            lemma_none_accepted(samples@);
        }
    }
    running.finish()
}

} // verus!
