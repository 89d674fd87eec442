use vstd::prelude::*;
use crate::config::{OptimizationStrategy, StationId};
use crate::pair::PairInterval;
use crate::price::{OhlcvTimeSeries, Price, TradeDirection, TradeOutcome, Volume};

verus! {

/// A trade idea with its entry, exit levels and lifetime.
#[derive(Debug, Clone)]
pub struct TradeOpportunity {
    pub id: String,
    pub pair_name: String,
    pub direction: TradeDirection,
    pub start_price: Price,
    pub target_price: Price,
    pub stop_price: Price,
    pub created_at_ms: i64,
    pub max_duration_ms: i64,
    pub avg_duration_ms: i64,
    pub strategy: OptimizationStrategy,
    pub station_id: StationId,
}

impl TradeOpportunity {
    /// A copy of `self`.
    pub fn duplicate(&self) -> (r: Self)
        ensures
            r == *self,
    {
        TradeOpportunity {
            id: self.id.clone(),
            pair_name: self.pair_name.clone(),
            direction: self.direction,
            start_price: self.start_price,
            target_price: self.target_price,
            stop_price: self.stop_price,
            created_at_ms: self.created_at_ms,
            max_duration_ms: self.max_duration_ms,
            avg_duration_ms: self.avg_duration_ms,
            strategy: self.strategy,
            station_id: self.station_id,
        }
    }

    /// How the trade ends on a candle with range `[low, high]` observed at
    /// `now_ms`: a timeout once more than `max_duration_ms` has passed since
    /// creation, otherwise as [`price_exit`] says.
    pub fn check_exit_condition(&self, high: Price, low: Price, now_ms: i64) -> (r: Option<
        TradeOutcome,
    >)
        ensures
            r == exit_condition(*self, high, low, now_ms),
    {
        if (now_ms as i128) - (self.created_at_ms as i128) > self.max_duration_ms as i128 {
            Some(TradeOutcome::Timeout)
        } else {
            candle_exit(self.direction, self.target_price, self.stop_price, high, low)
        }
    }
}

/// How a trade with the given levels ends on a candle with range
/// `[low, high]`, judged pessimistically: the stop is tested before the
/// target.
pub open spec fn price_exit(
    direction: TradeDirection,
    target: Price,
    stop: Price,
    high: Price,
    low: Price,
) -> Option<TradeOutcome> {
    match direction {
        TradeDirection::Long => if low.0 <= stop.0 {
            Some(TradeOutcome::StopHit)
        } else if high.0 >= target.0 {
            Some(TradeOutcome::TargetHit)
        } else {
            None
        },
        TradeDirection::Short => if high.0 >= stop.0 {
            Some(TradeOutcome::StopHit)
        } else if low.0 <= target.0 {
            Some(TradeOutcome::TargetHit)
        } else {
            None
        },
    }
}

/// What [`TradeOpportunity::check_exit_condition`] returns.
pub open spec fn exit_condition(
    op: TradeOpportunity,
    high: Price,
    low: Price,
    now_ms: i64,
) -> Option<TradeOutcome> {
    if now_ms - op.created_at_ms > op.max_duration_ms {
        Some(TradeOutcome::Timeout)
    } else {
        price_exit(op.direction, op.target_price, op.stop_price, high, low)
    }
}

/// Exit of a trade with the given levels on one candle.
pub fn candle_exit(
    direction: TradeDirection,
    target: Price,
    stop: Price,
    high: Price,
    low: Price,
) -> (r: Option<TradeOutcome>)
    ensures
        r == price_exit(direction, target, stop, high, low),
{
    match direction {
        TradeDirection::Long => {
            if low.0 <= stop.0 {
                Some(TradeOutcome::StopHit)
            } else if high.0 >= target.0 {
                Some(TradeOutcome::TargetHit)
            } else {
                None
            }
        },
        TradeDirection::Short => {
            if high.0 >= stop.0 {
                Some(TradeOutcome::StopHit)
            } else if low.0 <= target.0 {
                Some(TradeOutcome::TargetHit)
            } else {
                None
            }
        },
    }
}

/// Where and how a replayed trade ended.
#[derive(Debug, Clone, Copy, PartialEq, Eq, Structural)]
pub struct ReplayResult {
    pub result: TradeOutcome,
    pub exit_candle_idx: usize,
}

/// Candle `i` ends the trade: it opens after the expiry or touches a level.
pub open spec fn resolves(ts: OhlcvTimeSeries, op: TradeOpportunity, expiry_ms: i64, i: int) -> bool {
    ts.timestamps@[i] > expiry_ms || price_exit(
        op.direction,
        op.target_price,
        op.stop_price,
        ts.high_prices@[i],
        ts.low_prices@[i],
    ) is Some
}

/// How candle `i` ends the trade.
pub open spec fn outcome_at(
    ts: OhlcvTimeSeries,
    op: TradeOpportunity,
    expiry_ms: i64,
    i: int,
) -> TradeOutcome {
    if ts.timestamps@[i] > expiry_ms {
        TradeOutcome::Timeout
    } else {
        price_exit(
            op.direction,
            op.target_price,
            op.stop_price,
            ts.high_prices@[i],
            ts.low_prices@[i],
        ).unwrap()
    }
}

/// Replays `opp` over the candles from `start_idx` on: the first candle that
/// opens after `expiry_ms` times the trade out, and otherwise the first
/// candle that touches the stop or the target ends it (stop first). When no
/// candle does, the trade times out on the last candle.
pub fn replay_opportunity_forward(
    ohlcv: &OhlcvTimeSeries,
    opp: &TradeOpportunity,
    start_idx: usize,
    expiry_ms: i64,
) -> (r: ReplayResult)
    requires
        ohlcv.wf(),
    ensures
        ({
            let n = ohlcv.timestamps@.len() as int;
            if exists|i: int| start_idx <= i < n && #[trigger] resolves(*ohlcv, *opp, expiry_ms, i) {
                &&& start_idx <= r.exit_candle_idx < n
                &&& resolves(*ohlcv, *opp, expiry_ms, r.exit_candle_idx as int)
                &&& r.result == outcome_at(*ohlcv, *opp, expiry_ms, r.exit_candle_idx as int)
                &&& forall|i: int|
                    start_idx <= i < r.exit_candle_idx ==> !#[trigger] resolves(
                        *ohlcv,
                        *opp,
                        expiry_ms,
                        i,
                    )
            } else {
                &&& r.result == TradeOutcome::Timeout
                &&& r.exit_candle_idx == (if n > 0 {
                    n - 1
                } else {
                    0
                })
            }
        }),
{
    let total = ohlcv.klines();
    let mut idx = start_idx;
    while idx < total
        invariant
            ohlcv.wf(),
            total == ohlcv.timestamps@.len(),
            start_idx <= idx,
            forall|i: int| start_idx <= i < idx ==> !#[trigger] resolves(*ohlcv, *opp, expiry_ms, i),
        decreases total - idx,
    {
        if ohlcv.timestamps[idx] > expiry_ms {
            assert(resolves(*ohlcv, *opp, expiry_ms, idx as int));
            return ReplayResult { result: TradeOutcome::Timeout, exit_candle_idx: idx };
        }
        let exit = candle_exit(
            opp.direction,
            opp.target_price,
            opp.stop_price,
            ohlcv.high_prices[idx],
            ohlcv.low_prices[idx],
        );
        if let Some(result) = exit {
            assert(resolves(*ohlcv, *opp, expiry_ms, idx as int));
            return ReplayResult { result, exit_candle_idx: idx };
        }
        idx = idx + 1;
    }
    let last = if total > 0 {
        total - 1
    } else {
        0
    };
    ReplayResult { result: TradeOutcome::Timeout, exit_candle_idx: last }
}

/// The price and time at which a replayed trade left the market: the level
/// it hit, or the close of its exit candle on a timeout; the last candle when
/// the exit index lies past the data.
pub fn resolve_exit(ohlcv: &OhlcvTimeSeries, opp: &TradeOpportunity, replay: ReplayResult) -> (r: (
    Price,
    i64,
))
    requires
        ohlcv.wf(),
        ohlcv.timestamps@.len() > 0,
    ensures
        ({
            let n = ohlcv.timestamps@.len() as int;
            let i = replay.exit_candle_idx as int;
            if i < n {
                &&& r.0 == (match replay.result {
                    TradeOutcome::TargetHit => opp.target_price,
                    TradeOutcome::StopHit => opp.stop_price,
                    _ => ohlcv.close_prices@[i],
                })
                &&& r.1 == ohlcv.timestamps@[i]
            } else {
                r.0 == ohlcv.close_prices@[n - 1] && r.1 == ohlcv.timestamps@[n - 1]
            }
        }),
{
    let total = ohlcv.klines();
    let i = replay.exit_candle_idx;
    if i < total {
        let price = match replay.result {
            TradeOutcome::TargetHit => opp.target_price,
            TradeOutcome::StopHit => opp.stop_price,
            _ => ohlcv.close_prices[i],
        };
        (price, ohlcv.timestamps[i])
    } else {
        (ohlcv.close_prices[total - 1], ohlcv.timestamps[total - 1])
    }
}

/// Expiry of a trade entered at `entry_ms` that may last `max_duration_ms`
/// (a negative duration counts as zero).
pub fn backtest_expiry_ms(entry_ms: i64, max_duration_ms: i64) -> (r: i64)
    requires
        entry_ms + (if max_duration_ms > 0 {
            max_duration_ms as int
        } else {
            0
        }) <= i64::MAX,
    ensures
        r == entry_ms + (if max_duration_ms > 0 {
            max_duration_ms as int
        } else {
            0
        }),
{
    if max_duration_ms > 0 {
        entry_ms + max_duration_ms
    } else {
        entry_ms
    }
}

/// One step of a walk-forward backtest: train on candles `[0, train_end)`
/// and enter at candle `current_idx`.
#[derive(Debug, Clone, Copy, PartialEq, Eq, Structural)]
pub struct BacktestStep {
    pub train_end: usize,
    pub current_idx: usize,
}

/// Candles left for training when `holdout` candles are kept back.
pub open spec fn backtest_split(total: usize, holdout: usize) -> usize {
    if total >= holdout {
        (total - holdout) as usize
    } else {
        0
    }
}

/// The steps for offsets `i, i + stride, ...` below `holdout`: an offset is
/// kept when its training window holds at least `min_training` candles and
/// its entry candle exists.
pub open spec fn plan_from(
    split: usize,
    i: int,
    holdout: usize,
    stride: usize,
    min_training: usize,
    total: usize,
) -> Seq<BacktestStep>
    decreases holdout - i,
    when stride > 0
{
    if i >= holdout || i < 0 {
        Seq::empty()
    } else {
        let rest = if i + stride < holdout {
            plan_from(split, i + stride, holdout, stride, min_training, total)
        } else {
            Seq::empty()
        };
        let train_end = split + i;
        let current = if train_end > 0 {
            train_end - 1
        } else {
            0
        };
        if train_end >= min_training && current < total {
            seq![BacktestStep { train_end: train_end as usize, current_idx: current as usize }]
                + rest
        } else {
            rest
        }
    }
}

/// Schedule of a walk-forward backtest over `total` candles: `None` when
/// fewer than `min_training` candles remain once `holdout` are kept back,
/// otherwise one step per offset `0, stride, 2 * stride, ...` below
/// `holdout` whose window is long enough and whose entry candle exists.
pub fn backtest_plan(total: usize, holdout: usize, min_training: usize, stride: usize) -> (r:
    Option<Vec<BacktestStep>>)
    requires
        stride > 0,
    ensures
        backtest_split(total, holdout) < min_training ==> r.is_none(),
        backtest_split(total, holdout) >= min_training ==> r.is_some() && r.unwrap()@ == plan_from(
            backtest_split(total, holdout),
            0,
            holdout,
            stride,
            min_training,
            total,
        ),
{
    let split = total.saturating_sub(holdout);
    if split < min_training {
        return None;
    }
    let mut steps: Vec<BacktestStep> = Vec::new();
    let mut i: usize = 0;
    while i < holdout
        invariant
            stride > 0,
            split == backtest_split(total, holdout),
            i <= holdout,
            steps@ + plan_from(split, i as int, holdout, stride, min_training, total) == plan_from(
                split,
                0,
                holdout,
                stride,
                min_training,
                total,
            ),
        decreases holdout - i,
    {
        let train_end = split + i;
        let current_idx = train_end.saturating_sub(1);
        let ghost old_steps = steps@;
        let ghost rest = if i + stride < holdout {
            plan_from(split, i + stride, holdout, stride, min_training, total)
        } else {
            Seq::empty()
        };
        if train_end >= min_training && current_idx < total {
            steps.push(BacktestStep { train_end, current_idx });
            assert(old_steps + plan_from(split, i as int, holdout, stride, min_training, total)
                =~= steps@ + rest);
        }
        if holdout - i <= stride {
            i = holdout;
        } else {
            i = i + stride;
        }
    }
    Some(steps)
}

/// Counts of a backtest's outcomes.
#[derive(Debug, Clone, Copy, PartialEq, Eq, Structural)]
pub struct BacktestTally {
    pub trades_resolved: usize,
    pub wins: usize,
    pub losses: usize,
    pub timeouts: usize,
}

/// Number of entries of `outcomes` among the first `n` for which `pred`
/// holds.
pub open spec fn count_outcomes(outcomes: Seq<TradeOutcome>, n: int, pred: spec_fn(TradeOutcome) -> bool) -> nat
    decreases n,
{
    if n <= 0 {
        0
    } else {
        count_outcomes(outcomes, n - 1, pred) + (if pred(outcomes[n - 1]) {
            1nat
        } else {
            0nat
        })
    }
}

/// A won trade.
pub open spec fn is_win(o: TradeOutcome) -> bool {
    o == TradeOutcome::TargetHit
}

/// A lost trade.
pub open spec fn is_loss(o: TradeOutcome) -> bool {
    o == TradeOutcome::StopHit
}

/// A trade that ran out of time or was closed by hand.
pub open spec fn is_timeout(o: TradeOutcome) -> bool {
    o == TradeOutcome::Timeout || o == TradeOutcome::ManualClose
}

/// Tallies resolved trades: targets are wins, stops are losses, and
/// timeouts and manual closes count as timeouts.
pub fn tally_outcomes(outcomes: &Vec<TradeOutcome>) -> (r: BacktestTally)
    ensures
        r.trades_resolved == outcomes@.len(),
        r.wins == count_outcomes(outcomes@, outcomes@.len() as int, |o: TradeOutcome| is_win(o)),
        r.losses == count_outcomes(outcomes@, outcomes@.len() as int, |o: TradeOutcome| is_loss(o)),
        r.timeouts == count_outcomes(
            outcomes@,
            outcomes@.len() as int,
            |o: TradeOutcome| is_timeout(o),
        ),
{
    let mut t = BacktestTally { trades_resolved: 0, wins: 0, losses: 0, timeouts: 0 };
    let mut i: usize = 0;
    while i < outcomes.len()
        invariant
            i <= outcomes@.len(),
            t.trades_resolved == i,
            t.wins == count_outcomes(outcomes@, i as int, |o: TradeOutcome| is_win(o)),
            t.losses == count_outcomes(outcomes@, i as int, |o: TradeOutcome| is_loss(o)),
            t.timeouts == count_outcomes(outcomes@, i as int, |o: TradeOutcome| is_timeout(o)),
            t.wins + t.losses + t.timeouts == i,
        decreases outcomes@.len() - i,
    {
        match outcomes[i] {
            TradeOutcome::TargetHit => {
                t.wins = t.wins + 1;
            },
            TradeOutcome::StopHit => {
                t.losses = t.losses + 1;
            },
            _ => {
                t.timeouts = t.timeouts + 1;
            },
        }
        t.trades_resolved = t.trades_resolved + 1;
        i = i + 1;
    }
    t
}

/// Every resolved trade is exactly one of a win, a loss or a timeout.
pub proof fn law_tally_partitions(outcomes: Seq<TradeOutcome>, n: int)
    requires
        0 <= n <= outcomes.len(),
    ensures
        count_outcomes(outcomes, n, |o: TradeOutcome| is_win(o)) + count_outcomes(
            outcomes,
            n,
            |o: TradeOutcome| is_loss(o),
        ) + count_outcomes(outcomes, n, |o: TradeOutcome| is_timeout(o)) == n,
    decreases n,
{
    if n > 0 {
        law_tally_partitions(outcomes, n - 1);
    }
}

/// A replay at a candle inside the trade's lifetime ends the trade exactly
/// as checking the live exit condition on that candle would: stop before
/// target.
pub proof fn law_replay_matches_exit_check(
    ts: OhlcvTimeSeries,
    op: TradeOpportunity,
    expiry_ms: i64,
    i: int,
)
    requires
        ts.wf(),
        0 <= i < ts.timestamps@.len(),
        ts.timestamps@[i] <= expiry_ms,
        ts.timestamps@[i] - op.created_at_ms <= op.max_duration_ms,
    ensures
        resolves(ts, op, expiry_ms, i) <==> exit_condition(
            op,
            ts.high_prices@[i],
            ts.low_prices@[i],
            ts.timestamps@[i],
        ) is Some,
        resolves(ts, op, expiry_ms, i) ==> Some(outcome_at(ts, op, expiry_ms, i)) == exit_condition(
            op,
            ts.high_prices@[i],
            ts.low_prices@[i],
            ts.timestamps@[i],
        ),
{
}

/// The first `n` entries of `v`.
fn prefix<T: Copy>(v: &Vec<T>, n: usize) -> (r: Vec<T>)
    requires
        n <= v@.len(),
    ensures
        r@ == v@.subrange(0, n as int),
{
    let mut r: Vec<T> = Vec::new();
    let mut i: usize = 0;
    while i < n
        invariant
            i <= n,
            n <= v@.len(),
            r@ == v@.subrange(0, i as int),
        decreases n - i,
    {
        r.push(v[i]);
        i = i + 1;
        assert(r@ =~= v@.subrange(0, i as int));
    }
    r
}

/// The series cut to its first `end_idx` candles (or left whole when it is
/// shorter).
pub fn truncate_ohlcv(ohlcv: &OhlcvTimeSeries, end_idx: usize) -> (r: OhlcvTimeSeries)
    requires
        ohlcv.wf(),
    ensures
        ({
            let n = if end_idx < ohlcv.timestamps@.len() {
                end_idx as int
            } else {
                ohlcv.timestamps@.len() as int
            };
            &&& r.wf()
            &&& r.pair_interval.name@ == ohlcv.pair_interval.name@
            &&& r.pair_interval.interval_ms == ohlcv.pair_interval.interval_ms
            &&& r.first_kline_timestamp_ms == ohlcv.first_kline_timestamp_ms
            &&& r.timestamps@ == ohlcv.timestamps@.subrange(0, n)
            &&& r.open_prices@ == ohlcv.open_prices@.subrange(0, n)
            &&& r.high_prices@ == ohlcv.high_prices@.subrange(0, n)
            &&& r.low_prices@ == ohlcv.low_prices@.subrange(0, n)
            &&& r.close_prices@ == ohlcv.close_prices@.subrange(0, n)
            &&& r.base_asset_volumes@ == ohlcv.base_asset_volumes@.subrange(0, n)
            &&& r.quote_asset_volumes@ == ohlcv.quote_asset_volumes@.subrange(0, n)
            &&& r.relative_volumes@ == ohlcv.relative_volumes@.subrange(0, n)
        }),
{
    let total = ohlcv.klines();
    let n = if end_idx < total {
        end_idx
    } else {
        total
    };
    OhlcvTimeSeries {
        pair_interval: PairInterval {
            name: ohlcv.pair_interval.name.clone(),
            interval_ms: ohlcv.pair_interval.interval_ms,
        },
        first_kline_timestamp_ms: ohlcv.first_kline_timestamp_ms,
        timestamps: prefix(&ohlcv.timestamps, n),
        open_prices: prefix(&ohlcv.open_prices, n),
        high_prices: prefix(&ohlcv.high_prices, n),
        low_prices: prefix(&ohlcv.low_prices, n),
        close_prices: prefix(&ohlcv.close_prices, n),
        base_asset_volumes: prefix(&ohlcv.base_asset_volumes, n),
        quote_asset_volumes: prefix(&ohlcv.quote_asset_volumes, n),
        relative_volumes: prefix(&ohlcv.relative_volumes, n),
    }
}

/// Exits are judged pessimistically: a candle that reaches the stop (a low
/// at or below it for a long, a high at or above it for a short) stops the
/// trade out, whether or not it also reaches the target; the target counts
/// only on a candle that leaves the stop untouched, and a candle that
/// reaches neither level does not end the trade.
pub proof fn law_stop_checked_before_target(
    direction: TradeDirection,
    target: Price,
    stop: Price,
    high: Price,
    low: Price,
)
    ensures
        direction == TradeDirection::Long && low.0 <= stop.0 ==> price_exit(direction, target, stop, high, low)
            == Some(TradeOutcome::StopHit),
        direction == TradeDirection::Short && high.0 >= stop.0 ==> price_exit(direction, target, stop, high, low)
            == Some(TradeOutcome::StopHit),
        direction == TradeDirection::Long && low.0 > stop.0 ==> (price_exit(direction, target, stop, high, low)
            == Some(TradeOutcome::TargetHit) <==> high.0 >= target.0),
        direction == TradeDirection::Short && high.0 < stop.0 ==> (price_exit(direction, target, stop, high, low)
            == Some(TradeOutcome::TargetHit) <==> low.0 <= target.0),
        price_exit(direction, target, stop, high, low) is None <==> (match direction {
            TradeDirection::Long => low.0 > stop.0 && high.0 < target.0,
            TradeDirection::Short => high.0 < stop.0 && low.0 > target.0,
        }),
        price_exit(direction, target, stop, high, low) != Some(TradeOutcome::Timeout),
{
}

/// Within its lifetime an opportunity's exit check is the candle's
/// pessimistic price exit, and past it the trade times out whatever the
/// candle did.
pub proof fn law_exit_check_times_out_after_lifetime(op: TradeOpportunity, high: Price, low: Price, now_ms: i64)
    ensures
        now_ms - op.created_at_ms > op.max_duration_ms ==> exit_condition(op, high, low, now_ms) == Some(
            TradeOutcome::Timeout,
        ),
        now_ms - op.created_at_ms <= op.max_duration_ms && (match op.direction {
            TradeDirection::Long => low.0 <= op.stop_price.0,
            TradeDirection::Short => high.0 >= op.stop_price.0,
        }) ==> exit_condition(op, high, low, now_ms) == Some(TradeOutcome::StopHit),
{
}

} // verus!
