use vstd::prelude::*;
use crate::price::{OhlcvTimeSeries, Price};

verus! {

/// Candle `i` trades somewhere inside `[price_min, price_max]`.
pub open spec fn candle_in_band(
    lows: Seq<Price>,
    highs: Seq<Price>,
    price_min: Price,
    price_max: Price,
    i: int,
) -> bool {
    lows[i].0 <= price_max.0 && highs[i].0 >= price_min.0
}

/// `ranges` lists the maximal runs of in-band candles among the first `n`,
/// in increasing order, as half-open `(start, end)` index pairs.
pub open spec fn is_maximal_runs(
    lows: Seq<Price>,
    highs: Seq<Price>,
    price_min: Price,
    price_max: Price,
    n: int,
    ranges: Seq<(usize, usize)>,
) -> bool {
    // each range is a non-empty run of in-band candles that cannot be extended
    &&& forall|k: int|
        #![trigger ranges[k]]
        0 <= k < ranges.len() ==> {
            &&& 0 <= ranges[k].0 < ranges[k].1 <= n
            &&& (forall|i: int|
                ranges[k].0 <= i < ranges[k].1 ==> candle_in_band(lows, highs, price_min, price_max, i))
            &&& (ranges[k].0 == 0 || !candle_in_band(
                lows,
                highs,
                price_min,
                price_max,
                ranges[k].0 - 1,
            ))
            &&& (ranges[k].1 == n || !candle_in_band(
                lows,
                highs,
                price_min,
                price_max,
                ranges[k].1 as int,
            ))
        }
        // runs come in order, separated by at least one out-of-band candle
    &&& forall|k: int, l: int|
        #![trigger ranges[k], ranges[l]]
        0 <= k < l < ranges.len() ==> ranges[k].1 < ranges[l].0
        // every in-band candle lies in some run
    &&& forall|i: int|
        0 <= i < n && candle_in_band(lows, highs, price_min, price_max, i) ==> exists|k: int|
            0 <= k < ranges.len() && #[trigger] ranges[k].0 <= i < ranges[k].1
}

/// Some candle among the first `n` is in band.
pub open spec fn any_in_band(
    lows: Seq<Price>,
    highs: Seq<Price>,
    price_min: Price,
    price_max: Price,
    n: int,
) -> bool {
    exists|i: int| 0 <= i < n && candle_in_band(lows, highs, price_min, price_max, i)
}

/// What `find_relevant_ranges` returns: the maximal runs of in-band candles,
/// or the last candle alone when no candle is in band.
pub open spec fn relevant_ranges_spec(
    ts: OhlcvTimeSeries,
    price_min: Price,
    price_max: Price,
    ranges: Seq<(usize, usize)>,
) -> bool {
    let n = ts.timestamps@.len() as int;
    if any_in_band(ts.low_prices@, ts.high_prices@, price_min, price_max, n) {
        is_maximal_runs(ts.low_prices@, ts.high_prices@, price_min, price_max, n, ranges)
    } else {
        ranges == seq![((n - 1) as usize, n as usize)]
    }
}

/// Finds the discontinuous stretches of candles whose range touches the band
/// `[price_min, price_max]`: a candle counts when its low is at most
/// `price_max` and its high at least `price_min`. When no candle touches the
/// band, the most recent candle is returned on its own.
pub fn find_relevant_ranges(
    timeseries: &OhlcvTimeSeries,
    price_min: Price,
    price_max: Price,
) -> (ranges: Vec<(usize, usize)>)
    requires
        timeseries.wf(),
        timeseries.timestamps@.len() > 0,
    ensures
        relevant_ranges_spec(*timeseries, price_min, price_max, ranges@),
{
    let ghost lows = timeseries.low_prices@;
    let ghost highs = timeseries.high_prices@;
    let mut ranges: Vec<(usize, usize)> = Vec::new();
    let mut range_start: Option<usize> = None;
    let total_candles = timeseries.klines();
    let mut i: usize = 0;
    while i < total_candles
        invariant
            timeseries.wf(),
            lows == timeseries.low_prices@,
            highs == timeseries.high_prices@,
            total_candles == timeseries.timestamps@.len(),
            i <= total_candles,
            // closed runs are maximal runs within [0, i)
            forall|k: int|
                #![trigger ranges@[k]]
                0 <= k < ranges@.len() ==> {
                    &&& 0 <= ranges@[k].0 < ranges@[k].1 < i
                    &&& (forall|j: int|
                        ranges@[k].0 <= j < ranges@[k].1 ==> candle_in_band(
                            lows,
                            highs,
                            price_min,
                            price_max,
                            j,
                        ))
                    &&& (ranges@[k].0 == 0 || !candle_in_band(
                        lows,
                        highs,
                        price_min,
                        price_max,
                        ranges@[k].0 - 1,
                    ))
                    &&& !candle_in_band(lows, highs, price_min, price_max, ranges@[k].1 as int)
                },
            forall|k: int, l: int|
                #![trigger ranges@[k], ranges@[l]]
                0 <= k < l < ranges@.len() ==> ranges@[k].1 < ranges@[l].0,
            // the open run, if any
            match range_start {
                Some(s) => {
                    &&& s < i
                    &&& (forall|j: int|
                        s <= j < i ==> candle_in_band(lows, highs, price_min, price_max, j))
                    &&& (s == 0 || !candle_in_band(lows, highs, price_min, price_max, s - 1))
                    &&& (ranges@.len() > 0 ==> ranges@.last().1 < s)
                },
                None => i == 0 || !candle_in_band(lows, highs, price_min, price_max, i - 1),
            },
            // every in-band candle before i is covered
            forall|j: int|
                0 <= j < i && candle_in_band(lows, highs, price_min, price_max, j) ==> ((exists|
                    k: int,
                |
                    0 <= k < ranges@.len() && #[trigger] ranges@[k].0 <= j < ranges@[k].1) || (
                range_start matches Some(s) && s <= j)),
        decreases total_candles - i,
    {
        let is_relevant = timeseries.low_prices[i].0 <= price_max.0
            && timeseries.high_prices[i].0 >= price_min.0;
        if is_relevant {
            if range_start.is_none() {
                range_start = Some(i);
            }
        } else {
            if let Some(start) = range_start {
                let ghost old_ranges = ranges@;
                ranges.push((start, i));
                range_start = None;
                assert forall|j: int|
                    0 <= j < i + 1 && candle_in_band(
                        lows,
                        highs,
                        price_min,
                        price_max,
                        j,
                    ) implies (exists|k: int|
                    0 <= k < ranges@.len() && #[trigger] ranges@[k].0 <= j < ranges@[k].1) by {
                    if j >= start as int {
                        assert(ranges@[ranges@.len() - 1].0 <= j < ranges@[ranges@.len() - 1].1);
                    } else {
                        let k = choose|k: int|
                            0 <= k < old_ranges.len() && #[trigger] old_ranges[k].0 <= j
                                < old_ranges[k].1;
                        assert(ranges@[k] == old_ranges[k]);
                    }
                }
            }
        }
        i = i + 1;
    }
    if let Some(start) = range_start {
        let ghost old_ranges = ranges@;
        ranges.push((start, total_candles));
        assert forall|j: int|
            0 <= j < total_candles && candle_in_band(
                lows,
                highs,
                price_min,
                price_max,
                j,
            ) implies (exists|k: int|
            0 <= k < ranges@.len() && #[trigger] ranges@[k].0 <= j < ranges@[k].1) by {
            if j >= start as int {
                assert(ranges@[ranges@.len() - 1].0 <= j < ranges@[ranges@.len() - 1].1);
            } else {
                let k = choose|k: int|
                    0 <= k < old_ranges.len() && #[trigger] old_ranges[k].0 <= j < old_ranges[k].1;
                assert(ranges@[k] == old_ranges[k]);
            }
        }
    }
    let ghost n = total_candles as int;
    if ranges.len() == 0 {
        assert(!any_in_band(lows, highs, price_min, price_max, n));
        let last_idx = total_candles - 1;
        ranges.push((last_idx, total_candles));
        assert(ranges@ =~= seq![((n - 1) as usize, n as usize)]);
    } else {
        assert(candle_in_band(lows, highs, price_min, price_max, ranges@[0].0 as int));
        assert(any_in_band(lows, highs, price_min, price_max, n));
        assert(is_maximal_runs(lows, highs, price_min, price_max, n, ranges@));
    }
    ranges
}

} // verus!
