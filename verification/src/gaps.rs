use vstd::prelude::*;
use crate::price::{OhlcvTimeSeries, Price};

verus! {

/// Why the chart skips time before a segment.
#[derive(Debug, Clone, Copy, PartialEq, Eq, Structural)]
pub enum GapReason {
    /// The first segment: nothing precedes it.
    StartOfData,
    /// Candles were left out because of their price.
    PriceMismatch,
    /// The candles are contiguous but time jumps: the exchange has no data.
    MissingSourceData,
    /// The first left-out candle lay wholly above the band.
    PriceAbovePH,
    /// The first left-out candle lay wholly below the band.
    PriceBelowPH,
    /// The first left-out candle was neither wholly above nor below.
    PriceMixed,
}

/// A run of candles drawn side by side, with the gap before it.
#[derive(Debug, Clone, Copy, PartialEq, Eq, Structural)]
pub struct DisplaySegment {
    pub start_idx: usize,
    pub end_idx: usize,
    pub start_ts: i64,
    pub end_ts: i64,
    pub candle_count: usize,
    pub gap_reason: GapReason,
    /// Time between the end of the previous segment and the start of this
    /// one (zero for the first segment).
    pub gap_duration_ms: i64,
}

/// Splits segments of relevant candles wherever time jumps.
pub struct RangeGapFinder;

/// Pieces of the run `[cur, e)` still to be cut, scanning from candle `i`:
/// a piece ends after candle `i` when the next candle opens more than
/// `tol` after it.
pub open spec fn split_from(ts: Seq<i64>, tol: i64, cur: int, i: int, e: int) -> Seq<(int, int)>
    decreases e - i,
{
    if i + 1 >= e {
        if cur < e {
            seq![(cur, e)]
        } else {
            Seq::empty()
        }
    } else if ts[i + 1] - ts[i] > tol {
        seq![(cur, i + 1)] + split_from(ts, tol, i + 1, i + 1, e)
    } else {
        split_from(ts, tol, cur, i + 1, e)
    }
}

/// `r` clipped to the `n` candles, or `None` when it starts past them.
pub open spec fn clip(r: (usize, usize), n: int) -> Option<(int, int)> {
    if r.0 >= n {
        None
    } else {
        Some((r.0 as int, if r.1 < n { r.1 as int } else { n }))
    }
}

/// The pieces of the first `k` ranges, in order.
pub open spec fn pieces_upto(ts: Seq<i64>, tol: i64, ranges: Seq<(usize, usize)>, k: int) -> Seq<(int, int)>
    decreases k,
{
    if k <= 0 {
        Seq::empty()
    } else {
        pieces_upto(ts, tol, ranges, k - 1) + match clip(ranges[k - 1], ts.len() as int) {
            Some((s, e)) => split_from(ts, tol, s, s, e),
            None => Seq::empty(),
        }
    }
}

/// The segment drawn for `piece`, after `prev` (the previous piece, if
/// any), when the band is `[min_ph, max_ph]`.
pub open spec fn segment_spec(
    ts: OhlcvTimeSeries,
    piece: (int, int),
    prev: Option<(int, int)>,
    min_ph: Price,
    max_ph: Price,
) -> DisplaySegment {
    let start_ts = ts.timestamps@[piece.0];
    DisplaySegment {
        start_idx: piece.0 as usize,
        end_idx: piece.1 as usize,
        start_ts,
        end_ts: ts.timestamps@[piece.1 - 1],
        candle_count: (piece.1 - piece.0) as usize,
        gap_reason: match prev {
            None => GapReason::StartOfData,
            Some(p) => if piece.0 == p.1 {
                GapReason::MissingSourceData
            } else if p.1 < ts.low_prices@.len() {
                if ts.low_prices@[p.1].0 > max_ph.0 {
                    GapReason::PriceAbovePH
                } else if ts.high_prices@[p.1].0 < min_ph.0 {
                    GapReason::PriceBelowPH
                } else {
                    GapReason::PriceMixed
                }
            } else {
                GapReason::PriceMixed
            },
        },
        gap_duration_ms: match prev {
            None => 0,
            Some(p) => (start_ts - ts.timestamps@[p.1 - 1]) as i64,
        },
    }
}

/// The segments drawn for `pieces`.
pub open spec fn segments_of(
    ts: OhlcvTimeSeries,
    pieces: Seq<(int, int)>,
    min_ph: Price,
    max_ph: Price,
) -> Seq<DisplaySegment> {
    Seq::new(
        pieces.len(),
        |k: int|
            segment_spec(
                ts,
                pieces[k],
                if k == 0 {
                    None
                } else {
                    Some(pieces[k - 1])
                },
                min_ph,
                max_ph,
            ),
    )
}

/// Any two timestamps differ by an amount that fits in an `i64`.
pub open spec fn diffs_fit(ts: Seq<i64>) -> bool {
    forall|i: int, j: int|
        0 <= i < ts.len() && 0 <= j < ts.len() ==> i64::MIN <= #[trigger] ts[i] - #[trigger] ts[j] <= i64::MAX
}

proof fn lemma_split_bounds(ts: Seq<i64>, tol: i64, cur: int, i: int, e: int)
    requires
        0 <= cur <= i,
    ensures
        forall|k: int| 0 <= k < split_from(ts, tol, cur, i, e).len() ==> {
            let p = #[trigger] split_from(ts, tol, cur, i, e)[k];
            cur <= p.0 < p.1 <= e
        },
    decreases e - i,
{
    if i + 1 >= e {
        if cur < e {
            assert(split_from(ts, tol, cur, i, e) == seq![(cur, e)]);
        } else {
            assert(split_from(ts, tol, cur, i, e).len() == 0);
        }
    } else if ts[i + 1] - ts[i] > tol {
        lemma_split_bounds(ts, tol, i + 1, i + 1, e);
        let rest = split_from(ts, tol, i + 1, i + 1, e);
        assert forall|k: int| 0 <= k < split_from(ts, tol, cur, i, e).len() implies {
            let p = #[trigger] split_from(ts, tol, cur, i, e)[k];
            cur <= p.0 < p.1 <= e
        } by {
            assert(split_from(ts, tol, cur, i, e) == seq![(cur, i + 1)] + rest);
            if k > 0 {
                assert(split_from(ts, tol, cur, i, e)[k] == rest[k - 1]);
            }
        }
    } else {
        lemma_split_bounds(ts, tol, cur, i + 1, e);
        assert(split_from(ts, tol, cur, i, e) == split_from(ts, tol, cur, i + 1, e));
    }
}

proof fn lemma_pieces_bounds(ts: Seq<i64>, tol: i64, ranges: Seq<(usize, usize)>, k: int)
    requires
        0 <= k <= ranges.len(),
    ensures
        forall|m: int| 0 <= m < pieces_upto(ts, tol, ranges, k).len() ==> {
            let p = #[trigger] pieces_upto(ts, tol, ranges, k)[m];
            0 <= p.0 < p.1 <= ts.len()
        },
    decreases k,
{
    if k > 0 {
        lemma_pieces_bounds(ts, tol, ranges, k - 1);
        let before = pieces_upto(ts, tol, ranges, k - 1);
        let add = match clip(ranges[k - 1], ts.len() as int) {
            Some((s, e)) => split_from(ts, tol, s, s, e),
            None => Seq::empty(),
        };
        if let Some((s, e)) = clip(ranges[k - 1], ts.len() as int) {
            lemma_split_bounds(ts, tol, s, s, e);
        }
        assert forall|m: int| 0 <= m < pieces_upto(ts, tol, ranges, k).len() implies {
            let p = #[trigger] pieces_upto(ts, tol, ranges, k)[m];
            0 <= p.0 < p.1 <= ts.len()
        } by {
            if m < before.len() {
                assert(pieces_upto(ts, tol, ranges, k)[m] == before[m]);
            } else {
                assert(pieces_upto(ts, tol, ranges, k)[m] == add[m - before.len()]);
            }
        }
    }
}

impl RangeGapFinder {
    /// The segment for candles `[start, end)` after a previous segment that
    /// ended at index `prev_end_idx` and time `prev_end_ts` (ignored for the
    /// first segment).
    fn create_segment(
        ts: &OhlcvTimeSeries,
        start: usize,
        end: usize,
        prev_end_idx: usize,
        prev_end_ts: i64,
        is_first: bool,
        bounds: (Price, Price),
    ) -> (r: DisplaySegment)
        requires
            ts.wf(),
            start < end <= ts.timestamps@.len(),
            diffs_fit(ts.timestamps@),
            !is_first ==> 0 < prev_end_idx <= ts.timestamps@.len() && prev_end_ts == ts.timestamps@[prev_end_idx - 1],
        ensures
            r == segment_spec(
                *ts,
                (start as int, end as int),
                if is_first {
                    None
                } else {
                    Some((0int, prev_end_idx as int))
                },
                bounds.0,
                bounds.1,
            ),
    {
        let start_ts = ts.timestamps[start];
        let end_ts = ts.timestamps[end - 1];
        let (reason, gap) = if is_first {
            (GapReason::StartOfData, 0i64)
        } else {
            let time_gap = start_ts - prev_end_ts;
            let reason = if start == prev_end_idx {
                GapReason::MissingSourceData
            } else if prev_end_idx < ts.low_prices.len() {
                let low = ts.low_prices[prev_end_idx];
                let high = ts.high_prices[prev_end_idx];
                if low.0 > bounds.1.0 {
                    GapReason::PriceAbovePH
                } else if high.0 < bounds.0.0 {
                    GapReason::PriceBelowPH
                } else {
                    GapReason::PriceMixed
                }
            } else {
                GapReason::PriceMixed
            };
            (reason, time_gap)
        };
        DisplaySegment {
            start_idx: start,
            end_idx: end,
            start_ts,
            end_ts,
            candle_count: end - start,
            gap_reason: reason,
            gap_duration_ms: gap,
        }
    }

    /// Cuts the candle ranges `ph_ranges` (clipped to the series; ranges that
    /// start past it are skipped) into segments wherever the next candle
    /// opens more than `tolerance_ms` after the previous one, and labels the
    /// gap before each segment: contiguous candles with a time jump are
    /// missing exchange data, otherwise the first left-out candle tells
    /// whether prices lay above or below the band `price_bounds`.
    pub fn analyze(
        timeseries: &OhlcvTimeSeries,
        ph_ranges: &Vec<(usize, usize)>,
        price_bounds: (Price, Price),
        tolerance_ms: i64,
    ) -> (r: Vec<DisplaySegment>)
        requires
            timeseries.wf(),
            diffs_fit(timeseries.timestamps@),
        ensures
            ph_ranges@.len() == 0 || timeseries.timestamps@.len() == 0 ==> r@.len() == 0,
            ph_ranges@.len() > 0 && timeseries.timestamps@.len() > 0 ==> r@ == segments_of(
                *timeseries,
                pieces_upto(timeseries.timestamps@, tolerance_ms, ph_ranges@, ph_ranges@.len() as int),
                price_bounds.0,
                price_bounds.1,
            ),
    {
        let n = timeseries.klines();
        if ph_ranges.len() == 0 || n == 0 {
            return Vec::new();
        }
        let ghost tsq = timeseries.timestamps@;
        let ghost tol = tolerance_ms;
        let mut segments: Vec<DisplaySegment> = Vec::new();
        let mut prev_end_idx: usize = 0;
        let mut prev_end_ts: i64 = 0;
        let mut first_segment = true;
        let ghost mut done: Seq<(int, int)> = Seq::empty();
        let mut r: usize = 0;
        while r < ph_ranges.len()
            invariant
                timeseries.wf(),
                diffs_fit(tsq),
                tsq == timeseries.timestamps@,
                n == tsq.len(),
                n > 0,
                tol == tolerance_ms,
                r <= ph_ranges@.len(),
                done == pieces_upto(tsq, tol, ph_ranges@, r as int),
                segments@ == segments_of(*timeseries, done, price_bounds.0, price_bounds.1),
                first_segment <==> done.len() == 0,
                !first_segment ==> prev_end_idx == done.last().1 && 0 < prev_end_idx <= n
                    && prev_end_ts == tsq[prev_end_idx - 1],
            decreases ph_ranges@.len() - r,
        {
            proof {
                lemma_pieces_bounds(tsq, tol, ph_ranges@, r as int);
            }
            let (range_start, range_end) = ph_ranges[r];
            if range_start < n {
                let safe_end = if range_end < n {
                    range_end
                } else {
                    n
                };
                let ghost whole = split_from(tsq, tol, range_start as int, range_start as int, safe_end as int);
                let ghost base = done;
                let ghost mut local: Seq<(int, int)> = Seq::empty();
                let mut current_sub_start = range_start;
                let mut i = range_start;
                while i < safe_end
                    invariant
                        timeseries.wf(),
                        diffs_fit(tsq),
                        tsq == timeseries.timestamps@,
                        n == tsq.len(),
                        tol == tolerance_ms,
                        range_start <= current_sub_start <= i,
                        i <= safe_end || (i == range_start && safe_end <= range_start),
                        safe_end <= n,
                        whole == local + split_from(tsq, tol, current_sub_start as int, i as int, safe_end as int),
                        done == base + local,
                        forall|m: int| 0 <= m < local.len() ==> {
                            let p = #[trigger] local[m];
                            range_start <= p.0 < p.1 <= current_sub_start
                        },
                        local.len() > 0 ==> local.last().1 == current_sub_start,
                        forall|m: int| 0 <= m < base.len() ==> {
                            let p = #[trigger] base[m];
                            0 <= p.0 < p.1 <= n
                        },
                        segments@ == segments_of(*timeseries, done, price_bounds.0, price_bounds.1),
                        first_segment <==> done.len() == 0,
                        !first_segment ==> prev_end_idx == done.last().1 && 0 < prev_end_idx <= n
                            && prev_end_ts == tsq[prev_end_idx - 1],
                    decreases safe_end - i,
                {
                    if i + 1 < safe_end {
                        let current_ts = timeseries.timestamps[i];
                        let next_ts = timeseries.timestamps[i + 1];
                        let diff = next_ts - current_ts;
                        if diff > tolerance_ms {
                            let sub_end = i + 1;
                            let seg = Self::create_segment(
                                timeseries,
                                current_sub_start,
                                sub_end,
                                prev_end_idx,
                                prev_end_ts,
                                first_segment,
                                price_bounds,
                            );
                            proof {
                                let piece = (current_sub_start as int, sub_end as int);
                                let old_done = done;
                                local = local.push(piece);
                                done = done.push(piece);
                                assert(segments_of(*timeseries, done, price_bounds.0, price_bounds.1)
                                    =~= segments_of(*timeseries, old_done, price_bounds.0, price_bounds.1).push(seg));
                                assert(whole =~= local + split_from(tsq, tol, sub_end as int, sub_end as int, safe_end as int)) by {
                                    assert(local =~= (local.drop_last()).push(piece));
                                }
                            }
                            segments.push(seg);
                            first_segment = false;
                            prev_end_idx = sub_end;
                            prev_end_ts = timeseries.timestamps[sub_end - 1];
                            current_sub_start = i + 1;
                        }
                    }
                    i = i + 1;
                }
                if current_sub_start < safe_end {
                    let seg = Self::create_segment(
                        timeseries,
                        current_sub_start,
                        safe_end,
                        prev_end_idx,
                        prev_end_ts,
                        first_segment,
                        price_bounds,
                    );
                    proof {
                        let piece = (current_sub_start as int, safe_end as int);
                        let old_done = done;
                        local = local.push(piece);
                        done = done.push(piece);
                        assert(segments_of(*timeseries, done, price_bounds.0, price_bounds.1)
                            =~= segments_of(*timeseries, old_done, price_bounds.0, price_bounds.1).push(seg));
                    }
                    segments.push(seg);
                    first_segment = false;
                    prev_end_idx = safe_end;
                    prev_end_ts = timeseries.timestamps[safe_end - 1];
                }
                proof {
                    assert(whole =~= local);
                    assert(done =~= pieces_upto(tsq, tol, ph_ranges@, r + 1));
                }
            } else {
                proof {
                    assert(done =~= pieces_upto(tsq, tol, ph_ranges@, r + 1));
                }
            }
            r = r + 1;
        }
        segments
    }
}

} // verus!
