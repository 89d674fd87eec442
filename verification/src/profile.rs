use vstd::prelude::*;

verus! {

/// Marker for a candle that falls outside every horizon bucket.
pub const NO_BUCKET: u32 = 0xffff_ffffu32;

/// Bucket index `idx` names one of the buckets `0..=steps`.
pub open spec fn in_bucket_range(idx: u32, steps: int) -> bool {
    idx != NO_BUCKET && idx <= steps
}

/// Number of the first `n` candles whose bucket is at most `b`.
pub open spec fn count_upto(indices: Seq<u32>, steps: int, n: int, b: int) -> nat
    decreases n,
{
    if n <= 0 {
        0
    } else {
        count_upto(indices, steps, n - 1, b) + (if in_bucket_range(indices[n - 1], steps)
            && indices[n - 1] <= b {
            1nat
        } else {
            0nat
        })
    }
}

/// Number of the first `n` candles whose bucket is exactly `b`.
pub open spec fn count_eq(indices: Seq<u32>, steps: int, n: int, b: int) -> nat
    decreases n,
{
    if n <= 0 {
        0
    } else {
        count_eq(indices, steps, n - 1, b) + (if in_bucket_range(indices[n - 1], steps)
            && indices[n - 1] == b {
            1nat
        } else {
            0nat
        })
    }
}

/// Candle `j` lies in bucket `k`.
pub open spec fn in_bucket(indices: Seq<u32>, steps: int, j: int, k: int) -> bool {
    in_bucket_range(indices[j], steps) && indices[j] == k
}

/// Bucket `k` holds a candle whose timestamp is not the `i64::MAX` sentinel.
pub open spec fn bucket_live(indices: Seq<u32>, ts: Seq<i64>, steps: int, k: int) -> bool {
    exists|j: int| 0 <= j < indices.len() && #[trigger] in_bucket(indices, steps, j, k) && ts[j] != i64::MAX
}

/// Candle `j` takes part in the time span of the cumulative bucket `b`:
/// its bucket is at most `b` and that bucket is live.
pub open spec fn spans(indices: Seq<u32>, ts: Seq<i64>, steps: int, j: int, b: int) -> bool {
    &&& 0 <= j < indices.len()
    &&& in_bucket_range(indices[j], steps)
    &&& indices[j] <= b
    &&& bucket_live(indices, ts, steps, indices[j] as int)
}

/// Every candle spanned by cumulative bucket `b` has its timestamp in `[lo, hi]`.
pub open spec fn span_bounded(indices: Seq<u32>, ts: Seq<i64>, steps: int, b: int, lo: i64, hi: i64) -> bool {
    forall|j: int| #[trigger] spans(indices, ts, steps, j, b) ==> lo <= ts[j] <= hi
}

/// `lo` and `hi` are timestamps of spanned candles, or the sentinels
/// `i64::MAX` and `i64::MIN` when cumulative bucket `b` spans no candle.
pub open spec fn span_attained(indices: Seq<u32>, ts: Seq<i64>, steps: int, b: int, lo: i64, hi: i64) -> bool {
    if exists|j: int| #[trigger] spans(indices, ts, steps, j, b) {
        &&& exists|j: int| #[trigger] spans(indices, ts, steps, j, b) && ts[j] == lo
        &&& exists|j: int| #[trigger] spans(indices, ts, steps, j, b) && ts[j] == hi
    } else {
        lo == i64::MAX && hi == i64::MIN
    }
}

/// `a - b`, held to the range of `i64`.
pub open spec fn saturating_diff_spec(a: i64, b: i64) -> i64 {
    let d = a - b;
    if d < i64::MIN {
        i64::MIN
    } else if d > i64::MAX {
        i64::MAX
    } else {
        d as i64
    }
}

/// One cumulative horizon bucket: how many candles lie within the bucket's
/// distance from the price, and the time span they cover.
#[derive(Debug, Clone, Copy, PartialEq, Eq, Structural)]
pub struct HorizonBucket {
    pub candle_count: usize,
    pub duration_ms: i64,
    pub min_ts: i64,
    pub max_ts: i64,
}

/// What bucket `b` of a profile over `indices` and `ts` holds.
pub open spec fn bucket_spec(
    indices: Seq<u32>,
    ts: Seq<i64>,
    steps: int,
    b: int,
    bucket: HorizonBucket,
) -> bool {
    &&& bucket.candle_count == count_upto(indices, steps, indices.len() as int, b)
    &&& span_bounded(indices, ts, steps, b, bucket.min_ts, bucket.max_ts)
    &&& span_attained(indices, ts, steps, b, bucket.min_ts, bucket.max_ts)
    &&& bucket.duration_ms == (if bucket.candle_count > 0 {
        saturating_diff_spec(bucket.max_ts, bucket.min_ts)
    } else {
        0
    })
}

proof fn lemma_count_split(indices: Seq<u32>, steps: int, n: int, b: int)
    requires
        b >= 0,
    ensures
        count_upto(indices, steps, n, b) == count_upto(indices, steps, n, b - 1) + count_eq(
            indices,
            steps,
            n,
            b,
        ),
    decreases n,
{
    if n > 0 {
        lemma_count_split(indices, steps, n - 1, b);
    }
}

proof fn lemma_count_bounded(indices: Seq<u32>, steps: int, n: int, b: int)
    requires
        n >= 0,
    ensures
        count_upto(indices, steps, n, b) <= n,
        count_eq(indices, steps, n, b) <= n,
    decreases n,
{
    if n > 0 {
        lemma_count_bounded(indices, steps, n - 1, b);
    }
}

proof fn lemma_count_none_below(indices: Seq<u32>, steps: int, n: int)
    ensures
        count_upto(indices, steps, n, -1) == 0,
    decreases n,
{
    if n > 0 {
        lemma_count_none_below(indices, steps, n - 1);
    }
}

proof fn lemma_count_monotone(indices: Seq<u32>, steps: int, n: int, a: int, b: int)
    requires
        a <= b,
    ensures
        count_upto(indices, steps, n, a) <= count_upto(indices, steps, n, b),
    decreases n,
{
    if n > 0 {
        lemma_count_monotone(indices, steps, n - 1, a, b);
    }
}

/// Wider horizons reach at least as many candles: cumulative bucket counts
/// never fall from one bucket to the next, so the largest count is that of
/// the last bucket.
pub proof fn law_profile_counts_monotone(indices: Seq<u32>, steps: int, a: int, b: int)
    requires
        a <= b,
    ensures
        count_upto(indices, steps, indices.len() as int, a) <= count_upto(
            indices,
            steps,
            indices.len() as int,
            b,
        ),
{
    lemma_count_monotone(indices, steps, indices.len() as int, a, b);
}

/// `a - b`, held to the range of `i64`.
pub fn saturating_diff(a: i64, b: i64) -> (r: i64)
    ensures
        r == saturating_diff_spec(a, b),
{
    match a.checked_sub(b) {
        Some(d) => d,
        None => if a < b {
            i64::MIN
        } else {
            i64::MAX
        },
    }
}

/// The cumulative profile of a price horizon.
///
/// `indices[j]` is the bucket (`0..=steps`) of the smallest distance from the
/// price at which candle `j` is reached, or [`NO_BUCKET`] when it lies beyond
/// the largest distance; `timestamps[j]` is the candle's open time. Bucket
/// `b` of the result counts the candles in buckets `0..=b` and spans their
/// earliest and latest timestamps; the second value is the largest count.
pub fn accumulate_horizon_buckets(
    steps: usize,
    indices: &Vec<u32>,
    timestamps: &Vec<i64>,
) -> (res: (Vec<HorizonBucket>, usize))
    requires
        indices@.len() == timestamps@.len(),
        steps < usize::MAX,
    ensures
        res.0@.len() == steps + 1,
        forall|b: int|
            0 <= b <= steps ==> #[trigger] bucket_spec(
                indices@,
                timestamps@,
                steps as int,
                b,
                res.0@[b],
            ),
        res.1 == count_upto(indices@, steps as int, indices@.len() as int, steps as int),
{
    let ghost idx = indices@;
    let ghost ts = timestamps@;
    let ghost st = steps as int;
    let n = indices.len();
    let mut frequency: Vec<usize> = Vec::new();
    let mut min_map: Vec<i64> = Vec::new();
    let mut max_map: Vec<i64> = Vec::new();
    let mut k: usize = 0;
    while k <= steps
        invariant
            steps < usize::MAX,
            k <= steps + 1,
            frequency@.len() == k,
            min_map@.len() == k,
            max_map@.len() == k,
            forall|q: int| 0 <= q < k ==> frequency@[q] == 0,
            forall|q: int| 0 <= q < k ==> min_map@[q] == i64::MAX,
            forall|q: int| 0 <= q < k ==> max_map@[q] == i64::MIN,
        decreases steps + 1 - k,
    {
        frequency.push(0);
        min_map.push(i64::MAX);
        max_map.push(i64::MIN);
        k = k + 1;
    }
    // Scatter the candles into their buckets.
    let mut i: usize = 0;
    while i < n
        invariant
            n == idx.len(),
            idx == indices@,
            ts == timestamps@,
            idx.len() == ts.len(),
            st == steps,
            steps < usize::MAX,
            i <= n,
            frequency@.len() == steps + 1,
            min_map@.len() == steps + 1,
            max_map@.len() == steps + 1,
            forall|q: int| 0 <= q <= st ==> #[trigger] frequency@[q] == count_eq(idx, st, i as int, q),
            forall|q: int, j: int|
                0 <= q <= st && 0 <= j < i && #[trigger] in_bucket(idx, st, j, q) ==> min_map@[q]
                    <= ts[j] <= max_map@[q],
            forall|q: int|
                0 <= q <= st && #[trigger] min_map@[q] != i64::MAX ==> exists|j: int|
                    0 <= j < i && #[trigger] in_bucket(idx, st, j, q) && ts[j] == min_map@[q],
            forall|q: int|
                0 <= q <= st && #[trigger] max_map@[q] != i64::MIN ==> exists|j: int|
                    0 <= j < i && #[trigger] in_bucket(idx, st, j, q) && ts[j] == max_map@[q],
        decreases n - i,
    {
        let b = indices[i];
        if b != NO_BUCKET {
            let bi = b as usize;
            if bi <= steps {
                proof {
                    lemma_count_bounded(idx, st, i as int, bi as int);
                }
                let f = frequency[bi];
                frequency.set(bi, f + 1);
                let t = timestamps[i];
                if t < min_map[bi] {
                    min_map.set(bi, t);
                }
                if t > max_map[bi] {
                    max_map.set(bi, t);
                }
                assert(in_bucket(idx, st, i as int, bi as int));
            }
        }
        proof {
            assert forall|q: int| 0 <= q <= st && #[trigger] min_map@[q] != i64::MAX implies exists|
                j: int,
            | 0 <= j < i + 1 && #[trigger] in_bucket(idx, st, j, q) && ts[j] == min_map@[q] by {
                if in_bucket(idx, st, i as int, q) && ts[i as int] == min_map@[q] {
                } else {
                    let j = choose|j: int|
                        0 <= j < i && #[trigger] in_bucket(idx, st, j, q) && ts[j] == min_map@[q];
                }
            }
            assert forall|q: int| 0 <= q <= st && #[trigger] max_map@[q] != i64::MIN implies exists|
                j: int,
            | 0 <= j < i + 1 && #[trigger] in_bucket(idx, st, j, q) && ts[j] == max_map@[q] by {
                if in_bucket(idx, st, i as int, q) && ts[i as int] == max_map@[q] {
                } else {
                    let j = choose|j: int|
                        0 <= j < i && #[trigger] in_bucket(idx, st, j, q) && ts[j] == max_map@[q];
                }
            }
        }
        i = i + 1;
    }
    // A bucket is live exactly when its earliest timestamp is not the sentinel.
    proof {
        assert forall|q: int| 0 <= q <= st implies (#[trigger] min_map@[q] != i64::MAX
            <==> bucket_live(idx, ts, st, q)) by {
            if min_map@[q] != i64::MAX {
                let j = choose|j: int|
                    0 <= j < n && #[trigger] in_bucket(idx, st, j, q) && ts[j] == min_map@[q];
                assert(in_bucket(idx, st, j, q) && ts[j] != i64::MAX);
            }
            if bucket_live(idx, ts, st, q) {
                let j = choose|j: int|
                    0 <= j < idx.len() && #[trigger] in_bucket(idx, st, j, q) && ts[j] != i64::MAX;
                assert(min_map@[q] <= ts[j]);
            }
        }
    }
    // Cumulative pass over the buckets.
    let mut buckets: Vec<HorizonBucket> = Vec::new();
    let mut running_count: usize = 0;
    let mut running_min: i64 = i64::MAX;
    let mut running_max: i64 = i64::MIN;
    let mut max_count: usize = 0;
    let mut b: usize = 0;
    proof {
        lemma_count_none_below(idx, st, n as int);
    }
    while b <= steps
        invariant
            n == idx.len(),
            idx == indices@,
            ts == timestamps@,
            idx.len() == ts.len(),
            st == steps,
            steps < usize::MAX,
            b <= steps + 1,
            frequency@.len() == steps + 1,
            min_map@.len() == steps + 1,
            max_map@.len() == steps + 1,
            forall|q: int| 0 <= q <= st ==> #[trigger] frequency@[q] == count_eq(idx, st, n as int, q),
            forall|q: int, j: int|
                0 <= q <= st && 0 <= j < n && #[trigger] in_bucket(idx, st, j, q) ==> min_map@[q]
                    <= ts[j] <= max_map@[q],
            forall|q: int|
                0 <= q <= st && #[trigger] min_map@[q] != i64::MAX ==> exists|j: int|
                    0 <= j < n && #[trigger] in_bucket(idx, st, j, q) && ts[j] == min_map@[q],
            forall|q: int|
                0 <= q <= st && #[trigger] max_map@[q] != i64::MIN ==> exists|j: int|
                    0 <= j < n && #[trigger] in_bucket(idx, st, j, q) && ts[j] == max_map@[q],
            forall|q: int| 0 <= q <= st ==> (#[trigger] min_map@[q] != i64::MAX <==> bucket_live(
                idx,
                ts,
                st,
                q,
            )),
            running_count == count_upto(idx, st, n as int, b - 1),
            max_count == running_count,
            span_bounded(idx, ts, st, b - 1, running_min, running_max),
            span_attained(idx, ts, st, b - 1, running_min, running_max),
            buckets@.len() == b,
            forall|q: int| 0 <= q < b ==> #[trigger] bucket_spec(idx, ts, st, q, buckets@[q]),
        decreases steps + 1 - b,
    {
        proof {
            lemma_count_split(idx, st, n as int, b as int);
            lemma_count_bounded(idx, st, n as int, b as int);
        }
        running_count = running_count + frequency[b];
        let ghost old_min = running_min;
        let ghost old_max = running_max;
        let bucket_min = min_map[b];
        let bucket_max = max_map[b];
        if bucket_min != i64::MAX {
            if bucket_min < running_min {
                running_min = bucket_min;
            }
            if bucket_max > running_max {
                running_max = bucket_max;
            }
        }
        proof {
            let bb = b as int;
            assert forall|j: int| #[trigger] spans(idx, ts, st, j, bb) implies running_min <= ts[j]
                <= running_max by {
                if idx[j] < bb {
                    assert(spans(idx, ts, st, j, bb - 1));
                } else {
                    assert(in_bucket(idx, st, j, bb));
                }
            }
            let old_exists = exists|j: int| #[trigger] spans(idx, ts, st, j, bb - 1);
            if bucket_min != i64::MAX {
                let jm = choose|j: int|
                    0 <= j < n && #[trigger] in_bucket(idx, st, j, bb) && ts[j] == bucket_min;
                assert(spans(idx, ts, st, jm, bb));
                assert(max_map@[bb] >= ts[jm]);
                let jx = if bucket_max != i64::MIN {
                    choose|j: int|
                        0 <= j < n && #[trigger] in_bucket(idx, st, j, bb) && ts[j] == bucket_max
                } else {
                    jm
                };
                assert(spans(idx, ts, st, jx, bb) && ts[jx] == bucket_max);
                if old_exists {
                    let j1 = choose|j: int|
                        #[trigger] spans(idx, ts, st, j, bb - 1) && ts[j] == old_min;
                    let j2 = choose|j: int|
                        #[trigger] spans(idx, ts, st, j, bb - 1) && ts[j] == old_max;
                    assert(spans(idx, ts, st, j1, bb));
                    assert(spans(idx, ts, st, j2, bb));
                    let wmin = if bucket_min < old_min { jm } else { j1 };
                    let wmax = if bucket_max > old_max { jx } else { j2 };
                    assert(spans(idx, ts, st, wmin, bb) && ts[wmin] == running_min);
                    assert(spans(idx, ts, st, wmax, bb) && ts[wmax] == running_max);
                } else {
                    assert(spans(idx, ts, st, jm, bb) && ts[jm] == running_min);
                    assert(spans(idx, ts, st, jx, bb) && ts[jx] == running_max);
                }
            } else {
                assert forall|j: int| #[trigger] spans(idx, ts, st, j, bb) implies spans(
                    idx,
                    ts,
                    st,
                    j,
                    bb - 1,
                ) by {
                    if idx[j] == bb {
                        assert(in_bucket(idx, st, j, bb));
                    }
                }
                if old_exists {
                    let j1 = choose|j: int|
                        #[trigger] spans(idx, ts, st, j, bb - 1) && ts[j] == old_min;
                    let j2 = choose|j: int|
                        #[trigger] spans(idx, ts, st, j, bb - 1) && ts[j] == old_max;
                    assert(spans(idx, ts, st, j1, bb) && ts[j1] == running_min);
                    assert(spans(idx, ts, st, j2, bb) && ts[j2] == running_max);
                }
            }
            assert(span_bounded(idx, ts, st, bb, running_min, running_max));
            assert(span_attained(idx, ts, st, bb, running_min, running_max));
        }
        let duration_ms = if running_count > 0 {
            saturating_diff(running_max, running_min)
        } else {
            0
        };
        let bucket = HorizonBucket {
            candle_count: running_count,
            duration_ms,
            min_ts: running_min,
            max_ts: running_max,
        };
        buckets.push(bucket);
        proof {
            lemma_count_monotone(idx, st, n as int, b - 1, b as int);
        }
        if running_count > max_count {
            max_count = running_count;
        }
        b = b + 1;
    }
    (buckets, max_count)
}

} // verus!
