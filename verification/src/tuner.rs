use vstd::prelude::*;
use crate::engine::PhPct;
use crate::price::Price;

verus! {

/// One probe of the horizon tuner, reduced to what the choice needs: the
/// horizon tried, its top score and its distance from the centre of the
/// station's time window (both as order keys), and whether its average
/// trade duration fell inside that window.
#[derive(Debug, Clone, Copy, PartialEq, Eq, Structural)]
pub struct TunerProbe {
    pub ph: PhPct,
    pub score: i64,
    pub in_window: bool,
    pub distance: u64,
}

/// Some probe lies inside the time window.
pub open spec fn any_in_window(probes: Seq<TunerProbe>) -> bool {
    exists|i: int| 0 <= i < probes.len() && #[trigger] probes[i].in_window
}

/// `k` is the last in-window probe with the highest score.
pub open spec fn is_best_fit(probes: Seq<TunerProbe>, k: int) -> bool {
    &&& 0 <= k < probes.len()
    &&& probes[k].in_window
    &&& forall|i: int| 0 <= i < probes.len() && #[trigger] probes[i].in_window ==> probes[i].score <= probes[k].score
    &&& forall|i: int| k < i < probes.len() && #[trigger] probes[i].in_window ==> probes[i].score < probes[k].score
}

/// `k` is the first probe closest to the window's centre.
pub open spec fn is_closest(probes: Seq<TunerProbe>, k: int) -> bool {
    &&& 0 <= k < probes.len()
    &&& forall|i: int| 0 <= i < probes.len() ==> probes[k].distance <= #[trigger] probes[i].distance
    &&& forall|i: int| 0 <= i < k ==> probes[k].distance < #[trigger] probes[i].distance
}

/// The horizon the tuner settles on: among the probes whose duration fits
/// the window, the one with the highest score (the last of equals);
/// failing that, the probe closest to the window's centre (the first of
/// equals); `None` when no probe found any trade.
pub fn select_station_fit(probes: &Vec<TunerProbe>) -> (r: Option<PhPct>)
    ensures
        probes@.len() == 0 ==> r is None,
        probes@.len() > 0 && any_in_window(probes@) ==> exists|k: int|
            is_best_fit(probes@, k) && r == Some(#[trigger] probes@[k].ph),
        probes@.len() > 0 && !any_in_window(probes@) ==> exists|k: int|
            is_closest(probes@, k) && r == Some(#[trigger] probes@[k].ph),
{
    if probes.len() == 0 {
        return None;
    }
    let mut best: Option<usize> = None;
    let mut i: usize = 0;
    while i < probes.len()
        invariant
            i <= probes@.len(),
            match best {
                Some(b) => {
                    &&& b < i
                    &&& probes@[b as int].in_window
                    &&& forall|j: int| 0 <= j < i && #[trigger] probes@[j].in_window ==> probes@[j].score <= probes@[b as int].score
                    &&& forall|j: int| b < j < i && #[trigger] probes@[j].in_window ==> probes@[j].score < probes@[b as int].score
                },
                None => forall|j: int| 0 <= j < i ==> !#[trigger] probes@[j].in_window,
            },
        decreases probes@.len() - i,
    {
        if probes[i].in_window {
            match best {
                Some(b) => {
                    if probes[i].score >= probes[b].score {
                        best = Some(i);
                    }
                },
                None => {
                    best = Some(i);
                },
            }
        }
        i = i + 1;
    }
    match best {
        Some(b) => {
            assert(is_best_fit(probes@, b as int));
            return Some(probes[b].ph);
        },
        None => {},
    }
    let mut c: usize = 0;
    let mut j: usize = 1;
    while j < probes.len()
        invariant
            1 <= j <= probes@.len(),
            c < j,
            forall|q: int| 0 <= q < j ==> probes@[c as int].distance <= #[trigger] probes@[q].distance,
            forall|q: int| 0 <= q < c ==> probes@[c as int].distance < #[trigger] probes@[q].distance,
        decreases probes@.len() - j,
    {
        if probes[j].distance < probes[c].distance {
            c = j;
        }
        j = j + 1;
    }
    assert(is_closest(probes@, c as int));
    Some(probes[c].ph)
}

/// Index of the candle a historical match starting at `start` is judged on:
/// `duration` candles later, or the last candle.
pub open spec fn match_end(start: int, duration: int, n: int) -> int {
    if start + duration < n - 1 {
        start + duration
    } else {
        n - 1
    }
}

/// Number of the first `k` matches whose close rose (`up`) or fell
/// (`!up`) over the match.
pub open spec fn count_votes(closes: Seq<Price>, starts: Seq<usize>, duration: int, k: int, up: bool) -> nat
    decreases k,
{
    if k <= 0 {
        0
    } else {
        let s = starts[k - 1] as int;
        let e = match_end(s, duration, closes.len() as int);
        count_votes(closes, starts, duration, k - 1, up) + if (up && closes[e].0 > closes[s].0) || (!up
            && closes[e].0 < closes[s].0) {
            1nat
        } else {
            0nat
        }
    }
}

proof fn lemma_votes_bounded(closes: Seq<Price>, starts: Seq<usize>, duration: int, k: int)
    requires
        0 <= k,
    ensures
        count_votes(closes, starts, duration, k, true) + count_votes(closes, starts, duration, k, false) <= k,
    decreases k,
{
    if k > 0 {
        lemma_votes_bounded(closes, starts, duration, k - 1);
    }
}

/// Which directions the scouts explore, from the historical matches that
/// start at `starts`: each match votes up or down by how the close moved
/// over `duration_candles`; when at least four fifths of the votes are up,
/// shorts are skipped, else when at least four fifths are down, longs are
/// skipped. Returns `(long, short)`.
pub fn directional_bias(closes: &Vec<Price>, starts: &Vec<usize>, duration_candles: usize) -> (r: (bool, bool))
    requires
        starts@.len() > 0 ==> closes@.len() > 0,
        forall|i: int| 0 <= i < starts@.len() ==> #[trigger] starts@[i] < closes@.len(),
        forall|i: int| 0 <= i < starts@.len() ==> #[trigger] starts@[i] + duration_candles <= usize::MAX,
        starts@.len() <= usize::MAX / 5,
    ensures
        ({
            let up = count_votes(closes@, starts@, duration_candles as int, starts@.len() as int, true);
            let down = count_votes(closes@, starts@, duration_candles as int, starts@.len() as int, false);
            let total = up + down;
            &&& r.1 == !(total > 0 && 5 * up >= 4 * total)
            &&& r.0 == !(total > 0 && !(5 * up >= 4 * total) && 5 * down >= 4 * total)
        }),
{
    let mut up: usize = 0;
    let mut down: usize = 0;
    let mut i: usize = 0;
    while i < starts.len()
        invariant
            i <= starts@.len(),
            starts@.len() > 0 ==> closes@.len() > 0,
            forall|j: int| 0 <= j < starts@.len() ==> #[trigger] starts@[j] < closes@.len(),
            forall|j: int| 0 <= j < starts@.len() ==> #[trigger] starts@[j] + duration_candles <= usize::MAX,
            starts@.len() <= usize::MAX / 5,
            up == count_votes(closes@, starts@, duration_candles as int, i as int, true),
            down == count_votes(closes@, starts@, duration_candles as int, i as int, false),
            up + down <= i,
        decreases starts@.len() - i,
    {
        proof {
            lemma_votes_bounded(closes@, starts@, duration_candles as int, i as int);
        }
        let s = starts[i];
        let last = closes.len() - 1;
        let e = if s + duration_candles < last {
            s + duration_candles
        } else {
            last
        };
        if closes[e].0 > closes[s].0 {
            up = up + 1;
        } else if closes[e].0 < closes[s].0 {
            down = down + 1;
        }
        i = i + 1;
    }
    let total = up + down;
    let mut bias_long = true;
    let mut bias_short = true;
    if total > 0 {
        if 5 * up >= 4 * total {
            bias_short = false;
        } else if 5 * down >= 4 * total {
            bias_long = false;
        }
    }
    (bias_long, bias_short)
}

/// Each historical match is judged on the close `duration` candles after
/// its own start (or the last close): over steadily rising closes every
/// match that starts before the last candle votes up and none votes down,
/// and over steadily falling closes every such match votes down.
pub proof fn law_matches_judged_from_their_start(
    closes: Seq<Price>,
    starts: Seq<usize>,
    duration: int,
    k: int,
)
    requires
        duration > 0,
        0 <= k <= starts.len(),
        forall|i: int| 0 <= i < starts.len() ==> #[trigger] starts[i] < closes.len() - 1,
    ensures
        (forall|a: int, b: int| 0 <= a < b < closes.len() ==> #[trigger] closes[a].0 < #[trigger] closes[b].0)
            ==> count_votes(closes, starts, duration, k, true) == k && count_votes(closes, starts, duration, k, false)
            == 0,
        (forall|a: int, b: int| 0 <= a < b < closes.len() ==> #[trigger] closes[a].0 > #[trigger] closes[b].0)
            ==> count_votes(closes, starts, duration, k, false) == k && count_votes(closes, starts, duration, k, true)
            == 0,
    decreases k,
{
    if k > 0 {
        law_matches_judged_from_their_start(closes, starts, duration, k - 1);
        let s = starts[k - 1] as int;
        let e = match_end(s, duration, closes.len() as int);
        assert(s < e < closes.len());
    }
}

} // verus!
