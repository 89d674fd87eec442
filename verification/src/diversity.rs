use vstd::prelude::*;

verus! {

/// A candidate trade of the search, reduced to what the regional
/// championship needs: the price region of its target, and its score and
/// quality score as order keys.
#[derive(Debug, Clone, Copy, PartialEq, Eq, Structural)]
pub struct CandidateScore {
    pub region: usize,
    pub score: i64,
    pub quality: i64,
}

/// `w` is the winner of region `r`: the first candidate of the region with
/// the region's highest score.
pub open spec fn is_region_winner(cands: Seq<CandidateScore>, r: usize, w: int) -> bool {
    &&& 0 <= w < cands.len()
    &&& cands[w].region == r
    &&& forall|i: int| 0 <= i < cands.len() && #[trigger] cands[i].region == r ==> cands[i].score <= cands[w].score
    &&& forall|i: int| 0 <= i < w && #[trigger] cands[i].region == r ==> cands[i].score < cands[w].score
}

/// Region `r` has a candidate.
pub open spec fn region_contested(cands: Seq<CandidateScore>, r: usize) -> bool {
    exists|i: int| 0 <= i < cands.len() && #[trigger] cands[i].region == r
}

/// Position at which `x` enters `s` (sorted by falling quality): after
/// every entry of at least its quality.
pub open spec fn insert_pos(s: Seq<usize>, x: usize, cands: Seq<CandidateScore>, from: int) -> int
    decreases s.len() - from,
{
    if from < 0 || from >= s.len() {
        s.len() as int
    } else if cands[s[from] as int].quality < cands[x as int].quality {
        from
    } else {
        insert_pos(s, x, cands, from + 1)
    }
}

/// `s` ordered by falling quality, equal qualities keeping their order.
pub open spec fn stable_by_quality(s: Seq<usize>, cands: Seq<CandidateScore>) -> Seq<usize>
    decreases s.len(),
{
    if s.len() == 0 {
        s
    } else {
        let sorted = stable_by_quality(s.drop_last(), cands);
        sorted.insert(insert_pos(sorted, s.last(), cands, 0), s.last())
    }
}

/// Qualities fall (weakly) along `s`.
pub open spec fn quality_sorted(s: Seq<usize>, cands: Seq<CandidateScore>) -> bool {
    forall|a: int, b: int|
        0 <= a < b < s.len() ==> cands[#[trigger] s[a] as int].quality >= cands[#[trigger] s[b] as int].quality
}

/// The region winners, in region order, that score at least `qualifying`.
pub open spec fn qualified_winners(
    cands: Seq<CandidateScore>,
    winners: Seq<Option<usize>>,
    qualifying: i64,
    upto: int,
) -> Seq<usize>
    decreases upto,
{
    if upto <= 0 {
        Seq::empty()
    } else {
        let rest = qualified_winners(cands, winners, qualifying, upto - 1);
        match winners[upto - 1] {
            Some(w) => if cands[w as int].score >= qualifying {
                rest.push(w)
            } else {
                rest
            },
            None => rest,
        }
    }
}

proof fn lemma_insert_pos(s: Seq<usize>, x: usize, cands: Seq<CandidateScore>, from: int)
    requires
        0 <= from <= s.len(),
        forall|i: int| 0 <= i < s.len() ==> #[trigger] s[i] < cands.len(),
        x < cands.len(),
    ensures
        from <= insert_pos(s, x, cands, from) <= s.len(),
        forall|i: int| from <= i < insert_pos(s, x, cands, from) ==> cands[#[trigger] s[i] as int].quality >= cands[x as int].quality,
        insert_pos(s, x, cands, from) < s.len() ==> cands[s[insert_pos(s, x, cands, from)] as int].quality < cands[x as int].quality,
    decreases s.len() - from,
{
    if from < s.len() && cands[s[from] as int].quality >= cands[x as int].quality {
        lemma_insert_pos(s, x, cands, from + 1);
    }
}

proof fn lemma_insert_sorted(s: Seq<usize>, x: usize, cands: Seq<CandidateScore>)
    requires
        quality_sorted(s, cands),
        forall|i: int| 0 <= i < s.len() ==> #[trigger] s[i] < cands.len(),
        x < cands.len(),
    ensures
        quality_sorted(s.insert(insert_pos(s, x, cands, 0), x), cands),
        forall|i: int| 0 <= i < s.len() + 1 ==> #[trigger] s.insert(insert_pos(s, x, cands, 0), x)[i] < cands.len(),
{
    lemma_insert_pos(s, x, cands, 0);
    let p = insert_pos(s, x, cands, 0);
    let t = s.insert(p, x);
    assert forall|a: int, b: int| 0 <= a < b < t.len() implies cands[#[trigger] t[a] as int].quality
        >= cands[#[trigger] t[b] as int].quality by {
        if a < p && b < p {
            assert(t[a] == s[a] && t[b] == s[b]);
        } else if a < p && b == p {
            assert(t[a] == s[a]);
        } else if a < p && b > p {
            assert(t[a] == s[a] && t[b] == s[b - 1]);
        } else if a == p {
            assert(t[b] == s[b - 1]);
            assert(cands[s[p] as int].quality < cands[x as int].quality);
            assert(cands[s[p] as int].quality >= cands[s[b - 1] as int].quality || b - 1 == p);
        } else {
            assert(t[a] == s[a - 1] && t[b] == s[b - 1]);
        }
    }
}

fn find_insert_pos(sorted: &Vec<usize>, x: usize, candidates: &Vec<CandidateScore>) -> (p: usize)
    requires
        x < candidates@.len(),
        forall|m: int| 0 <= m < sorted@.len() ==> #[trigger] sorted@[m] < candidates@.len(),
    ensures
        p == insert_pos(sorted@, x, candidates@, 0),
{
    let mut p: usize = 0;
    while p < sorted.len()
        invariant
            p <= sorted@.len(),
            x < candidates@.len(),
            forall|m: int| 0 <= m < sorted@.len() ==> #[trigger] sorted@[m] < candidates@.len(),
            insert_pos(sorted@, x, candidates@, 0) == insert_pos(sorted@, x, candidates@, p as int),
        decreases sorted@.len() - p,
    {
        if candidates[sorted[p]].quality < candidates[x].quality {
            return p;
        }
        p = p + 1;
    }
    p
}

/// The regional championship of the trade search: candidates fall into
/// `regions` price regions; each region's winner is its first candidate
/// with the highest score; the winners scoring at least `qualifying` are
/// kept, ordered by falling quality (equal qualities in region order), and
/// at most `max_results` of them are returned, as indices into
/// `candidates`.
pub fn apply_diversity_filter(
    candidates: &Vec<CandidateScore>,
    regions: usize,
    qualifying: i64,
    max_results: usize,
) -> (r: Vec<usize>)
    requires
        forall|i: int| 0 <= i < candidates@.len() ==> #[trigger] candidates@[i].region < regions,
    ensures
        candidates@.len() == 0 ==> r@.len() == 0,
        candidates@.len() > 0 ==> exists|winners: Seq<Option<usize>>| {
            &&& winners.len() == regions
            &&& forall|g: int| 0 <= g < regions ==> match #[trigger] winners[g] {
                Some(w) => is_region_winner(candidates@, g as usize, w as int),
                None => !region_contested(candidates@, g as usize),
            }
            &&& {
                let sorted = stable_by_quality(
                    qualified_winners(candidates@, winners, qualifying, regions as int),
                    candidates@,
                );
                r@ == if sorted.len() > max_results {
                    sorted.take(max_results as int)
                } else {
                    sorted
                }
            }
        },
        quality_sorted(r@, candidates@),
{
    if candidates.len() == 0 {
        return Vec::new();
    }
    let ghost cands = candidates@;
    let mut winners: Vec<Option<usize>> = Vec::new();
    let mut g: usize = 0;
    while g < regions
        invariant
            g <= regions,
            winners@.len() == g,
            forall|q: int| 0 <= q < g ==> #[trigger] winners@[q] is None,
        decreases regions - g,
    {
        winners.push(None);
        g = g + 1;
    }
    let mut i: usize = 0;
    while i < candidates.len()
        invariant
            cands == candidates@,
            i <= cands.len(),
            winners@.len() == regions,
            forall|i: int| 0 <= i < cands.len() ==> #[trigger] cands[i].region < regions,
            forall|q: int| 0 <= q < regions ==> match #[trigger] winners@[q] {
                Some(w) => {
                    &&& w < i
                    &&& cands[w as int].region == q
                    &&& forall|k: int| 0 <= k < i && #[trigger] cands[k].region == q ==> cands[k].score <= cands[w as int].score
                    &&& forall|k: int| 0 <= k < w && #[trigger] cands[k].region == q ==> cands[k].score < cands[w as int].score
                },
                None => forall|k: int| 0 <= k < i ==> #[trigger] cands[k].region != q,
            },
        decreases cands.len() - i,
    {
        let reg = candidates[i].region;
        match winners[reg] {
            None => {
                winners.set(reg, Some(i));
            },
            Some(w) => {
                if candidates[i].score > candidates[w].score {
                    winners.set(reg, Some(i));
                }
            },
        }
        i = i + 1;
    }
    proof {
        assert forall|q: int| 0 <= q < regions implies match #[trigger] winners@[q] {
            Some(w) => is_region_winner(cands, q as usize, w as int),
            None => !region_contested(cands, q as usize),
        } by {}
    }
    let mut finals: Vec<usize> = Vec::new();
    let mut g: usize = 0;
    while g < regions
        invariant
            cands == candidates@,
            g <= regions,
            winners@.len() == regions,
            forall|q: int| 0 <= q < regions ==> match #[trigger] winners@[q] {
                Some(w) => w < cands.len(),
                None => true,
            },
            finals@ == qualified_winners(cands, winners@, qualifying, g as int),
            forall|k: int| 0 <= k < finals@.len() ==> #[trigger] finals@[k] < cands.len(),
        decreases regions - g,
    {
        match winners[g] {
            Some(w) => {
                if candidates[w].score >= qualifying {
                    finals.push(w);
                }
            },
            None => {},
        }
        g = g + 1;
    }
    let ghost qualified = finals@;
    let mut sorted: Vec<usize> = Vec::new();
    let mut k: usize = 0;
    while k < finals.len()
        invariant
            cands == candidates@,
            finals@ == qualified,
            k <= qualified.len(),
            forall|m: int| 0 <= m < qualified.len() ==> #[trigger] qualified[m] < cands.len(),
            sorted@ == stable_by_quality(qualified.take(k as int), cands),
            quality_sorted(sorted@, cands),
            sorted@.len() == k,
            forall|m: int| 0 <= m < sorted@.len() ==> #[trigger] sorted@[m] < cands.len(),
        decreases qualified.len() - k,
    {
        let x = finals[k];
        let p = find_insert_pos(&sorted, x, candidates);
        proof {
            lemma_insert_pos(sorted@, x, cands, 0);
            lemma_insert_sorted(sorted@, x, cands);
            assert(qualified.take(k + 1).drop_last() =~= qualified.take(k as int));
        }
        sorted.insert(p, x);
        k = k + 1;
    }
    proof {
        assert(qualified.take(qualified.len() as int) =~= qualified);
    }
    if sorted.len() > max_results {
        sorted.truncate(max_results);
    }
    assert(exists|winners: Seq<Option<usize>>| {
            &&& winners.len() == regions
            &&& forall|g: int| 0 <= g < regions ==> match #[trigger] winners[g] {
                Some(w) => is_region_winner(cands, g as usize, w as int),
                None => !region_contested(cands, g as usize),
            }
            &&& {
                let st = stable_by_quality(
                    qualified_winners(cands, winners, qualifying, regions as int),
                    cands,
                );
                sorted@ == if st.len() > max_results {
                    st.take(max_results as int)
                } else {
                    st
                }
            }
        }) by {
        assert(winners@.len() == regions);
    }
    sorted
}

} // verus!
