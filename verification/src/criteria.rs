use vstd::prelude::*;

verus! {

/// `a` ranks strictly ahead of `b`: a higher key when ranking downwards,
/// a lower one when ranking upwards.
pub open spec fn ranks_before(a: i64, b: i64, falling: bool) -> bool {
    if falling {
        a > b
    } else {
        a < b
    }
}

/// `order` lists every index below `n` exactly once.
pub open spec fn is_index_order(order: Seq<usize>, n: nat) -> bool {
    &&& order.len() == n
    &&& forall|k: int| 0 <= k < n ==> #[trigger] order[k] < n
    &&& forall|a: int, b: int| 0 <= a < b < n ==> order[a] != order[b]
    &&& forall|j: usize| j < n ==> #[trigger] order.contains(j)
}

/// Along `order`, no key ranks ahead of one listed before it.
pub open spec fn ranked(order: Seq<usize>, data: Seq<i64>, falling: bool) -> bool {
    forall|a: int, b: int|
        0 <= a < b < order.len() ==> !ranks_before(
            data[#[trigger] order[b] as int],
            data[#[trigger] order[a] as int],
            falling,
        )
}

/// The indices below `n`, in rising order, whose key lies in `[lo, hi]`.
pub open spec fn indices_within(data: Seq<i64>, lo: int, hi: int, n: int) -> Seq<usize>
    decreases n,
{
    if n <= 0 {
        Seq::empty()
    } else {
        let rest = indices_within(data, lo, hi, n - 1);
        if lo <= data[n - 1] <= hi {
            rest.push((n - 1) as usize)
        } else {
            rest
        }
    }
}

/// The smaller of two counts.
pub open spec fn min_count(a: int, b: int) -> int {
    if a < b {
        a
    } else {
        b
    }
}

proof fn lemma_insert_ranked(s: Seq<usize>, p: int, x: usize, data: Seq<i64>, falling: bool, k: nat)
    requires
        0 <= p <= s.len(),
        s.len() == k,
        x == k,
        k < data.len(),
        ranked(s, data, falling),
        forall|m: int| 0 <= m < s.len() ==> #[trigger] s[m] < k,
        forall|a: int, b: int| 0 <= a < b < s.len() ==> s[a] != s[b],
        forall|j: usize| j < k ==> #[trigger] s.contains(j),
        forall|m: int| 0 <= m < p ==> !ranks_before(data[x as int], data[#[trigger] s[m] as int], falling),
        p < s.len() ==> ranks_before(data[x as int], data[s[p] as int], falling),
    ensures
        ranked(s.insert(p, x), data, falling),
        forall|m: int| 0 <= m < k + 1 ==> #[trigger] s.insert(p, x)[m] < k + 1,
        forall|a: int, b: int| 0 <= a < b < k + 1 ==> s.insert(p, x)[a] != s.insert(p, x)[b],
        forall|j: usize| j < k + 1 ==> #[trigger] s.insert(p, x).contains(j),
{
    let t = s.insert(p, x);
    assert forall|a: int, b: int| 0 <= a < b < t.len() implies !ranks_before(
        data[#[trigger] t[b] as int],
        data[#[trigger] t[a] as int],
        falling,
    ) by {
        if b < p {
            assert(t[a] == s[a] && t[b] == s[b]);
        } else if b == p {
            assert(t[a] == s[a]);
        } else if a < p {
            assert(t[a] == s[a] && t[b] == s[b - 1]);
        } else if a == p {
            assert(t[b] == s[b - 1]);
            if b - 1 > p {
                assert(!ranks_before(data[s[b - 1] as int], data[s[p] as int], falling));
            }
        } else {
            assert(t[a] == s[a - 1] && t[b] == s[b - 1]);
        }
    }
    assert forall|m: int| 0 <= m < k + 1 implies #[trigger] t[m] < k + 1 by {
        if m < p {
            assert(t[m] == s[m]);
        } else if m > p {
            assert(t[m] == s[m - 1]);
        }
    }
    assert forall|a: int, b: int| 0 <= a < b < k + 1 implies t[a] != t[b] by {
        if b < p {
            assert(t[a] == s[a] && t[b] == s[b]);
        } else if b == p {
            assert(t[a] == s[a]);
        } else if a < p {
            assert(t[a] == s[a] && t[b] == s[b - 1]);
        } else if a == p {
            assert(t[b] == s[b - 1]);
        } else {
            assert(t[a] == s[a - 1] && t[b] == s[b - 1]);
        }
    }
    assert forall|j: usize| j < k + 1 implies #[trigger] t.contains(j) by {
        if j == k {
            assert(t[p] == x);
        } else {
            assert(s.contains(j));
            let m = choose|m: int| 0 <= m < s.len() && s[m] == j;
            if m < p {
                assert(t[m] == j);
            } else {
                assert(t[m + 1] == j);
            }
        }
    }
}

/// Every index of `data` once, ordered by key (highest first when
/// `falling`, lowest first otherwise).
fn rank_indices(data: &[i64], falling: bool) -> (r: Vec<usize>)
    ensures
        is_index_order(r@, data@.len()),
        ranked(r@, data@, falling),
{
    let mut sorted: Vec<usize> = Vec::new();
    let mut k: usize = 0;
    while k < data.len()
        invariant
            k <= data@.len(),
            sorted@.len() == k,
            ranked(sorted@, data@, falling),
            forall|m: int| 0 <= m < sorted@.len() ==> #[trigger] sorted@[m] < k,
            forall|a: int, b: int| 0 <= a < b < sorted@.len() ==> sorted@[a] != sorted@[b],
            forall|j: usize| j < k ==> #[trigger] sorted@.contains(j),
        decreases data@.len() - k,
    {
        let mut p: usize = 0;
        loop
            invariant
                p <= sorted@.len(),
                k < data@.len(),
                forall|m: int| 0 <= m < sorted@.len() ==> #[trigger] sorted@[m] < k,
                forall|m: int|
                    0 <= m < p ==> !ranks_before(data@[k as int], data@[#[trigger] sorted@[m] as int], falling),
            ensures
                p <= sorted@.len(),
                forall|m: int|
                    0 <= m < p ==> !ranks_before(data@[k as int], data@[#[trigger] sorted@[m] as int], falling),
                p < sorted@.len() ==> ranks_before(data@[k as int], data@[sorted@[p as int] as int], falling),
            decreases sorted@.len() - p,
        {
            if p >= sorted.len() {
                break;
            }
            let other = data[sorted[p]];
            let ahead = if falling {
                data[k] > other
            } else {
                data[k] < other
            };
            if ahead {
                break;
            }
            p = p + 1;
        }
        proof {
            lemma_insert_ranked(sorted@, p as int, k, data@, falling, k as nat);
        }
        sorted.insert(p, k);
        k = k + 1;
    }
    sorted
}

/// Picks zone indices out of a series of scores, each score given as an
/// order key (a higher key for a higher score).
pub struct DataSelector<'a> {
    pub data: &'a [i64],
}

impl<'a> DataSelector<'a> {
    /// A selector over `data`.
    pub fn new(data: &'a [i64]) -> (r: Self)
        ensures
            r.data@ == data@,
    {
        DataSelector { data }
    }

    /// The zones ranked `start_index` (inclusive) to `end_index`
    /// (exclusive) when the scores are put in rising order, both ranks
    /// capped at the number of scores; none when the range is empty. Equal
    /// scores may come in either order.
    pub fn select_percentile_range(&self, start_index: usize, end_index: usize) -> (r: Vec<usize>)
        ensures
            exists|order: Seq<usize>|
                {
                    &&& is_index_order(order, self.data@.len())
                    &&& ranked(order, self.data@, false)
                    &&& {
                        let s = min_count(start_index as int, self.data@.len() as int);
                        let e = min_count(end_index as int, self.data@.len() as int);
                        r@ == if s < e {
                            order.subrange(s, e)
                        } else {
                            Seq::<usize>::empty()
                        }
                    }
                },
    {
        let total = self.data.len();
        let start = if start_index < total {
            start_index
        } else {
            total
        };
        let end = if end_index < total {
            end_index
        } else {
            total
        };
        let order = rank_indices(self.data, false);
        let mut r: Vec<usize> = Vec::new();
        if start < end {
            let mut i: usize = start;
            while i < end
                invariant
                    start <= i <= end,
                    end <= order@.len(),
                    r@ == order@.subrange(start as int, i as int),
                decreases end - i,
            {
                r.push(order[i]);
                i = i + 1;
            }
        }
        assert(is_index_order(order@, self.data@.len()) && ranked(order@, self.data@, false));
        r
    }

    /// The `top_n` highest-scoring zones (all of them when there are fewer),
    /// highest first; equal scores may come in either order.
    pub fn select_top_n(&self, top_n: usize) -> (r: Vec<usize>)
        ensures
            exists|order: Seq<usize>|
                {
                    &&& is_index_order(order, self.data@.len())
                    &&& ranked(order, self.data@, true)
                    &&& r@ == order.take(min_count(top_n as int, self.data@.len() as int))
                },
            forall|a: int, j: usize|
                #![trigger r@[a], r@.contains(j)]
                0 <= a < r@.len() && j < self.data@.len() && !r@.contains(j) ==> self.data@[j as int]
                    <= self.data@[r@[a] as int],
    {
        let total = self.data.len();
        let count = if top_n < total {
            top_n
        } else {
            total
        };
        let order = rank_indices(self.data, true);
        let mut r: Vec<usize> = Vec::new();
        let mut i: usize = 0;
        while i < count
            invariant
                i <= count,
                count <= order@.len(),
                r@ == order@.take(i as int),
            decreases count - i,
        {
            r.push(order[i]);
            i = i + 1;
        }
        proof {
            let o = order@;
            assert forall|a: int, j: usize|
                #![trigger r@[a], r@.contains(j)]
                0 <= a < r@.len() && j < self.data@.len() && !r@.contains(j) implies self.data@[j as int]
                <= self.data@[r@[a] as int] by {
                assert(o.contains(j));
                let m = choose|m: int| 0 <= m < o.len() && o[m] == j;
                if m < count {
                    assert(r@[m] == j);
                }
                assert(r@[a] == o[a]);
                assert(!ranks_before(self.data@[o[m] as int], self.data@[o[a] as int], true));
            }
        }
        r
    }

    /// The zones scoring above `threshold`, in index order.
    pub fn select_above_value_threshold(&self, threshold: i64) -> (r: Vec<usize>)
        ensures
            r@ == indices_within(self.data@, threshold + 1, i64::MAX as int, self.data@.len() as int),
    {
        let mut r: Vec<usize> = Vec::new();
        let mut i: usize = 0;
        while i < self.data.len()
            invariant
                i <= self.data@.len(),
                r@ == indices_within(self.data@, threshold + 1, i64::MAX as int, i as int),
            decreases self.data@.len() - i,
        {
            if self.data[i] > threshold {
                r.push(i);
            }
            i = i + 1;
        }
        r
    }

    /// The zones scoring below `threshold`, in index order.
    pub fn select_below_value_threshold(&self, threshold: i64) -> (r: Vec<usize>)
        ensures
            r@ == indices_within(self.data@, i64::MIN as int, threshold - 1, self.data@.len() as int),
    {
        let mut r: Vec<usize> = Vec::new();
        let mut i: usize = 0;
        while i < self.data.len()
            invariant
                i <= self.data@.len(),
                r@ == indices_within(self.data@, i64::MIN as int, threshold - 1, i as int),
            decreases self.data@.len() - i,
        {
            if self.data[i] < threshold {
                r.push(i);
            }
            i = i + 1;
        }
        r
    }

    /// The zones scoring between `lower` and `upper`, both included, in
    /// index order: the zones near the best score when `upper` is the best
    /// score and `lower` a fraction of it.
    pub fn select_between_values(&self, lower: i64, upper: i64) -> (r: Vec<usize>)
        ensures
            r@ == indices_within(self.data@, lower as int, upper as int, self.data@.len() as int),
    {
        let mut r: Vec<usize> = Vec::new();
        let mut i: usize = 0;
        while i < self.data.len()
            invariant
                i <= self.data@.len(),
                r@ == indices_within(self.data@, lower as int, upper as int, i as int),
            decreases self.data@.len() - i,
        {
            if lower <= self.data[i] && self.data[i] <= upper {
                r.push(i);
            }
            i = i + 1;
        }
        r
    }
}

} // verus!
