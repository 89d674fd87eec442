use vstd::prelude::*;
use crate::price::OhlcvTimeSeries;

verus! {

/// `a` comes before `b` when both are compared character by character from
/// position `i` on: at the first differing character the smaller code
/// point wins, and a proper prefix comes first.
pub open spec fn lex_lt_from(a: Seq<char>, b: Seq<char>, i: int) -> bool
    decreases a.len() - i,
{
    if i < 0 {
        false
    } else if i >= a.len() {
        i < b.len()
    } else if i >= b.len() {
        false
    } else if a[i] != b[i] {
        (a[i] as int) < (b[i] as int)
    } else {
        lex_lt_from(a, b, i + 1)
    }
}

/// Lexicographic order of texts by code point (the order of their UTF-8
/// bytes, which is how `String`s compare).
pub open spec fn lex_lt(a: Seq<char>, b: Seq<char>) -> bool {
    lex_lt_from(a, b, 0)
}

proof fn lemma_lex_transitive(a: Seq<char>, b: Seq<char>, c: Seq<char>, i: int)
    requires
        0 <= i,
        lex_lt_from(a, b, i),
        lex_lt_from(b, c, i),
        forall|k: int| 0 <= k < i ==> a[k] == b[k] && b[k] == c[k],
    ensures
        lex_lt_from(a, c, i),
    decreases a.len() - i,
{
    if i < a.len() && i < b.len() && i < c.len() && a[i] == b[i] && b[i] == c[i] {
        lemma_lex_transitive(a, b, c, i + 1);
    }
}

proof fn lemma_lex_total(a: Seq<char>, b: Seq<char>, i: int)
    requires
        0 <= i <= a.len(),
        i <= b.len(),
        forall|k: int| 0 <= k < i ==> a[k] == b[k],
        a != b,
    ensures
        lex_lt_from(a, b, i) || lex_lt_from(b, a, i),
    decreases a.len() - i,
{
    if i < a.len() && i < b.len() && a[i] == b[i] {
        lemma_lex_total(a, b, i + 1);
    } else if i == a.len() && i == b.len() {
        assert(a =~= b);
    } else if i < a.len() && i < b.len() {
        assert((a[i] as int) != (b[i] as int));
    }
}

/// Whether `a` comes before `b` (see [`lex_lt`]).
pub fn str_lt(a: &str, b: &str) -> (r: bool)
    ensures
        r == lex_lt(a@, b@),
{
    let la = a.unicode_len();
    let lb = b.unicode_len();
    let mut i: usize = 0;
    while i < la && i < lb
        invariant
            la == a@.len(),
            lb == b@.len(),
            i <= la,
            i <= lb,
            lex_lt(a@, b@) == lex_lt_from(a@, b@, i as int),
        decreases la - i,
    {
        let ca = a.get_char(i);
        let cb = b.get_char(i);
        if ca != cb {
            return (ca as u32) < (cb as u32);
        }
        i = i + 1;
    }
    la < lb
}

/// Strictly increasing in [`lex_lt`] order.
pub open spec fn strictly_sorted(s: Seq<String>) -> bool {
    forall|i: int, j: int| 0 <= i < j < s.len() ==> lex_lt(#[trigger] s[i]@, #[trigger] s[j]@)
}

/// `s` holds the text `t`.
pub open spec fn holds_text(s: Seq<String>, t: Seq<char>) -> bool {
    exists|k: int| 0 <= k < s.len() && #[trigger] s[k]@ == t
}

/// Some series of `series` is for the pair named `t`.
pub open spec fn names_pair(series: Seq<OhlcvTimeSeries>, t: Seq<char>, upto: int) -> bool {
    exists|i: int| 0 <= i < upto && #[trigger] series[i].pair_interval.name@ == t
}

fn insertion_point(sorted: &Vec<String>, name: &String) -> (r: (usize, bool))
    requires
        strictly_sorted(sorted@),
    ensures
        r.0 <= sorted@.len(),
        forall|k: int| 0 <= k < r.0 ==> lex_lt(#[trigger] sorted@[k]@, name@),
        r.0 < sorted@.len() ==> !lex_lt(sorted@[r.0 as int]@, name@),
        r.1 <==> (r.0 < sorted@.len() && sorted@[r.0 as int]@ == name@),
{
    let mut p: usize = 0;
    while p < sorted.len()
        invariant
            p <= sorted@.len(),
            strictly_sorted(sorted@),
            forall|k: int| 0 <= k < p ==> lex_lt(#[trigger] sorted@[k]@, name@),
        decreases sorted@.len() - p,
    {
        if !str_lt(sorted[p].as_str(), name.as_str()) {
            let same = sorted[p] == *name;
            return (p, same);
        }
        p = p + 1;
    }
    (p, false)
}

/// The distinct pair names of `series_data`, in increasing order.
pub fn unique_pair_names(series_data: &Vec<OhlcvTimeSeries>) -> (r: Vec<String>)
    ensures
        strictly_sorted(r@),
        forall|i: int|
            0 <= i < series_data@.len() ==> holds_text(r@, #[trigger] series_data@[i].pair_interval.name@),
        forall|k: int|
            0 <= k < r@.len() ==> names_pair(series_data@, #[trigger] r@[k]@, series_data@.len() as int),
{
    let mut names: Vec<String> = Vec::new();
    let mut i: usize = 0;
    while i < series_data.len()
        invariant
            i <= series_data@.len(),
            strictly_sorted(names@),
            forall|j: int| 0 <= j < i ==> holds_text(names@, #[trigger] series_data@[j].pair_interval.name@),
            forall|k: int| 0 <= k < names@.len() ==> names_pair(series_data@, #[trigger] names@[k]@, i as int),
        decreases series_data@.len() - i,
    {
        let name = &series_data[i].pair_interval.name;
        let (p, present) = insertion_point(&names, name);
        let ghost before = names@;
        if !present {
            names.insert(p, name.clone());
            proof {
                let after = names@;
                assert forall|a: int, b: int| 0 <= a < b < after.len() implies lex_lt(
                    #[trigger] after[a]@,
                    #[trigger] after[b]@,
                ) by {
                    if b < p {
                        assert(after[a] == before[a] && after[b] == before[b]);
                    } else if a < p && b == p {
                        assert(after[a] == before[a]);
                    } else if a < p && b > p {
                        assert(after[a] == before[a] && after[b] == before[b - 1]);
                    } else if a == p {
                        assert(after[b] == before[b - 1]);
                        let x = before[p as int]@;
                        if b - 1 == p {
                            lemma_lex_total(x, name@, 0);
                        } else {
                            lemma_lex_total(x, name@, 0);
                            lemma_lex_transitive(name@, x, before[b - 1]@, 0);
                        }
                    } else {
                        assert(after[a] == before[a - 1] && after[b] == before[b - 1]);
                    }
                }
                assert(after[p as int]@ == series_data@[i as int].pair_interval.name@);
                assert forall|j: int| 0 <= j <= i implies holds_text(
                    after,
                    #[trigger] series_data@[j].pair_interval.name@,
                ) by {
                    if j < i {
                        let k = choose|k: int| 0 <= k < before.len() && #[trigger] before[k]@ == series_data@[j].pair_interval.name@;
                        if k < p {
                            assert(after[k] == before[k]);
                        } else {
                            assert(after[k + 1] == before[k]);
                        }
                    } else {
                        assert(after[p as int]@ == series_data@[j].pair_interval.name@);
                    }
                }
                assert forall|k: int| 0 <= k < after.len() implies names_pair(series_data@, #[trigger] after[k]@, i + 1) by {
                    if k < p {
                        assert(after[k] == before[k]);
                        assert(names_pair(series_data@, before[k]@, i as int));
                    } else if k == p {
                        assert(series_data@[i as int].pair_interval.name@ == after[k]@);
                    } else {
                        assert(after[k] == before[k - 1]);
                        assert(names_pair(series_data@, before[k - 1]@, i as int));
                    }
                }
            }
        } else {
            proof {
                assert(holds_text(names@, series_data@[i as int].pair_interval.name@)) by {
                    assert(names@[p as int]@ == series_data@[i as int].pair_interval.name@);
                }
                assert forall|k: int| 0 <= k < names@.len() implies names_pair(series_data@, #[trigger] names@[k]@, i + 1) by {
                    assert(names_pair(series_data@, names@[k]@, i as int));
                }
            }
        }
        i = i + 1;
    }
    names
}

} // verus!
