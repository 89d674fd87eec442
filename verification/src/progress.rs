use vstd::prelude::*;

verus! {

/// Sync state of one pair during start-up.
#[derive(Debug, Clone)]
pub enum SyncStatus {
    Pending,
    Syncing,
    /// Synced, with the number of new candles.
    Completed(usize),
    /// Failed, with the error.
    Failed(String),
}

/// A change of one pair's sync state.
#[derive(Debug, Clone)]
pub struct ProgressEvent {
    pub index: usize,
    pub pair: String,
    pub status: SyncStatus,
}

/// Start-up progress: the latest state of every pair, by index, and the
/// counts shown to the user.
#[derive(Debug, Clone)]
pub struct BootstrapState {
    pub pairs: Vec<(usize, String, SyncStatus)>,
    pub total_pairs: usize,
    pub completed: usize,
    pub failed: usize,
}

/// Index of the entry for pair index `key` at or after `from`.
pub open spec fn slot_index(pairs: Seq<(usize, String, SyncStatus)>, key: usize, from: int) -> Option<int>
    decreases pairs.len() - from,
{
    if from < 0 || from >= pairs.len() {
        None
    } else if pairs[from].0 == key {
        Some(from)
    } else {
        slot_index(pairs, key, from + 1)
    }
}

/// Number of the first `n` entries whose state satisfies `pred`.
pub open spec fn count_status(
    pairs: Seq<(usize, String, SyncStatus)>,
    n: int,
    pred: spec_fn(SyncStatus) -> bool,
) -> nat
    decreases n,
{
    if n <= 0 {
        0
    } else {
        count_status(pairs, n - 1, pred) + if pred(pairs[n - 1].2) {
            1nat
        } else {
            0nat
        }
    }
}

/// No pair index occurs twice.
pub open spec fn distinct_slots(pairs: Seq<(usize, String, SyncStatus)>) -> bool {
    forall|i: int, j: int| 0 <= i < j < pairs.len() ==> #[trigger] pairs[i].0 != #[trigger] pairs[j].0
}

proof fn lemma_count_bounded(pairs: Seq<(usize, String, SyncStatus)>, n: int, pred: spec_fn(SyncStatus) -> bool)
    requires
        0 <= n,
    ensures
        count_status(pairs, n, pred) <= n,
    decreases n,
{
    if n > 0 {
        lemma_count_bounded(pairs, n - 1, pred);
    }
}

proof fn lemma_count_disjoint(
    pairs: Seq<(usize, String, SyncStatus)>,
    n: int,
)
    requires
        0 <= n,
    ensures
        count_status(pairs, n, |s: SyncStatus| s is Completed) + count_status(
            pairs,
            n,
            |s: SyncStatus| s is Failed,
        ) <= n,
    decreases n,
{
    if n > 0 {
        lemma_count_disjoint(pairs, n - 1);
    }
}

impl BootstrapState {
    /// No pairs yet.
    pub fn new() -> (r: Self)
        ensures
            r.pairs@.len() == 0,
            r.total_pairs == 0,
            r.completed == 0,
            r.failed == 0,
    {
        BootstrapState { pairs: Vec::new(), total_pairs: 0, completed: 0, failed: 0 }
    }

    /// Stores each event's state under its pair index (a later event for an
    /// index replaces the earlier one) and recounts: the total of pairs, the
    /// completed ones and the failed ones.
    pub fn update_loading_progress(&mut self, events: Vec<ProgressEvent>)
        requires
            distinct_slots(old(self).pairs@),
        ensures
            distinct_slots(final(self).pairs@),
            forall|key: usize|
                #[trigger] slot_entry(final(self).pairs@, key) == match latest_event(
                    events@,
                    events@.len() as int,
                    key,
                ) {
                    Some(v) => Some(v),
                    None => slot_entry(old(self).pairs@, key),
                },
            final(self).total_pairs == final(self).pairs@.len(),
            final(self).completed == count_status(
                final(self).pairs@,
                final(self).pairs@.len() as int,
                |s: SyncStatus| s is Completed,
            ),
            final(self).failed == count_status(
                final(self).pairs@,
                final(self).pairs@.len() as int,
                |s: SyncStatus| s is Failed,
            ),
            final(self).completed + final(self).failed <= final(self).total_pairs,
    {
        let mut k: usize = 0;
        let ghost ev = events@;
        let ghost start = self.pairs@;
        let mut events = events;
        proof {
            assert(ev.len() == events.len());
        }
        while events.len() > 0
            invariant
                distinct_slots(self.pairs@),
                ev.len() <= usize::MAX,
                events@.len() + k == ev.len(),
                forall|j: int| 0 <= j < events@.len() ==> #[trigger] events@[j] == ev[k + j],
                forall|key: usize|
                    #[trigger] slot_entry(self.pairs@, key) == match latest_event(ev, k as int, key) {
                        Some(v) => Some(v),
                        None => slot_entry(start, key),
                    },
            decreases events@.len(),
        {
            let event = events.remove(0);
            assert(event == ev[k as int]);
            store_slot(&mut self.pairs, event.index, event.pair, event.status);
            k = k + 1;
        }
        self.total_pairs = self.pairs.len();
        let mut completed: usize = 0;
        let mut failed: usize = 0;
        let mut i: usize = 0;
        while i < self.pairs.len()
            invariant
                i <= self.pairs@.len(),
                completed == count_status(self.pairs@, i as int, |s: SyncStatus| s is Completed),
                failed == count_status(self.pairs@, i as int, |s: SyncStatus| s is Failed),
                completed + failed <= i,
            decreases self.pairs@.len() - i,
        {
            proof {
                lemma_count_disjoint(self.pairs@, i as int);
            }
            match &self.pairs[i].2 {
                SyncStatus::Completed(_) => {
                    completed = completed + 1;
                },
                SyncStatus::Failed(_) => {
                    failed = failed + 1;
                },
                _ => {},
            }
            i = i + 1;
        }
        self.completed = completed;
        self.failed = failed;
    }
}

/// The pair and state stored under pair index `key`.
pub open spec fn slot_entry(pairs: Seq<(usize, String, SyncStatus)>, key: usize) -> Option<(String, SyncStatus)> {
    match slot_index(pairs, key, 0) {
        Some(i) => Some((pairs[i].1, pairs[i].2)),
        None => None,
    }
}

/// Pair and state of the last of the first `n` events for pair index
/// `key`.
pub open spec fn latest_event(events: Seq<ProgressEvent>, n: int, key: usize) -> Option<(String, SyncStatus)>
    decreases n,
{
    if n <= 0 {
        None
    } else if events[n - 1].index == key {
        Some((events[n - 1].pair, events[n - 1].status))
    } else {
        latest_event(events, n - 1, key)
    }
}

proof fn lemma_slot_unique(pairs: Seq<(usize, String, SyncStatus)>, key: usize, i: int)
    requires
        0 <= i < pairs.len(),
        pairs[i].0 == key,
        forall|q: int| 0 <= q < i ==> #[trigger] pairs[q].0 != key,
    ensures
        slot_index(pairs, key, 0) == Some(i),
{
    lemma_slot_unique_from(pairs, key, i, 0);
}

proof fn lemma_slot_unique_from(pairs: Seq<(usize, String, SyncStatus)>, key: usize, i: int, from: int)
    requires
        0 <= from <= i < pairs.len(),
        pairs[i].0 == key,
        forall|q: int| 0 <= q < i ==> #[trigger] pairs[q].0 != key,
    ensures
        slot_index(pairs, key, from) == Some(i),
    decreases i - from,
{
    if from < i {
        lemma_slot_unique_from(pairs, key, i, from + 1);
    }
}

proof fn lemma_slot_none(pairs: Seq<(usize, String, SyncStatus)>, key: usize, from: int)
    requires
        0 <= from,
        forall|q: int| 0 <= q < pairs.len() ==> #[trigger] pairs[q].0 != key,
    ensures
        slot_index(pairs, key, from) is None,
    decreases pairs.len() - from,
{
    if from < pairs.len() {
        lemma_slot_none(pairs, key, from + 1);
    }
}

fn find_slot(pairs: &Vec<(usize, String, SyncStatus)>, key: usize) -> (r: Option<usize>)
    ensures
        r matches Some(p) ==> p < pairs@.len() && pairs@[p as int].0 == key,
        r is None ==> forall|q: int| 0 <= q < pairs@.len() ==> #[trigger] pairs@[q].0 != key,
{
    let mut p: usize = 0;
    while p < pairs.len()
        invariant
            p <= pairs@.len(),
            forall|q: int| 0 <= q < p ==> #[trigger] pairs@[q].0 != key,
        decreases pairs@.len() - p,
    {
        if pairs[p].0 == key {
            return Some(p);
        }
        p = p + 1;
    }
    None
}

/// Stores `(pair, status)` under pair index `key`.
fn store_slot(pairs: &mut Vec<(usize, String, SyncStatus)>, key: usize, pair: String, status: SyncStatus)
    requires
        distinct_slots(old(pairs)@),
    ensures
        distinct_slots(final(pairs)@),
        forall|k: usize|
            #[trigger] slot_entry(final(pairs)@, k) == if k == key {
                Some((pair, status))
            } else {
                slot_entry(old(pairs)@, k)
            },
{
    let ghost before = pairs@;
    let ghost v = (pair, status);
    match find_slot(pairs, key) {
        Some(p) => {
            pairs.set(p, (key, pair, status));
            proof {
                let after = pairs@;
                assert forall|k: usize| #[trigger]
                    slot_entry(after, k) == if k == key {
                        Some(v)
                    } else {
                        slot_entry(before, k)
                    } by {
                    lemma_slot_bounds(before, k, 0);
                    if k == key {
                        lemma_slot_unique(after, k, p as int);
                    } else {
                        match slot_index(before, k, 0) {
                            Some(i) => {
                                assert forall|q: int| 0 <= q < i implies #[trigger] before[q].0 != k by {
                                    if before[q].0 == k {
                                        assert(before[i].0 == before[q].0);
                                    }
                                }
                                lemma_slot_unique(after, k, i);
                            },
                            None => {
                                assert forall|q: int| 0 <= q < after.len() implies #[trigger] after[q].0 != k by {
                                    if q != p {
                                        assert(after[q] == before[q]);
                                        lemma_slot_exists_gives(before, k, q);
                                    }
                                }
                                lemma_slot_none(after, k, 0);
                            },
                        }
                    }
                }
            }
        },
        None => {
            pairs.push((key, pair, status));
            proof {
                let after = pairs@;
                let n = before.len() as int;
                assert forall|k: usize| #[trigger]
                    slot_entry(after, k) == if k == key {
                        Some(v)
                    } else {
                        slot_entry(before, k)
                    } by {
                    lemma_slot_bounds(before, k, 0);
                    if k == key {
                        lemma_slot_unique(after, k, n);
                    } else {
                        match slot_index(before, k, 0) {
                            Some(i) => {
                                assert forall|q: int| 0 <= q < i implies #[trigger] before[q].0 != k by {
                                    if before[q].0 == k {
                                        assert(before[i].0 == before[q].0);
                                    }
                                }
                                lemma_slot_unique(after, k, i);
                            },
                            None => {
                                assert forall|q: int| 0 <= q < after.len() implies #[trigger] after[q].0 != k by {
                                    if q < n {
                                        lemma_slot_exists_gives(before, k, q);
                                    }
                                }
                                lemma_slot_none(after, k, 0);
                            },
                        }
                    }
                }
            }
        },
    }
}

proof fn lemma_slot_exists_gives(pairs: Seq<(usize, String, SyncStatus)>, key: usize, q: int)
    requires
        0 <= q < pairs.len(),
        slot_index(pairs, key, 0) is None,
    ensures
        pairs[q].0 != key,
{
    if pairs[q].0 == key {
        lemma_slot_exists(pairs, key, q);
    }
}

proof fn lemma_slot_bounds(pairs: Seq<(usize, String, SyncStatus)>, key: usize, from: int)
    requires
        from >= 0,
    ensures
        slot_index(pairs, key, from) matches Some(i) ==> from <= i < pairs.len() && pairs[i].0 == key,
    decreases pairs.len() - from,
{
    if from < pairs.len() {
        lemma_slot_bounds(pairs, key, from + 1);
    }
}

proof fn lemma_slot_exists(pairs: Seq<(usize, String, SyncStatus)>, key: usize, i: int)
    requires
        0 <= i < pairs.len(),
        pairs[i].0 == key,
    ensures
        slot_index(pairs, key, 0) is Some,
{
    lemma_slot_exists_from(pairs, key, i, 0);
}

proof fn lemma_slot_exists_from(pairs: Seq<(usize, String, SyncStatus)>, key: usize, i: int, from: int)
    requires
        0 <= from <= i < pairs.len(),
        pairs[i].0 == key,
    ensures
        slot_index(pairs, key, from) is Some,
    decreases i - from,
{
    if pairs[from].0 != key {
        lemma_slot_exists_from(pairs, key, i, from + 1);
    }
}

/// Start-up tuning progress: the pairs still to tune and how many are
/// done.
#[derive(Debug, Clone)]
pub struct TuningState {
    pub todo_list: Vec<String>,
    pub total: usize,
    pub completed: usize,
}

impl TuningState {
    /// Tuning of `pairs`, none done yet.
    pub fn new(pairs: Vec<String>) -> (r: Self)
        ensures
            r.todo_list@ == pairs@,
            r.total == pairs@.len(),
            r.completed == 0,
    {
        let total = pairs.len();
        TuningState { todo_list: pairs, total, completed: 0 }
    }

    /// Takes up to `chunk_size` pairs off the end of the to-do list, in the
    /// order they are taken, and counts them as done.
    pub fn take_chunk(&mut self, chunk_size: usize) -> (taken: Vec<String>)
        requires
            old(self).completed + old(self).todo_list@.len() <= usize::MAX,
        ensures
            taken@.len() == if old(self).todo_list@.len() < chunk_size {
                old(self).todo_list@.len()
            } else {
                chunk_size as nat
            },
            final(self).todo_list@ == old(self).todo_list@.take(
                old(self).todo_list@.len() - taken@.len(),
            ),
            forall|i: int| 0 <= i < taken@.len() ==> #[trigger] taken@[i] == old(self).todo_list@[old(self).todo_list@.len() - 1 - i],
            final(self).completed == old(self).completed + taken@.len(),
            final(self).total == old(self).total,
            final(self).completed + final(self).todo_list@.len() == old(self).completed + old(self).todo_list@.len(),
    {
        let ghost todo = self.todo_list@;
        let mut taken: Vec<String> = Vec::new();
        while taken.len() < chunk_size && self.todo_list.len() > 0
            invariant
                taken@.len() <= chunk_size,
                taken@.len() + self.todo_list@.len() == todo.len(),
                self.todo_list@ == todo.take(todo.len() - taken@.len()),
                forall|i: int| 0 <= i < taken@.len() ==> #[trigger] taken@[i] == todo[todo.len() - 1 - i],
                self.completed == old(self).completed,
                self.total == old(self).total,
                self.completed + todo.len() <= usize::MAX,
            decreases self.todo_list@.len(),
        {
            let ghost before = self.todo_list@;
            match self.todo_list.pop() {
                Some(p) => {
                    taken.push(p);
                    assert(self.todo_list@ =~= todo.take(todo.len() - taken@.len()));
                },
                None => {},
            }
        }
        self.completed = self.completed + taken.len();
        taken
    }

    /// Nothing is left to tune.
    pub fn is_done(&self) -> (r: bool)
        ensures
            r == (self.todo_list@.len() == 0),
    {
        self.todo_list.len() == 0
    }
}

} // verus!
