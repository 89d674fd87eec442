use vstd::prelude::*;
use crate::config::{OptimizationStrategy, StationId};
use crate::price::Price;
use crate::ledger::{distinct_ids, evolve_ledger, evolved_all, expiries_fit, prune_ledger, closed_trade, stays_open, ClosedTrade, PairQuote};
use crate::replay::TradeOpportunity;
use crate::stream::{lowercase, PriceStreamManager};
use crate::text::{concat_str, push_decimal, decimal};

verus! {

/// A price-horizon fraction, held as an order key in the same way as
/// [`Price`]; the engine only carries it.
#[derive(Debug, Clone, Copy, PartialEq, Eq, Structural)]
pub struct PhPct(pub u64);

/// How much of the analysis a job runs.
#[derive(Debug, Clone, Copy, PartialEq, Eq, Structural)]
pub enum JobMode {
    FullAnalysis,
    ContextOnly,
}

/// Runtime state of one pair in the engine.
#[derive(Debug, Clone)]
pub struct PairRuntime<M> {
    pub model: Option<M>,
    pub last_update_price: Price,
    pub is_calculating: bool,
    pub last_error: Option<String>,
}

/// A pair that has not been analysed yet.
pub open spec fn fresh_runtime<M>(r: PairRuntime<M>) -> bool {
    r.model is None && r.last_update_price == Price(0) && !r.is_calculating && r.last_error is None
}

impl<M> PairRuntime<M> {
    /// A pair with no model, no price, no error, and not being analysed.
    pub fn new() -> (r: Self)
        ensures
            fresh_runtime(r),
    {
        PairRuntime { model: None, last_update_price: Price(0), is_calculating: false, last_error: None }
    }
}

/// An analysis waiting in the engine's queue.
#[derive(Debug, Clone)]
pub struct EngineJob {
    pub pair: String,
    pub price_override: Option<Price>,
    pub ph_pct: PhPct,
    pub strategy: OptimizationStrategy,
    pub station_id: StationId,
    pub mode: JobMode,
}

/// An analysis handed to a worker.
#[derive(Debug, Clone)]
pub struct JobRequest {
    pub pair_name: String,
    pub current_price: Option<Price>,
    pub ph_pct: PhPct,
    pub strategy: OptimizationStrategy,
    pub station_id: StationId,
    pub mode: JobMode,
}

/// The configured horizon and station of one pair.
#[derive(Debug, Clone)]
pub struct PairSetting {
    pub pair: String,
    pub ph_pct: PhPct,
    pub station_id: StationId,
}

/// Index of the first job at or after `from` for `pair`.
pub open spec fn job_index(q: Seq<EngineJob>, pair: Seq<char>, from: int) -> Option<int>
    decreases q.len() - from,
{
    if from < 0 || from >= q.len() {
        None
    } else if q[from].pair@ == pair {
        Some(from)
    } else {
        job_index(q, pair, from + 1)
    }
}

/// Index of the first name at or after `from` equal to `pair`.
pub open spec fn name_index(names: Seq<String>, pair: Seq<char>, from: int) -> Option<int>
    decreases names.len() - from,
{
    if from < 0 || from >= names.len() {
        None
    } else if names[from]@ == pair {
        Some(from)
    } else {
        name_index(names, pair, from + 1)
    }
}

/// Index of the first setting at or after `from` for `pair`.
pub open spec fn setting_index(settings: Seq<PairSetting>, pair: Seq<char>, from: int) -> Option<int>
    decreases settings.len() - from,
{
    if from < 0 || from >= settings.len() {
        None
    } else if settings[from].pair@ == pair {
        Some(from)
    } else {
        setting_index(settings, pair, from + 1)
    }
}

/// No pair has two jobs in `q`.
pub open spec fn distinct_jobs(q: Seq<EngineJob>) -> bool {
    forall|i: int, j: int| 0 <= i < j < q.len() ==> #[trigger] q[i].pair@ != #[trigger] q[j].pair@
}

/// No name occurs twice in `names`.
pub open spec fn distinct_names(names: Seq<String>) -> bool {
    forall|i: int, j: int| 0 <= i < j < names.len() ==> #[trigger] names[i]@ != #[trigger] names[j]@
}

/// `q` with `job` added at the back, after dropping the queued job of the
/// same pair.
pub open spec fn enqueued(q: Seq<EngineJob>, job: EngineJob) -> Seq<EngineJob> {
    match job_index(q, job.pair@, 0) {
        Some(p) => q.remove(p).push(job),
        None => q.push(job),
    }
}

/// The full-analysis job for `pair` built from its setting.
pub open spec fn recalc_job(pair: String, s: PairSetting, strategy: OptimizationStrategy) -> EngineJob {
    EngineJob {
        pair,
        price_override: None,
        ph_pct: s.ph_pct,
        strategy,
        station_id: s.station_id,
        mode: JobMode::FullAnalysis,
    }
}

/// Every name in `pairs` has a setting.
pub open spec fn all_configured(pairs: Seq<String>, settings: Seq<PairSetting>) -> bool {
    forall|i: int| 0 <= i < pairs.len() ==> #[trigger] setting_index(settings, pairs[i]@, 0) is Some
}

/// The pairs of a global recalculation, in queue order: the priority pair
/// first (when given), then the active pairs without its first occurrence.
pub open spec fn recalc_order(active: Seq<String>, priority: Option<String>) -> Seq<String> {
    match priority {
        Some(v) => seq![v] + match name_index(active, v@, 0) {
            Some(p) => active.remove(p),
            None => active,
        },
        None => active,
    }
}

proof fn lemma_job_index_bounds(q: Seq<EngineJob>, pair: Seq<char>, from: int)
    requires
        from >= 0,
    ensures
        job_index(q, pair, from) matches Some(i) ==> from <= i < q.len() && q[i].pair@ == pair,
        job_index(q, pair, from) is None ==> forall|k: int| from <= k < q.len() ==> #[trigger] q[k].pair@ != pair,
    decreases q.len() - from,
{
    if from < q.len() {
        lemma_job_index_bounds(q, pair, from + 1);
    }
}

proof fn lemma_name_index_bounds(names: Seq<String>, pair: Seq<char>, from: int)
    requires
        from >= 0,
    ensures
        name_index(names, pair, from) matches Some(i) ==> from <= i < names.len() && names[i]@ == pair,
        name_index(names, pair, from) is None ==> forall|k: int| from <= k < names.len() ==> #[trigger] names[k]@ != pair,
    decreases names.len() - from,
{
    if from < names.len() {
        lemma_name_index_bounds(names, pair, from + 1);
    }
}

proof fn lemma_setting_index_bounds(settings: Seq<PairSetting>, pair: Seq<char>, from: int)
    requires
        from >= 0,
    ensures
        setting_index(settings, pair, from) matches Some(i) ==> from <= i < settings.len() && settings[i].pair@ == pair,
    decreases settings.len() - from,
{
    if from < settings.len() {
        lemma_setting_index_bounds(settings, pair, from + 1);
    }
}

fn find_setting(settings: &Vec<PairSetting>, pair: &String) -> (r: Option<usize>)
    ensures
        r matches Some(p) ==> p < settings@.len() && setting_index(settings@, pair@, 0) == Some(p as int),
        r is None ==> setting_index(settings@, pair@, 0) is None,
{
    let mut p: usize = 0;
    while p < settings.len()
        invariant
            p <= settings@.len(),
            setting_index(settings@, pair@, 0) == setting_index(settings@, pair@, p as int),
        decreases settings@.len() - p,
    {
        if settings[p].pair == *pair {
            return Some(p);
        }
        p = p + 1;
    }
    None
}

fn find_job(queue: &std::collections::VecDeque<EngineJob>, pair: &String) -> (r: Option<usize>)
    ensures
        r matches Some(p) ==> p < queue@.len() && job_index(queue@, pair@, 0) == Some(p as int),
        r is None ==> job_index(queue@, pair@, 0) is None,
{
    let mut p: usize = 0;
    while p < queue.len()
        invariant
            p <= queue@.len(),
            job_index(queue@, pair@, 0) == job_index(queue@, pair@, p as int),
        decreases queue@.len() - p,
    {
        if queue[p].pair == *pair {
            return Some(p);
        }
        p = p + 1;
    }
    None
}

fn find_name(names: &Vec<String>, pair: &String) -> (r: Option<usize>)
    ensures
        r matches Some(p) ==> p < names@.len() && name_index(names@, pair@, 0) == Some(p as int),
        r is None ==> name_index(names@, pair@, 0) is None,
{
    let mut p: usize = 0;
    while p < names.len()
        invariant
            p <= names@.len(),
            name_index(names@, pair@, 0) == name_index(names@, pair@, p as int),
        decreases names@.len() - p,
    {
        if names[p] == *pair {
            return Some(p);
        }
        p = p + 1;
    }
    None
}

/// The engine's scheduling state: the active pairs, the runtime state of
/// each, the queue of analyses waiting to run, and the ledger of open
/// trade opportunities found by the analyses.
pub struct SniperEngine<M> {
    pub active_engine_pairs: Vec<String>,
    pub pair_names: Vec<String>,
    pub pair_states: Vec<PairRuntime<M>>,
    pub queue: std::collections::VecDeque<EngineJob>,
    pub engine_ledger: Vec<TradeOpportunity>,
}

impl<M> SniperEngine<M> {
    /// Every pair has exactly one runtime state, no pair waits twice, and
    /// no two opportunities on the ledger share an id.
    pub open spec fn wf(&self) -> bool {
        &&& self.pair_names@.len() == self.pair_states@.len()
        &&& distinct_names(self.pair_names@)
        &&& distinct_jobs(self.queue@)
        &&& distinct_ids(self.engine_ledger@)
    }

    /// Runtime state of `pair`, if it is tracked.
    pub open spec fn state_of(&self, pair: Seq<char>) -> Option<PairRuntime<M>> {
        match name_index(self.pair_names@, pair, 0) {
            Some(i) => Some(self.pair_states@[i]),
            None => None,
        }
    }

    /// An engine for `active_engine_pairs`: every pair gets a fresh runtime
    /// state, and the queue and the ledger are empty.
    pub fn new(active_engine_pairs: Vec<String>) -> (r: Self)
        ensures
            r.wf(),
            r.active_engine_pairs@ == active_engine_pairs@,
            r.queue@.len() == 0,
            r.engine_ledger@.len() == 0,
            forall|i: int|
                0 <= i < active_engine_pairs@.len() ==> #[trigger] name_index(
                    r.pair_names@,
                    active_engine_pairs@[i]@,
                    0,
                ) is Some,
            forall|k: int|
                0 <= k < r.pair_names@.len() ==> name_index(
                    active_engine_pairs@,
                    #[trigger] r.pair_names@[k]@,
                    0,
                ) is Some,
            forall|k: int| 0 <= k < r.pair_states@.len() ==> fresh_runtime(#[trigger] r.pair_states@[k]),
    {
        let mut names: Vec<String> = Vec::new();
        let mut states: Vec<PairRuntime<M>> = Vec::new();
        let mut i: usize = 0;
        while i < active_engine_pairs.len()
            invariant
                i <= active_engine_pairs@.len(),
                names@.len() == states@.len(),
                distinct_names(names@),
                forall|j: int| 0 <= j < i ==> #[trigger] name_index(names@, active_engine_pairs@[j]@, 0) is Some,
                forall|k: int|
                    0 <= k < names@.len() ==> name_index(active_engine_pairs@, #[trigger] names@[k]@, 0) is Some,
                forall|k: int| 0 <= k < states@.len() ==> fresh_runtime(#[trigger] states@[k]),
            decreases active_engine_pairs@.len() - i,
        {
            let pair = &active_engine_pairs[i];
            proof {
                lemma_name_index_bounds(active_engine_pairs@, pair@, 0);
            }
            match find_name(&names, pair) {
                Some(_) => {},
                None => {
                    let ghost old_names = names@;
                    proof {
                        lemma_name_index_bounds(old_names, pair@, 0);
                        assert(name_index(active_engine_pairs@, active_engine_pairs@[i as int]@, 0) is Some) by {
                            lemma_name_index_bounds(active_engine_pairs@, pair@, 0);
                            if name_index(active_engine_pairs@, pair@, 0) is None {
                                assert(active_engine_pairs@[i as int]@ == pair@);
                            }
                        }
                    }
                    names.push(pair.clone());
                    states.push(PairRuntime::new());
                    proof {
                        assert forall|j: int| 0 <= j <= i implies #[trigger] name_index(
                            names@,
                            active_engine_pairs@[j]@,
                            0,
                        ) is Some by {
                            let key = active_engine_pairs@[j]@;
                            lemma_name_index_bounds(old_names, key, 0);
                            lemma_name_index_bounds(names@, key, 0);
                            if name_index(names@, key, 0) is None {
                                if j < i {
                                    let m = name_index(old_names, key, 0).unwrap();
                                    assert(names@[m]@ == key);
                                } else {
                                    assert(names@[old_names.len() as int]@ == key);
                                }
                            }
                        }
                    }
                },
            }
            proof {
                assert forall|j: int| 0 <= j <= i implies #[trigger] name_index(
                    names@,
                    active_engine_pairs@[j]@,
                    0,
                ) is Some by {
                    if j == i {
                        lemma_name_index_bounds(names@, pair@, 0);
                    }
                }
            }
            i = i + 1;
        }
        SniperEngine {
            active_engine_pairs,
            pair_names: names,
            pair_states: states,
            queue: std::collections::VecDeque::new(),
            engine_ledger: Vec::new(),
        }
    }
}

/// The jobs of a global recalculation over `order`.
pub open spec fn recalc_jobs(order: Seq<String>, settings: Seq<PairSetting>, strategy: OptimizationStrategy) -> Seq<EngineJob> {
    Seq::new(
        order.len(),
        |i: int| recalc_job(order[i], settings[setting_index(settings, order[i]@, 0).unwrap()], strategy),
    )
}

/// The price a dispatched job is analysed at: its override, or else the
/// live price of its pair.
pub open spec fn dispatch_price<S>(job: EngineJob, prices: PriceStreamManager<S>) -> Option<Price> {
    match job.price_override {
        Some(p) => Some(p),
        None => prices.price_of(lowercase(job.pair@)),
    }
}

/// Index of the first pair state at or after `from` that is being analysed.
pub open spec fn calculating_index<M>(states: Seq<PairRuntime<M>>, from: int) -> Option<int>
    decreases states.len() - from,
{
    if from < 0 || from >= states.len() {
        None
    } else if states[from].is_calculating {
        Some(from)
    } else {
        calculating_index(states, from + 1)
    }
}

impl<M> SniperEngine<M> {
    /// Puts `job` at the back of the queue, dropping the job already queued
    /// for the same pair.
    pub fn enqueue_or_replace(&mut self, job: EngineJob)
        ensures
            final(self).queue@ == enqueued(old(self).queue@, job),
            final(self).active_engine_pairs@ == old(self).active_engine_pairs@,
            final(self).pair_names@ == old(self).pair_names@,
            final(self).engine_ledger@ == old(self).engine_ledger@,
            final(self).pair_states@ == old(self).pair_states@,
            old(self).wf() ==> final(self).wf(),
    {
        let ghost q = self.queue@;
        let found = find_job(&self.queue, &job.pair);
        proof {
            lemma_job_index_bounds(q, job.pair@, 0);
        }
        let pos: usize = match found {
            Some(p) => p,
            None => self.queue.len(),
        };
        if pos < self.queue.len() {
            let _ = self.queue.remove(pos);
        }
        let ghost mid = self.queue@;
        self.queue.push_back(job);
        proof {
            if distinct_jobs(q) {
                assert forall|i: int, j: int| 0 <= i < j < self.queue@.len() implies #[trigger] self.queue@[i].pair@
                    != #[trigger] self.queue@[j].pair@ by {
                    if j == self.queue@.len() - 1 {
                        if pos < q.len() {
                            let ii = if i < pos { i } else { i + 1 };
                            assert(mid[i] == q[ii]);
                            assert(q[pos as int].pair@ == job.pair@);
                        } else {
                            assert(mid[i] == q[i]);
                        }
                    } else {
                        if pos < q.len() {
                            let ii = if i < pos { i } else { i + 1 };
                            let jj = if j < pos { j } else { j + 1 };
                            assert(mid[i] == q[ii] && mid[j] == q[jj]);
                        }
                    }
                }
            }
        }
    }
}

impl<M> SniperEngine<M> {
    /// Hands the job at the front of the queue to a worker. The job is taken
    /// off the queue; it is dropped when its pair is unknown or already being
    /// analysed. Otherwise the pair is marked as being analysed, its last
    /// price becomes the job's price when there is one, and the request is
    /// returned.
    pub fn dispatch_next<S>(&mut self, prices: &PriceStreamManager<S>) -> (r: Option<JobRequest>)
        requires
            old(self).wf(),
        ensures
            final(self).active_engine_pairs@ == old(self).active_engine_pairs@,
            final(self).pair_names@ == old(self).pair_names@,
            final(self).engine_ledger@ == old(self).engine_ledger@,
            old(self).queue@.len() == 0 ==> r is None && final(self).queue@ == old(self).queue@
                && final(self).pair_states@ == old(self).pair_states@,
            old(self).queue@.len() > 0 ==> ({
                let job = old(self).queue@[0];
                let price = dispatch_price(job, *prices);
                &&& final(self).queue@ == old(self).queue@.drop_first()
                &&& match name_index(old(self).pair_names@, job.pair@, 0) {
                    Some(k) => {
                        let st = old(self).pair_states@[k];
                        if st.is_calculating {
                            r is None && final(self).pair_states@ == old(self).pair_states@
                        } else {
                            &&& r == Some(
                                JobRequest {
                                    pair_name: job.pair,
                                    current_price: price,
                                    ph_pct: job.ph_pct,
                                    strategy: job.strategy,
                                    station_id: job.station_id,
                                    mode: job.mode,
                                },
                            )
                            &&& final(self).pair_states@ == old(self).pair_states@.update(
                                k,
                                PairRuntime {
                                    is_calculating: true,
                                    last_update_price: match price {
                                        Some(p) => p,
                                        None => st.last_update_price,
                                    },
                                    ..st
                                },
                            )
                        }
                    },
                    None => r is None && final(self).pair_states@ == old(self).pair_states@,
                }
            }),
            final(self).wf(),
    {
        let ghost q = self.queue@;
        let popped = self.queue.pop_front();
        let job = match popped {
            Some(j) => j,
            None => {
                return None;
            },
        };
        proof {
            assert(self.queue@ =~= q.drop_first());
            if distinct_jobs(q) {
                assert forall|i: int, j: int| 0 <= i < j < self.queue@.len() implies #[trigger] self.queue@[i].pair@
                    != #[trigger] self.queue@[j].pair@ by {
                    assert(self.queue@[i] == q[i + 1] && self.queue@[j] == q[j + 1]);
                }
            }
        }
        let live = prices.get_price(job.pair.as_str());
        let final_price = match job.price_override {
            Some(p) => Some(p),
            None => live,
        };
        match find_name(&self.pair_names, &job.pair) {
            Some(k) => {
                if self.pair_states[k].is_calculating {
                    return None;
                }
                let mut st = self.pair_states.remove(k);
                st.is_calculating = true;
                if let Some(p) = final_price {
                    st.last_update_price = p;
                }
                self.pair_states.insert(k, st);
                Some(
                    JobRequest {
                        pair_name: job.pair,
                        current_price: final_price,
                        ph_pct: job.ph_pct,
                        strategy: job.strategy,
                        station_id: job.station_id,
                        mode: job.mode,
                    },
                )
            },
            None => None,
        }
    }

    /// Records a worker's answer for `pair`: a model clears the error and
    /// its trade opportunities evolve into the ledger (each replaces the
    /// opportunity with its id, or else joins at the end); an error clears
    /// the model. Either way the pair is no longer being analysed. Unknown
    /// pairs are ignored, ledger included.
    pub fn handle_job_result(&mut self, pair: &String, result: Result<(M, Vec<TradeOpportunity>), String>)
        requires
            old(self).wf(),
        ensures
            final(self).active_engine_pairs@ == old(self).active_engine_pairs@,
            final(self).pair_names@ == old(self).pair_names@,
            final(self).queue@ == old(self).queue@,
            match name_index(old(self).pair_names@, pair@, 0) {
                Some(k) => {
                    let st = old(self).pair_states@[k];
                    &&& final(self).pair_states@ == old(self).pair_states@.update(
                        k,
                        match result {
                            Ok((model, _)) => PairRuntime {
                                model: Some(model),
                                is_calculating: false,
                                last_error: None,
                                ..st
                            },
                            Err(e) => PairRuntime {
                                model: None,
                                is_calculating: false,
                                last_error: Some(e),
                                ..st
                            },
                        },
                    )
                    &&& final(self).engine_ledger@ == match result {
                        Ok((_, ops)) => evolved_all(old(self).engine_ledger@, ops@, ops@.len() as int),
                        Err(_) => old(self).engine_ledger@,
                    }
                },
                None => final(self).pair_states@ == old(self).pair_states@ && final(self).engine_ledger@
                    == old(self).engine_ledger@,
            },
            final(self).wf(),
    {
        match find_name(&self.pair_names, pair) {
            Some(k) => {
                let mut st = self.pair_states.remove(k);
                match result {
                    Ok((model, ops)) => {
                        evolve_ledger(&mut self.engine_ledger, &ops);
                        st.model = Some(model);
                        st.is_calculating = false;
                        st.last_error = None;
                    },
                    Err(e) => {
                        st.last_error = Some(e);
                        st.is_calculating = false;
                        st.model = None;
                    },
                }
                self.pair_states.insert(k, st);
            },
            None => {},
        }
    }

    /// Takes off the ledger every opportunity that the latest candle of its
    /// pair ends at `now_ms` and returns their records, in ledger order; the
    /// others stay, in order.
    pub fn tick_prune_ledger(&mut self, quotes: &Vec<PairQuote>, now_ms: i64) -> (closed: Vec<ClosedTrade>)
        requires
            old(self).wf(),
            expiries_fit(old(self).engine_ledger@),
        ensures
            final(self).wf(),
            final(self).active_engine_pairs@ == old(self).active_engine_pairs@,
            final(self).pair_names@ == old(self).pair_names@,
            final(self).pair_states@ == old(self).pair_states@,
            final(self).queue@ == old(self).queue@,
            closed@ == old(self).engine_ledger@.filter_map(|op: TradeOpportunity| closed_trade(op, quotes@, now_ms)),
            final(self).engine_ledger@ == old(self).engine_ledger@.filter_map(
                |op: TradeOpportunity| stays_open(op, quotes@, now_ms),
            ),
    {
        prune_ledger(&mut self.engine_ledger, quotes, now_ms)
    }

    /// The last price `pair` was analysed at, if the pair is tracked.
    pub fn last_update_price(&self, pair: &String) -> (r: Option<Price>)
        requires
            self.wf(),
        ensures
            r == match self.state_of(pair@) {
                Some(st) => Some(st.last_update_price),
                None => None,
            },
    {
        match find_name(&self.pair_names, pair) {
            Some(k) => Some(self.pair_states[k].last_update_price),
            None => None,
        }
    }

    /// Reacts to a new live price of `pair`. The first price of a pair is
    /// only remembered. Afterwards, when `moved_past_threshold` says the price
    /// has moved far enough from the last analysed one and the pair is
    /// configured, a full analysis is queued and the price remembered.
    /// Returns whether a job was queued.
    pub fn on_price_update(
        &mut self,
        pair: &String,
        current_price: Price,
        moved_past_threshold: bool,
        settings: &Vec<PairSetting>,
        strategy: OptimizationStrategy,
    ) -> (queued: bool)
        requires
            old(self).wf(),
        ensures
            final(self).active_engine_pairs@ == old(self).active_engine_pairs@,
            final(self).pair_names@ == old(self).pair_names@,
            final(self).engine_ledger@ == old(self).engine_ledger@,
            match name_index(old(self).pair_names@, pair@, 0) {
                None => !queued && final(self).queue@ == old(self).queue@ && final(self).pair_states@
                    == old(self).pair_states@,
                Some(k) => {
                    let st = old(self).pair_states@[k];
                    if st.last_update_price == Price(0) {
                        &&& !queued
                        &&& final(self).queue@ == old(self).queue@
                        &&& final(self).pair_states@ == old(self).pair_states@.update(
                            k,
                            PairRuntime { last_update_price: current_price, ..st },
                        )
                    } else if !moved_past_threshold || setting_index(settings@, pair@, 0) is None {
                        !queued && final(self).queue@ == old(self).queue@ && final(self).pair_states@
                            == old(self).pair_states@
                    } else {
                        let s = settings@[setting_index(settings@, pair@, 0).unwrap()];
                        &&& queued
                        &&& final(self).queue@ == enqueued(
                            old(self).queue@,
                            recalc_job(*pair, s, strategy),
                        )
                        &&& final(self).pair_states@ == old(self).pair_states@.update(
                            k,
                            PairRuntime { last_update_price: current_price, ..st },
                        )
                    }
                },
            },
            final(self).wf(),
    {
        let k = match find_name(&self.pair_names, pair) {
            Some(k) => k,
            None => {
                return false;
            },
        };
        if self.pair_states[k].last_update_price.0 == 0 {
            let mut st = self.pair_states.remove(k);
            st.last_update_price = current_price;
            self.pair_states.insert(k, st);
            return false;
        }
        if !moved_past_threshold {
            return false;
        }
        let si = match find_setting(settings, pair) {
            Some(si) => si,
            None => {
                return false;
            },
        };
        let job = EngineJob {
            pair: pair.clone(),
            price_override: None,
            ph_pct: settings[si].ph_pct,
            strategy,
            station_id: settings[si].station_id,
            mode: JobMode::FullAnalysis,
        };
        self.enqueue_or_replace(job);
        let mut st = self.pair_states.remove(k);
        st.last_update_price = current_price;
        self.pair_states.insert(k, st);
        true
    }

    /// Reacts to a closed live candle of `symbol`: when the pair is
    /// configured, a full analysis at the candle's close is queued.
    pub fn on_candle_closed(
        &mut self,
        symbol: &String,
        close: Price,
        settings: &Vec<PairSetting>,
        strategy: OptimizationStrategy,
    ) -> (queued: bool)
        requires
            old(self).wf(),
        ensures
            final(self).active_engine_pairs@ == old(self).active_engine_pairs@,
            final(self).pair_names@ == old(self).pair_names@,
            final(self).engine_ledger@ == old(self).engine_ledger@,
            final(self).pair_states@ == old(self).pair_states@,
            match setting_index(settings@, symbol@, 0) {
                None => !queued && final(self).queue@ == old(self).queue@,
                Some(si) => queued && final(self).queue@ == enqueued(
                    old(self).queue@,
                    EngineJob {
                        pair: *symbol,
                        price_override: Some(close),
                        ph_pct: settings@[si].ph_pct,
                        strategy,
                        station_id: settings@[si].station_id,
                        mode: JobMode::FullAnalysis,
                    },
                ),
            },
            final(self).wf(),
    {
        match find_setting(settings, symbol) {
            Some(si) => {
                let job = EngineJob {
                    pair: symbol.clone(),
                    price_override: Some(close),
                    ph_pct: settings[si].ph_pct,
                    strategy,
                    station_id: settings[si].station_id,
                    mode: JobMode::FullAnalysis,
                };
                self.enqueue_or_replace(job);
                true
            },
            None => false,
        }
    }

    /// Schedules a fresh analysis of `pair`, replacing any queued one.
    pub fn invalidate_pair_and_recalc(
        &mut self,
        pair: &str,
        price_override: Option<Price>,
        ph_pct: PhPct,
        strategy: OptimizationStrategy,
        station_id: StationId,
        mode: JobMode,
    )
        requires
            old(self).wf(),
        ensures
            final(self).active_engine_pairs@ == old(self).active_engine_pairs@,
            final(self).pair_names@ == old(self).pair_names@,
            final(self).engine_ledger@ == old(self).engine_ledger@,
            final(self).pair_states@ == old(self).pair_states@,
            final(self).queue@.len() > 0,
            final(self).queue@.last().pair@ == pair@,
            final(self).queue@.last().price_override == price_override,
            final(self).queue@.last().ph_pct == ph_pct,
            final(self).queue@.last().strategy == strategy,
            final(self).queue@.last().station_id == station_id,
            final(self).queue@.last().mode == mode,
            final(self).queue@.drop_last() == (match job_index(old(self).queue@, pair@, 0) {
                Some(p) => old(self).queue@.remove(p),
                None => old(self).queue@,
            }),
            final(self).wf(),
    {
        let job = EngineJob {
            pair: String::from_str(pair),
            price_override,
            ph_pct,
            strategy,
            station_id,
            mode,
        };
        self.enqueue_or_replace(job);
    }

    /// Number of queued jobs.
    pub fn get_queue_len(&self) -> (r: usize)
        ensures
            r == self.queue@.len(),
    {
        self.queue.len()
    }

    /// Whether `pair` is being analysed, and its last error.
    pub fn get_pair_status(&self, pair: &String) -> (r: (bool, Option<String>))
        requires
            self.wf(),
        ensures
            r == match self.state_of(pair@) {
                Some(st) => (st.is_calculating, st.last_error),
                None => (false, None),
            },
    {
        match find_name(&self.pair_names, pair) {
            Some(k) => {
                let err = match &self.pair_states[k].last_error {
                    Some(e) => Some(e.clone()),
                    None => None,
                };
                (self.pair_states[k].is_calculating, err)
            },
            None => (false, None),
        }
    }

    /// What the engine is busy with: `Processing <pair>` for a pair being
    /// analysed, else `Queued: <n>` while jobs wait, else nothing.
    pub fn get_worker_status_msg(&self) -> (r: Option<String>)
        requires
            self.wf(),
        ensures
            match calculating_index(self.pair_states@, 0) {
                Some(k) => r is Some && r.unwrap()@ == "Processing "@ + self.pair_names@[k]@,
                None => if self.queue@.len() > 0 {
                    r is Some && r.unwrap()@ == "Queued: "@ + decimal(self.queue@.len())
                } else {
                    r is None
                },
            },
    {
        let mut k: usize = 0;
        while k < self.pair_states.len()
            invariant
                self.wf(),
                k <= self.pair_states@.len(),
                calculating_index(self.pair_states@, 0) == calculating_index(self.pair_states@, k as int),
            decreases self.pair_states@.len() - k,
        {
            if self.pair_states[k].is_calculating {
                let s = String::from_str("Processing ");
                return Some(concat_str(s, self.pair_names[k].as_str()));
            }
            k = k + 1;
        }
        if self.queue.len() > 0 {
            let mut s = String::from_str("Queued: ");
            push_decimal(&mut s, self.queue.len() as u64);
            Some(s)
        } else {
            None
        }
    }
}

impl<M> SniperEngine<M> {
    /// Replaces the queue with a full analysis of every active pair, the
    /// priority pair (when given) first. Every one of these pairs must be
    /// configured.
    pub fn trigger_global_recalc(
        &mut self,
        priority_pair: Option<String>,
        settings: &Vec<PairSetting>,
        strategy: OptimizationStrategy,
    )
        requires
            all_configured(recalc_order(old(self).active_engine_pairs@, priority_pair), settings@),
            old(self).active_engine_pairs@.len() < usize::MAX,
        ensures
            final(self).active_engine_pairs@ == old(self).active_engine_pairs@,
            final(self).pair_names@ == old(self).pair_names@,
            final(self).engine_ledger@ == old(self).engine_ledger@,
            final(self).pair_states@ == old(self).pair_states@,
            final(self).queue@ == recalc_jobs(
                recalc_order(old(self).active_engine_pairs@, priority_pair),
                settings@,
                strategy,
            ),
            old(self).wf() && distinct_names(old(self).active_engine_pairs@) ==> final(self).wf(),
    {
        let ghost active = self.active_engine_pairs@;
        let ghost names = self.pair_names@;
        let ghost states = self.pair_states@;
        let ghost ledger = self.engine_ledger@;
        let ghost order = recalc_order(active, priority_pair);
        let ghost jobs = recalc_jobs(order, settings@, strategy);
        self.queue.clear();
        let mut skip: Option<usize> = None;
        let mut count: usize = 0;
        match priority_pair {
            Some(vip) => {
                skip = find_name(&self.active_engine_pairs, &vip);
                proof {
                    assert(order[0] == vip);
                    lemma_setting_index_bounds(settings@, vip@, 0);
                }
                let si = find_setting(settings, &vip);
                let si = match si {
                    Some(si) => si,
                    None => {
                        proof {
                            assert(setting_index(settings@, order[0]@, 0) is Some);
                        }
                        0
                    },
                };
                let job = EngineJob {
                    pair: vip,
                    price_override: None,
                    ph_pct: settings[si].ph_pct,
                    strategy,
                    station_id: settings[si].station_id,
                    mode: JobMode::FullAnalysis,
                };
                self.queue.push_back(job);
                count = 1;
                proof {
                    assert(self.queue@ =~= jobs.take(1));
                }
            },
            None => {
                proof {
                    assert(self.queue@ =~= jobs.take(0));
                }
            },
        }
        let ghost base = count as int;
        let mut i: usize = 0;
        while i < self.active_engine_pairs.len()
            invariant
                active == self.active_engine_pairs@,
                names == self.pair_names@,
                states == self.pair_states@,
                ledger == self.engine_ledger@,
                active.len() < usize::MAX,
                order == recalc_order(active, priority_pair),
                jobs == recalc_jobs(order, settings@, strategy),
                all_configured(order, settings@),
                i <= active.len(),
                base == (if priority_pair is Some { 1int } else { 0int }),
                priority_pair is None ==> skip is None,
                skip matches Some(p) ==> p < active.len() && priority_pair is Some && name_index(active, priority_pair.unwrap()@, 0) == Some(p as int),
                skip is None && priority_pair is Some ==> name_index(active, priority_pair.unwrap()@, 0) is None,
                count == base + i - (if skip matches Some(p) && p < i { 1int } else { 0int }),
                self.queue@ == jobs.take(count as int),
                order.len() == base + active.len() - (if skip is Some { 1int } else { 0int }),
            decreases active.len() - i,
        {
            let is_skipped = match skip {
                Some(p) => p == i,
                None => false,
            };
            if !is_skipped {
                let ghost c = count as int;
                proof {
                    assert(c < order.len());
                    assert(order[c] == active[i as int]) by {
                        match priority_pair {
                            Some(v) => {
                                match skip {
                                    Some(p) => {
                                        assert(order == seq![v] + active.remove(p as int));
                                        if p < i {
                                            assert(active.remove(p as int)[i - 1] == active[i as int]);
                                        } else {
                                            assert(active.remove(p as int)[i as int] == active[i as int]);
                                        }
                                    },
                                    None => {
                                        assert(order == seq![v] + active);
                                    },
                                }
                            },
                            None => {},
                        }
                    }
                    assert(setting_index(settings@, order[c]@, 0) is Some);
                    lemma_setting_index_bounds(settings@, active[i as int]@, 0);
                }
                let pair = self.active_engine_pairs[i].clone();
                let si = find_setting(settings, &pair);
                let si = match si {
                    Some(si) => si,
                    None => 0,
                };
                let job = EngineJob {
                    pair,
                    price_override: None,
                    ph_pct: settings[si].ph_pct,
                    strategy,
                    station_id: settings[si].station_id,
                    mode: JobMode::FullAnalysis,
                };
                self.queue.push_back(job);
                count = count + 1;
                proof {
                    assert(self.queue@ =~= jobs.take(count as int));
                }
            }
            i = i + 1;
        }
        proof {
            assert(count == order.len());
            assert(jobs.take(count as int) =~= jobs);
            if distinct_names(active) {
                law_global_recalc_distinct(active, priority_pair, settings@, strategy);
            }
        }
    }
}

/// Enqueueing keeps at most one job per pair: the new job ends the queue,
/// it is the only one for its pair, and the other jobs keep their order.
pub proof fn law_enqueue_keeps_one_job_per_pair(q: Seq<EngineJob>, job: EngineJob)
    requires
        distinct_jobs(q),
    ensures
        distinct_jobs(enqueued(q, job)),
        enqueued(q, job).last() == job,
        forall|i: int| 0 <= i < enqueued(q, job).len() - 1 ==> #[trigger] enqueued(q, job)[i].pair@ != job.pair@,
        enqueued(q, job).len() == if job_index(q, job.pair@, 0) is Some { q.len() } else { q.len() + 1 },
{
    lemma_job_index_bounds(q, job.pair@, 0);
    let r = enqueued(q, job);
    match job_index(q, job.pair@, 0) {
        Some(p) => {
            let mid = q.remove(p);
            assert forall|i: int, j: int| 0 <= i < j < r.len() implies #[trigger] r[i].pair@ != #[trigger] r[j].pair@ by {
                let ii = if i < p { i } else { i + 1 };
                if j == r.len() - 1 {
                    assert(r[i] == q[ii]);
                    assert(q[p].pair@ == job.pair@);
                } else {
                    let jj = if j < p { j } else { j + 1 };
                    assert(r[i] == q[ii] && r[j] == q[jj]);
                }
            }
            assert forall|i: int| 0 <= i < r.len() - 1 implies #[trigger] r[i].pair@ != job.pair@ by {
                let ii = if i < p { i } else { i + 1 };
                assert(r[i] == q[ii]);
                assert(q[p].pair@ == job.pair@);
            }
        },
        None => {
            assert forall|i: int, j: int| 0 <= i < j < r.len() implies #[trigger] r[i].pair@ != #[trigger] r[j].pair@ by {
                if j == r.len() - 1 {
                    assert(r[i] == q[i]);
                }
            }
            assert forall|i: int| 0 <= i < r.len() - 1 implies #[trigger] r[i].pair@ != job.pair@ by {
                assert(r[i] == q[i]);
            }
        },
    }
}

/// A global recalculation over pairwise distinct active pairs never queues
/// two jobs for one pair.
pub proof fn law_global_recalc_distinct(
    active: Seq<String>,
    priority: Option<String>,
    settings: Seq<PairSetting>,
    strategy: OptimizationStrategy,
)
    requires
        distinct_names(active),
    ensures
        distinct_jobs(recalc_jobs(recalc_order(active, priority), settings, strategy)),
{
    let order = recalc_order(active, priority);
    let jobs = recalc_jobs(order, settings, strategy);
    assert forall|i: int, j: int| 0 <= i < j < jobs.len() implies #[trigger] jobs[i].pair@
        != #[trigger] jobs[j].pair@ by {
        assert(jobs[i].pair == order[i] && jobs[j].pair == order[j]);
        match priority {
            Some(v) => {
                lemma_name_index_bounds(active, v@, 0);
                let rest = match name_index(active, v@, 0) {
                    Some(p) => active.remove(p),
                    None => active,
                };
                match name_index(active, v@, 0) {
                    Some(p) => {
                        let ii = if i - 1 < p { i - 1 } else { i };
                        let jj = if j - 1 < p { j - 1 } else { j };
                        if i == 0 {
                            assert(order[j] == active[jj]);
                            assert(active[p]@ == v@);
                        } else {
                            assert(order[i] == active[ii] && order[j] == active[jj]);
                        }
                    },
                    None => {
                        if i == 0 {
                            assert(order[j] == active[j - 1]);
                        } else {
                            assert(order[i] == active[i - 1] && order[j] == active[j - 1]);
                        }
                    },
                }
            },
            None => {},
        }
    }
}

/// A job that carries its own price is analysed at that price, whatever
/// the live stream says: two price tables give it the same price. Only a
/// job without one takes the live price of its pair.
pub proof fn law_override_beats_live_price<S>(
    job: EngineJob,
    prices: PriceStreamManager<S>,
    other_prices: PriceStreamManager<S>,
)
    ensures
        job.price_override matches Some(p) ==> dispatch_price(job, prices) == Some(p),
        job.price_override is Some ==> dispatch_price(job, prices) == dispatch_price(job, other_prices),
        job.price_override is None ==> dispatch_price(job, prices) == prices.price_of(lowercase(job.pair@)),
{
}

} // verus!
