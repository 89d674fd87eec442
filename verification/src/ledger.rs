use vstd::prelude::*;
use crate::config::{OptimizationStrategy, StationId};
use crate::price::{Price, TradeDirection, TradeOutcome};
use crate::replay::{exit_condition, TradeOpportunity};

verus! {

/// The latest candle of one pair: its range and close.
#[derive(Debug, Clone)]
pub struct PairQuote {
    pub pair: String,
    pub high: Price,
    pub low: Price,
    pub close: Price,
}

/// A trade taken off the ledger, as it is recorded.
#[derive(Debug, Clone)]
pub struct ClosedTrade {
    pub trade_id: String,
    pub pair_name: String,
    pub direction: TradeDirection,
    pub entry_price: Price,
    pub exit_price: Price,
    pub target_price: Price,
    pub stop_price: Price,
    pub exit_reason: TradeOutcome,
    pub entry_time: i64,
    pub exit_time: i64,
    pub planned_expiry_time: i64,
    pub strategy: OptimizationStrategy,
    pub station_id: StationId,
}

/// Index of the first quote at or after `from` for `pair`.
pub open spec fn quote_index(quotes: Seq<PairQuote>, pair: Seq<char>, from: int) -> Option<int>
    decreases quotes.len() - from,
{
    if from < 0 || from >= quotes.len() {
        None
    } else if quotes[from].pair@ == pair {
        Some(from)
    } else {
        quote_index(quotes, pair, from + 1)
    }
}

/// Price at which a trade with outcome `o` leaves: its target, its stop, or
/// the latest close.
pub open spec fn exit_price_for(op: TradeOpportunity, quote: PairQuote, o: TradeOutcome) -> Price {
    match o {
        TradeOutcome::TargetHit => op.target_price,
        TradeOutcome::StopHit => op.stop_price,
        _ => quote.close,
    }
}

/// The record of `op` if the latest candle of its pair ends it at `now_ms`;
/// `None` when it stays open or no candle of its pair is known.
pub open spec fn closed_trade(op: TradeOpportunity, quotes: Seq<PairQuote>, now_ms: i64) -> Option<ClosedTrade> {
    match quote_index(quotes, op.pair_name@, 0) {
        Some(q) => match exit_condition(op, quotes[q].high, quotes[q].low, now_ms) {
            Some(o) => Some(
                ClosedTrade {
                    trade_id: op.id,
                    pair_name: op.pair_name,
                    direction: op.direction,
                    entry_price: op.start_price,
                    exit_price: exit_price_for(op, quotes[q], o),
                    target_price: op.target_price,
                    stop_price: op.stop_price,
                    exit_reason: o,
                    entry_time: op.created_at_ms,
                    exit_time: now_ms,
                    planned_expiry_time: (op.created_at_ms + op.max_duration_ms) as i64,
                    strategy: op.strategy,
                    station_id: op.station_id,
                },
            ),
            None => None,
        },
        None => None,
    }
}

/// `op` stays on the ledger.
pub open spec fn stays_open(op: TradeOpportunity, quotes: Seq<PairQuote>, now_ms: i64) -> Option<TradeOpportunity> {
    if closed_trade(op, quotes, now_ms) is None {
        Some(op)
    } else {
        None
    }
}

/// Every opportunity's planned expiry fits in an `i64`.
pub open spec fn expiries_fit(ledger: Seq<TradeOpportunity>) -> bool {
    forall|i: int|
        0 <= i < ledger.len() ==> i64::MIN <= #[trigger] ledger[i].created_at_ms + ledger[i].max_duration_ms
            <= i64::MAX
}

/// Pruning splits the ledger: every opportunity is either closed (and
/// recorded) or kept, never both.
pub proof fn law_prune_partitions(ledger: Seq<TradeOpportunity>, quotes: Seq<PairQuote>, now_ms: i64)
    ensures
        ledger.filter_map(|op: TradeOpportunity| closed_trade(op, quotes, now_ms)).len()
            + ledger.filter_map(|op: TradeOpportunity| stays_open(op, quotes, now_ms)).len() == ledger.len(),
    decreases ledger.len(),
{
    let f = |op: TradeOpportunity| closed_trade(op, quotes, now_ms);
    let g = |op: TradeOpportunity| stays_open(op, quotes, now_ms);
    if ledger.len() > 0 {
        law_prune_partitions(ledger.drop_last(), quotes, now_ms);
        assert(ledger.filter_map(f) == match f(ledger.last()) {
            Some(s) => ledger.drop_last().filter_map(f) + seq![s],
            None => ledger.drop_last().filter_map(f),
        });
        assert(ledger.filter_map(g) == match g(ledger.last()) {
            Some(s) => ledger.drop_last().filter_map(g) + seq![s],
            None => ledger.drop_last().filter_map(g),
        });
    }
}

/// No two opportunities on the ledger share an id.
pub open spec fn distinct_ids(ledger: Seq<TradeOpportunity>) -> bool {
    forall|a: int, b: int| 0 <= a < b < ledger.len() ==> #[trigger] ledger[a].id@ != #[trigger] ledger[b].id@
}

/// Index of the first opportunity at or after `from` with id `id`.
pub open spec fn id_index(ledger: Seq<TradeOpportunity>, id: Seq<char>, from: int) -> Option<int>
    decreases ledger.len() - from,
{
    if from < 0 || from >= ledger.len() {
        None
    } else if ledger[from].id@ == id {
        Some(from)
    } else {
        id_index(ledger, id, from + 1)
    }
}

/// The ledger after `op` evolves into it: it replaces the opportunity with
/// its id, in place, or else joins at the end.
pub open spec fn evolved(ledger: Seq<TradeOpportunity>, op: TradeOpportunity) -> Seq<TradeOpportunity> {
    match id_index(ledger, op.id@, 0) {
        Some(i) => ledger.update(i, op),
        None => ledger.push(op),
    }
}

/// The ledger after the first `n` of `ops` evolve into it, in order.
pub open spec fn evolved_all(ledger: Seq<TradeOpportunity>, ops: Seq<TradeOpportunity>, n: int) -> Seq<TradeOpportunity>
    decreases n,
{
    if n <= 0 {
        ledger
    } else {
        evolved(evolved_all(ledger, ops, n - 1), ops[n - 1])
    }
}

proof fn lemma_id_index_bounds(ledger: Seq<TradeOpportunity>, id: Seq<char>, from: int)
    requires
        from >= 0,
    ensures
        id_index(ledger, id, from) matches Some(i) ==> from <= i < ledger.len() && ledger[i].id@ == id,
        id_index(ledger, id, from) is None ==> forall|k: int| from <= k < ledger.len() ==> #[trigger] ledger[k].id@ != id,
    decreases ledger.len() - from,
{
    if from < ledger.len() {
        lemma_id_index_bounds(ledger, id, from + 1);
    }
}

proof fn lemma_evolved_distinct(ledger: Seq<TradeOpportunity>, op: TradeOpportunity)
    requires
        distinct_ids(ledger),
    ensures
        distinct_ids(evolved(ledger, op)),
{
    lemma_id_index_bounds(ledger, op.id@, 0);
    let t = evolved(ledger, op);
    match id_index(ledger, op.id@, 0) {
        Some(i) => {
            assert forall|a: int, b: int| 0 <= a < b < t.len() implies #[trigger] t[a].id@ != #[trigger] t[b].id@ by {
                assert(t[a].id@ == ledger[a].id@ && t[b].id@ == ledger[b].id@);
            }
        },
        None => {
            assert forall|a: int, b: int| 0 <= a < b < t.len() implies #[trigger] t[a].id@ != #[trigger] t[b].id@ by {
                if b == ledger.len() {
                    assert(t[a] == ledger[a]);
                } else {
                    assert(t[a] == ledger[a] && t[b] == ledger[b]);
                }
            }
        },
    }
}

fn find_id(ledger: &Vec<TradeOpportunity>, id: &String) -> (r: Option<usize>)
    ensures
        r matches Some(q) ==> q < ledger@.len() && id_index(ledger@, id@, 0) == Some(q as int),
        r is None ==> id_index(ledger@, id@, 0) is None,
{
    let mut j: usize = 0;
    while j < ledger.len()
        invariant
            j <= ledger@.len(),
            id_index(ledger@, id@, 0) == id_index(ledger@, id@, j as int),
        decreases ledger@.len() - j,
    {
        if ledger[j].id == *id {
            return Some(j);
        }
        j = j + 1;
    }
    None
}

/// Evolves every opportunity of `ops` into the ledger, in order: each one
/// replaces the opportunity with its id, or else joins at the end. Ids stay
/// distinct.
pub fn evolve_ledger(ledger: &mut Vec<TradeOpportunity>, ops: &Vec<TradeOpportunity>)
    ensures
        final(ledger)@ == evolved_all(old(ledger)@, ops@, ops@.len() as int),
        distinct_ids(old(ledger)@) ==> distinct_ids(final(ledger)@),
        forall|k: int| 0 <= k < ops@.len() ==> #[trigger] id_index(final(ledger)@, ops@[k].id@, 0) is Some,
{
    let ghost start = ledger@;
    let mut i: usize = 0;
    while i < ops.len()
        invariant
            i <= ops@.len(),
            ledger@ == evolved_all(start, ops@, i as int),
            distinct_ids(start) ==> distinct_ids(ledger@),
            forall|k: int| 0 <= k < i ==> #[trigger] id_index(ledger@, ops@[k].id@, 0) is Some,
        decreases ops@.len() - i,
    {
        let op = ops[i].duplicate();
        let ghost before = ledger@;
        match find_id(ledger, &op.id) {
            Some(q) => {
                ledger.set(q, op);
            },
            None => {
                ledger.push(op);
            },
        }
        proof {
            assert(ledger@ == evolved(before, ops@[i as int]));
            if distinct_ids(start) {
                lemma_evolved_distinct(before, ops@[i as int]);
            }
            lemma_id_index_bounds(before, ops@[i as int].id@, 0);
            assert forall|k: int| 0 <= k <= i implies #[trigger] id_index(ledger@, ops@[k].id@, 0) is Some by {
                let key = ops@[k].id@;
                lemma_id_index_bounds(before, key, 0);
                lemma_id_index_bounds(ledger@, key, 0);
                if k == i {
                    if id_index(ledger@, key, 0) is None {
                        match id_index(before, key, 0) {
                            Some(q) => assert(ledger@[q].id@ == key),
                            None => assert(ledger@[before.len() as int].id@ == key),
                        }
                    }
                } else {
                    let q = id_index(before, key, 0).unwrap();
                    if id_index(ledger@, key, 0) is None {
                        match id_index(before, ops@[i as int].id@, 0) {
                            Some(p) => {
                                if p == q {
                                    assert(ledger@[q].id@ == ops@[i as int].id@);
                                } else {
                                    assert(ledger@[q] == before[q]);
                                }
                            },
                            None => assert(ledger@[q] == before[q]),
                        }
                    }
                }
            }
        }
        i = i + 1;
    }
}

fn find_quote(quotes: &Vec<PairQuote>, pair: &String) -> (r: Option<usize>)
    ensures
        r matches Some(q) ==> q < quotes@.len() && quote_index(quotes@, pair@, 0) == Some(q as int),
        r is None ==> quote_index(quotes@, pair@, 0) is None,
{
    let mut j: usize = 0;
    while j < quotes.len()
        invariant
            j <= quotes@.len(),
            quote_index(quotes@, pair@, 0) == quote_index(quotes@, pair@, j as int),
        decreases quotes@.len() - j,
    {
        if quotes[j].pair == *pair {
            return Some(j);
        }
        j = j + 1;
    }
    None
}

/// Takes off the ledger every opportunity that the latest candle of its pair
/// ends at `now_ms` (see [`TradeOpportunity::check_exit_condition`]) and
/// returns their records, in ledger order; the others stay, in order.
pub fn prune_ledger(ledger: &mut Vec<TradeOpportunity>, quotes: &Vec<PairQuote>, now_ms: i64) -> (closed: Vec<ClosedTrade>)
    requires
        expiries_fit(old(ledger)@),
    ensures
        closed@ == old(ledger)@.filter_map(|op: TradeOpportunity| closed_trade(op, quotes@, now_ms)),
        final(ledger)@ == old(ledger)@.filter_map(
            |op: TradeOpportunity| stays_open(op, quotes@, now_ms),
        ),
        distinct_ids(old(ledger)@) ==> distinct_ids(final(ledger)@),
{
    let ghost f = |op: TradeOpportunity| closed_trade(op, quotes@, now_ms);
    let ghost g = |op: TradeOpportunity| stays_open(op, quotes@, now_ms);
    let ghost ops = ledger@;
    let mut closed: Vec<ClosedTrade> = Vec::new();
    let mut kept: Vec<TradeOpportunity> = Vec::new();
    let ghost mut origin: Seq<int> = Seq::empty();
    let mut i: usize = 0;
    while i < ledger.len()
        invariant
            ops == ledger@,
            f == (|op: TradeOpportunity| closed_trade(op, quotes@, now_ms)),
            g == (|op: TradeOpportunity| stays_open(op, quotes@, now_ms)),
            expiries_fit(ops),
            i <= ops.len(),
            closed@ == ops.take(i as int).filter_map(f),
            kept@ == ops.take(i as int).filter_map(g),
            origin.len() == kept@.len(),
            forall|k: int| 0 <= k < origin.len() ==> 0 <= #[trigger] origin[k] < i && kept@[k] == ops[origin[k]],
            forall|a: int, b: int| 0 <= a < b < origin.len() ==> #[trigger] origin[a] < #[trigger] origin[b],
            distinct_ids(ops) ==> distinct_ids(kept@),
        decreases ops.len() - i,
    {
        proof {
            ops.lemma_filter_map_take_succ(f, i as int);
            ops.lemma_filter_map_take_succ(g, i as int);
        }
        let op = &ledger[i];
        let mut record: Option<ClosedTrade> = None;
        if let Some(q) = find_quote(quotes, &op.pair_name) {
            let quote = &quotes[q];
            if let Some(o) = op.check_exit_condition(quote.high, quote.low, now_ms) {
                let price = match o {
                    TradeOutcome::TargetHit => op.target_price,
                    TradeOutcome::StopHit => op.stop_price,
                    _ => quote.close,
                };
                assert(i64::MIN <= op.created_at_ms + op.max_duration_ms <= i64::MAX);
                let rec = ClosedTrade {
                    trade_id: op.id.clone(),
                    pair_name: op.pair_name.clone(),
                    direction: op.direction,
                    entry_price: op.start_price,
                    exit_price: price,
                    target_price: op.target_price,
                    stop_price: op.stop_price,
                    exit_reason: o,
                    entry_time: op.created_at_ms,
                    exit_time: now_ms,
                    planned_expiry_time: op.created_at_ms + op.max_duration_ms,
                    strategy: op.strategy,
                    station_id: op.station_id,
                };
                record = Some(rec);
            }
        }
        assert(record == closed_trade(ops[i as int], quotes@, now_ms));
        assert(f(ops[i as int]) == record);
        let ghost closed_before = closed@;
        let ghost kept_before = kept@;
        match record {
            Some(rec) => {
                closed.push(rec);
                assert(g(ops[i as int]) is None);
                assert(closed@ =~= closed_before + seq![rec]);
                assert(kept@ =~= kept_before + Seq::<TradeOpportunity>::empty());
            },
            None => {
                kept.push(op.duplicate());
                proof {
                    let o_before = origin;
                    origin = origin.push(i as int);
                    if distinct_ids(ops) {
                        assert forall|a: int, b: int| 0 <= a < b < kept@.len() implies #[trigger] kept@[a].id@
                            != #[trigger] kept@[b].id@ by {
                            assert(kept@[a] == ops[origin[a]]);
                            assert(kept@[b] == ops[origin[b]]);
                            if b == kept@.len() - 1 {
                                assert(origin[a] == o_before[a]);
                            } else {
                                assert(origin[a] < origin[b]);
                            }
                        }
                    }
                }
                assert(g(ops[i as int]) == Some(ops[i as int]));
                assert(closed@ =~= closed_before + Seq::<ClosedTrade>::empty());
                assert(kept@ =~= kept_before + seq![ops[i as int]]);
            },
        }
        i = i + 1;
    }
    proof {
        assert(ops.take(ops.len() as int) =~= ops);
    }
    *ledger = kept;
    closed
}

/// A trade taken off the ledger is recorded at the level it reached: its
/// stop price when stopped out, its target price when the target was hit,
/// and only otherwise (timed out) at the latest close of its pair. The
/// record keeps the trade's id, pair, direction, levels and times, and is
/// closed at `now_ms`.
pub proof fn law_closed_trade_exit_price(op: TradeOpportunity, quotes: Seq<PairQuote>, now_ms: i64)
    ensures
        closed_trade(op, quotes, now_ms) matches Some(t) ==> {
            &&& t.exit_reason == TradeOutcome::StopHit ==> t.exit_price == op.stop_price
            &&& t.exit_reason == TradeOutcome::TargetHit ==> t.exit_price == op.target_price
            &&& t.exit_reason != TradeOutcome::StopHit && t.exit_reason != TradeOutcome::TargetHit ==> exists|q: int|
                0 <= q < quotes.len() && quotes[q].pair@ == op.pair_name@ && t.exit_price == #[trigger] quotes[q].close
            &&& t.trade_id == op.id && t.pair_name == op.pair_name && t.direction == op.direction
            &&& t.entry_price == op.start_price && t.target_price == op.target_price && t.stop_price == op.stop_price
            &&& t.entry_time == op.created_at_ms && t.exit_time == now_ms
        },
{
    match quote_index(quotes, op.pair_name@, 0) {
        Some(q) => {
            lemma_quote_index_bounds(quotes, op.pair_name@, 0);
        },
        None => {},
    }
}

proof fn lemma_quote_index_bounds(quotes: Seq<PairQuote>, pair: Seq<char>, from: int)
    requires
        from >= 0,
    ensures
        quote_index(quotes, pair, from) matches Some(i) ==> from <= i < quotes.len() && quotes[i].pair@ == pair,
    decreases quotes.len() - from,
{
    if from < quotes.len() {
        lemma_quote_index_bounds(quotes, pair, from + 1);
    }
}

/// Every record that pruning returns (`closed`, as [`prune_ledger`] gives
/// it for `ledger`) is priced at the level it names: a stop-out at its own
/// stop price, a target hit at its own target price.
pub proof fn law_pruned_records_exit_at_their_level(
    ledger: Seq<TradeOpportunity>,
    quotes: Seq<PairQuote>,
    now_ms: i64,
    closed: Seq<ClosedTrade>,
)
    requires
        closed == ledger.filter_map(|op: TradeOpportunity| closed_trade(op, quotes, now_ms)),
    ensures
        forall|k: int|
            0 <= k < closed.len() ==> (#[trigger] closed[k]).exit_reason == TradeOutcome::StopHit
                ==> closed[k].exit_price == closed[k].stop_price,
        forall|k: int|
            0 <= k < closed.len() ==> (#[trigger] closed[k]).exit_reason == TradeOutcome::TargetHit
                ==> closed[k].exit_price == closed[k].target_price,
    decreases ledger.len(),
{
    let f = |op: TradeOpportunity| closed_trade(op, quotes, now_ms);
    if ledger.len() > 0 {
        let rest = ledger.drop_last().filter_map(f);
        law_pruned_records_exit_at_their_level(ledger.drop_last(), quotes, now_ms, rest);
        law_closed_trade_exit_price(ledger.last(), quotes, now_ms);
        assert(closed == match f(ledger.last()) {
            Some(s) => rest + seq![s],
            None => rest,
        });
        assert forall|k: int| 0 <= k < closed.len() implies {
            &&& (#[trigger] closed[k]).exit_reason == TradeOutcome::StopHit ==> closed[k].exit_price == closed[k].stop_price
            &&& closed[k].exit_reason == TradeOutcome::TargetHit ==> closed[k].exit_price == closed[k].target_price
        } by {
            if k < rest.len() {
                assert(closed[k] == rest[k]);
            }
        }
    }
}

} // verus!
