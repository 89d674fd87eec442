use zone_sniper::{
    build_combined_stream_url, next_reconnect_delay, prune_ledger, ConnectionStatus, EngineJob,
    JobMode, OptimizationStrategy, PairQuote, PairSetting, PhPct, Price, PriceStreamManager,
    SniperEngine, StationId, TradeDirection, TradeOpportunity, TradeOutcome,
};

fn job(pair: &str, price: Option<u64>) -> EngineJob {
    EngineJob {
        pair: pair.to_string(),
        price_override: price.map(Price),
        ph_pct: PhPct(15),
        strategy: OptimizationStrategy::Balanced,
        station_id: StationId::Swing,
        mode: JobMode::FullAnalysis,
    }
}

fn settings() -> Vec<PairSetting> {
    ["BTCUSDT", "ETHUSDT", "SOLUSDT"]
        .iter()
        .map(|p| PairSetting { pair: p.to_string(), ph_pct: PhPct(7), station_id: StationId::Day })
        .collect()
}

fn engine() -> SniperEngine<u32> {
    SniperEngine::new(vec!["BTCUSDT".to_string(), "ETHUSDT".to_string(), "BTCUSDT".to_string()])
}

fn queue_pairs(e: &SniperEngine<u32>) -> Vec<String> {
    e.queue.iter().map(|j| j.pair.clone()).collect()
}

#[test]
fn new_engine_tracks_each_pair_once() {
    let e = engine();
    assert_eq!(e.pair_names, vec!["BTCUSDT".to_string(), "ETHUSDT".to_string()]);
    assert_eq!(e.pair_states.len(), 2);
    assert!(!e.pair_states[0].is_calculating);
    assert_eq!(e.get_queue_len(), 0);
    assert_eq!(e.get_worker_status_msg(), None);
}

#[test]
fn enqueue_replaces_job_of_same_pair() {
    let mut e = engine();
    e.enqueue_or_replace(job("BTCUSDT", Some(1)));
    e.enqueue_or_replace(job("ETHUSDT", None));
    e.enqueue_or_replace(job("BTCUSDT", Some(2)));
    assert_eq!(queue_pairs(&e), vec!["ETHUSDT".to_string(), "BTCUSDT".to_string()]);
    assert_eq!(e.queue[1].price_override, Some(Price(2)));
    assert_eq!(e.get_worker_status_msg(), Some("Queued: 2".to_string()));
}

#[test]
fn global_recalc_puts_priority_first() {
    let mut e: SniperEngine<u32> =
        SniperEngine::new(vec!["BTCUSDT".to_string(), "ETHUSDT".to_string(), "SOLUSDT".to_string()]);
    e.enqueue_or_replace(job("BTCUSDT", Some(1)));
    e.trigger_global_recalc(Some("ETHUSDT".to_string()), &settings(), OptimizationStrategy::MaxROI);
    assert_eq!(
        queue_pairs(&e),
        vec!["ETHUSDT".to_string(), "BTCUSDT".to_string(), "SOLUSDT".to_string()]
    );
    assert!(e.queue.iter().all(|j| j.price_override.is_none()
        && j.strategy == OptimizationStrategy::MaxROI
        && j.station_id == StationId::Day
        && j.ph_pct == PhPct(7)));
}

#[test]
fn dispatch_marks_pair_and_drops_busy_jobs() {
    let mut e = engine();
    let mut prices: PriceStreamManager<()> = PriceStreamManager::new();
    prices.record_price("ETHUSDT", Price(300));
    e.enqueue_or_replace(job("ETHUSDT", None));
    e.enqueue_or_replace(job("BTCUSDT", Some(42)));
    let first = e.dispatch_next(&prices).unwrap();
    assert_eq!(first.pair_name, "ETHUSDT");
    assert_eq!(first.current_price, Some(Price(300)));
    assert_eq!(e.get_pair_status(&"ETHUSDT".to_string()), (true, None));
    assert_eq!(e.last_update_price(&"ETHUSDT".to_string()), Some(Price(300)));
    assert_eq!(e.get_worker_status_msg(), Some("Processing ETHUSDT".to_string()));
    // a second job for a pair still being analysed is dropped
    e.enqueue_or_replace(job("ETHUSDT", None));
    let second = e.dispatch_next(&prices).unwrap();
    assert_eq!(second.pair_name, "BTCUSDT");
    assert_eq!(second.current_price, Some(Price(42)));
    assert!(e.dispatch_next(&prices).is_none());
    assert_eq!(e.get_queue_len(), 0);
    assert!(e.dispatch_next(&prices).is_none());
}

#[test]
fn job_results_update_state() {
    let mut e = engine();
    let prices: PriceStreamManager<()> = PriceStreamManager::new();
    e.enqueue_or_replace(job("BTCUSDT", Some(5)));
    e.dispatch_next(&prices);
    e.handle_job_result(&"BTCUSDT".to_string(), Err("no data".to_string()));
    assert_eq!(e.get_pair_status(&"BTCUSDT".to_string()), (false, Some("no data".to_string())));
    e.handle_job_result(&"BTCUSDT".to_string(), Ok((7, Vec::new())));
    assert_eq!(e.pair_states[0].model, Some(7));
    assert_eq!(e.get_pair_status(&"BTCUSDT".to_string()), (false, None));
    assert_eq!(e.get_pair_status(&"DOGEUSDT".to_string()), (false, None));
}

#[test]
fn price_updates_trigger_recalculation() {
    let mut e = engine();
    let s = settings();
    let btc = "BTCUSDT".to_string();
    // first price is only remembered
    assert!(!e.on_price_update(&btc, Price(100), true, &s, OptimizationStrategy::Balanced));
    assert_eq!(e.last_update_price(&btc), Some(Price(100)));
    assert!(!e.on_price_update(&btc, Price(101), false, &s, OptimizationStrategy::Balanced));
    assert_eq!(e.last_update_price(&btc), Some(Price(100)));
    assert!(e.on_price_update(&btc, Price(120), true, &s, OptimizationStrategy::Balanced));
    assert_eq!(e.last_update_price(&btc), Some(Price(120)));
    assert_eq!(queue_pairs(&e), vec![btc.clone()]);
    assert!(!e.on_price_update(&"XRPUSDT".to_string(), Price(1), true, &s, OptimizationStrategy::Balanced));
}

#[test]
fn closed_candles_queue_configured_pairs() {
    let mut e = engine();
    let s = settings();
    assert!(e.on_candle_closed(&"SOLUSDT".to_string(), Price(9), &s, OptimizationStrategy::Balanced));
    assert_eq!(e.queue[0].price_override, Some(Price(9)));
    assert!(!e.on_candle_closed(&"XRPUSDT".to_string(), Price(9), &s, OptimizationStrategy::Balanced));
    e.invalidate_pair_and_recalc("SOLUSDT", None, PhPct(3), OptimizationStrategy::MaxAROI, StationId::Scalp, JobMode::ContextOnly);
    assert_eq!(e.get_queue_len(), 1);
    assert_eq!(e.queue[0].mode, JobMode::ContextOnly);
}

#[test]
fn recorded_price_is_read_back_in_any_case() {
    let mut m: PriceStreamManager<()> = PriceStreamManager::new();
    m.record_price("BTCUSDT", Price(5));
    assert_eq!(m.get_price("btcusdt"), Some(Price(5)));
    assert_eq!(m.get_price("BtcUsdt"), Some(Price(5)));
    m.record_price("btcusdt", Price(6));
    assert_eq!(m.get_price("BTCUSDT"), Some(Price(6)));
    assert_eq!(m.get_price("ETHUSDT"), None);
}

#[test]
fn suspended_stream_ignores_prices() {
    let mut m: PriceStreamManager<()> = PriceStreamManager::new();
    m.suspend();
    assert!(m.is_suspended());
    m.record_price("BTCUSDT", Price(5));
    assert_eq!(m.get_price("BTCUSDT"), None);
    m.resume();
    assert!(!m.is_suspended());
    m.set_candle_sender(());
    assert!(m.candle_sender().is_some());
}

#[test]
fn snapshot_stream_serves_fixed_prices() {
    let mut m: PriceStreamManager<()> = PriceStreamManager::from_snapshot(vec![
        ("BTCUSDT".to_string(), Price(1)),
        ("btcusdt".to_string(), Price(2)),
    ]);
    assert_eq!(m.get_price("BTCUSDT"), Some(Price(2)));
    assert!(m.is_suspended());
    m.resume();
    assert!(m.is_suspended());
    m.subscribe_all(vec!["ETHUSDT".to_string()]);
    assert!(m.subscribed_symbols().is_empty());
}

#[test]
fn subscriptions_and_health() {
    let mut m: PriceStreamManager<()> = PriceStreamManager::new();
    m.subscribe_all(vec!["BTCUSDT".to_string(), "EthUsdt".to_string()]);
    assert_eq!(m.subscribed_symbols(), &vec!["btcusdt".to_string(), "ethusdt".to_string()]);
    assert_eq!(m.connection_counts(), (0, 0));
    m.set_status_all(ConnectionStatus::Connecting);
    assert_eq!(m.connection_counts(), (0, 2));
    m.set_status_all(ConnectionStatus::Connected);
    assert_eq!(m.connection_counts(), (2, 2));
    m.apply_warmup(&vec![
        ("BTCUSDT".to_string(), Price(7)),
        ("XRPUSDT".to_string(), Price(8)),
        ("ETHUSDT".to_string(), Price(0)),
    ]);
    assert_eq!(m.get_price("btcusdt"), Some(Price(7)));
    assert_eq!(m.get_price("xrpusdt"), None);
    assert_eq!(m.get_price("ethusdt"), None);
}

#[test]
fn combined_stream_url_lists_kline_streams() {
    let url = build_combined_stream_url(&vec!["BTCUSDT".to_string(), "ETHUSDT".to_string()]);
    assert_eq!(
        url,
        "wss://stream.binance.com:9443/stream?streams=btcusdt@kline_5m/ethusdt@kline_5m"
    );
    assert_eq!(build_combined_stream_url(&vec![]), "wss://stream.binance.com:9443/stream?streams=");
}

#[test]
fn reconnect_delay_doubles_up_to_cap() {
    assert_eq!(next_reconnect_delay(1, 300), 2);
    assert_eq!(next_reconnect_delay(200, 300), 300);
    let mut d = 1;
    for _ in 0..20 {
        d = next_reconnect_delay(d, 300);
        assert!(d <= 300);
    }
    assert_eq!(d, 300);
}

fn ledger_op(id: &str, pair: &str, created: i64) -> TradeOpportunity {
    TradeOpportunity {
        id: id.to_string(),
        pair_name: pair.to_string(),
        direction: TradeDirection::Long,
        start_price: Price(100),
        target_price: Price(110),
        stop_price: Price(90),
        created_at_ms: created,
        max_duration_ms: 1_000,
        avg_duration_ms: 10,
        strategy: OptimizationStrategy::Balanced,
        station_id: StationId::Swing,
    }
}

#[test]
fn pruning_closes_finished_trades() {
    let mut ledger = vec![
        ledger_op("a", "BTCUSDT", 0),
        ledger_op("b", "ETHUSDT", 0),
        ledger_op("c", "SOLUSDT", 0),
        ledger_op("d", "XRPUSDT", 0),
    ];
    let quotes = vec![
        PairQuote { pair: "BTCUSDT".to_string(), high: Price(115), low: Price(95), close: Price(112) },
        PairQuote { pair: "ETHUSDT".to_string(), high: Price(105), low: Price(95), close: Price(100) },
        PairQuote { pair: "SOLUSDT".to_string(), high: Price(105), low: Price(85), close: Price(88) },
    ];
    let closed = prune_ledger(&mut ledger, &quotes, 500);
    assert_eq!(closed.len(), 2);
    assert_eq!(closed[0].trade_id, "a");
    assert_eq!(closed[0].exit_reason, TradeOutcome::TargetHit);
    assert_eq!(closed[0].exit_price, Price(110));
    assert_eq!(closed[0].planned_expiry_time, 1_000);
    assert_eq!(closed[1].trade_id, "c");
    assert_eq!(closed[1].exit_reason, TradeOutcome::StopHit);
    let kept: Vec<&str> = ledger.iter().map(|o| o.id.as_str()).collect();
    assert_eq!(kept, vec!["b", "d"]);
    assert_eq!(closed.len() + ledger.len(), 4);
    // once expired, a trade times out at the latest close
    let closed = prune_ledger(&mut ledger, &quotes, 5_000);
    assert_eq!(closed.len(), 1);
    assert_eq!(closed[0].exit_reason, TradeOutcome::Timeout);
    assert_eq!(closed[0].exit_price, Price(100));
    assert_eq!(ledger.len(), 1);
}

#[test]
fn job_results_evolve_into_the_ledger() {
    let mut e = engine();
    assert!(e.engine_ledger.is_empty());
    e.handle_job_result(&"BTCUSDT".to_string(), Ok((1, vec![ledger_op("a", "BTCUSDT", 0), ledger_op("b", "BTCUSDT", 5)])));
    assert_eq!(e.engine_ledger.iter().map(|o| o.id.clone()).collect::<Vec<_>>(), vec!["a", "b"]);
    // Same id: replaced in place; new id: appended.
    e.handle_job_result(&"ETHUSDT".to_string(), Ok((2, vec![ledger_op("a", "BTCUSDT", 9), ledger_op("c", "ETHUSDT", 1)])));
    assert_eq!(e.engine_ledger.iter().map(|o| o.id.clone()).collect::<Vec<_>>(), vec!["a", "b", "c"]);
    assert_eq!(e.engine_ledger[0].created_at_ms, 9);
    // Errors and unknown pairs leave the ledger alone.
    e.handle_job_result(&"BTCUSDT".to_string(), Err("x".to_string()));
    e.handle_job_result(&"DOGEUSDT".to_string(), Ok((3, vec![ledger_op("d", "DOGEUSDT", 1)])));
    assert_eq!(e.engine_ledger.len(), 3);
}

#[test]
fn engine_prunes_its_ledger() {
    let mut e = engine();
    e.handle_job_result(&"BTCUSDT".to_string(), Ok((1, vec![ledger_op("a", "BTCUSDT", 0), ledger_op("b", "ETHUSDT", 0)])));
    let quotes = vec![PairQuote { pair: "BTCUSDT".to_string(), high: Price(120), low: Price(95), close: Price(115) }];
    let closed = e.tick_prune_ledger(&quotes, 10);
    assert_eq!(closed.len(), 1);
    assert_eq!(closed[0].trade_id, "a");
    assert_eq!(closed[0].exit_reason, TradeOutcome::TargetHit);
    assert_eq!(e.engine_ledger.len(), 1);
    assert_eq!(e.engine_ledger[0].id, "b");
}

#[test]
fn warmup_is_ignored_while_suspended() {
    let mut m: PriceStreamManager<()> = PriceStreamManager::new();
    m.subscribe_all(vec!["BTCUSDT".to_string()]);
    m.suspend();
    m.apply_warmup(&vec![("BTCUSDT".to_string(), Price(7))]);
    assert_eq!(m.get_price("btcusdt"), None);
    m.resume();
    m.apply_warmup(&vec![("BTCUSDT".to_string(), Price(7))]);
    assert_eq!(m.get_price("btcusdt"), Some(Price(7)));
}

#[test]
fn connection_health_fractions() {
    let mut m: PriceStreamManager<()> = PriceStreamManager::new();
    assert_eq!(m.connection_health(), (0, 1));
    m.subscribe_all(vec!["BTCUSDT".to_string(), "ETHUSDT".to_string()]);
    m.set_status_all(ConnectionStatus::Connecting);
    assert_eq!(m.connection_health(), (0, 2));
    m.set_status_all(ConnectionStatus::Connected);
    assert_eq!(m.connection_health(), (2, 2));
    let demo: PriceStreamManager<()> = PriceStreamManager::from_snapshot(vec![("BTCUSDT".to_string(), Price(3))]);
    assert_eq!(demo.connection_health(), (1, 1));
    assert!(demo.is_suspended());
}

#[test]
fn price_lookup_ignores_case() {
    let m: PriceStreamManager<()> = PriceStreamManager::from_snapshot(vec![("BtcUsdt".to_string(), Price(3))]);
    assert_eq!(m.get_price("BTCUSDT"), Some(Price(3)));
    assert_eq!(m.get_price("btcusdt"), Some(Price(3)));
    assert_eq!(m.get_price("BtcUsdt"), Some(Price(3)));
}
