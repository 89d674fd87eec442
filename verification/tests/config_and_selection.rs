use zone_sniper::{
    apply_diversity_filter, binance_config, calibration_bands, directional_bias, clear_selection_if_opportunity_removed,
    convert_klines, debug_flags, demo_config, ensure_valid_selection,
    has_duplicate_kline_open_time, interval_to_string, kline_cache_filename, minute_index,
    next_fetch_start, parse_pairs_file, parse_run_selector, persist_selection, process_new_klines,
    restore_initial_selection, scroll_target_for, secs_until_next_minute, select_station_fit,
    signed_to_string, str_lt, tally_exit_reasons, truncate, try_interval_from_ms, unique_pair_names,
    AutoScaleY,
    BNKline, BNKlineError, BinanceApiConfig, BootstrapState, CandidateScore, CandleResolution,
    DataSource, DisplaySegment, DurationMs, GapReason, GlobalRateLimiter, KlineBatchError,
    KlineField, KlineInterval, NavigationTarget, OhlcvTimeSeries, OptimizationGoal,
    OptimizationStrategy, PairInterval, PersistedSelection, PhPct, Price, ProgressEvent,
    RangeGapFinder, RunSelector, Selection, SelectionResults, SerdeVersion, SortDirection,
    StationId, SyncStatus, TradeDirection, TradeOpportunity, TunerProbe, TuningState, Volume,
    WasmDemoData,
};

#[test]
fn candle_resolutions() {
    assert_eq!(CandleResolution::default(), CandleResolution::D1);
    assert_eq!(CandleResolution::H4.duration(), 14_400);
    assert_eq!(CandleResolution::D1.steps_from(300), 288);
    assert_eq!(CandleResolution::M15.steps_from(3_600), 0);
    assert_eq!(CandleResolution::W1.label(), "1W");
}

#[test]
fn enums_and_defaults() {
    assert_eq!(OptimizationStrategy::default(), OptimizationStrategy::Balanced);
    assert_eq!(OptimizationStrategy::MaxAROI.label(), "Max AROI");
    assert_eq!(OptimizationGoal::default(), OptimizationGoal::Balanced);
    assert_eq!(OptimizationGoal::MaxROI.label(), "Max ROI");
    assert_eq!(StationId::default(), StationId::Swing);
    assert_eq!(StationId::Scalp.short_name(), "\u{f00d5}");
    assert_eq!(StationId::Macro.name(), "\u{eda7} INVEST");
    assert_eq!(DurationMs::new(42).value(), 42);
    assert_eq!(DurationMs::default().value(), 0);
    assert!(AutoScaleY::default().value());
    assert!(!AutoScaleY(false).value());
    assert_eq!(SortDirection::default(), SortDirection::Descending);
    assert_eq!(SortDirection::Ascending.toggle(), SortDirection::Descending);
    assert_eq!(SortDirection::Ascending.toggle().toggle(), SortDirection::Ascending);
}

#[test]
fn configuration_values() {
    let b = binance_config();
    assert_eq!(b.limits.klines_limit, 1000);
    assert_eq!(b.limits.weight_limit_minute, 6000);
    assert_eq!(b.ws.combined_base_url, "wss://stream.binance.com:9443/stream?streams=");
    let api = BinanceApiConfig::default();
    assert_eq!((api.timeout_ms, api.retries, api.backoff_ms), (5000, 5, 5000));
    assert_eq!(demo_config().resources.pairs[4], "PAXGUSDT");
    assert_eq!(debug_flags().max_pairs_load, 20);
    assert_eq!(SerdeVersion { interval_ms: 300_000 }.signature(), "Local Cache");
    assert_eq!(DataSource::new(3u8).score_type, 3);
}

#[test]
fn intervals_and_file_names() {
    assert_eq!(try_interval_from_ms(300_000), Ok(KlineInterval::Interval5m));
    assert_eq!(try_interval_from_ms(2_592_000_000), Ok(KlineInterval::Interval1M));
    assert_eq!(try_interval_from_ms(7), Err("Unsupported interval: 7ms".to_string()));
    assert_eq!(try_interval_from_ms(-12), Err("Unsupported interval: -12ms".to_string()));
    assert_eq!(interval_to_string(3_600_000), "1h");
    assert_eq!(interval_to_string(1234), "1234ms");
    assert_eq!(kline_cache_filename(300_000), "kd_5m_v4.bin");
    assert_eq!(signed_to_string(i64::MIN), i64::MIN.to_string());
    assert_eq!(signed_to_string(0), "0");
}

#[test]
fn quote_and_base_split_a_symbol() {
    let quotes = vec!["USDT".to_string(), "BTC".to_string()];
    assert_eq!(PairInterval::get_quote("ETHBTC", &quotes), Some("BTC"));
    assert_eq!(PairInterval::get_base("ETHBTC", &quotes), Some("ETH"));
    let base = PairInterval::get_base("SOLUSDT", &quotes).unwrap();
    let quote = PairInterval::get_quote("SOLUSDT", &quotes).unwrap();
    assert_eq!(format!("{}{}", base, quote), "SOLUSDT");
    assert_eq!(PairInterval::get_quote("ETHEUR", &quotes), None);
    assert_eq!(PairInterval::get_base("ETHEUR", &quotes), None);
    let p = PairInterval { name: "BTCUSDT".to_string(), interval_ms: 60_000 };
    assert_eq!(p.name(), "BTCUSDT");
    assert_eq!(p.bn_name(), "BTCUSDT");
}

fn op(id: &str, pair: &str) -> TradeOpportunity {
    TradeOpportunity {
        id: id.to_string(),
        pair_name: pair.to_string(),
        direction: TradeDirection::Short,
        start_price: Price(100),
        target_price: Price(90),
        stop_price: Price(110),
        created_at_ms: 0,
        max_duration_ms: 10,
        avg_duration_ms: 5,
        strategy: OptimizationStrategy::Balanced,
        station_id: StationId::Swing,
    }
}

#[test]
fn selection_round_trip_and_fallbacks() {
    let valid = vec!["BTCUSDT".to_string(), "ETHUSDT".to_string()];
    let ledger = vec![op("x1", "ETHUSDT")];
    let sel = Selection::Opportunity(op("x1", "ETHUSDT"));
    let saved = persist_selection(&sel);
    let back = restore_initial_selection(&saved, &valid, Some(&ledger));
    assert_eq!(back.opportunity().map(|o| o.id.clone()), Some("x1".to_string()));
    assert_eq!(sel.pair(), Some("ETHUSDT"));
    assert_eq!(sel.pair_owned(), Some("ETHUSDT".to_string()));
    // an expired opportunity falls back to its pair
    let gone = restore_initial_selection(&saved, &valid, Some(&vec![]));
    assert_eq!(gone.pair(), Some("ETHUSDT"));
    assert!(gone.opportunity().is_none());
    // a pair no longer valid falls back to the first valid pair
    let stale = PersistedSelection::Pair("DOGEUSDT".to_string());
    assert_eq!(restore_initial_selection(&stale, &valid, None).pair(), Some("BTCUSDT"));
    let nothing = restore_initial_selection(&PersistedSelection::Nothing, &vec![], None);
    assert!(nothing.pair().is_none());
}

#[test]
fn selection_healing() {
    let valid = vec!["BTCUSDT".to_string()];
    let mut sel = Selection::Pair("XRPUSDT".to_string());
    ensure_valid_selection(&mut sel, &valid);
    assert_eq!(sel.pair(), Some("BTCUSDT"));
    ensure_valid_selection(&mut sel, &valid);
    assert_eq!(sel.pair(), Some("BTCUSDT"));
    let mut none = Selection::Nothing;
    ensure_valid_selection(&mut none, &vec![]);
    assert!(none.pair().is_none());
    let mut sel = Selection::Opportunity(op("id9", "BTCUSDT"));
    clear_selection_if_opportunity_removed(&mut sel, &vec!["other".to_string()]);
    assert!(sel.opportunity().is_some());
    match scroll_target_for(&sel) {
        Some(NavigationTarget::Opportunity(id)) => assert_eq!(id, "id9"),
        _ => panic!("expected an opportunity target"),
    }
    clear_selection_if_opportunity_removed(&mut sel, &vec!["id9".to_string()]);
    assert_eq!(sel.pair(), Some("BTCUSDT"));
    assert!(sel.opportunity().is_none());
}

#[test]
fn bootstrap_progress_counts() {
    let mut b = BootstrapState::new();
    b.update_loading_progress(vec![
        ProgressEvent { index: 0, pair: "A".to_string(), status: SyncStatus::Pending },
        ProgressEvent { index: 1, pair: "B".to_string(), status: SyncStatus::Pending },
        ProgressEvent { index: 2, pair: "C".to_string(), status: SyncStatus::Syncing },
    ]);
    assert_eq!((b.total_pairs, b.completed, b.failed), (3, 0, 0));
    b.update_loading_progress(vec![
        ProgressEvent { index: 0, pair: "A".to_string(), status: SyncStatus::Completed(12) },
        ProgressEvent { index: 2, pair: "C".to_string(), status: SyncStatus::Failed("x".to_string()) },
    ]);
    assert_eq!((b.total_pairs, b.completed, b.failed), (3, 1, 1));
}

#[test]
fn tuning_takes_chunks_from_the_end() {
    let mut t = TuningState::new(vec!["A".into(), "B".into(), "C".into()]);
    let first = t.take_chunk(2);
    assert_eq!(first, vec!["C".to_string(), "B".to_string()]);
    assert_eq!((t.completed, t.total), (2, 3));
    assert!(!t.is_done());
    let rest = t.take_chunk(5);
    assert_eq!(rest, vec!["A".to_string()]);
    assert!(t.is_done());
    assert_eq!(t.completed, t.total);
}

#[test]
fn rate_limiter_refills_each_minute() {
    let mut l = GlobalRateLimiter::new(10, 5);
    assert!(l.try_acquire(6, 5));
    assert!(!l.try_acquire(6, 5));
    assert!(l.try_acquire(4, 5));
    assert!(!l.try_acquire(1, 5));
    assert!(l.try_acquire(10, 6));
    assert_eq!(secs_until_next_minute(125), 55);
    assert_eq!(secs_until_next_minute(120), 60);
    assert_eq!(minute_index(125), 2);
}

fn row(fields: Vec<KlineField>) -> Vec<KlineField> {
    fields
}

#[test]
fn kline_rows_decode() {
    let good = row(vec![
        KlineField::Integer(1000),
        KlineField::Decimal(Some(10)),
        KlineField::Decimal(Some(12)),
        KlineField::Decimal(Some(9)),
        KlineField::Decimal(None),
        KlineField::Decimal(Some(5)),
        KlineField::Integer(1999),
        KlineField::Decimal(Some(50)),
    ]);
    let k = BNKline::try_from(good.clone()).unwrap();
    assert_eq!(k.open_timestamp_ms, 1000);
    assert_eq!(k.high_price, Some(Price(12)));
    assert_eq!(k.close_price, None);
    assert_eq!(k.base_asset_volume, Some(Volume(5)));
    assert_eq!(k.quote_asset_volume, Some(Volume(50)));
    match BNKline::try_from(vec![]) {
        Err(BNKlineError::InvalidLength) => {}
        other => panic!("unexpected {:?}", other),
    }
    match BNKline::try_from(vec![KlineField::Other]) {
        Err(e @ BNKlineError::InvalidType(_)) => assert_eq!(e.to_text(), "Invalid type: open_time"),
        other => panic!("unexpected {:?}", other),
    }
    assert_eq!(BNKlineError::InvalidLength.to_text(), "Invalid length");
    assert_eq!(
        BNKlineError::ConnectionFailed("timeout".to_string()).to_text(),
        "Binance API connection failed: timeout."
    );
    assert!(convert_klines(vec![good.clone(), vec![]]).is_err());
    assert_eq!(convert_klines(vec![good]).unwrap().len(), 1);
}

fn simple_row(t: i64) -> Vec<KlineField> {
    vec![KlineField::Integer(t), KlineField::Decimal(Some(1))]
}

#[test]
fn batches_are_prepended_without_repeated_candle() {
    let mut all: Vec<BNKline> = Vec::new();
    let r = process_new_klines(vec![simple_row(30), simple_row(40), simple_row(50)], 3, &mut all).unwrap();
    assert_eq!(r, (Some(30), false));
    let times: Vec<i64> = all.iter().map(|k| k.open_timestamp_ms).collect();
    assert_eq!(times, vec![30, 40]);
    let r = process_new_klines(vec![simple_row(10), simple_row(20), simple_row(30)], 1000, &mut all).unwrap();
    assert_eq!(r, (Some(10), true));
    let times: Vec<i64> = all.iter().map(|k| k.open_timestamp_ms).collect();
    assert_eq!(times, vec![10, 20, 30, 40]);
    assert_eq!(process_new_klines(vec![simple_row(5)], 1000, &mut all).unwrap(), (Some(5), true));
    assert_eq!(all.len(), 4);
    assert!(matches!(process_new_klines(vec![], 1000, &mut all), Err(KlineBatchError::EmptyBatch)));
    assert!(matches!(
        process_new_klines(vec![vec![KlineField::Other]], 1000, &mut all),
        Err(KlineBatchError::Convert(BNKlineError::InvalidType(_)))
    ));
    assert!(!has_duplicate_kline_open_time(&all));
    all.push(all[0]);
    assert!(has_duplicate_kline_open_time(&all));
}

fn gap_series() -> OhlcvTimeSeries {
    let ts = vec![0, 300, 600, 5_000, 5_300, 5_600, 5_900];
    let lows = vec![50, 50, 50, 200, 50, 50, 1];
    let highs = vec![60, 60, 60, 210, 60, 60, 2];
    let n = ts.len();
    OhlcvTimeSeries {
        pair_interval: PairInterval { name: "BTCUSDT".to_string(), interval_ms: 300 },
        first_kline_timestamp_ms: 0,
        timestamps: ts,
        open_prices: vec![Price(55); n],
        high_prices: highs.into_iter().map(Price).collect(),
        low_prices: lows.into_iter().map(Price).collect(),
        close_prices: vec![Price(55); n],
        base_asset_volumes: vec![Volume(0); n],
        quote_asset_volumes: vec![Volume(0); n],
        relative_volumes: vec![Volume(0); n],
    }
}

#[test]
fn gaps_split_segments_and_explain_them() {
    let ts = gap_series();
    let segs = RangeGapFinder::analyze(&ts, &vec![(0, 3), (4, 6)], (Price(40), Price(100)), 330);
    let expected_first = DisplaySegment {
        start_idx: 0,
        end_idx: 3,
        start_ts: 0,
        end_ts: 600,
        candle_count: 3,
        gap_reason: GapReason::StartOfData,
        gap_duration_ms: 0,
    };
    assert_eq!(segs[0], expected_first);
    assert_eq!(segs.len(), 2);
    assert_eq!((segs[1].start_idx, segs[1].end_idx), (4, 6));
    assert_eq!(segs[1].gap_reason, GapReason::PriceAbovePH);
    assert_eq!(segs[1].gap_duration_ms, 5_300 - 600);
    // one range with a time jump inside it: missing exchange data
    let segs = RangeGapFinder::analyze(&ts, &vec![(1, 5)], (Price(40), Price(100)), 330);
    assert_eq!(segs.len(), 2);
    assert_eq!((segs[0].start_idx, segs[0].end_idx), (1, 3));
    assert_eq!(segs[1].gap_reason, GapReason::MissingSourceData);
    assert!(RangeGapFinder::analyze(&ts, &vec![], (Price(0), Price(1)), 1).is_empty());
    // a candle wholly below the band
    let segs = RangeGapFinder::analyze(&ts, &vec![(4, 6), (7, 9), (0, 1)], (Price(40), Price(100)), 10_000);
    assert_eq!(segs.len(), 2);
    assert_eq!(segs[1].gap_reason, GapReason::PriceBelowPH);
    let mixed = RangeGapFinder::analyze(&ts, &vec![(0, 1), (2, 3)], (Price(40), Price(100)), 10_000);
    assert_eq!(mixed[1].gap_reason, GapReason::PriceMixed);
}

#[test]
fn station_fit_prefers_window_then_distance() {
    let probes = vec![
        TunerProbe { ph: PhPct(1), score: 5, in_window: true, distance: 9 },
        TunerProbe { ph: PhPct(2), score: 7, in_window: true, distance: 9 },
        TunerProbe { ph: PhPct(3), score: 7, in_window: true, distance: 9 },
        TunerProbe { ph: PhPct(4), score: 99, in_window: false, distance: 0 },
    ];
    assert_eq!(select_station_fit(&probes), Some(PhPct(3)));
    let outside = vec![
        TunerProbe { ph: PhPct(1), score: 5, in_window: false, distance: 4 },
        TunerProbe { ph: PhPct(2), score: 7, in_window: false, distance: 2 },
        TunerProbe { ph: PhPct(3), score: 7, in_window: false, distance: 2 },
    ];
    assert_eq!(select_station_fit(&outside), Some(PhPct(2)));
    assert_eq!(select_station_fit(&vec![]), None);
}

#[test]
fn regional_championship() {
    let c = vec![
        CandidateScore { region: 0, score: 10, quality: 1 },
        CandidateScore { region: 0, score: 12, quality: 5 },
        CandidateScore { region: 1, score: 3, quality: 9 },
        CandidateScore { region: 2, score: 11, quality: 5 },
        CandidateScore { region: 2, score: 11, quality: 7 },
    ];
    // winners: region 0 -> 1, region 1 -> 2 (fails the qualifier), region 2 -> 3 (first of equals)
    assert_eq!(apply_diversity_filter(&c, 3, 8, 5), vec![1, 3]);
    assert_eq!(apply_diversity_filter(&c, 3, 0, 5), vec![2, 1, 3]);
    assert_eq!(apply_diversity_filter(&c, 3, 0, 2), vec![2, 1]);
    assert!(apply_diversity_filter(&vec![], 3, 0, 5).is_empty());
}

#[test]
fn pairs_file_parsing() {
    let content = "  btcusdt \n# comment\n\nethusdt\r\nsolusdt";
    assert_eq!(
        parse_pairs_file(content),
        vec!["BTCUSDT".to_string(), "ETHUSDT".to_string(), "SOLUSDT".to_string()]
    );
    let many: String = (0..30).map(|i| format!("p{}usdt\n", i)).collect();
    let parsed = parse_pairs_file(&many);
    assert_eq!(parsed.len(), 20);
    assert_eq!(parsed[19], "P19USDT");
}

#[test]
fn analysis_helpers() {
    assert_eq!(truncate("hello", 5), "hello");
    assert_eq!(truncate("hello world", 5), "hell\u{2026}");
    assert_eq!(truncate("", 0), "");
    assert_eq!(parse_run_selector("  ALL "), Ok(RunSelector::All));
    assert_eq!(parse_run_selector("Latest"), Ok(RunSelector::Latest));
    assert_eq!(parse_run_selector("42"), Ok(RunSelector::Id(42)));
    assert_eq!(
        parse_run_selector("x"),
        Err("--run-id must be a positive integer, 'latest', or 'all' (got 'x')".to_string())
    );
    let t = tally_exit_reasons(&vec![
        "TargetHit".to_string(),
        "StopHit".to_string(),
        "Timeout".to_string(),
        "ManualClose".to_string(),
        "Other".to_string(),
    ]);
    assert_eq!((t.trade_count, t.win_count, t.loss_count, t.timeout_count), (5, 1, 1, 2));
    assert_eq!(next_fetch_start(Some(99)), Some(100));
    assert_eq!(next_fetch_start(None), None);
    let r = SelectionResults { indices: vec![3, 1, 4] };
    assert_eq!(r.to_text(), "Indices: [3, 1, 4]");
    assert_eq!(SelectionResults { indices: vec![] }.to_text(), "Indices: []");
}

#[test]
fn demo_pair_limit() {
    let mut v: Vec<OhlcvTimeSeries> = vec![gap_series(), gap_series(), gap_series()];
    WasmDemoData::enforce_pair_limit(&mut v, 2);
    assert_eq!(v.len(), 2);
    WasmDemoData::enforce_pair_limit(&mut v, 10);
    assert_eq!(v.len(), 2);
}

#[test]
fn unique_names_are_sorted_and_distinct() {
    let mut v = vec![gap_series(), gap_series(), gap_series()];
    v[0].pair_interval.name = "SOLUSDT".to_string();
    v[2].pair_interval.name = "ETHUSDT".to_string();
    let names = unique_pair_names(&v);
    assert_eq!(names, vec!["BTCUSDT".to_string(), "ETHUSDT".to_string(), "SOLUSDT".to_string()]);
    let again = vec![gap_series(), gap_series()];
    assert_eq!(unique_pair_names(&again), vec!["BTCUSDT".to_string()]);
    assert!(str_lt("AB", "ABC"));
    assert!(str_lt("ABC", "ABD"));
    assert!(!str_lt("ABD", "ABC"));
    assert!(!str_lt("ABC", "ABC"));
    assert!(str_lt("Z", "a"));
}

#[test]
fn scouts_follow_a_strong_consensus() {
    let closes = vec![Price(10), Price(20), Price(30), Price(5)];
    assert_eq!(directional_bias(&closes, &vec![0, 1], 1), (true, false));
    assert_eq!(directional_bias(&closes, &vec![2], 5), (false, true));
    assert_eq!(directional_bias(&closes, &vec![0, 2], 1), (true, true));
    assert_eq!(directional_bias(&closes, &vec![], 1), (true, true));
    // no movement casts no vote
    let flat = vec![Price(7), Price(7)];
    assert_eq!(directional_bias(&flat, &vec![0, 1], 1), (true, true));
}

#[test]
fn calibration_band_tallies() {
    let (totals, wins) = calibration_bands(&vec![(0, true), (0, false), (9, true), (3, false)]);
    assert_eq!(totals, vec![2, 0, 0, 1, 0, 0, 0, 0, 0, 1]);
    assert_eq!(wins, vec![1, 0, 0, 0, 0, 0, 0, 0, 0, 1]);
    let (t, w) = calibration_bands(&vec![]);
    assert_eq!((t.iter().sum::<usize>(), w.iter().sum::<usize>()), (0, 0));
}
