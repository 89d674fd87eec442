use zone_sniper::{
    accumulate_horizon_buckets, opportunity_id, backtest_expiry_ms, backtest_plan, candle_exit,
    find_relevant_ranges, replay_opportunity_forward, resolve_exit, saturating_diff,
    tally_outcomes, truncate_ohlcv, BacktestStep, OhlcvTimeSeries, OptimizationStrategy,
    PairInterval, Price, ReplayResult, StationId, TradeDirection, TradeOpportunity, TradeOutcome,
    Volume, NO_BUCKET,
};

fn series(ts: &[i64], lows: &[u64], highs: &[u64], closes: &[u64]) -> OhlcvTimeSeries {
    let n = ts.len();
    OhlcvTimeSeries {
        pair_interval: PairInterval { name: "BTCUSDT".to_string(), interval_ms: 300_000 },
        first_kline_timestamp_ms: ts.first().copied().unwrap_or(0),
        timestamps: ts.to_vec(),
        open_prices: closes.iter().map(|&c| Price(c)).collect(),
        high_prices: highs.iter().map(|&h| Price(h)).collect(),
        low_prices: lows.iter().map(|&l| Price(l)).collect(),
        close_prices: closes.iter().map(|&c| Price(c)).collect(),
        base_asset_volumes: vec![Volume(1); n],
        quote_asset_volumes: vec![Volume(2); n],
        relative_volumes: vec![Volume(3); n],
    }
}

fn opportunity(direction: TradeDirection, target: u64, stop: u64) -> TradeOpportunity {
    TradeOpportunity {
        id: "op-1".to_string(),
        pair_name: "BTCUSDT".to_string(),
        direction,
        start_price: Price(100),
        target_price: Price(target),
        stop_price: Price(stop),
        created_at_ms: 0,
        max_duration_ms: 1_000,
        avg_duration_ms: 500,
        strategy: OptimizationStrategy::Balanced,
        station_id: StationId::Swing,
    }
}

#[test]
fn relevant_ranges_are_maximal_runs() {
    // candles 1,2 and 4 touch the band [50, 60]
    let ts = series(
        &[0, 1, 2, 3, 4],
        &[10, 55, 40, 70, 58],
        &[20, 65, 52, 80, 59],
        &[15, 60, 50, 75, 58],
    );
    let r = find_relevant_ranges(&ts, Price(50), Price(60));
    assert_eq!(r, vec![(1, 3), (4, 5)]);
}

#[test]
fn relevant_ranges_fall_back_to_last_candle() {
    let ts = series(&[0, 1, 2], &[1, 1, 1], &[2, 2, 2], &[1, 1, 1]);
    assert_eq!(find_relevant_ranges(&ts, Price(50), Price(60)), vec![(2, 3)]);
}

#[test]
fn horizon_buckets_are_cumulative() {
    // candle 0 in bucket 0, candle 1 in bucket 2, candle 2 beyond every bucket
    let (buckets, max) = accumulate_horizon_buckets(2, &vec![0, 2, NO_BUCKET], &vec![100, 50, 7]);
    assert_eq!(buckets.len(), 3);
    assert_eq!(buckets[0].candle_count, 1);
    assert_eq!((buckets[0].min_ts, buckets[0].max_ts, buckets[0].duration_ms), (100, 100, 0));
    assert_eq!(buckets[1].candle_count, 1);
    assert_eq!(buckets[2].candle_count, 2);
    assert_eq!((buckets[2].min_ts, buckets[2].max_ts, buckets[2].duration_ms), (50, 100, 50));
    assert_eq!(max, 2);
}

#[test]
fn horizon_buckets_without_candles_keep_sentinels() {
    let (buckets, max) = accumulate_horizon_buckets(1, &vec![], &vec![]);
    assert_eq!(buckets.len(), 2);
    assert_eq!(buckets[1].candle_count, 0);
    assert_eq!(buckets[1].min_ts, i64::MAX);
    assert_eq!(buckets[1].max_ts, i64::MIN);
    assert_eq!(max, 0);
}

#[test]
fn saturating_diff_clamps() {
    assert_eq!(saturating_diff(10, 3), 7);
    assert_eq!(saturating_diff(i64::MIN, i64::MAX), i64::MIN);
    assert_eq!(saturating_diff(i64::MAX, -1), i64::MAX);
}

#[test]
fn candle_exit_checks_stop_first() {
    // a long trade whose candle touches both levels is stopped out
    assert_eq!(
        candle_exit(TradeDirection::Long, Price(110), Price(90), Price(120), Price(80)),
        Some(TradeOutcome::StopHit)
    );
    assert_eq!(
        candle_exit(TradeDirection::Short, Price(90), Price(110), Price(100), Price(85)),
        Some(TradeOutcome::TargetHit)
    );
    assert_eq!(candle_exit(TradeDirection::Long, Price(110), Price(90), Price(105), Price(95)), None);
}

#[test]
fn replay_finds_first_exit() {
    let ts = series(&[0, 10, 20, 30], &[95, 96, 97, 80], &[105, 106, 111, 100], &[100, 101, 109, 90]);
    let op = opportunity(TradeDirection::Long, 110, 90);
    let r = replay_opportunity_forward(&ts, &op, 1, 1_000);
    assert_eq!(r, ReplayResult { result: TradeOutcome::TargetHit, exit_candle_idx: 2 });
    let (price, at) = resolve_exit(&ts, &op, r);
    assert_eq!((price, at), (Price(110), 20));
}

#[test]
fn replay_times_out_after_expiry() {
    let ts = series(&[0, 10, 20], &[95, 95, 70], &[105, 105, 130], &[100, 100, 100]);
    let op = opportunity(TradeDirection::Short, 80, 120);
    let r = replay_opportunity_forward(&ts, &op, 0, 15);
    assert_eq!(r, ReplayResult { result: TradeOutcome::Timeout, exit_candle_idx: 2 });
    assert_eq!(resolve_exit(&ts, &op, r), (Price(100), 20));
}

#[test]
fn replay_without_exit_ends_on_last_candle() {
    let ts = series(&[0, 10], &[95, 95], &[105, 105], &[100, 101]);
    let op = opportunity(TradeDirection::Long, 200, 10);
    let r = replay_opportunity_forward(&ts, &op, 0, 1_000);
    assert_eq!(r, ReplayResult { result: TradeOutcome::Timeout, exit_candle_idx: 1 });
    let past = ReplayResult { result: TradeOutcome::TargetHit, exit_candle_idx: 9 };
    assert_eq!(resolve_exit(&ts, &op, past), (Price(101), 10));
}

#[test]
fn expiry_ignores_negative_durations() {
    assert_eq!(backtest_expiry_ms(1_000, 500), 1_500);
    assert_eq!(backtest_expiry_ms(1_000, -5), 1_000);
}

#[test]
fn backtest_plan_skips_short_windows() {
    // 100 candles, 30 held out, stride 10: offsets 0, 10, 20
    let plan = backtest_plan(100, 30, 50, 10).unwrap();
    assert_eq!(
        plan,
        vec![
            BacktestStep { train_end: 70, current_idx: 69 },
            BacktestStep { train_end: 80, current_idx: 79 },
            BacktestStep { train_end: 90, current_idx: 89 },
        ]
    );
    assert_eq!(backtest_plan(100, 60, 50, 10), None);
    // more hold-out than data: the windows grow from zero
    let plan = backtest_plan(5, 8, 0, 3).unwrap();
    assert_eq!(
        plan,
        vec![
            BacktestStep { train_end: 0, current_idx: 0 },
            BacktestStep { train_end: 3, current_idx: 2 },
        ]
    );
}

#[test]
fn tally_counts_each_outcome_once() {
    let t = tally_outcomes(&vec![
        TradeOutcome::TargetHit,
        TradeOutcome::StopHit,
        TradeOutcome::Timeout,
        TradeOutcome::ManualClose,
        TradeOutcome::TargetHit,
    ]);
    assert_eq!((t.trades_resolved, t.wins, t.losses, t.timeouts), (5, 2, 1, 2));
    assert_eq!(t.wins + t.losses + t.timeouts, t.trades_resolved);
}

#[test]
fn truncated_series_keeps_prefix() {
    let ts = series(&[0, 1, 2], &[1, 2, 3], &[4, 5, 6], &[7, 8, 9]);
    let t = truncate_ohlcv(&ts, 2);
    assert_eq!(t.timestamps, vec![0, 1]);
    assert_eq!(t.close_prices, vec![Price(7), Price(8)]);
    assert_eq!(t.relative_volumes.len(), 2);
    assert_eq!(t.pair_interval.name, "BTCUSDT");
    let whole = truncate_ohlcv(&ts, 10);
    assert_eq!(whole.timestamps.len(), 3);
}

#[test]
fn opportunity_ids_are_name_based_uuids() {
    let id = opportunity_id("BTCUSDT", "scout_3", TradeDirection::Long);
    let expected = uuid::Uuid::new_v5(&uuid::Uuid::NAMESPACE_OID, b"BTCUSDT_scout_3_Long").to_string();
    assert_eq!(id, expected);
    assert_eq!(id.len(), 36);
    assert_ne!(id, "BTCUSDT_scout_3_Long");
    assert_ne!(id, opportunity_id("BTCUSDT", "scout_3", TradeDirection::Short));
    assert_eq!(TradeDirection::Short.label(), "Short");
}
