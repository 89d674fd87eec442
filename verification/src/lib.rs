//! Market-structure analysis core: price-horizon slicing, gap detection,
//! trade replay, engine scheduling and the bookkeeping around them.

mod config;
mod criteria;
mod diversity;
mod engine;
mod gaps;
mod horizon;
mod ids;
mod interval;
mod klines;
mod ledger;
mod limiter;
mod misc;
mod names;
mod pair;
mod price;
mod profile;
mod progress;
mod replay;
mod selection;
mod stream;
mod text;
mod tuner;

pub use config::{
    app_persistence, binance_config, debug_flags, demo_config, AdaptiveParameters,
    AppPersistenceConfig, BinanceApiConfig, BinanceConfig, CandleResolution, Cli, ClientDefaults,
    DebugVars, DemoConfig, DemoResources, DurationMs, OptimizationGoal, OptimizationStrategy,
    RestLimits, StationId, WsConfig, BINANCE_MAX_PAIRS, BINANCE_PAIRS_FILENAME, KLINE_DIRECTORY,
};
pub use criteria::{indices_within, is_index_order, ranked, ranks_before, DataSelector};
pub use diversity::{apply_diversity_filter, CandidateScore};
pub use engine::{
    EngineJob, JobMode, JobRequest, PairRuntime, PairSetting, PhPct, SniperEngine,
};
pub use gaps::{DisplaySegment, GapReason, RangeGapFinder};
pub use horizon::find_relevant_ranges;
pub use ids::opportunity_id;
pub use interval::{
    interval_to_string, kline_cache_filename, try_interval_from_ms, KlineInterval,
};
pub use klines::{
    convert_klines, has_duplicate_kline_open_time, process_new_klines, AllValidKlines4Pair, BNKline,
    BNKlineError, KlineBatchError, KlineField,
};
pub use ledger::{distinct_ids, evolve_ledger, evolved, evolved_all, id_index, prune_ledger, ClosedTrade, PairQuote};
pub use limiter::{minute_index, secs_until_next_minute, GlobalRateLimiter};
pub use misc::{
    calibration_bands, next_fetch_start, parse_i64, parse_pairs_file, parse_run_selector, tally_exit_reasons, truncate, DataSource,
    ExitTally, RunSelector, SelectionResults, SerdeVersion, WasmDemoData,
};
pub use names::{str_lt, unique_pair_names};
pub use pair::PairInterval;
pub use price::{OhlcvTimeSeries, Price, TradeDirection, TradeOutcome, Volume};
pub use profile::{accumulate_horizon_buckets, saturating_diff, HorizonBucket, NO_BUCKET};
pub use progress::{BootstrapState, ProgressEvent, SyncStatus, TuningState};
pub use replay::{
    backtest_expiry_ms, backtest_plan, candle_exit, replay_opportunity_forward, resolve_exit,
    tally_outcomes, truncate_ohlcv, BacktestStep, BacktestTally, ReplayResult, TradeOpportunity,
};
pub use selection::{
    clear_selection_if_opportunity_removed, ensure_valid_selection, persist_selection,
    restore_initial_selection, scroll_target_for, AutoScaleY, NavigationTarget, PersistedSelection,
    Selection, SortDirection,
};
pub use stream::{
    ascii_lower_char, ascii_lowered, is_ascii_text,
    build_combined_stream_url, next_reconnect_delay, ConnectionStatus, PriceStreamManager,
    BASE_INTERVAL_MS,
};
pub use tuner::{directional_bias, select_station_fit, TunerProbe};
pub use text::{push_decimal, push_signed_decimal, signed_to_string};
