use vstd::prelude::*;

verus! {

/// Candle width offered for the plot.
#[derive(Debug, Clone, Copy, PartialEq, Eq, Structural)]
pub enum CandleResolution {
    M5,
    M15,
    H1,
    H4,
    D1,
    D3,
    W1,
    M1,
}

/// Width of a candle of resolution `r`, in seconds (a month counts thirty
/// days).
pub open spec fn resolution_secs(r: CandleResolution) -> u64 {
    match r {
        CandleResolution::M5 => 300,
        CandleResolution::M15 => 900,
        CandleResolution::H1 => 3600,
        CandleResolution::H4 => 14400,
        CandleResolution::D1 => 86400,
        CandleResolution::D3 => 259200,
        CandleResolution::W1 => 604800,
        CandleResolution::M1 => 2592000,
    }
}

/// Short label of a resolution.
pub open spec fn resolution_label(r: CandleResolution) -> Seq<char> {
    match r {
        CandleResolution::M5 => "5m"@,
        CandleResolution::M15 => "15m"@,
        CandleResolution::H1 => "1h"@,
        CandleResolution::H4 => "4h"@,
        CandleResolution::D1 => "1D"@,
        CandleResolution::D3 => "3D"@,
        CandleResolution::W1 => "1W"@,
        CandleResolution::M1 => "1M"@,
    }
}

impl Default for CandleResolution {
    fn default() -> (r: Self)
        ensures
            r == CandleResolution::D1,
    {
        CandleResolution::D1
    }
}

impl CandleResolution {
    /// Width of one candle, in whole seconds.
    pub fn duration(&self) -> (r: u64)
        ensures
            r == resolution_secs(*self),
    {
        match self {
            CandleResolution::M5 => 300,
            CandleResolution::M15 => 900,
            CandleResolution::H1 => 3600,
            CandleResolution::H4 => 14400,
            CandleResolution::D1 => 86400,
            CandleResolution::D3 => 259200,
            CandleResolution::W1 => 604800,
            CandleResolution::M1 => 2592000,
        }
    }

    /// How many candles of width `base_secs` seconds make one candle of this
    /// resolution (rounded down).
    pub fn steps_from(&self, base_secs: u64) -> (r: u64)
        requires
            base_secs > 0,
        ensures
            r == resolution_secs(*self) / base_secs,
    {
        self.duration() / base_secs
    }

    /// Short label, such as `5m` or `1D`.
    pub fn label(&self) -> (r: &'static str)
        ensures
            r@ == resolution_label(*self),
    {
        match self {
            CandleResolution::M5 => "5m",
            CandleResolution::M15 => "15m",
            CandleResolution::H1 => "1h",
            CandleResolution::H4 => "4h",
            CandleResolution::D1 => "1D",
            CandleResolution::D3 => "3D",
            CandleResolution::W1 => "1W",
            CandleResolution::M1 => "1M",
        }
    }
}

/// A span of time in milliseconds.
#[derive(Debug, Clone, Copy, PartialEq, Eq, Structural)]
pub struct DurationMs(i64);

impl DurationMs {
    /// The span stored in the value.
    pub closed spec fn ms(self) -> i64 {
        self.0
    }

    /// A span of `ms` milliseconds.
    pub fn new(ms: i64) -> (r: Self)
        ensures
            r.ms() == ms,
    {
        DurationMs(ms)
    }

    /// The span in milliseconds.
    pub fn value(self) -> (r: i64)
        ensures
            r == self.ms(),
    {
        self.0
    }
}

impl Default for DurationMs {
    fn default() -> (r: Self)
        ensures
            r.ms() == 0,
    {
        DurationMs(0)
    }
}

/// What the search for trades optimises.
#[derive(Debug, Clone, Copy, PartialEq, Eq, Structural)]
pub enum OptimizationStrategy {
    MaxROI,
    MaxAROI,
    Balanced,
}

impl Default for OptimizationStrategy {
    fn default() -> (r: Self)
        ensures
            r == OptimizationStrategy::Balanced,
    {
        OptimizationStrategy::Balanced
    }
}

/// Display name of a strategy or goal: `Max ROI`, `Max AROI` or
/// `Balanced`.
pub open spec fn goal_label(max_roi: bool, max_aroi: bool) -> Seq<char> {
    if max_roi {
        "Max ROI"@
    } else if max_aroi {
        "Max AROI"@
    } else {
        "Balanced"@
    }
}

impl OptimizationStrategy {
    /// Display name.
    pub fn label(&self) -> (r: &'static str)
        ensures
            r@ == goal_label(*self == OptimizationStrategy::MaxROI, *self == OptimizationStrategy::MaxAROI),
    {
        match self {
            OptimizationStrategy::MaxROI => "Max ROI",
            OptimizationStrategy::MaxAROI => "Max AROI",
            OptimizationStrategy::Balanced => "Balanced",
        }
    }
}

/// The goal a user picks for the analysis.
#[derive(Debug, Clone, Copy, PartialEq, Eq, Structural)]
pub enum OptimizationGoal {
    MaxROI,
    MaxAROI,
    Balanced,
}

impl Default for OptimizationGoal {
    fn default() -> (r: Self)
        ensures
            r == OptimizationGoal::Balanced,
    {
        OptimizationGoal::Balanced
    }
}

impl OptimizationGoal {
    /// Display name.
    pub fn label(&self) -> (r: &'static str)
        ensures
            r@ == goal_label(*self == OptimizationGoal::MaxROI, *self == OptimizationGoal::MaxAROI),
    {
        match self {
            OptimizationGoal::MaxROI => "Max ROI",
            OptimizationGoal::MaxAROI => "Max AROI",
            OptimizationGoal::Balanced => "Balanced",
        }
    }
}

/// Time-frame preset of the horizon tuner.
#[derive(Debug, Clone, Copy, PartialEq, Eq, Structural)]
pub enum StationId {
    Scalp,
    Day,
    Swing,
    Macro,
}

impl Default for StationId {
    fn default() -> (r: Self)
        ensures
            r == StationId::Swing,
    {
        StationId::Swing
    }
}

/// Glyph of a station.
pub open spec fn station_glyph(s: StationId) -> Seq<char> {
    match s {
        StationId::Scalp => "\u{f00d5}"@,
        StationId::Day => "\u{f522}"@,
        StationId::Swing => "\u{f095b}"@,
        StationId::Macro => "\u{eda7}"@,
    }
}

/// Display name of a station.
pub open spec fn station_name(s: StationId) -> Seq<char> {
    match s {
        StationId::Scalp => "\u{f00d5} SCALP"@,
        StationId::Day => "\u{f522} DAY"@,
        StationId::Swing => "\u{f095b} SWING"@,
        StationId::Macro => "\u{eda7} INVEST"@,
    }
}

impl StationId {
    /// The station's glyph.
    pub fn short_name(self) -> (r: &'static str)
        ensures
            r@ == station_glyph(self),
    {
        match self {
            StationId::Scalp => "\u{f00d5}",
            StationId::Day => "\u{f522}",
            StationId::Swing => "\u{f095b}",
            StationId::Macro => "\u{eda7}",
        }
    }

    /// The station's display name.
    pub fn name(self) -> (r: &'static str)
        ensures
            r@ == station_name(self),
    {
        match self {
            StationId::Scalp => "\u{f00d5} SCALP",
            StationId::Day => "\u{f522} DAY",
            StationId::Swing => "\u{f095b} SWING",
            StationId::Macro => "\u{eda7} INVEST",
        }
    }
}

/// REST limits of the exchange.
#[derive(Debug, Clone, Copy, PartialEq, Eq, Structural)]
pub struct RestLimits {
    pub klines_limit: i32,
    pub weight_limit_minute: u32,
    pub kline_call_weight: u32,
    pub concurrent_sync_tasks: usize,
}

/// Web-socket settings of the exchange.
#[derive(Debug, Clone, Copy)]
pub struct WsConfig {
    pub combined_base_url: &'static str,
    pub max_reconnect_delay_sec: u64,
    pub initial_reconnect_delay_sec: u64,
}

/// Defaults of the REST client.
#[derive(Debug, Clone, Copy, PartialEq, Eq, Structural)]
pub struct ClientDefaults {
    pub timeout_ms: u64,
    pub retries: u32,
    pub backoff_ms: u64,
}

/// Everything the exchange connection is configured with.
#[derive(Debug, Clone, Copy)]
pub struct BinanceConfig {
    pub limits: RestLimits,
    pub ws: WsConfig,
    pub client: ClientDefaults,
}

/// File that lists the pairs to load.
pub const BINANCE_PAIRS_FILENAME: &'static str = "pairs.txt";

/// Most pairs loaded from the pairs file.
pub const BINANCE_MAX_PAIRS: usize = 20;

/// The exchange configuration.
pub fn binance_config() -> (r: BinanceConfig)
    ensures
        r.limits == (RestLimits {
            klines_limit: 1000,
            weight_limit_minute: 6000,
            kline_call_weight: 2,
            concurrent_sync_tasks: 10,
        }),
        r.ws.combined_base_url@ == "wss://stream.binance.com:9443/stream?streams="@,
        r.ws.max_reconnect_delay_sec == 300,
        r.ws.initial_reconnect_delay_sec == 1,
        r.client == (ClientDefaults { timeout_ms: 5000, retries: 5, backoff_ms: 5000 }),
{
    BinanceConfig {
        limits: RestLimits {
            klines_limit: 1000,
            weight_limit_minute: 6000,
            kline_call_weight: 2,
            concurrent_sync_tasks: 10,
        },
        ws: WsConfig {
            combined_base_url: "wss://stream.binance.com:9443/stream?streams=",
            max_reconnect_delay_sec: 300,
            initial_reconnect_delay_sec: 1,
        },
        client: ClientDefaults { timeout_ms: 5000, retries: 5, backoff_ms: 5000 },
    }
}

/// Settings of one REST client.
#[derive(Debug, Clone, Copy, PartialEq, Eq, Structural)]
pub struct BinanceApiConfig {
    pub timeout_ms: u64,
    pub retries: u32,
    pub backoff_ms: u64,
}

impl Default for BinanceApiConfig {
    /// The client defaults of [`binance_config`].
    fn default() -> (r: Self)
        ensures
            r == (BinanceApiConfig { timeout_ms: 5000, retries: 5, backoff_ms: 5000 }),
    {
        let c = binance_config().client;
        BinanceApiConfig { timeout_ms: c.timeout_ms, retries: c.retries, backoff_ms: c.backoff_ms }
    }
}

/// Switches for diagnostic logging.
#[derive(Debug, Clone, Copy, PartialEq, Eq, Structural)]
pub struct DebugVars {
    pub log_candle_update: bool,
    pub log_engine_core: bool,
    pub log_ledger: bool,
    pub log_pairs: bool,
    pub log_pathfinder: bool,
    pub log_ph_overrides: bool,
    pub log_price_stream_updates: bool,
    pub log_selection: bool,
    pub log_simd: bool,
    pub log_station_overrides: bool,
    pub log_strategy_selection: bool,
    pub log_tuner: bool,
    pub log_zones: bool,
    pub wipe_ledger_on_startup: bool,
    pub log_startup_prices: bool,
    pub log_results_repo: bool,
    pub max_pairs_load: usize,
}

/// The diagnostic switches in force: only start-up prices and result
/// storage are logged, and at most twenty pairs are loaded.
pub fn debug_flags() -> (r: DebugVars)
    ensures
        r == (DebugVars {
            log_candle_update: false,
            log_engine_core: false,
            log_ledger: false,
            log_pairs: false,
            log_pathfinder: false,
            log_ph_overrides: false,
            log_price_stream_updates: false,
            log_selection: false,
            log_simd: false,
            log_station_overrides: false,
            log_strategy_selection: false,
            log_tuner: false,
            log_zones: false,
            wipe_ledger_on_startup: false,
            log_startup_prices: true,
            log_results_repo: true,
            max_pairs_load: 20,
        }),
{
    DebugVars {
        log_candle_update: false,
        log_engine_core: false,
        log_ledger: false,
        log_pairs: false,
        log_pathfinder: false,
        log_ph_overrides: false,
        log_price_stream_updates: false,
        log_selection: false,
        log_simd: false,
        log_station_overrides: false,
        log_strategy_selection: false,
        log_tuner: false,
        log_zones: false,
        wipe_ledger_on_startup: false,
        log_startup_prices: true,
        log_results_repo: true,
        max_pairs_load: 20,
    }
}

/// Pairs bundled with the demo.
#[derive(Debug, Clone)]
pub struct DemoResources {
    pub pairs: Vec<&'static str>,
}

/// Settings of the demo build.
#[derive(Debug, Clone)]
pub struct DemoConfig {
    pub max_pairs: usize,
    pub resources: DemoResources,
}

/// The demo configuration: at most ten pairs, seven of them bundled.
pub fn demo_config() -> (r: DemoConfig)
    ensures
        r.max_pairs == 10,
        r.resources.pairs@ == seq![
            "BTCUSDT",
            "ETHUSDT",
            "SOLUSDT",
            "BNBUSDT",
            "PAXGUSDT",
            "DOGEUSDT",
            "USDCUSDT",
        ],
{
    DemoConfig {
        max_pairs: 10,
        resources: DemoResources {
            pairs: vec![
                "BTCUSDT",
                "ETHUSDT",
                "SOLUSDT",
                "BNBUSDT",
                "PAXGUSDT",
                "DOGEUSDT",
                "USDCUSDT",
            ],
        },
    }
}

/// Where the application keeps its own state.
#[derive(Debug, Clone, Copy)]
pub struct AppPersistenceConfig {
    pub state_path: &'static str,
    pub ledger_path: &'static str,
}

/// The application's state files.
pub fn app_persistence() -> (r: AppPersistenceConfig)
    ensures
        r.state_path@ == ".states.json"@,
        r.ledger_path@ == ".ledger.bin"@,
{
    AppPersistenceConfig { state_path: ".states.json", ledger_path: ".ledger.bin" }
}

/// Directory of the candle cache.
pub const KLINE_DIRECTORY: &'static str = "kline_data";

/// Command-line options of the application.
#[derive(Debug, Clone, Copy, PartialEq, Eq, Structural)]
pub struct Cli {
    pub prefer_api: bool,
}

/// Marker for the price-horizon-dependent tuning formulas.
#[derive(Debug, Clone, Copy)]
pub struct AdaptiveParameters;

} // verus!
