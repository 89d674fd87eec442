use vstd::prelude::*;
use crate::pair::PairInterval;

verus! {

/// A non-negative price, held as an order key: for any two prices `a` and
/// `b`, `a.0 <= b.0` exactly when price `a` is at most price `b`.
///
/// The library only ever compares prices, so the key is all it needs; the
/// numeric value itself is kept by the caller.
#[derive(Debug, Clone, Copy, PartialEq, Eq, Structural)]
pub struct Price(pub u64);

impl Price {
    /// `self` limited to the interval `[min, max]`: `min` when below it,
    /// `max` when above it, otherwise `self`.
    pub fn clamp(self, min: Price, max: Price) -> (r: Price)
        ensures
            r == (if self.0 < min.0 {
                min
            } else if self.0 > max.0 {
                max
            } else {
                self
            }),
    {
        if self.0 < min.0 {
            min
        } else if self.0 > max.0 {
            max
        } else {
            self
        }
    }
}

/// A non-negative traded quantity, held as an order key in the same way as
/// [`Price`].
#[derive(Debug, Clone, Copy, PartialEq, Eq, Structural)]
pub struct Volume(pub u64);

/// Which way a trade profits.
#[derive(Debug, Clone, Copy, PartialEq, Eq, Structural)]
pub enum TradeDirection {
    Long,
    Short,
}

/// How a trade ended.
#[derive(Debug, Clone, Copy, PartialEq, Eq, Structural)]
pub enum TradeOutcome {
    TargetHit,
    StopHit,
    Timeout,
    ManualClose,
}

/// Candle data of one pair at one interval, column by column: entry `i` of
/// every column describes candle `i`.
#[derive(Debug, Clone)]
pub struct OhlcvTimeSeries {
    pub pair_interval: PairInterval,
    pub first_kline_timestamp_ms: i64,
    pub timestamps: Vec<i64>,
    pub open_prices: Vec<Price>,
    pub high_prices: Vec<Price>,
    pub low_prices: Vec<Price>,
    pub close_prices: Vec<Price>,
    pub base_asset_volumes: Vec<Volume>,
    pub quote_asset_volumes: Vec<Volume>,
    pub relative_volumes: Vec<Volume>,
}

impl OhlcvTimeSeries {
    /// Every column has one entry per candle.
    pub open spec fn wf(&self) -> bool {
        &&& self.open_prices@.len() == self.timestamps@.len()
        &&& self.high_prices@.len() == self.timestamps@.len()
        &&& self.low_prices@.len() == self.timestamps@.len()
        &&& self.close_prices@.len() == self.timestamps@.len()
        &&& self.base_asset_volumes@.len() == self.timestamps@.len()
        &&& self.quote_asset_volumes@.len() == self.timestamps@.len()
        &&& self.relative_volumes@.len() == self.timestamps@.len()
    }

    /// Number of candles.
    pub fn klines(&self) -> (n: usize)
        ensures
            n == self.timestamps@.len(),
    {
        self.timestamps.len()
    }
}

} // verus!
