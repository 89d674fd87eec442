use vstd::prelude::*;
use crate::text::{concat_str, push_signed_decimal, signed_decimal};

verus! {

/// A candle interval offered by the exchange.
#[derive(Debug, Clone, Copy, PartialEq, Eq, Structural)]
pub enum KlineInterval {
    Interval1s,
    Interval1m,
    Interval3m,
    Interval5m,
    Interval15m,
    Interval30m,
    Interval1h,
    Interval2h,
    Interval4h,
    Interval6h,
    Interval8h,
    Interval12h,
    Interval1d,
    Interval3d,
    Interval1w,
    Interval1M,
}

/// The interval that lasts exactly `ms` milliseconds, if the exchange offers
/// one (a month counts thirty days).
pub open spec fn interval_of_ms(ms: i64) -> Option<KlineInterval> {
    if ms == 1000 {
        Some(KlineInterval::Interval1s)
    } else if ms == 60_000 {
        Some(KlineInterval::Interval1m)
    } else if ms == 180_000 {
        Some(KlineInterval::Interval3m)
    } else if ms == 300_000 {
        Some(KlineInterval::Interval5m)
    } else if ms == 900_000 {
        Some(KlineInterval::Interval15m)
    } else if ms == 1_800_000 {
        Some(KlineInterval::Interval30m)
    } else if ms == 3_600_000 {
        Some(KlineInterval::Interval1h)
    } else if ms == 7_200_000 {
        Some(KlineInterval::Interval2h)
    } else if ms == 14_400_000 {
        Some(KlineInterval::Interval4h)
    } else if ms == 21_600_000 {
        Some(KlineInterval::Interval6h)
    } else if ms == 28_800_000 {
        Some(KlineInterval::Interval8h)
    } else if ms == 43_200_000 {
        Some(KlineInterval::Interval12h)
    } else if ms == 86_400_000 {
        Some(KlineInterval::Interval1d)
    } else if ms == 259_200_000 {
        Some(KlineInterval::Interval3d)
    } else if ms == 604_800_000 {
        Some(KlineInterval::Interval1w)
    } else if ms == 2_592_000_000 {
        Some(KlineInterval::Interval1M)
    } else {
        None
    }
}

/// The exchange's name of an interval, such as `5m`.
pub open spec fn interval_label(i: KlineInterval) -> Seq<char> {
    match i {
        KlineInterval::Interval1s => "1s"@,
        KlineInterval::Interval1m => "1m"@,
        KlineInterval::Interval3m => "3m"@,
        KlineInterval::Interval5m => "5m"@,
        KlineInterval::Interval15m => "15m"@,
        KlineInterval::Interval30m => "30m"@,
        KlineInterval::Interval1h => "1h"@,
        KlineInterval::Interval2h => "2h"@,
        KlineInterval::Interval4h => "4h"@,
        KlineInterval::Interval6h => "6h"@,
        KlineInterval::Interval8h => "8h"@,
        KlineInterval::Interval12h => "12h"@,
        KlineInterval::Interval1d => "1d"@,
        KlineInterval::Interval3d => "3d"@,
        KlineInterval::Interval1w => "1w"@,
        KlineInterval::Interval1M => "1M"@,
    }
}

/// Text naming an interval of `ms` milliseconds: the exchange's name when
/// it offers one, otherwise the milliseconds followed by `ms`.
pub open spec fn interval_text(ms: i64) -> Seq<char> {
    match interval_of_ms(ms) {
        Some(i) => interval_label(i),
        None => signed_decimal(ms as int) + "ms"@,
    }
}

impl KlineInterval {
    /// The exchange's name of the interval.
    pub fn label(&self) -> (r: &'static str)
        ensures
            r@ == interval_label(*self),
    {
        match self {
            KlineInterval::Interval1s => "1s",
            KlineInterval::Interval1m => "1m",
            KlineInterval::Interval3m => "3m",
            KlineInterval::Interval5m => "5m",
            KlineInterval::Interval15m => "15m",
            KlineInterval::Interval30m => "30m",
            KlineInterval::Interval1h => "1h",
            KlineInterval::Interval2h => "2h",
            KlineInterval::Interval4h => "4h",
            KlineInterval::Interval6h => "6h",
            KlineInterval::Interval8h => "8h",
            KlineInterval::Interval12h => "12h",
            KlineInterval::Interval1d => "1d",
            KlineInterval::Interval3d => "3d",
            KlineInterval::Interval1w => "1w",
            KlineInterval::Interval1M => "1M",
        }
    }
}

/// The exchange interval of `ms` milliseconds, or the message
/// `Unsupported interval: <ms>ms`.
pub fn try_interval_from_ms(ms: i64) -> (r: Result<KlineInterval, String>)
    ensures
        match interval_of_ms(ms) {
            Some(i) => r == Ok::<KlineInterval, String>(i),
            None => r is Err && r->Err_0@ == "Unsupported interval: "@ + signed_decimal(ms as int)
                + "ms"@,
        },
{
    if ms == 1000 {
        Ok(KlineInterval::Interval1s)
    } else if ms == 60_000 {
        Ok(KlineInterval::Interval1m)
    } else if ms == 180_000 {
        Ok(KlineInterval::Interval3m)
    } else if ms == 300_000 {
        Ok(KlineInterval::Interval5m)
    } else if ms == 900_000 {
        Ok(KlineInterval::Interval15m)
    } else if ms == 1_800_000 {
        Ok(KlineInterval::Interval30m)
    } else if ms == 3_600_000 {
        Ok(KlineInterval::Interval1h)
    } else if ms == 7_200_000 {
        Ok(KlineInterval::Interval2h)
    } else if ms == 14_400_000 {
        Ok(KlineInterval::Interval4h)
    } else if ms == 21_600_000 {
        Ok(KlineInterval::Interval6h)
    } else if ms == 28_800_000 {
        Ok(KlineInterval::Interval8h)
    } else if ms == 43_200_000 {
        Ok(KlineInterval::Interval12h)
    } else if ms == 86_400_000 {
        Ok(KlineInterval::Interval1d)
    } else if ms == 259_200_000 {
        Ok(KlineInterval::Interval3d)
    } else if ms == 604_800_000 {
        Ok(KlineInterval::Interval1w)
    } else if ms == 2_592_000_000 {
        Ok(KlineInterval::Interval1M)
    } else {
        let mut s = String::from_str("Unsupported interval: ");
        push_signed_decimal(&mut s, ms);
        let s = concat_str(s, "ms");
        Err(s)
    }
}

/// Text naming an interval of `ms` milliseconds, as in cache file names and
/// stream names.
pub fn interval_to_string(ms: i64) -> (r: String)
    ensures
        r@ == interval_text(ms),
{
    match try_interval_from_ms(ms) {
        Ok(i) => String::from_str(i.label()),
        Err(_) => {
            let mut s = String::new();
            push_signed_decimal(&mut s, ms);
            concat_str(s, "ms")
        },
    }
}

/// Name of the candle cache file for `interval_ms`: `kd_<interval>_v4.bin`.
pub fn kline_cache_filename(interval_ms: i64) -> (r: String)
    ensures
        r@ == "kd_"@ + interval_text(interval_ms) + "_v4.bin"@,
{
    let s = String::from_str("kd_");
    let label = interval_to_string(interval_ms);
    let s = concat_str(s, label.as_str());
    concat_str(s, "_v4.bin")
}

} // verus!
