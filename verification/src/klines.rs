use vstd::prelude::*;
use std::collections::HashSet;
use crate::price::{Price, Volume};
use crate::text::concat_str;

verus! {

/// One field of a raw candle row as the exchange sends it, after its text
/// has been read as a number: an integer, a decimal given as text (`None`
/// when the text is not a number), or anything else.
#[derive(Debug, Clone, Copy, PartialEq, Eq, Structural)]
pub enum KlineField {
    Integer(i64),
    Decimal(Option<u64>),
    Other,
}

/// A candle as received from the exchange; a field is `None` when the row
/// did not carry a readable number for it.
#[derive(Debug, Clone, Copy, PartialEq, Eq, Structural)]
pub struct BNKline {
    pub open_timestamp_ms: i64,
    pub open_price: Option<Price>,
    pub high_price: Option<Price>,
    pub low_price: Option<Price>,
    pub close_price: Option<Price>,
    pub base_asset_volume: Option<Volume>,
    pub quote_asset_volume: Option<Volume>,
}

/// Why a candle row or a request was rejected.
#[derive(Debug, Clone)]
pub enum BNKlineError {
    InvalidLength,
    InvalidType(String),
    ConnectionFailed(String),
}

impl BNKlineError {
    /// The message shown for the error.
    pub fn to_text(&self) -> (r: String)
        ensures
            r@ == match *self {
                BNKlineError::InvalidLength => "Invalid length"@,
                BNKlineError::InvalidType(s) => "Invalid type: "@ + s@,
                BNKlineError::ConnectionFailed(m) => "Binance API connection failed: "@ + m@ + "."@,
            },
    {
        match self {
            BNKlineError::InvalidLength => String::from_str("Invalid length"),
            BNKlineError::InvalidType(s) => concat_str(String::from_str("Invalid type: "), s.as_str()),
            BNKlineError::ConnectionFailed(m) => {
                let t = concat_str(String::from_str("Binance API connection failed: "), m.as_str());
                concat_str(t, ".")
            },
        }
    }
}

/// The decimal value at position `k` of a row, if the row has one there.
pub open spec fn decimal_at(items: Seq<KlineField>, k: int) -> Option<u64> {
    if 0 <= k < items.len() {
        match items[k] {
            KlineField::Decimal(v) => v,
            _ => None,
        }
    } else {
        None
    }
}

/// What a candle row decodes to, when its first field is an integer open
/// time; the prices are fields 1 to 4, the base volume field 5 and the
/// quote volume field 7.
pub open spec fn kline_of(items: Seq<KlineField>) -> Option<BNKline> {
    if items.len() == 0 {
        None
    } else {
        match items[0] {
            KlineField::Integer(t) => Some(
                BNKline {
                    open_timestamp_ms: t,
                    open_price: match decimal_at(items, 1) {
                        Some(v) => Some(Price(v)),
                        None => None,
                    },
                    high_price: match decimal_at(items, 2) {
                        Some(v) => Some(Price(v)),
                        None => None,
                    },
                    low_price: match decimal_at(items, 3) {
                        Some(v) => Some(Price(v)),
                        None => None,
                    },
                    close_price: match decimal_at(items, 4) {
                        Some(v) => Some(Price(v)),
                        None => None,
                    },
                    base_asset_volume: match decimal_at(items, 5) {
                        Some(v) => Some(Volume(v)),
                        None => None,
                    },
                    quote_asset_volume: match decimal_at(items, 7) {
                        Some(v) => Some(Volume(v)),
                        None => None,
                    },
                },
            ),
            _ => None,
        }
    }
}

/// `r` is what decoding the row `items` gives: its candle, or an invalid
/// length for an empty row, or an invalid `open_time` type.
pub open spec fn row_decoded(items: Seq<KlineField>, r: Result<BNKline, BNKlineError>) -> bool {
    match kline_of(items) {
        Some(k) => r == Ok::<BNKline, BNKlineError>(k),
        None => if items.len() == 0 {
            r matches Err(BNKlineError::InvalidLength)
        } else {
            r matches Err(BNKlineError::InvalidType(s)) && s@ == "open_time"@
        },
    }
}

fn decimal_field(items: &Vec<KlineField>, k: usize) -> (r: Option<u64>)
    ensures
        r == decimal_at(items@, k as int),
{
    if k < items.len() {
        match items[k] {
            KlineField::Decimal(v) => v,
            _ => None,
        }
    } else {
        None
    }
}

impl BNKline {
    fn decode_row(items: &Vec<KlineField>) -> (r: Result<BNKline, BNKlineError>)
        ensures
            row_decoded(items@, r),
    {
        if items.len() == 0 {
            return Err(BNKlineError::InvalidLength);
        }
        let open_timestamp_ms = match items[0] {
            KlineField::Integer(a) => a,
            _ => {
                let r = Err(BNKlineError::InvalidType(String::from_str("open_time")));
                return r;
            },
        };
        let open = decimal_field(items, 1);
        let high = decimal_field(items, 2);
        let low = decimal_field(items, 3);
        let close = decimal_field(items, 4);
        let volume = decimal_field(items, 5);
        let quote = decimal_field(items, 7);
        Ok(
            BNKline {
                open_timestamp_ms,
                open_price: match open {
                    Some(v) => Some(Price(v)),
                    None => None,
                },
                high_price: match high {
                    Some(v) => Some(Price(v)),
                    None => None,
                },
                low_price: match low {
                    Some(v) => Some(Price(v)),
                    None => None,
                },
                close_price: match close {
                    Some(v) => Some(Price(v)),
                    None => None,
                },
                base_asset_volume: match volume {
                    Some(v) => Some(Volume(v)),
                    None => None,
                },
                quote_asset_volume: match quote {
                    Some(v) => Some(Volume(v)),
                    None => None,
                },
            },
        )
    }

    /// Decodes one candle row (see [`kline_of`]).
    pub fn try_from(items: Vec<KlineField>) -> (r: Result<BNKline, BNKlineError>)
        ensures
            row_decoded(items@, r),
    {
        Self::decode_row(&items)
    }
}

/// Index of the first row at or after `from` that does not decode.
pub open spec fn first_bad_row(data: Seq<Vec<KlineField>>, from: int) -> Option<int>
    decreases data.len() - from,
{
    if from < 0 || from >= data.len() {
        None
    } else if kline_of(data[from]@) is None {
        Some(from)
    } else {
        first_bad_row(data, from + 1)
    }
}

/// Decodes every row: the candles in order, or the error of the first row
/// that does not decode.
pub fn convert_klines(data: Vec<Vec<KlineField>>) -> (r: Result<Vec<BNKline>, BNKlineError>)
    ensures
        match first_bad_row(data@, 0) {
            Some(b) => r matches Err(e) && row_decoded(data@[b]@, Err::<BNKline, BNKlineError>(e)),
            None => r is Ok && r.unwrap()@ == Seq::new(
                data@.len(),
                |i: int| kline_of(data@[i]@).unwrap(),
            ),
        },
{
    let mut out: Vec<BNKline> = Vec::new();
    let mut i: usize = 0;
    while i < data.len()
        invariant
            i <= data@.len(),
            first_bad_row(data@, 0) == first_bad_row(data@, i as int),
            out@ == Seq::new(i as nat, |j: int| kline_of(data@[j]@).unwrap()),
        decreases data@.len() - i,
    {
        match BNKline::decode_row(&data[i]) {
            Ok(k) => {
                out.push(k);
                assert(out@ =~= Seq::new((i + 1) as nat, |j: int| kline_of(data@[j]@).unwrap()));
            },
            Err(e) => {
                return Err(e);
            },
        }
        i = i + 1;
    }
    Ok(out)
}

/// Why a batch of candle rows was not taken.
#[derive(Debug, Clone)]
pub enum KlineBatchError {
    /// A row did not decode.
    Convert(BNKlineError),
    /// The batch held no candles.
    EmptyBatch,
}

/// Takes in one batch of rows fetched backwards in time. On success the
/// batch's candles, without its last one (the exchange repeats it as the
/// first candle of the previous batch), are put in front of `all_klines`;
/// the result is the batch's first open time and whether this was the
/// last batch: fewer rows than `limit_klines_returned`, or only the
/// repeated candle.
pub fn process_new_klines(
    new_klines: Vec<Vec<KlineField>>,
    limit_klines_returned: i32,
    all_klines: &mut Vec<BNKline>,
) -> (r: Result<(Option<i64>, bool), KlineBatchError>)
    ensures
        match first_bad_row(new_klines@, 0) {
            Some(b) => r matches Err(KlineBatchError::Convert(e)) && row_decoded(
                new_klines@[b]@,
                Err::<BNKline, BNKlineError>(e),
            ) && final(all_klines)@ == old(all_klines)@,
            None => {
                let batch = Seq::new(new_klines@.len(), |i: int| kline_of(new_klines@[i]@).unwrap());
                if batch.len() == 0 {
                    r matches Err(KlineBatchError::EmptyBatch) && final(all_klines)@ == old(all_klines)@
                } else {
                    &&& final(all_klines)@ == batch.drop_last() + old(all_klines)@
                    &&& r == Ok::<(Option<i64>, bool), KlineBatchError>((
                        Some(batch[0].open_timestamp_ms),
                        batch.len() == 1 || limit_klines_returned < 0 || batch.len()
                            < limit_klines_returned,
                    ))
                }
            },
        },
{
    let mut bn_klines = match convert_klines(new_klines) {
        Ok(v) => v,
        Err(e) => {
            return Err(KlineBatchError::Convert(e));
        },
    };
    if bn_klines.len() == 0 {
        return Err(KlineBatchError::EmptyBatch);
    }
    let read_all_klines = limit_klines_returned < 0 || (bn_klines.len() as u64) < (
    limit_klines_returned as u64);
    let end_time = Some(bn_klines[0].open_timestamp_ms);
    let ghost batch = bn_klines@;
    let _ = bn_klines.pop();
    if bn_klines.len() == 0 {
        assert(batch.drop_last() + all_klines@ =~= all_klines@);
        return Ok((end_time, true));
    }
    let mut i: usize = 0;
    let ghost old_all = all_klines@;
    while i < all_klines.len()
        invariant
            old_all == all_klines@,
            bn_klines@ == batch.drop_last() + old_all.take(i as int),
            i <= old_all.len(),
        decreases old_all.len() - i,
    {
        bn_klines.push(all_klines[i]);
        i = i + 1;
        assert(bn_klines@ =~= batch.drop_last() + old_all.take(i as int));
    }
    assert(old_all.take(old_all.len() as int) =~= old_all);
    *all_klines = bn_klines;
    Ok((end_time, read_all_klines))
}

/// Two candles share an open time.
pub open spec fn has_duplicate_spec(klines: Seq<BNKline>) -> bool {
    exists|i: int, j: int|
        0 <= i < j < klines.len() && #[trigger] klines[i].open_timestamp_ms == #[trigger] klines[j].open_timestamp_ms
}

/// Whether two candles share an open time.
pub fn has_duplicate_kline_open_time(klines: &Vec<BNKline>) -> (r: bool)
    ensures
        r == has_duplicate_spec(klines@),
{
    broadcast use vstd::std_specs::hash::group_hash_axioms;

    let mut seen_ids: HashSet<i64> = HashSet::new();
    let mut i: usize = 0;
    while i < klines.len()
        invariant
            i <= klines@.len(),
            forall|t: i64| seen_ids@.contains(t) <==> exists|k: int| 0 <= k < i && #[trigger] klines@[k].open_timestamp_ms == t,
            !has_duplicate_spec(klines@.take(i as int)),
        decreases klines@.len() - i,
    {
        let t = klines[i].open_timestamp_ms;
        if !seen_ids.insert(t) {
            proof {
                let k = choose|k: int| 0 <= k < i && #[trigger] klines@[k].open_timestamp_ms == t;
                assert(klines@[k].open_timestamp_ms == klines@[i as int].open_timestamp_ms);
            }
            return true;
        }
        proof {
            assert forall|a: int, b: int|
                0 <= a < b < i + 1 implies #[trigger] klines@.take(i + 1)[a].open_timestamp_ms
                    != #[trigger] klines@.take(i + 1)[b].open_timestamp_ms by {
                if b < i {
                    assert(klines@.take(i as int)[a] == klines@.take(i + 1)[a]);
                    assert(klines@.take(i as int)[b] == klines@.take(i + 1)[b]);
                } else {
                    assert(klines@[a].open_timestamp_ms != t);
                }
            }
        }
        i = i + 1;
    }
    assert(klines@.take(klines@.len() as int) =~= klines@);
    false
}

/// Every candle of one pair, as loaded.
#[derive(Debug, Clone)]
pub struct AllValidKlines4Pair {
    pub klines: Vec<BNKline>,
}

impl AllValidKlines4Pair {
    /// Wraps `klines`.
    pub fn new(klines: Vec<BNKline>) -> (r: Self)
        ensures
            r.klines@ == klines@,
    {
        AllValidKlines4Pair { klines }
    }
}


/// The price or volume a row carries at position `k`: its decimal when
/// field `k` is a readable decimal, and nothing otherwise.
pub open spec fn field_value(items: Seq<KlineField>, k: int) -> Option<u64> {
    if k < items.len() {
        match items[k] {
            KlineField::Decimal(Some(v)) => Some(v),
            _ => None,
        }
    } else {
        None
    }
}

/// A row whose first field is an integer decodes field by field in the
/// exchange's order: open time, then open, high, low and close at positions
/// 1 to 4, the base volume at 5 and the quote volume at 7; a field that is
/// missing or not a readable decimal decodes to nothing. A row that is empty
/// or starts with anything but an integer does not decode.
pub proof fn law_row_fields_in_exchange_order(items: Seq<KlineField>)
    ensures
        (items.len() > 0 && items[0] is Integer) ==> ({
            let b = kline_of(items).unwrap();
            &&& kline_of(items) is Some
            &&& (items[0] matches KlineField::Integer(t) && b.open_timestamp_ms == t)
            &&& b.open_price == (match field_value(items, 1) { Some(v) => Some(Price(v)), None => None })
            &&& b.high_price == (match field_value(items, 2) { Some(v) => Some(Price(v)), None => None })
            &&& b.low_price == (match field_value(items, 3) { Some(v) => Some(Price(v)), None => None })
            &&& b.close_price == (match field_value(items, 4) { Some(v) => Some(Price(v)), None => None })
            &&& b.base_asset_volume == (match field_value(items, 5) { Some(v) => Some(Volume(v)), None => None })
            &&& b.quote_asset_volume == (match field_value(items, 7) { Some(v) => Some(Volume(v)), None => None })
        }),
        !(items.len() > 0 && items[0] is Integer) ==> kline_of(items) is None,
{
}

} // verus!
