use vstd::prelude::*;

verus! {

/// `s` ends with `suffix`.
pub open spec fn has_suffix(s: Seq<char>, suffix: Seq<char>) -> bool {
    suffix.len() <= s.len() && s.subrange(s.len() - suffix.len(), s.len() as int) == suffix
}

/// Whether `text` ends with `suffix`, character by character.
fn str_ends_with(text: &str, suffix: &str) -> (r: bool)
    ensures
        r == has_suffix(text@, suffix@),
{
    let n = text.unicode_len();
    let m = suffix.unicode_len();
    if m > n {
        return false;
    }
    let off = n - m;
    let mut j: usize = 0;
    while j < m
        invariant
            n == text@.len(),
            m == suffix@.len(),
            off == n - m,
            j <= m,
            forall|q: int| 0 <= q < j ==> text@[off + q] == #[trigger] suffix@[q],
        decreases m - j,
    {
        if text.get_char(off + j) != suffix.get_char(j) {
            assert(text@.subrange(off as int, n as int)[j as int] != suffix@[j as int]);
            return false;
        }
        j = j + 1;
    }
    assert(text@.subrange(off as int, n as int) =~= suffix@);
    true
}

/// `text` without `suffix` when `text` ends with it, otherwise `None`.
fn str_strip_suffix<'a>(text: &'a str, suffix: &str) -> (r: Option<&'a str>)
    ensures
        r.is_some() <==> has_suffix(text@, suffix@),
        r.is_some() ==> r.unwrap()@ == text@.subrange(0, text@.len() - suffix@.len()),
{
    if str_ends_with(text, suffix) {
        let n = text.unicode_len();
        let m = suffix.unicode_len();
        Some(text.substring_char(0, n - m))
    } else {
        None
    }
}

/// Index of the first quote asset at or after position `from` in
/// `quote_assets` that ends `text`.
pub open spec fn first_quote_index(text: Seq<char>, quote_assets: Seq<String>, from: int) -> Option<int>
    decreases quote_assets.len() - from,
{
    if from < 0 || from >= quote_assets.len() {
        None
    } else if has_suffix(text, quote_assets[from]@) {
        Some(from)
    } else {
        first_quote_index(text, quote_assets, from + 1)
    }
}

/// A trading pair at one candle interval, such as `BTCUSDT` at five minutes.
#[derive(Debug, Clone, PartialEq, Eq)]
pub struct PairInterval {
    pub name: String,
    pub interval_ms: i64,
}

impl PairInterval {
    /// The quote asset of the pair symbol `text`: the first entry of
    /// `quote_assets` that `text` ends with.
    pub fn get_quote<'a>(text: &str, quote_assets: &'a Vec<String>) -> (r: Option<&'a str>)
        ensures
            match first_quote_index(text@, quote_assets@, 0) {
                Some(i) => 0 <= i < quote_assets@.len() && r.is_some() && r.unwrap()@
                    == quote_assets@[i]@ && has_suffix(text@, r.unwrap()@),
                None => r.is_none(),
            },
    {
        let mut i: usize = 0;
        while i < quote_assets.len()
            invariant
                i <= quote_assets@.len(),
                first_quote_index(text@, quote_assets@, 0) == first_quote_index(
                    text@,
                    quote_assets@,
                    i as int,
                ),
            decreases quote_assets@.len() - i,
        {
            let q = quote_assets[i].as_str();
            if str_ends_with(text, q) {
                return Some(q);
            }
            i = i + 1;
        }
        None
    }

    /// The base asset of the pair symbol `text`: `text` without its quote
    /// asset.
    pub fn get_base<'a>(text: &'a str, quote_assets: &Vec<String>) -> (r: Option<&'a str>)
        ensures
            match first_quote_index(text@, quote_assets@, 0) {
                Some(i) => 0 <= i < quote_assets@.len() && r.is_some() && r.unwrap()@
                    + quote_assets@[i]@ == text@,
                None => r.is_none(),
            },
    {
        let quote = Self::get_quote(text, quote_assets);
        match quote {
            Some(q) => {
                let r = str_strip_suffix(text, q);
                proof {
                    assert(r.unwrap()@ + q@ =~= text@);
                }
                r
            },
            None => None,
        }
    }

    /// The symbol passed to the exchange API.
    pub fn bn_name(&self) -> (r: &str)
        ensures
            r@ == self.name@,
    {
        self.name.as_str()
    }

    /// The pair's display name.
    pub fn name(&self) -> (r: &str)
        ensures
            r@ == self.name@,
    {
        self.name.as_str()
    }
}

} // verus!
