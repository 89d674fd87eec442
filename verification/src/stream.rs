use vstd::prelude::*;
use crate::interval::{interval_text, interval_to_string};
use crate::price::Price;
use crate::text::concat_str;

verus! {

/// What `str::to_lowercase` makes of `s`.
pub uninterp spec fn lowercase(s: Seq<char>) -> Seq<char>;

/// Every character of `s` is ASCII.
pub open spec fn is_ascii_text(s: Seq<char>) -> bool {
    forall|i: int| 0 <= i < s.len() ==> (#[trigger] s[i] as u32) < 128
}

/// ASCII lowercase of one character: `A`..`Z` become `a`..`z`, every other
/// character stays.
pub open spec fn ascii_lower_char(c: char) -> char {
    if 65 <= (c as u32) <= 90 {
        ((c as u32) + 32) as char
    } else {
        c
    }
}

/// `s` with its ASCII capitals lowered.
pub open spec fn ascii_lowered(s: Seq<char>) -> Seq<char> {
    s.map_values(|c: char| ascii_lower_char(c))
}

/// `str::to_lowercase`: `s` with every character replaced by its lowercase
/// mapping. The mapping is Unicode's and is only named here, except on
/// ASCII text, where it lowers `A`..`Z` and keeps everything else.
#[verifier::external_body]
fn str_to_lowercase(s: &str) -> (r: String)
    ensures
        r@ == lowercase(s@),
        is_ascii_text(s@) ==> r@ == ascii_lowered(s@),
{
    s.to_lowercase()
}

/// `s` in lowercase.
pub(crate) fn lowercase_string(s: &str) -> (r: String)
    ensures
        r@ == lowercase(s@),
        is_ascii_text(s@) ==> r@ == ascii_lowered(s@),
{
    str_to_lowercase(s)
}

/// Index of the first entry at or after `from` whose key is `key`.
pub open spec fn entry_index<V>(entries: Seq<(String, V)>, key: Seq<char>, from: int) -> Option<int>
    decreases entries.len() - from,
{
    if from < 0 || from >= entries.len() {
        None
    } else if entries[from].0@ == key {
        Some(from)
    } else {
        entry_index(entries, key, from + 1)
    }
}

/// The value stored under `key`.
pub open spec fn entry_value<V>(entries: Seq<(String, V)>, key: Seq<char>) -> Option<V> {
    match entry_index(entries, key, 0) {
        Some(i) => Some(entries[i].1),
        None => None,
    }
}

/// No key occurs twice.
pub open spec fn distinct_keys<V>(entries: Seq<(String, V)>) -> bool {
    forall|i: int, j: int| 0 <= i < j < entries.len() ==> #[trigger] entries[i].0@ != #[trigger] entries[j].0@
}

proof fn lemma_index_bounds<V>(entries: Seq<(String, V)>, key: Seq<char>, from: int)
    requires
        from >= 0,
    ensures
        entry_index(entries, key, from) matches Some(i) ==> from <= i < entries.len() && entries[i].0@
            == key && forall|k: int| from <= k < i ==> #[trigger] entries[k].0@ != key,
        entry_index(entries, key, from) is None ==> forall|k: int|
            from <= k < entries.len() ==> #[trigger] entries[k].0@ != key,
    decreases entries.len() - from,
{
    if from < entries.len() {
        lemma_index_bounds(entries, key, from + 1);
    }
}

proof fn lemma_contains_push<T>(s: Seq<T>, x: T, y: T)
    ensures
        s.push(x).contains(y) <==> (s.contains(y) || x == y),
{
    if s.push(x).contains(y) {
        let j = choose|j: int| 0 <= j < s.len() + 1 && s.push(x)[j] == y;
        if j < s.len() {
            assert(s[j] == y);
        }
    }
    if s.contains(y) {
        let j = choose|j: int| 0 <= j < s.len() && s[j] == y;
        assert(s.push(x)[j] == y);
    }
    if x == y {
        assert(s.push(x)[s.len() as int] == y);
    }
}

fn find_key<V>(entries: &Vec<(String, V)>, key: &String) -> (r: Option<usize>)
    ensures
        r matches Some(p) ==> p < entries@.len() && entries@[p as int].0@ == key@ && forall|k: int|
            0 <= k < p ==> #[trigger] entries@[k].0@ != key@,
        r is None ==> forall|k: int| 0 <= k < entries@.len() ==> #[trigger] entries@[k].0@ != key@,
{
    let mut p: usize = 0;
    while p < entries.len()
        invariant
            p <= entries@.len(),
            forall|k: int| 0 <= k < p ==> #[trigger] entries@[k].0@ != key@,
        decreases entries@.len() - p,
    {
        if entries[p].0 == *key {
            return Some(p);
        }
        p = p + 1;
    }
    None
}

proof fn lemma_index_unique<V>(entries: Seq<(String, V)>, key: Seq<char>, i: int)
    requires
        0 <= i < entries.len(),
        entries[i].0@ == key,
        forall|k: int| 0 <= k < i ==> #[trigger] entries[k].0@ != key,
    ensures
        entry_index(entries, key, 0) == Some(i),
{
    lemma_index_bounds(entries, key, 0);
    if let Some(j) = entry_index(entries, key, 0) {
        if j > i {
            assert(entries[i].0@ != key);
        }
    }
}

proof fn lemma_index_none<V>(entries: Seq<(String, V)>, key: Seq<char>)
    requires
        forall|k: int| 0 <= k < entries.len() ==> #[trigger] entries[k].0@ != key,
    ensures
        entry_index(entries, key, 0) is None,
{
    lemma_index_bounds(entries, key, 0);
}

/// Stores `v` under `key`, replacing the value stored there.
fn insert_entry<V: Copy>(entries: &mut Vec<(String, V)>, key: String, v: V)
    requires
        distinct_keys(old(entries)@),
    ensures
        distinct_keys(final(entries)@),
        forall|k: Seq<char>|
            #[trigger] entry_value(final(entries)@, k) == if k == key@ {
                Some(v)
            } else {
                entry_value(old(entries)@, k)
            },
{
    let ghost before = entries@;
    let found = find_key(entries, &key);
    if let Some(p) = found {
        let ghost kv = key@;
        entries.set(p, (key, v));
        proof {
            let after = entries@;
            assert forall|k: Seq<char>| #[trigger]
                entry_value(after, k) == if k == kv {
                    Some(v)
                } else {
                    entry_value(before, k)
                } by {
                lemma_index_bounds(before, k, 0);
                if k == kv {
                    lemma_index_unique(after, k, p as int);
                } else {
                    match entry_index(before, k, 0) {
                        Some(i) => {
                            lemma_index_unique(after, k, i);
                        },
                        None => {
                            lemma_index_none(after, k);
                        },
                    }
                }
            }
        }
    } else {
        let ghost kv = key@;
        entries.push((key, v));
        proof {
            let after = entries@;
            let n = before.len() as int;
            assert forall|k: Seq<char>| #[trigger]
                entry_value(after, k) == if k == kv {
                    Some(v)
                } else {
                    entry_value(before, k)
                } by {
                lemma_index_bounds(before, k, 0);
                if k == kv {
                    lemma_index_unique(after, k, n);
                } else {
                    match entry_index(before, k, 0) {
                        Some(i) => {
                            lemma_index_unique(after, k, i);
                        },
                        None => {
                            lemma_index_none(after, k);
                        },
                    }
                }
            }
        }
    }
}

/// State of the live connection of one symbol.
#[derive(Debug, Clone, Copy, PartialEq, Eq, Structural)]
pub enum ConnectionStatus {
    Connected,
    Connecting,
    Disconnected,
}

/// Latest prices per symbol, fed by the exchange's live stream (or, for
/// the offline demo, by a fixed snapshot), with the connection state of
/// every subscribed symbol. Symbols are kept in lowercase.
pub struct PriceStreamManager<S> {
    prices: Vec<(String, Price)>,
    connection_status: Vec<(String, ConnectionStatus)>,
    subscribed_symbols: Vec<String>,
    suspended: bool,
    candle_tx: Option<S>,
    live: bool,
}

impl<S> PriceStreamManager<S> {
    /// Both tables hold each symbol at most once.
    pub closed spec fn wf(&self) -> bool {
        distinct_keys(self.prices@) && distinct_keys(self.connection_status@)
    }

    /// The latest price stored for the lowercase symbol `key`.
    pub closed spec fn price_of(&self, key: Seq<char>) -> Option<Price> {
        entry_value(self.prices@, key)
    }

    /// The connection state stored for the lowercase symbol `key`.
    pub closed spec fn status_of(&self, key: Seq<char>) -> Option<ConnectionStatus> {
        entry_value(self.connection_status@, key)
    }

    /// Updates are being ignored.
    pub closed spec fn is_suspended_spec(&self) -> bool {
        self.suspended || !self.live
    }

    /// Fed by the live stream rather than by a snapshot.
    pub closed spec fn is_live(&self) -> bool {
        self.live
    }

    /// The subscribed symbols, lowercase.
    pub closed spec fn subscribed(&self) -> Seq<Seq<char>> {
        self.subscribed_symbols@.map_values(|s: String| s@)
    }

    /// Number of symbols with a known connection state.
    pub closed spec fn status_count(&self) -> nat {
        self.connection_status@.len()
    }

    /// Number of symbols whose connection is up.
    pub closed spec fn connected_count(&self) -> nat {
        count_connected(self.connection_status@, self.connection_status@.len() as int)
    }

    /// Whether a candle sender is attached.
    pub closed spec fn has_sender(&self) -> bool {
        self.candle_tx is Some
    }

    /// A manager for the live stream with no prices, no subscriptions and
    /// updates enabled.
    pub fn new() -> (r: Self)
        ensures
            r.wf(),
            r.is_live(),
            !r.is_suspended_spec(),
            !r.has_sender(),
            r.subscribed().len() == 0,
            r.status_count() == 0,
            r.connected_count() == 0,
            forall|k: Seq<char>| r.price_of(k) is None && r.status_of(k) is None,
    {
        PriceStreamManager {
            prices: Vec::new(),
            connection_status: Vec::new(),
            subscribed_symbols: Vec::new(),
            suspended: false,
            candle_tx: None,
            live: true,
        }
    }

    /// A manager that serves the fixed prices of `snapshot` (the offline
    /// demo): symbols are lowercased, a later entry for the same symbol
    /// wins, and updates stay suspended.
    pub fn from_snapshot(snapshot: Vec<(String, Price)>) -> (r: Self)
        ensures
            r.wf(),
            !r.is_live(),
            r.is_suspended_spec(),
            !r.has_sender(),
            r.subscribed().len() == 0,
            r.status_count() == 0,
            r.connected_count() == 0,
            forall|k: Seq<char>| #[trigger] r.status_of(k) is None,
            forall|k: Seq<char>| #[trigger] r.price_of(k) == snapshot_price(snapshot@, snapshot@.len() as int, k),
    {
        let mut prices: Vec<(String, Price)> = Vec::new();
        let mut i: usize = 0;
        while i < snapshot.len()
            invariant
                i <= snapshot@.len(),
                distinct_keys(prices@),
                forall|k: Seq<char>| #[trigger] entry_value(prices@, k) == snapshot_price(snapshot@, i as int, k),
            decreases snapshot@.len() - i,
        {
            let key = str_to_lowercase(snapshot[i].0.as_str());
            insert_entry(&mut prices, key, snapshot[i].1);
            i = i + 1;
        }
        PriceStreamManager {
            prices,
            connection_status: Vec::new(),
            subscribed_symbols: Vec::new(),
            suspended: true,
            candle_tx: None,
            live: false,
        }
    }

    /// The latest price of `symbol`, looked up in lowercase.
    pub fn get_price(&self, symbol: &str) -> (r: Option<Price>)
        ensures
            r == self.price_of(lowercase(symbol@)),
            is_ascii_text(symbol@) ==> r == self.price_of(ascii_lowered(symbol@)),
    {
        let key = str_to_lowercase(symbol);
        let mut p: usize = 0;
        while p < self.prices.len()
            invariant
                p <= self.prices@.len(),
                key@ == lowercase(symbol@),
                is_ascii_text(symbol@) ==> key@ == ascii_lowered(symbol@),
                entry_index(self.prices@, key@, 0) == entry_index(self.prices@, key@, p as int),
            decreases self.prices@.len() - p,
        {
            if self.prices[p].0 == key {
                return Some(self.prices[p].1);
            }
            p = p + 1;
        }
        None
    }

    /// Records the live price of `symbol` (in lowercase), unless updates are
    /// suspended.
    pub fn record_price(&mut self, symbol: &str, price: Price)
        requires
            old(self).wf(),
        ensures
            final(self).wf(),
            final(self).is_live() == old(self).is_live(),
            final(self).is_suspended_spec() == old(self).is_suspended_spec(),
            final(self).subscribed() == old(self).subscribed(),
            forall|k: Seq<char>| #[trigger] final(self).status_of(k) == old(self).status_of(k),
            forall|k: Seq<char>|
                #[trigger] final(self).price_of(k) == if !old(self).is_suspended_spec() && k
                    == lowercase(symbol@) {
                    Some(price)
                } else {
                    old(self).price_of(k)
                },
    {
        if !self.suspended && self.live {
            let key = str_to_lowercase(symbol);
            insert_entry(&mut self.prices, key, price);
        }
    }

    /// Subscribes to `symbols` (kept in lowercase), replacing earlier
    /// subscriptions; on the demo nothing is subscribed.
    pub fn subscribe_all(&mut self, symbols: Vec<String>)
        requires
            old(self).wf(),
        ensures
            final(self).wf(),
            final(self).is_live() == old(self).is_live(),
            final(self).is_suspended_spec() == old(self).is_suspended_spec(),
            forall|k: Seq<char>| #[trigger] final(self).price_of(k) == old(self).price_of(k),
            forall|k: Seq<char>| #[trigger] final(self).status_of(k) == old(self).status_of(k),
            old(self).is_live() ==> final(self).subscribed().len() == symbols@.len() && forall|i: int|
                0 <= i < symbols@.len() ==> #[trigger] final(self).subscribed()[i] == lowercase(
                    symbols@[i]@,
                ),
            !old(self).is_live() ==> final(self).subscribed() == old(self).subscribed(),
    {
        if !self.live {
            return;
        }
        let mut lower: Vec<String> = Vec::new();
        let mut i: usize = 0;
        while i < symbols.len()
            invariant
                i <= symbols@.len(),
                lower@.len() == i,
                forall|j: int| 0 <= j < i ==> #[trigger] lower@[j]@ == lowercase(symbols@[j]@),
            decreases symbols@.len() - i,
        {
            lower.push(str_to_lowercase(symbols[i].as_str()));
            i = i + 1;
        }
        self.subscribed_symbols = lower;
    }

    /// The subscribed symbols, lowercase.
    pub fn subscribed_symbols(&self) -> (r: &Vec<String>)
        ensures
            r@.map_values(|s: String| s@) == self.subscribed(),
    {
        &self.subscribed_symbols
    }

    /// Marks every subscribed symbol with `status`.
    pub fn set_status_all(&mut self, status: ConnectionStatus)
        requires
            old(self).wf(),
        ensures
            final(self).wf(),
            final(self).is_live() == old(self).is_live(),
            final(self).is_suspended_spec() == old(self).is_suspended_spec(),
            final(self).subscribed() == old(self).subscribed(),
            forall|k: Seq<char>| #[trigger] final(self).price_of(k) == old(self).price_of(k),
            forall|k: Seq<char>|
                #[trigger] final(self).status_of(k) == if old(self).subscribed().contains(k) {
                    Some(status)
                } else {
                    old(self).status_of(k)
                },
    {
        let ghost subs = self.subscribed();
        let ghost before = self.connection_status@;
        let ghost prices = self.prices@;
        let ghost live = self.live;
        let ghost suspended = self.suspended;
        let mut i: usize = 0;
        while i < self.subscribed_symbols.len()
            invariant
                subs == self.subscribed_symbols@.map_values(|s: String| s@),
                self.prices@ == prices,
                self.live == live,
                self.suspended == suspended,
                distinct_keys(self.prices@),
                i <= self.subscribed_symbols@.len(),
                distinct_keys(self.connection_status@),
                forall|k: Seq<char>|
                    #[trigger] entry_value(self.connection_status@, k) == if subs.take(
                        i as int,
                    ).contains(k) {
                        Some(status)
                    } else {
                        entry_value(before, k)
                    },
            decreases self.subscribed_symbols@.len() - i,
        {
            let key = self.subscribed_symbols[i].clone();
            insert_entry(&mut self.connection_status, key, status);
            proof {
                assert(subs.take(i + 1) =~= subs.take(i as int).push(subs[i as int]));
                assert forall|k: Seq<char>| subs.take(i + 1).contains(k) <==> (subs.take(
                    i as int,
                ).contains(k) || subs[i as int] == k) by {
                    lemma_contains_push(subs.take(i as int), subs[i as int], k);
                }
            }
            i = i + 1;
        }
        assert(subs.take(subs.len() as int) =~= subs);
    }

    /// Counts of connected symbols and of all symbols with a known state.
    pub fn connection_counts(&self) -> (r: (usize, usize))
        ensures
            r.1 == self.status_count(),
            r.0 == self.connected_count(),
            r.0 <= r.1,
    {
        let mut connected: usize = 0;
        let mut i: usize = 0;
        while i < self.connection_status.len()
            invariant
                i <= self.connection_status@.len(),
                connected == count_connected(self.connection_status@, i as int),
                connected <= i,
            decreases self.connection_status@.len() - i,
        {
            if self.connection_status[i].1 == ConnectionStatus::Connected {
                connected = connected + 1;
            }
            i = i + 1;
        }
        (connected, self.connection_status.len())
    }

    /// Health of the live connection as a fraction `(part, whole)`: the
    /// share of symbols with a known state that are connected, none when no
    /// state is known; the demo always reports full health.
    pub fn connection_health(&self) -> (r: (usize, usize))
        ensures
            r.1 > 0,
            !self.is_live() ==> r == (1usize, 1usize),
            self.is_live() && self.status_count() == 0 ==> r == (0usize, 1usize),
            self.is_live() && self.status_count() > 0 ==> r.0 == self.connected_count() && r.1
                == self.status_count(),
            r.0 <= r.1,
    {
        if !self.live {
            return (1, 1);
        }
        let (connected, total) = self.connection_counts();
        if total == 0 {
            (0, 1)
        } else {
            (connected, total)
        }
    }

    /// Attaches the sender that receives live candles.
    pub fn set_candle_sender(&mut self, tx: S)
        ensures
            final(self).has_sender(),
            final(self).is_live() == old(self).is_live(),
            final(self).is_suspended_spec() == old(self).is_suspended_spec(),
            final(self).subscribed() == old(self).subscribed(),
            forall|k: Seq<char>| #[trigger] final(self).price_of(k) == old(self).price_of(k),
            forall|k: Seq<char>| #[trigger] final(self).status_of(k) == old(self).status_of(k),
            old(self).wf() ==> final(self).wf(),
    {
        self.candle_tx = Some(tx);
    }

    /// The attached candle sender, if any.
    pub fn candle_sender(&self) -> (r: &Option<S>)
        ensures
            r is Some == self.has_sender(),
    {
        &self.candle_tx
    }

    /// Stops applying price updates (the demo ignores this).
    pub fn suspend(&mut self)
        ensures
            final(self).is_suspended_spec(),
            final(self).is_live() == old(self).is_live(),
            final(self).subscribed() == old(self).subscribed(),
            forall|k: Seq<char>| #[trigger] final(self).price_of(k) == old(self).price_of(k),
            forall|k: Seq<char>| #[trigger] final(self).status_of(k) == old(self).status_of(k),
            old(self).wf() ==> final(self).wf(),
    {
        if self.live {
            self.suspended = true;
        }
    }

    /// Applies price updates again (the demo stays suspended).
    pub fn resume(&mut self)
        ensures
            final(self).is_suspended_spec() == !old(self).is_live(),
            final(self).is_live() == old(self).is_live(),
            final(self).subscribed() == old(self).subscribed(),
            forall|k: Seq<char>| #[trigger] final(self).price_of(k) == old(self).price_of(k),
            forall|k: Seq<char>| #[trigger] final(self).status_of(k) == old(self).status_of(k),
            old(self).wf() ==> final(self).wf(),
    {
        if self.live {
            self.suspended = false;
        }
    }

    /// Whether price updates are ignored; always so on the demo.
    pub fn is_suspended(&self) -> (r: bool)
        ensures
            r == self.is_suspended_spec(),
    {
        self.suspended || !self.live
    }

    /// Seeds prices from a batch of `(symbol, price)` tickers: a ticker
    /// counts when its lowercase symbol is subscribed and its price is above
    /// zero, and a later ticker for a symbol wins. While updates are
    /// suspended every price stays as it was.
    pub fn apply_warmup(&mut self, tickers: &Vec<(String, Price)>)
        requires
            old(self).wf(),
        ensures
            final(self).wf(),
            final(self).is_live() == old(self).is_live(),
            final(self).is_suspended_spec() == old(self).is_suspended_spec(),
            final(self).subscribed() == old(self).subscribed(),
            forall|k: Seq<char>| #[trigger] final(self).status_of(k) == old(self).status_of(k),
            forall|k: Seq<char>|
                #[trigger] final(self).price_of(k) == if old(self).is_suspended_spec() {
                    old(self).price_of(k)
                } else {
                    warm_price(
                        tickers@,
                        old(self).subscribed(),
                        tickers@.len() as int,
                        k,
                        old(self).price_of(k),
                    )
                },
    {
        if self.suspended || !self.live {
            return;
        }
        let ghost subs = self.subscribed();
        let ghost before = self.prices@;
        let ghost statuses = self.connection_status@;
        let ghost live = self.live;
        let ghost suspended = self.suspended;
        let mut i: usize = 0;
        while i < tickers.len()
            invariant
                subs == self.subscribed_symbols@.map_values(|s: String| s@),
                self.connection_status@ == statuses,
                self.live == live,
                self.suspended == suspended,
                distinct_keys(self.connection_status@),
                i <= tickers@.len(),
                distinct_keys(self.prices@),
                forall|k: Seq<char>|
                    #[trigger] entry_value(self.prices@, k) == warm_price(
                        tickers@,
                        subs,
                        i as int,
                        k,
                        entry_value(before, k),
                    ),
            decreases tickers@.len() - i,
        {
            let key = str_to_lowercase(tickers[i].0.as_str());
            let price = tickers[i].1;
            let mut wanted = false;
            let mut j: usize = 0;
            while j < self.subscribed_symbols.len()
                invariant
                    subs == self.subscribed_symbols@.map_values(|s: String| s@),
                    j <= self.subscribed_symbols@.len(),
                    wanted == subs.take(j as int).contains(key@),
                decreases self.subscribed_symbols@.len() - j,
            {
                proof {
                    assert(subs.take(j + 1) =~= subs.take(j as int).push(subs[j as int]));
                    lemma_contains_push(subs.take(j as int), subs[j as int], key@);
                }
                if self.subscribed_symbols[j] == key {
                    wanted = true;
                }
                j = j + 1;
            }
            proof {
                assert(subs.take(subs.len() as int) =~= subs);
            }
            if wanted && price.0 > 0 {
                insert_entry(&mut self.prices, key, price);
            }
            i = i + 1;
        }
    }
}

/// A price recorded while updates run is what a later lookup of the same
/// symbol, in any case, gives back; other symbols keep their prices.
pub proof fn law_recorded_price_is_read<S>(
    before: PriceStreamManager<S>,
    after: PriceStreamManager<S>,
    symbol: Seq<char>,
    price: Price,
    other: Seq<char>,
)
    requires
        !before.is_suspended_spec(),
        forall|k: Seq<char>|
            #[trigger] after.price_of(k) == if !before.is_suspended_spec() && k == lowercase(symbol) {
                Some(price)
            } else {
                before.price_of(k)
            },
    ensures
        after.price_of(lowercase(symbol)) == Some(price),
        lowercase(other) != lowercase(symbol) ==> after.price_of(lowercase(other)) == before.price_of(
            lowercase(other),
        ),
{
    assert(after.price_of(lowercase(symbol)) == Some(price));
    assert(after.price_of(lowercase(other)) == if lowercase(other) == lowercase(symbol) {
        Some(price)
    } else {
        before.price_of(lowercase(other))
    });
}

/// A price lookup ignores the case of an ASCII symbol: two symbols that
/// differ only in the case of their letters give the same price from the
/// same manager.
pub proof fn law_price_lookup_ignores_case<S>(
    m: PriceStreamManager<S>,
    a: Seq<char>,
    b: Seq<char>,
    price_a: Option<Price>,
    price_b: Option<Price>,
)
    requires
        is_ascii_text(a),
        is_ascii_text(b),
        a.len() == b.len(),
        forall|i: int| 0 <= i < a.len() ==> ascii_lower_char(#[trigger] a[i]) == ascii_lower_char(b[i]),
        is_ascii_text(a) ==> price_a == m.price_of(ascii_lowered(a)),
        is_ascii_text(b) ==> price_b == m.price_of(ascii_lowered(b)),
    ensures
        price_a == price_b,
{
    assert(ascii_lowered(a) =~= ascii_lowered(b));
}

/// Price stored for `k` after the first `n` snapshot entries.
pub open spec fn snapshot_price(snapshot: Seq<(String, Price)>, n: int, k: Seq<char>) -> Option<Price>
    decreases n,
{
    if n <= 0 {
        None
    } else if lowercase(snapshot[n - 1].0@) == k {
        Some(snapshot[n - 1].1)
    } else {
        snapshot_price(snapshot, n - 1, k)
    }
}

/// Price stored for `k` after the first `n` warm-up tickers, starting from
/// `before`.
pub open spec fn warm_price(
    tickers: Seq<(String, Price)>,
    wanted: Seq<Seq<char>>,
    n: int,
    k: Seq<char>,
    before: Option<Price>,
) -> Option<Price>
    decreases n,
{
    if n <= 0 {
        before
    } else if lowercase(tickers[n - 1].0@) == k && wanted.contains(k) && tickers[n - 1].1.0 > 0 {
        Some(tickers[n - 1].1)
    } else {
        warm_price(tickers, wanted, n - 1, k, before)
    }
}

/// Number of connected entries among the first `n`.
pub open spec fn count_connected(entries: Seq<(String, ConnectionStatus)>, n: int) -> nat
    decreases n,
{
    if n <= 0 {
        0
    } else {
        count_connected(entries, n - 1) + if entries[n - 1].1 == ConnectionStatus::Connected {
            1nat
        } else {
            0nat
        }
    }
}

/// Delay before the next reconnection attempt: twice the last one, capped
/// at `max_delay_sec`.
pub fn next_reconnect_delay(delay_sec: u64, max_delay_sec: u64) -> (r: u64)
    requires
        delay_sec <= u64::MAX / 2,
    ensures
        r == if 2 * delay_sec < max_delay_sec {
            2 * delay_sec
        } else {
            max_delay_sec as int
        },
{
    let doubled = delay_sec * 2;
    if doubled < max_delay_sec {
        doubled
    } else {
        max_delay_sec
    }
}

/// One stream name per symbol: `<lowercase symbol>@kline_<interval>`,
/// joined with `/`.
pub open spec fn stream_names(symbols: Seq<String>, interval: Seq<char>) -> Seq<char>
    decreases symbols.len(),
{
    if symbols.len() == 0 {
        Seq::empty()
    } else if symbols.len() == 1 {
        lowercase(symbols[0]@) + "@kline_"@ + interval
    } else {
        stream_names(symbols.drop_last(), interval) + "/"@ + lowercase(symbols.last()@) + "@kline_"@
            + interval
    }
}

/// Candle interval of the live stream, in milliseconds (five minutes).
pub const BASE_INTERVAL_MS: i64 = 300_000;

/// Address of the exchange's combined stream that carries the
/// five-minute candles of every symbol in `symbols`.
pub fn build_combined_stream_url(symbols: &Vec<String>) -> (r: String)
    ensures
        r@ == "wss://stream.binance.com:9443/stream?streams="@ + stream_names(
            symbols@,
            interval_text(BASE_INTERVAL_MS),
        ),
{
    let interval = interval_to_string(BASE_INTERVAL_MS);
    let mut url = String::from_str("wss://stream.binance.com:9443/stream?streams=");
    let ghost base = url@;
    let mut i: usize = 0;
    while i < symbols.len()
        invariant
            i <= symbols@.len(),
            interval@ == interval_text(BASE_INTERVAL_MS),
            base == "wss://stream.binance.com:9443/stream?streams="@,
            url@ == base + stream_names(symbols@.take(i as int), interval@),
        decreases symbols@.len() - i,
    {
        proof {
            assert(symbols@.take(i + 1).drop_last() =~= symbols@.take(i as int));
        }
        if i > 0 {
            url.append("/");
        }
        let lower = str_to_lowercase(symbols[i].as_str());
        url.append(lower.as_str());
        url.append("@kline_");
        url.append(interval.as_str());
        proof {
            if i == 0 {
                assert(url@ =~= base + stream_names(symbols@.take(i + 1), interval@));
            } else {
                assert(url@ =~= base + stream_names(symbols@.take(i + 1), interval@));
            }
        }
        i = i + 1;
    }
    assert(symbols@.take(symbols@.len() as int) =~= symbols@);
    url
}

} // verus!
