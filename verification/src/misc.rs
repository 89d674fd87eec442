use vstd::prelude::*;
use crate::config::BINANCE_MAX_PAIRS;
use crate::price::OhlcvTimeSeries;
use crate::text::{concat_str, push_decimal, decimal};
use crate::stream::is_ascii_text;

verus! {

/// Which score series a zone filter reads.
#[derive(Debug, Clone, Copy, PartialEq, Eq)]
pub struct DataSource<T> {
    pub score_type: T,
}

impl<T> DataSource<T> {
    /// A source reading `score_type`.
    pub fn new(score_type: T) -> (r: Self)
        ensures
            r.score_type == score_type,
    {
        DataSource { score_type }
    }
}

/// Indices picked by a zone filter.
#[derive(Debug, Clone)]
pub struct SelectionResults {
    pub indices: Vec<usize>,
}

/// `Indices: [a, b, ...]` for the first `n` indices.
pub open spec fn indices_text(indices: Seq<usize>, n: int) -> Seq<char>
    decreases n,
{
    if n <= 0 {
        Seq::empty()
    } else if n == 1 {
        decimal(indices[0] as nat)
    } else {
        indices_text(indices, n - 1) + ", "@ + decimal(indices[n - 1] as nat)
    }
}

impl SelectionResults {
    /// The picked indices as text: `Indices: [` then the indices separated
    /// by `, ` then `]`.
    pub fn to_text(&self) -> (r: String)
        ensures
            r@ == "Indices: ["@ + indices_text(self.indices@, self.indices@.len() as int) + "]"@,
    {
        let mut s = String::from_str("Indices: [");
        let ghost head = s@;
        let mut i: usize = 0;
        while i < self.indices.len()
            invariant
                i <= self.indices@.len(),
                head == "Indices: ["@,
                s@ == head + indices_text(self.indices@, i as int),
            decreases self.indices@.len() - i,
        {
            if i > 0 {
                s.append(", ");
            }
            push_decimal(&mut s, self.indices[i] as u64);
            i = i + 1;
            assert(s@ =~= head + indices_text(self.indices@, i as int));
        }
        concat_str(s, "]")
    }
}

/// Candle data read from the local cache for one interval.
#[derive(Debug, Clone, Copy, PartialEq, Eq, Structural)]
pub struct SerdeVersion {
    pub interval_ms: i64,
}

impl SerdeVersion {
    /// Where the data comes from.
    pub fn signature(&self) -> (r: &'static str)
        ensures
            r@ == "Local Cache"@,
    {
        "Local Cache"
    }
}

/// The candle data bundled with the offline demo.
pub struct WasmDemoData;

impl WasmDemoData {
    /// Keeps at most `max_pairs` series, the first ones.
    pub fn enforce_pair_limit(series_data: &mut Vec<OhlcvTimeSeries>, max_pairs: usize)
        ensures
            final(series_data)@ == if old(series_data)@.len() > max_pairs {
                old(series_data)@.take(max_pairs as int)
            } else {
                old(series_data)@
            },
    {
        if series_data.len() > max_pairs {
            series_data.truncate(max_pairs);
        }
    }
}

/// Index of the first newline of `s` at or after `from`, or the length of
/// `s` when there is none.
pub open spec fn line_end(s: Seq<char>, from: int) -> int
    decreases s.len() - from,
{
    if from < 0 || from >= s.len() {
        s.len() as int
    } else if s[from] == '\n' {
        from
    } else {
        line_end(s, from + 1)
    }
}

/// The lines of `s` from position `from` on: each runs up to the next
/// `\n` (or the end), without a `\r` just before that `\n`; a final line
/// ending adds no empty line.
pub open spec fn lines_from(s: Seq<char>, from: int) -> Seq<Seq<char>>
    decreases s.len() - from,
{
    if from < 0 || from >= s.len() {
        Seq::empty()
    } else {
        let e = line_end(s, from);
        let raw = s.subrange(from, e);
        let line = if e < s.len() && raw.len() > 0 && raw.last() == '\r' {
            raw.drop_last()
        } else {
            raw
        };
        proof {
            lemma_line_end_bounds(s, from);
        }
        if e >= s.len() {
            seq![line]
        } else {
            seq![line] + lines_from(s, e + 1)
        }
    }
}

/// Where the line starting at `from` ends: not before it, not past the text.
pub proof fn lemma_line_end_bounds(s: Seq<char>, from: int)
    requires
        0 <= from,
    ensures
        from <= line_end(s, from) <= s.len() || from > s.len(),
    decreases s.len() - from,
{
    if from < s.len() && s[from] != '\n' {
        lemma_line_end_bounds(s, from + 1);
    }
}

/// What `str::lines` yields for `s`: lines split at `\n` or `\r\n`, the
/// final line ending optional.
pub open spec fn lines_of(s: Seq<char>) -> Seq<Seq<char>> {
    lines_from(s, 0)
}

/// What `str::trim` leaves of `s`.
pub uninterp spec fn trimmed(s: Seq<char>) -> Seq<char>;

/// What `str::to_uppercase` makes of `s`.
pub uninterp spec fn uppercase(s: Seq<char>) -> Seq<char>;

/// `c` is one of the ASCII digits `0`..`9`.
pub open spec fn is_ascii_digit(c: char) -> bool {
    48 <= (c as u32) <= 57
}

/// The number that the ASCII digits of `s` spell in decimal.
pub open spec fn digits_value(s: Seq<char>) -> int
    decreases s.len(),
{
    if s.len() == 0 {
        0
    } else {
        digits_value(s.drop_last()) * 10 + ((s.last() as u32) - 48)
    }
}

/// Length of the sign in front of `s`: one for a leading `+` or `-`.
pub open spec fn sign_len(s: Seq<char>) -> int {
    if s.len() > 0 && (s[0] == '+' || s[0] == '-') {
        1
    } else {
        0
    }
}

/// The `i64` written in `s` as `str::parse::<i64>` reads it: an optional
/// `+` or `-`, then one or more ASCII digits and nothing else, with a value
/// that fits.
pub open spec fn parsed_i64(s: Seq<char>) -> Option<i64> {
    let k = sign_len(s);
    let body = s.subrange(k, s.len() as int);
    let v = if k == 1 && s[0] == '-' {
        -digits_value(body)
    } else {
        digits_value(body)
    };
    if body.len() > 0 && (forall|i: int| 0 <= i < body.len() ==> is_ascii_digit(#[trigger] body[i]))
        && i64::MIN <= v <= i64::MAX {
        Some(v as i64)
    } else {
        None
    }
}

proof fn lemma_digits_nonneg(s: Seq<char>)
    requires
        forall|i: int| 0 <= i < s.len() ==> is_ascii_digit(#[trigger] s[i]),
    ensures
        digits_value(s) >= 0,
    decreases s.len(),
{
    if s.len() > 0 {
        lemma_digits_nonneg(s.drop_last());
    }
}

/// `str::lines`: the lines of `content`, each as a `String`: split at
/// `\n` or `\r\n`, the line endings left out, and no empty line after a
/// final line ending.
#[verifier::external_body]
fn str_lines(content: &str) -> (r: Vec<String>)
    ensures
        r@.map_values(|l: String| l@) == lines_of(content@),
{
    content.lines().map(|l| l.to_string()).collect()
}

/// `str::trim`: `s` without leading and trailing white space (Unicode's
/// definition, only named here).
#[verifier::external_body]
fn str_trim(s: &str) -> (r: &str)
    ensures
        r@ == trimmed(s@),
{
    s.trim()
}

/// ASCII uppercase of one character: `a`..`z` become `A`..`Z`, every other
/// character stays.
pub open spec fn ascii_upper_char(c: char) -> char {
    if 97 <= (c as u32) <= 122 {
        ((c as u32) - 32) as char
    } else {
        c
    }
}

/// `str::to_uppercase`: Unicode upper-casing of `s`, only named here except
/// on ASCII text, where it raises `a`..`z` and keeps everything else.
#[verifier::external_body]
fn str_to_uppercase(s: &str) -> (r: String)
    ensures
        r@ == uppercase(s@),
        is_ascii_text(s@) ==> r@ == s@.map_values(|c: char| ascii_upper_char(c)),
{
    s.to_uppercase()
}

/// The integer written in `s` in decimal, read as `str::parse::<i64>` reads
/// it: an optional sign, then digits only; `None` for anything else or a
/// value out of range.
pub fn parse_i64(s: &str) -> (r: Option<i64>)
    ensures
        r == parsed_i64(s@),
{
    let n = s.unicode_len();
    let mut i: usize = 0;
    let mut neg = false;
    if n > 0 {
        let c = s.get_char(0);
        if c == '-' {
            neg = true;
            i = 1;
        } else if c == '+' {
            i = 1;
        }
    }
    let ghost k = sign_len(s@);
    assert(k == i as int);
    let ghost body = s@.subrange(k, s@.len() as int);
    if i >= n {
        return None;
    }
    let start = i;
    let limit: u64 = if neg {
        9223372036854775808
    } else {
        9223372036854775807
    };
    let mut acc: u64 = 0;
    let mut over = false;
    while i < n
        invariant
            n == s@.len(),
            k == sign_len(s@),
            neg == (k == 1 && s@[0] == '-'),
            start == k,
            body == s@.subrange(k, s@.len() as int),
            start <= i <= n,
            limit == if neg { 9223372036854775808u64 } else { 9223372036854775807u64 },
            forall|j: int| start <= j < i ==> is_ascii_digit(#[trigger] s@[j]),
            !over ==> acc == digits_value(s@.subrange(start as int, i as int)) && acc <= limit,
            over ==> digits_value(s@.subrange(start as int, i as int)) > limit,
        decreases n - i,
    {
        let c = s.get_char(i);
        let code = c as u32;
        if code < 48 || code > 57 {
            proof {
                assert(body[i - start] == c);
                assert(!is_ascii_digit(body[i - start]));
            }
            return None;
        }
        let d = (code - 48) as u64;
        proof {
            let pre = s@.subrange(start as int, i as int);
            let nxt = s@.subrange(start as int, i + 1);
            assert(nxt.drop_last() =~= pre);
            assert(nxt.last() == c);
            assert(digits_value(nxt) == digits_value(pre) * 10 + d);
            assert forall|j: int| 0 <= j < pre.len() implies is_ascii_digit(#[trigger] pre[j]) by {
                assert(pre[j] == s@[start + j]);
            }
            lemma_digits_nonneg(pre);
            if over {
                assert(digits_value(pre) * 10 + d >= digits_value(pre)) by (nonlinear_arith)
                    requires
                        digits_value(pre) >= 0,
                        d >= 0,
                ;
            }
        }
        if !over {
            if acc > (limit - d) / 10 {
                over = true;
                proof {
                    assert(acc * 10 + d > limit) by (nonlinear_arith)
                        requires
                            acc > (limit - d) / 10,
                            d <= 9,
                            limit >= 9,
                    ;
                }
            } else {
                proof {
                    assert(acc * 10 + d <= limit) by (nonlinear_arith)
                        requires
                            acc <= (limit - d) / 10,
                            d <= 9,
                            limit >= 9,
                    ;
                }
                acc = acc * 10 + d;
            }
        }
        i = i + 1;
    }
    proof {
        assert(s@.subrange(start as int, n as int) =~= body);
        assert forall|j: int| 0 <= j < body.len() implies is_ascii_digit(#[trigger] body[j]) by {
            assert(body[j] == s@[start + j]);
        }
        if neg {
            assert(s@[0] == '-');
        } else if k == 1 {
            assert(s@[0] == '+');
        }
    }
    if over {
        return None;
    }
    if neg {
        if acc == 9223372036854775808 {
            Some(i64::MIN)
        } else {
            Some(-(acc as i64))
        }
    } else {
        Some(acc as i64)
    }
}

/// The pair a line of the pairs file names, if any: the line trimmed and in
/// upper case, unless that is empty or a `#` comment.
pub open spec fn pair_of_line(line: Seq<char>) -> Option<Seq<char>> {
    let t = uppercase(trimmed(line));
    if t.len() > 0 && t[0] != '#' {
        Some(t)
    } else {
        None
    }
}

/// The pairs named by the first `n` lines.
pub open spec fn pairs_of_lines(lines: Seq<Seq<char>>, n: int) -> Seq<Seq<char>>
    decreases n,
{
    if n <= 0 {
        Seq::empty()
    } else {
        match pair_of_line(lines[n - 1]) {
            Some(p) => pairs_of_lines(lines, n - 1).push(p),
            None => pairs_of_lines(lines, n - 1),
        }
    }
}

/// The pairs listed in the pairs file `content`: one per line, trimmed and
/// upper-cased, skipping empty lines and `#` comments, at most
/// [`BINANCE_MAX_PAIRS`] of them.
pub fn parse_pairs_file(content: &str) -> (r: Vec<String>)
    ensures
        ({
            let all = pairs_of_lines(lines_of(content@), lines_of(content@).len() as int);
            r@.map_values(|s: String| s@) == if all.len() > BINANCE_MAX_PAIRS {
                all.take(BINANCE_MAX_PAIRS as int)
            } else {
                all
            }
        }),
{
    let lines = str_lines(content);
    let ghost ls = lines_of(content@);
    let ghost all = pairs_of_lines(ls, ls.len() as int);
    let mut out: Vec<String> = Vec::new();
    let mut i: usize = 0;
    while i < lines.len() && out.len() < BINANCE_MAX_PAIRS
        invariant
            ls == lines@.map_values(|l: String| l@),
            i <= lines@.len(),
            out@.map_values(|s: String| s@) == pairs_of_lines(ls, i as int),
            out@.len() <= BINANCE_MAX_PAIRS,
        decreases lines@.len() - i,
    {
        let t = str_to_uppercase(str_trim(lines[i].as_str()));
        let keep = t.as_str().unicode_len() > 0 && t.as_str().get_char(0) != '#';
        let ghost before = out@;
        if keep {
            out.push(t);
        }
        proof {
            assert(lines@[i as int]@ == ls[i as int]);
            assert(out@.map_values(|s: String| s@) =~= pairs_of_lines(ls, i + 1));
        }
        i = i + 1;
    }
    proof {
        lemma_pairs_prefix(ls, i as int, ls.len() as int);
        if out@.len() < BINANCE_MAX_PAIRS {
            assert(i == ls.len());
        }
        assert(out@.map_values(|s: String| s@) =~= if all.len() > BINANCE_MAX_PAIRS {
            all.take(BINANCE_MAX_PAIRS as int)
        } else {
            all
        });
    }
    out
}

proof fn lemma_pairs_prefix(lines: Seq<Seq<char>>, a: int, b: int)
    requires
        0 <= a <= b <= lines.len(),
    ensures
        pairs_of_lines(lines, a).len() <= pairs_of_lines(lines, b).len(),
        pairs_of_lines(lines, b).take(pairs_of_lines(lines, a).len() as int) == pairs_of_lines(lines, a),
    decreases b - a,
{
    if a < b {
        lemma_pairs_prefix(lines, a, b - 1);
        let pa = pairs_of_lines(lines, a);
        let pb1 = pairs_of_lines(lines, b - 1);
        let pb = pairs_of_lines(lines, b);
        assert(pb.take(pa.len() as int) =~= pb1.take(pa.len() as int));
    } else {
        assert(pairs_of_lines(lines, b).take(pairs_of_lines(lines, a).len() as int) =~= pairs_of_lines(lines, a));
    }
}

/// First open time to fetch for a pair whose newest stored candle opened at
/// `last_time`: the millisecond after it, or from the beginning.
pub fn next_fetch_start(last_time: Option<i64>) -> (r: Option<i64>)
    requires
        last_time matches Some(t) ==> t < i64::MAX,
    ensures
        r == match last_time {
            Some(t) => Some((t + 1) as i64),
            None => None,
        },
{
    match last_time {
        Some(t) => Some(t + 1),
        None => None,
    }
}

/// `s` cut to `max_chars` characters: unchanged when it fits, otherwise its
/// first `max_chars - 1` characters followed by `…`.
pub fn truncate(s: &str, max_chars: usize) -> (r: String)
    requires
        s@.len() <= max_chars || max_chars > 0,
    ensures
        r@ == if s@.len() <= max_chars {
            s@
        } else {
            s@.subrange(0, max_chars - 1) + "\u{2026}"@
        },
{
    let n = s.unicode_len();
    if n <= max_chars {
        String::from_str(s)
    } else {
        let head = s.substring_char(0, max_chars - 1);
        concat_str(String::from_str(head), "\u{2026}")
    }
}

/// Which runs an analysis covers.
#[derive(Debug, Clone, Copy, PartialEq, Eq, Structural)]
pub enum RunSelector {
    All,
    Latest,
    Id(i64),
}

/// Reads the run option: `all`, `latest` or a run id, ignoring surrounding
/// white space and case; anything else is refused with a message.
pub fn parse_run_selector(spec: &str) -> (r: Result<RunSelector, String>)
    ensures
        ({
            let t = lowercase_of(trimmed(spec@));
            if t == "all"@ {
                r == Ok::<RunSelector, String>(RunSelector::All)
            } else if t == "latest"@ {
                r == Ok::<RunSelector, String>(RunSelector::Latest)
            } else {
                match parsed_i64(t) {
                    Some(n) => r == Ok::<RunSelector, String>(RunSelector::Id(n)),
                    None => r matches Err(m) && m@ == "--run-id must be a positive integer, 'latest', or 'all' (got '"@
                        + t + "')"@,
                }
            }
        }),
{
    let t = crate::stream::lowercase_string(str_trim(spec));
    let all = String::from_str("all");
    let latest = String::from_str("latest");
    if t == all {
        Ok(RunSelector::All)
    } else if t == latest {
        Ok(RunSelector::Latest)
    } else {
        match parse_i64(t.as_str()) {
            Some(n) => Ok(RunSelector::Id(n)),
            None => {
                let m = String::from_str("--run-id must be a positive integer, 'latest', or 'all' (got '");
                let m = concat_str(m, t.as_str());
                Err(concat_str(m, "')"))
            },
        }
    }
}

/// What `str::to_lowercase` makes of `s`.
pub open spec fn lowercase_of(s: Seq<char>) -> Seq<char> {
    crate::stream::lowercase(s)
}

/// Counts of recorded exits by reason.
#[derive(Debug, Clone, Copy, PartialEq, Eq, Structural)]
pub struct ExitTally {
    pub trade_count: i64,
    pub win_count: i64,
    pub loss_count: i64,
    pub timeout_count: i64,
}

/// Number of the first `n` reasons equal to `a` or to `b`.
pub open spec fn count_reasons(reasons: Seq<String>, n: int, a: Seq<char>, b: Seq<char>) -> nat
    decreases n,
{
    if n <= 0 {
        0
    } else {
        count_reasons(reasons, n - 1, a, b) + if reasons[n - 1]@ == a || reasons[n - 1]@ == b {
            1nat
        } else {
            0nat
        }
    }
}

proof fn lemma_count_reasons_bounded(reasons: Seq<String>, n: int, a: Seq<char>, b: Seq<char>)
    requires
        0 <= n,
    ensures
        count_reasons(reasons, n, a, b) <= n,
    decreases n,
{
    if n > 0 {
        lemma_count_reasons_bounded(reasons, n - 1, a, b);
    }
}

/// Tallies the exit reasons of a run's trades: `TargetHit` wins, `StopHit`
/// losses, and `Timeout` or `ManualClose` timeouts.
pub fn tally_exit_reasons(reasons: &Vec<String>) -> (r: ExitTally)
    requires
        reasons@.len() <= i64::MAX,
    ensures
        r.trade_count == reasons@.len(),
        r.win_count == count_reasons(reasons@, reasons@.len() as int, "TargetHit"@, "TargetHit"@),
        r.loss_count == count_reasons(reasons@, reasons@.len() as int, "StopHit"@, "StopHit"@),
        r.timeout_count == count_reasons(reasons@, reasons@.len() as int, "Timeout"@, "ManualClose"@),
{
    let target = String::from_str("TargetHit");
    let stop = String::from_str("StopHit");
    let timeout = String::from_str("Timeout");
    let manual = String::from_str("ManualClose");
    let mut wins: i64 = 0;
    let mut losses: i64 = 0;
    let mut timeouts: i64 = 0;
    let mut i: usize = 0;
    while i < reasons.len()
        invariant
            i <= reasons@.len(),
            reasons@.len() <= i64::MAX,
            target@ == "TargetHit"@,
            stop@ == "StopHit"@,
            timeout@ == "Timeout"@,
            manual@ == "ManualClose"@,
            wins == count_reasons(reasons@, i as int, "TargetHit"@, "TargetHit"@),
            losses == count_reasons(reasons@, i as int, "StopHit"@, "StopHit"@),
            timeouts == count_reasons(reasons@, i as int, "Timeout"@, "ManualClose"@),
        decreases reasons@.len() - i,
    {
        proof {
            lemma_count_reasons_bounded(reasons@, i as int, "TargetHit"@, "TargetHit"@);
            lemma_count_reasons_bounded(reasons@, i as int, "StopHit"@, "StopHit"@);
            lemma_count_reasons_bounded(reasons@, i as int, "Timeout"@, "ManualClose"@);
        }
        if reasons[i] == target {
            wins = wins + 1;
        }
        if reasons[i] == stop {
            losses = losses + 1;
        }
        if reasons[i] == timeout || reasons[i] == manual {
            timeouts = timeouts + 1;
        }
        i = i + 1;
    }
    ExitTally { trade_count: reasons.len() as i64, win_count: wins, loss_count: losses, timeout_count: timeouts }
}

/// Number of calibration entries among the first `n` in band `b` (only the
/// won ones when `wins_only`).
pub open spec fn band_count(entries: Seq<(usize, bool)>, n: int, b: int, wins_only: bool) -> nat
    decreases n,
{
    if n <= 0 {
        0
    } else {
        band_count(entries, n - 1, b, wins_only) + if entries[n - 1].0 == b && (!wins_only
            || entries[n - 1].1) {
            1nat
        } else {
            0nat
        }
    }
}

proof fn lemma_band_count_bounded(entries: Seq<(usize, bool)>, n: int, b: int, wins_only: bool)
    requires
        0 <= n,
    ensures
        band_count(entries, n, b, wins_only) <= n,
        band_count(entries, n, b, true) <= band_count(entries, n, b, false),
    decreases n,
{
    if n > 0 {
        lemma_band_count_bounded(entries, n - 1, b, wins_only);
    }
}

/// Per ten-percent band of predicted win rate (`entries` holds each trade's
/// band and whether it won): how many trades fall in the band, and how many
/// of those won.
pub fn calibration_bands(entries: &Vec<(usize, bool)>) -> (r: (Vec<usize>, Vec<usize>))
    requires
        forall|i: int| 0 <= i < entries@.len() ==> #[trigger] entries@[i].0 < 10,
    ensures
        r.0@.len() == 10,
        r.1@.len() == 10,
        forall|b: int| 0 <= b < 10 ==> #[trigger] r.0@[b] == band_count(entries@, entries@.len() as int, b, false),
        forall|b: int| 0 <= b < 10 ==> #[trigger] r.1@[b] == band_count(entries@, entries@.len() as int, b, true),
{
    let mut totals: Vec<usize> = vec![0, 0, 0, 0, 0, 0, 0, 0, 0, 0];
    let mut wins: Vec<usize> = vec![0, 0, 0, 0, 0, 0, 0, 0, 0, 0];
    let mut i: usize = 0;
    while i < entries.len()
        invariant
            i <= entries@.len(),
            forall|k: int| 0 <= k < entries@.len() ==> #[trigger] entries@[k].0 < 10,
            totals@.len() == 10,
            wins@.len() == 10,
            forall|b: int| 0 <= b < 10 ==> #[trigger] totals@[b] == band_count(entries@, i as int, b, false),
            forall|b: int| 0 <= b < 10 ==> #[trigger] wins@[b] == band_count(entries@, i as int, b, true),
        decreases entries@.len() - i,
    {
        let (band, won) = entries[i];
        proof {
            lemma_band_count_bounded(entries@, i as int, band as int, false);
            lemma_band_count_bounded(entries@, i as int, band as int, true);
        }
        let t = totals[band];
        totals.set(band, t + 1);
        if won {
            let w = wins[band];
            wins.set(band, w + 1);
        }
        i = i + 1;
    }
    (totals, wins)
}

} // verus!
