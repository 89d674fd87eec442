use vstd::prelude::*;

verus! {

/// Request-weight budget shared by all exchange calls: at most `limit`
/// weight per wall-clock minute.
#[derive(Debug, Clone, Copy, PartialEq, Eq, Structural)]
pub struct GlobalRateLimiter {
    used_weight: u32,
    current_minute_idx: u64,
    limit: u32,
}

/// One attempt to spend `cost` at minute `now` against a budget of `cap`
/// that has `used` spent in minute `minute`: the minute counted afterwards,
/// the weight spent in it, and whether the attempt was granted. A later
/// minute starts afresh; an earlier one is charged to the minute counted.
pub open spec fn acquire_outcome(minute: u64, used: int, cap: u32, cost: u32, now: u64) -> (u64, int, bool) {
    let fresh = now > minute;
    let base = if fresh {
        0
    } else {
        used
    };
    let granted = base + cost <= cap;
    (if fresh {
        now
    } else {
        minute
    }, if granted {
        base + cost
    } else {
        base
    }, granted)
}

/// Minute counted and weight spent after the first `n` of `attempts`
/// (each a cost and the minute it is made in), from `(minute0, used0)`.
pub open spec fn state_after(minute0: u64, used0: int, cap: u32, attempts: Seq<(u32, u64)>, n: int) -> (u64, int)
    decreases n,
{
    if n <= 0 {
        (minute0, used0)
    } else {
        let s = state_after(minute0, used0, cap, attempts, n - 1);
        let o = acquire_outcome(s.0, s.1, cap, attempts[n - 1].0, attempts[n - 1].1);
        (o.0, o.1)
    }
}

/// Weight charged to minute `m` by the first `n` of `attempts`, counting
/// the `used0` already spent in `minute0`.
pub open spec fn charged(minute0: u64, used0: int, cap: u32, attempts: Seq<(u32, u64)>, n: int, m: u64) -> int
    decreases n,
{
    if n <= 0 {
        if m == minute0 {
            used0
        } else {
            0
        }
    } else {
        let s = state_after(minute0, used0, cap, attempts, n - 1);
        let o = acquire_outcome(s.0, s.1, cap, attempts[n - 1].0, attempts[n - 1].1);
        charged(minute0, used0, cap, attempts, n - 1, m) + if o.2 && o.0 == m {
            attempts[n - 1].0 as int
        } else {
            0
        }
    }
}

proof fn lemma_charged(minute0: u64, used0: int, cap: u32, attempts: Seq<(u32, u64)>, n: int)
    requires
        0 <= used0 <= cap,
        0 <= n <= attempts.len(),
    ensures
        ({
            let s = state_after(minute0, used0, cap, attempts, n);
            &&& 0 <= s.1 <= cap
            &&& charged(minute0, used0, cap, attempts, n, s.0) == s.1
            &&& forall|m: u64| m < s.0 ==> #[trigger] charged(minute0, used0, cap, attempts, n, m) <= cap
            &&& forall|m: u64| m > s.0 ==> #[trigger] charged(minute0, used0, cap, attempts, n, m) == 0
        }),
    decreases n,
{
    if n > 0 {
        lemma_charged(minute0, used0, cap, attempts, n - 1);
        let s = state_after(minute0, used0, cap, attempts, n - 1);
        let o = acquire_outcome(s.0, s.1, cap, attempts[n - 1].0, attempts[n - 1].1);
        assert forall|m: u64| m < o.0 implies #[trigger] charged(minute0, used0, cap, attempts, n, m) <= cap by {
            assert(charged(minute0, used0, cap, attempts, n, m) == charged(minute0, used0, cap, attempts, n - 1, m));
            if m == s.0 {
            } else if m < s.0 {
            }
        }
        assert forall|m: u64| m > o.0 implies #[trigger] charged(minute0, used0, cap, attempts, n, m) == 0 by {
            assert(charged(minute0, used0, cap, attempts, n, m) == charged(minute0, used0, cap, attempts, n - 1, m));
        }
        if o.0 > s.0 {
            assert(charged(minute0, used0, cap, attempts, n - 1, o.0) == 0);
        }
    }
}

/// However the attempts come, and whatever minutes the clock reports, the
/// weight granted against any one minute, together with what was already
/// spent in it, sums to at most the limit.
pub proof fn law_minute_charges_within_limit(
    minute0: u64,
    used0: int,
    cap: u32,
    attempts: Seq<(u32, u64)>,
    m: u64,
)
    requires
        0 <= used0 <= cap,
    ensures
        charged(minute0, used0, cap, attempts, attempts.len() as int, m) <= cap,
{
    lemma_charged(minute0, used0, cap, attempts, attempts.len() as int);
}

impl GlobalRateLimiter {
    /// Weight used in the current minute.
    pub closed spec fn used(&self) -> u32 {
        self.used_weight
    }

    /// The minute being counted (minutes since the Unix epoch).
    pub closed spec fn minute(&self) -> u64 {
        self.current_minute_idx
    }

    /// Weight allowed per minute.
    pub closed spec fn cap(&self) -> u32 {
        self.limit
    }

    /// The budget is never overdrawn.
    pub open spec fn wf(&self) -> bool {
        self.used() <= self.cap()
    }

    /// A fresh budget of `limit` per minute, counting from minute
    /// `now_minute_idx`.
    pub fn new(limit: u32, now_minute_idx: u64) -> (r: Self)
        ensures
            r.wf(),
            r.used() == 0,
            r.cap() == limit,
            r.minute() == now_minute_idx,
    {
        GlobalRateLimiter { used_weight: 0, current_minute_idx: now_minute_idx, limit }
    }

    /// Tries to spend `cost` at minute `now_minute_idx`: a later minute than
    /// the one counted starts a fresh budget; the weight is spent, and
    /// `true` returned, when it fits in what is left.
    pub fn try_acquire(&mut self, cost: u32, now_minute_idx: u64) -> (granted: bool)
        requires
            old(self).wf(),
        ensures
            final(self).wf(),
            final(self).cap() == old(self).cap(),
            (final(self).minute(), final(self).used() as int, granted) == acquire_outcome(
                old(self).minute(),
                old(self).used() as int,
                old(self).cap(),
                cost,
                now_minute_idx,
            ),
    {
        if now_minute_idx > self.current_minute_idx {
            self.used_weight = 0;
            self.current_minute_idx = now_minute_idx;
        }
        if (self.used_weight as u64) + (cost as u64) <= self.limit as u64 {
            self.used_weight = self.used_weight + cost;
            true
        } else {
            false
        }
    }
}

/// Seconds from `now_secs` (since the Unix epoch) to the start of the next
/// minute: between 1 and 60.
pub fn secs_until_next_minute(now_secs: u64) -> (r: u64)
    ensures
        r == 60 - now_secs % 60,
        1 <= r <= 60,
{
    60 - now_secs % 60
}

/// Minute index of `now_secs` (seconds since the Unix epoch).
pub fn minute_index(now_secs: u64) -> (r: u64)
    ensures
        r == now_secs / 60,
{
    now_secs / 60
}

} // verus!
