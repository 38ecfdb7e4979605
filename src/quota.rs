//! Decisions of the API quota governor. Instants are milliseconds on the
//! caller's monotonic clock; the caller sleeps when told to wait and asks again.
use vstd::prelude::*;
use crate::text::chars_of;

verus! {

/// Length of the polite rolling window, in milliseconds.
pub const WINDOW_MS: u64 = 60000;

/// Calls allowed in one rolling window.
pub const WINDOW_CAP: u32 = 30;

/// Quota assumed before the service has reported any.
pub const INITIAL_QUOTA: u32 = 5000;

/// What the governor tells a caller about to make a call.
#[derive(Debug, Clone, Copy, PartialEq, Eq, Structural)]
pub enum Gate {
    /// Make the call now; it has been counted.
    Proceed,
    /// Sleep this many milliseconds, then ask again.
    Wait(u64),
}

/// Known remaining quota, when it resets, and the calls of the current window.
#[derive(Debug, Clone, Copy, PartialEq, Eq, Structural)]
pub struct RateLimitState {
    pub remaining: u32,
    pub reset_at: Option<u64>,
    pub requests_this_minute: u32,
    pub minute_start: u64,
}

/// Milliseconds from `start` to `now`, none when `now` is earlier.
pub open spec fn elapsed(start: u64, now: u64) -> nat {
    if now >= start { (now - start) as nat } else { 0 }
}

/// The wait the quota and the window demand before a call at `now`, if any.
pub open spec fn gate_of(s: RateLimitState, now: u64) -> Gate {
    if s.remaining == 0 && s.reset_at is Some && s.reset_at->0 > now {
        Gate::Wait((s.reset_at->0 - now) as u64)
    } else if elapsed(s.minute_start, now) < WINDOW_MS && s.requests_this_minute >= WINDOW_CAP {
        Gate::Wait((WINDOW_MS - elapsed(s.minute_start, now)) as u64)
    } else {
        Gate::Proceed
    }
}

/// The digits of `s` read as a decimal number.
pub open spec fn digits_value(s: Seq<char>) -> nat
    decreases s.len(),
{
    if s.len() == 0 { 0 } else { (digits_value(s.drop_last()) * 10 + (s.last() as u32 - '0' as u32)) as nat }
}

pub open spec fn all_digits(s: Seq<char>) -> bool {
    forall|i: int| 0 <= i < s.len() ==> '0' <= #[trigger] s[i] && s[i] <= '9'
}

/// The unsigned number `s` writes, as `str::parse` reads it: an optional `+`
/// and at least one digit, at most `max`.
pub open spec fn parsed(s: Seq<char>, max: nat) -> Option<nat> {
    let d = if s.len() > 0 && s[0] == '+' { s.drop_first() } else { s };
    if d.len() > 0 && all_digits(d) && digits_value(d) <= max { Some(digits_value(d)) } else { None }
}

proof fn lemma_digits_grow(s: Seq<char>, i: int)
    requires
        0 <= i <= s.len(),
        all_digits(s),
    ensures
        digits_value(s.take(i)) <= digits_value(s),
    decreases s.len() - i,
{
    if i < s.len() {
        lemma_digits_grow(s, i + 1);
        assert(s.take(i + 1).drop_last() =~= s.take(i));
        assert('0' <= s[i] <= '9');
    } else {
        assert(s.take(i) =~= s);
    }
}

/// The unsigned number that `s` writes, when it is at most `max`.
pub fn parse_decimal(s: &str, max: u64) -> (r: Option<u64>)
    ensures
        parsed(s@, max as nat) == (match r {
            Some(v) => Some(v as nat),
            None => None,
        }),
{
    let cs = chars_of(s);
    let start: usize = if cs.len() > 0 && cs[0] == '+' { 1 } else { 0 };
    let ghost d = if s@.len() > 0 && s@[0] == '+' { s@.drop_first() } else { s@ };
    assert(d =~= cs@.subrange(start as int, cs@.len() as int));
    if start >= cs.len() {
        assert(d.len() == 0);
        return None;
    }
    let mut value: u128 = 0;
    let mut i: usize = start;
    while i < cs.len()
        invariant
            start <= i <= cs@.len(),
            cs@ == s@,
            d == (if s@.len() > 0 && s@[0] == '+' { s@.drop_first() } else { s@ }),
            d == cs@.subrange(start as int, cs@.len() as int),
            all_digits(d.take(i - start)),
            value == digits_value(d.take(i - start)),
            value <= max,
        decreases cs.len() - i,
    {
        let c = cs[i];
        proof {
            assert(d.take(i - start + 1).drop_last() =~= d.take(i - start));
            assert(d.take(i - start + 1).last() == c);
        }
        if c < '0' || c > '9' {
            assert(d[i - start] == c);
            assert(!all_digits(d));
            assert(parsed(s@, max as nat) is None);
            return None;
        }
        value = value * 10 + (c as u32 - '0' as u32) as u128;
        if value > max as u128 {
            proof {
                assert(all_digits(d.take(i - start + 1)));
                if all_digits(d) {
                    lemma_digits_grow(d, i - start + 1);
                }
                assert(parsed(s@, max as nat) is None);
            }
            return None;
        }
        i = i + 1;
    }
    assert(d.take(i - start) =~= d);
    Some(value as u64)
}

/// The reset instant after reading the reset header `reset` at `now`
/// (wall clock `now_epoch`): kept unless the header names a time ahead.
pub open spec fn reset_after(before: Option<u64>, reset: Option<&str>, now_epoch: u64, now: u64) -> Option<u64> {
    match reset {
        Some(t) => match parsed(t@, u64::MAX as nat) {
            Some(e) => if e > now_epoch {
                Some((if now + (e - now_epoch) * 1000 > u64::MAX { u64::MAX as int } else { now + (e - now_epoch) * 1000 }) as u64)
            } else {
                before
            },
            None => before,
        },
        None => before,
    }
}

impl RateLimitState {
    /// The state at construction: optimistic quota, no reset known, an empty window from `now`.
    pub fn new(now: u64) -> (r: RateLimitState)
        ensures
            r.remaining == INITIAL_QUOTA,
            r.reset_at is None,
            r.requests_this_minute == 0,
            r.minute_start == now,
    {
        RateLimitState { remaining: INITIAL_QUOTA, reset_at: None, requests_this_minute: 0, minute_start: now }
    }

    /// Gates a call at instant `now`: wait for the quota reset when the quota
    /// is spent, wait for the window to pass when it is full, else count the
    /// call, opening a new window when the old one has passed.
    pub fn before_call(&mut self, now: u64) -> (r: Gate)
        ensures
            r == gate_of(*old(self), now),
            r is Wait ==> *final(self) == *old(self),
            r is Proceed ==> final(self).remaining == old(self).remaining
                && final(self).reset_at == old(self).reset_at
                && (elapsed(old(self).minute_start, now) >= WINDOW_MS ==>
                    final(self).requests_this_minute == 1 && final(self).minute_start == now)
                && (elapsed(old(self).minute_start, now) < WINDOW_MS ==>
                    final(self).requests_this_minute == old(self).requests_this_minute + 1
                    && final(self).minute_start == old(self).minute_start),
    {
        if self.remaining == 0 {
            if let Some(reset_at) = self.reset_at {
                if reset_at > now {
                    return Gate::Wait(reset_at - now);
                }
            }
        }
        let e: u64 = if now >= self.minute_start { now - self.minute_start } else { 0 };
        if e < WINDOW_MS {
            if self.requests_this_minute >= WINDOW_CAP {
                return Gate::Wait(WINDOW_MS - e);
            }
        } else {
            self.requests_this_minute = 0;
            self.minute_start = now;
        }
        self.requests_this_minute = self.requests_this_minute + 1;
        Gate::Proceed
    }

    /// Records the quota the service reported at instant `now` (wall clock
    /// `now_epoch`, in seconds): the remaining count, and the reset when it
    /// lies ahead, held to the largest instant the clock can name.
    pub fn record_quota(&mut self, remaining: u32, reset_epoch: Option<u64>, now_epoch: u64, now: u64)
        ensures
            final(self).remaining == remaining,
            final(self).requests_this_minute == old(self).requests_this_minute,
            final(self).minute_start == old(self).minute_start,
            (reset_epoch is Some && reset_epoch->0 > now_epoch) ==> final(self).reset_at == Some(
                (if now + (reset_epoch->0 - now_epoch) * 1000 > u64::MAX { u64::MAX as int } else { now + (reset_epoch->0 - now_epoch) * 1000 }) as u64,
            ),
            !(reset_epoch is Some && reset_epoch->0 > now_epoch) ==> final(self).reset_at == old(self).reset_at,
    {
        self.remaining = remaining;
        if let Some(reset) = reset_epoch {
            if reset > now_epoch {
                let at: u128 = now as u128 + (reset - now_epoch) as u128 * 1000;
                self.reset_at = Some(if at > u64::MAX as u128 { u64::MAX } else { at as u64 });
            }
        }
    }

    /// Applies the quota headers of a response: nothing unless the remaining
    /// count reads as a number; the reset is read only alongside it.
    pub fn apply_quota_headers(&mut self, remaining: Option<&str>, reset: Option<&str>, now_epoch: u64, now: u64)
        ensures
            (remaining is None || parsed(remaining->0@, u32::MAX as nat) is None) ==> *final(self) == *old(self),
            (remaining is Some && parsed(remaining->0@, u32::MAX as nat) is Some) ==> {
                &&& final(self).remaining as nat == parsed(remaining->0@, u32::MAX as nat)->0
                &&& final(self).requests_this_minute == old(self).requests_this_minute
                &&& final(self).minute_start == old(self).minute_start
                &&& final(self).reset_at == reset_after(old(self).reset_at, reset, now_epoch, now)
            },
    {
        if let Some(text) = remaining {
            if let Some(n) = parse_decimal(text, u32::MAX as u64) {
                let reset_epoch = match reset {
                    Some(t) => parse_decimal(t, u64::MAX),
                    None => None,
                };
                self.record_quota(n as u32, reset_epoch, now_epoch, now);
            }
        }
    }
}

/// The quota governor's call is not refused, only delayed: a call is gated
/// to wait only while the quota is spent with a reset ahead or the window is full.
pub proof fn lemma_gate_only_delays(s: RateLimitState, now: u64)
    ensures
        gate_of(s, now) is Wait ==> (s.remaining == 0 && s.reset_at is Some && s.reset_at->0 > now)
            || (elapsed(s.minute_start, now) < WINDOW_MS && s.requests_this_minute >= WINDOW_CAP),
        gate_of(s, now) matches Gate::Wait(ms) ==> ms > 0,
{
}

} // verus!
