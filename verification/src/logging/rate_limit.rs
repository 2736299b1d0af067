//! Event rate limiting.
//!
//! A token bucket that drops events produced faster than the configured rate. Useful
//! for preventing tight-loop error floods from overwhelming log storage.

use vstd::arithmetic::div_mod;
use vstd::prelude::*;

verus! {

/// Rate-limit configuration.
#[derive(Debug, Clone, Copy, PartialEq, Eq, Structural)]
#[non_exhaustive]
pub struct RateLimit {
    /// Maximum events allowed per `per_secs` seconds.
    pub max_events: u64,
    /// Window size in seconds (1 is per second, 60 is per minute).
    pub per_secs: u64,
}

impl RateLimit {
    /// Allow at most `max_events` events per `per_secs` seconds.
    ///
    /// The two fields only make sense together, so they are set together rather than
    /// through separate chainable setters.
    pub fn new(max_events: u64, per_secs: u64) -> (limit: RateLimit)
        ensures
            limit.max_events == max_events,
            limit.per_secs == per_secs,
    {
        RateLimit { max_events, per_secs }
    }

    /// Allow at most `max_events` events per second.
    pub fn per_second(max_events: u64) -> (limit: RateLimit)
        ensures
            limit.max_events == max_events,
            limit.per_secs == 1,
    {
        RateLimit::new(max_events, 1)
    }

    /// Allow at most `max_events` events per minute.
    pub fn per_minute(max_events: u64) -> (limit: RateLimit)
        ensures
            limit.max_events == max_events,
            limit.per_secs == 60,
    {
        RateLimit::new(max_events, 60)
    }

    /// The window in nanoseconds. A token is worth this many units of credit, and a
    /// nanosecond earns `max_events` of them.
    pub open spec fn window(self) -> int {
        self.per_secs * 1_000_000_000
    }
}

/// What a token bucket holds.
pub struct BucketState {
    /// The credit, in units of one token divided by the window in nanoseconds. Where
    /// the window is empty, in tokens.
    pub credit: int,
    /// When the credit was last brought up to date, in nanoseconds.
    pub last: int,
}

/// What one token is worth.
pub open spec fn token(limit: RateLimit) -> int {
    if limit.per_secs == 0 {
        1
    } else {
        limit.window()
    }
}

/// The credit of a full bucket: `max_events` tokens.
pub open spec fn capacity(limit: RateLimit) -> int {
    limit.max_events * token(limit)
}

/// The credit at `now`: it grows by `max_events` tokens per window and stops at the
/// capacity. An empty window fills the bucket as soon as any time passes.
pub open spec fn refilled(limit: RateLimit, state: BucketState, now: int) -> BucketState {
    if now <= state.last {
        state
    } else if limit.per_secs == 0 {
        BucketState { credit: capacity(limit), last: now }
    } else {
        let credit = state.credit + (now - state.last) * limit.max_events;
        BucketState {
            credit: if credit < capacity(limit) {
                credit
            } else {
                capacity(limit)
            },
            last: now,
        }
    }
}

/// Whether an event at `now` passes, and the bucket afterwards. An event that passes
/// costs one token.
pub open spec fn admitted(limit: RateLimit, state: BucketState, now: int) -> (bool, BucketState) {
    let full = refilled(limit, state, now);
    if full.credit >= token(limit) {
        (true, BucketState { credit: full.credit - token(limit), last: full.last })
    } else {
        (false, full)
    }
}

/// How many of the events at the given times pass, and the bucket afterwards.
pub open spec fn run(limit: RateLimit, state: BucketState, times: Seq<int>) -> (nat, BucketState)
    decreases times.len(),
{
    if times.len() == 0 {
        (0, state)
    } else {
        let (count, before) = run(limit, state, times.drop_last());
        let (passed, after) = admitted(limit, before, times.last());
        (if passed {
            count + 1
        } else {
            count
        }, after)
    }
}

/// The limit holds: however many events there are, and whenever they come, those that
/// pass are no more than a full bucket and what is earned from the start to the last
/// of them.
pub proof fn law_rate_is_bounded(limit: RateLimit, start: int, times: Seq<int>, end: int)
    requires
        limit.per_secs > 0,
        forall|i: int| 0 <= i < times.len() ==> #[trigger] times[i] <= end,
        start <= end,
    ensures
        ({
            let full = BucketState { credit: capacity(limit), last: start };
            let (count, after) = run(limit, full, times);
            &&& count * limit.window() + after.credit <= capacity(limit) + (end - start)
                * limit.max_events
            &&& after.credit >= 0
        }),
{
    lemma_run(limit, start, times, end);
}

proof fn lemma_run(limit: RateLimit, start: int, times: Seq<int>, end: int)
    requires
        limit.per_secs > 0,
        forall|i: int| 0 <= i < times.len() ==> #[trigger] times[i] <= end,
        start <= end,
    ensures
        ({
            let full = BucketState { credit: capacity(limit), last: start };
            let (count, after) = run(limit, full, times);
            &&& start <= after.last <= end
            &&& 0 <= after.credit <= capacity(limit)
            &&& count * limit.window() + after.credit <= capacity(limit) + (after.last - start)
                * limit.max_events
            &&& (after.last - start) * limit.max_events <= (end - start) * limit.max_events
        }),
    decreases times.len(),
{
    let full = BucketState { credit: capacity(limit), last: start };
    let max = limit.max_events as int;
    let unit = limit.window();
    assert(capacity(limit) >= 0) by (nonlinear_arith)
        requires
            capacity(limit) == max * unit,
            max >= 0,
            unit >= 0,
    ;
    if times.len() == 0 {
        assert((start - start) * max == 0) by (nonlinear_arith);
        assert((end - start) * max >= 0) by (nonlinear_arith)
            requires
                start <= end,
                max >= 0,
        ;
        assert(0 * unit == 0);
    } else {
        let shorter = times.drop_last();
        assert forall|i: int| 0 <= i < shorter.len() implies #[trigger] shorter[i] <= end by {
            assert(shorter[i] == times[i]);
        }
        assert(times.last() == times[times.len() - 1]);
        lemma_run(limit, start, shorter, end);
        let (count, before) = run(limit, full, shorter);
        let now = times.last();
        let topped = refilled(limit, before, now);
        if now > before.last {
            assert((now - before.last) * max >= 0) by (nonlinear_arith)
                requires
                    now > before.last,
                    max >= 0,
            ;
            assert((now - before.last) * max + (before.last - start) * max == (now - start) * max)
                by (nonlinear_arith);
        }
        assert((topped.last - start) * max <= (end - start) * max) by (nonlinear_arith)
            requires
                topped.last <= end,
                max >= 0,
        ;
        assert((count + 1) * unit == count * unit + unit) by (nonlinear_arith);
    }
}

/// A burst: of the events that all come at the moment a full bucket is looked at,
/// the first `max_events` pass and the rest do not.
pub proof fn law_burst(limit: RateLimit, now: int, n: nat)
    requires
        limit.per_secs > 0,
    ensures
        ({
            let full = BucketState { credit: capacity(limit), last: now };
            let passed = if n <= limit.max_events {
                n
            } else {
                limit.max_events as nat
            };
            run(limit, full, Seq::new(n, |i: int| now)) == (
                passed,
                BucketState { credit: capacity(limit) - passed * limit.window(), last: now },
            )
        }),
    decreases n,
{
    let max = limit.max_events as int;
    let unit = limit.window();
    let full = BucketState { credit: capacity(limit), last: now };
    if n == 0 {
        assert(0 * unit == 0);
    } else {
        let shorter = (n - 1) as nat;
        law_burst(limit, now, shorter);
        let times = Seq::new(n, |i: int| now);
        assert(times.drop_last() =~= Seq::new(shorter, |i: int| now));
        assert(times.last() == now);
        if shorter < max {
            assert(max * unit - shorter * unit >= unit) by (nonlinear_arith)
                requires
                    shorter < max,
                    unit > 0,
            ;
            assert((shorter + 1) * unit == shorter * unit + unit) by (nonlinear_arith);
        } else {
            assert(max * unit - max * unit == 0);
        }
    }
}

/// A token-bucket rate limiter.
///
/// The bucket starts full and refills at `max_events / per_secs` per second, so a
/// burst of `max_events` passes immediately and the rest are dropped until it refills.
#[derive(Debug, Clone, Copy)]
pub struct RateLimiter {
    config: RateLimit,
    /// Whole tokens.
    whole: u64,
    /// The part of a token beyond them, in units of one token divided by the window in
    /// nanoseconds.
    part: u128,
    last: u64,
}

impl RateLimiter {
    /// The configuration.
    pub closed spec fn limit(self) -> RateLimit {
        self.config
    }

    /// What the bucket holds.
    pub closed spec fn bucket(self) -> BucketState {
        BucketState {
            credit: self.whole * token(self.config) + self.part,
            last: self.last as int,
        }
    }

    /// The bucket holds no more than its capacity.
    #[verifier::type_invariant]
    closed spec fn inv(self) -> bool {
        &&& self.whole <= self.config.max_events
        &&& self.whole == self.config.max_events ==> self.part == 0
        &&& self.config.per_secs == 0 ==> self.part == 0
        &&& self.config.per_secs > 0 ==> self.part < self.config.window()
    }

    /// Create a new rate limiter with the given configuration. `now` is the time in
    /// nanoseconds of a clock that never goes back.
    pub fn new(config: RateLimit, now: u64) -> (limiter: RateLimiter)
        ensures
            limiter.limit() == config,
            limiter.bucket() == (BucketState { credit: capacity(config), last: now as int }),
    {
        RateLimiter { config, whole: config.max_events, part: 0, last: now }
    }

    /// Consume a token. Returns `true` if the event should be allowed through. `now`
    /// is the time of the same clock.
    pub fn allow(&mut self, now: u64) -> (allowed: bool)
        ensures
            final(self).limit() == old(self).limit(),
            (allowed, final(self).bucket()) == admitted(
                old(self).limit(),
                old(self).bucket(),
                now as int,
            ),
    {
        proof {
            use_type_invariant(&*self);
        }
        let config: RateLimit = self.config;
        let mut whole: u64 = self.whole;
        let mut part: u128 = self.part;
        let mut last: u64 = self.last;
        let ghost before = self.bucket();
        let ghost unit = token(config);
        if now > last {
            if config.per_secs == 0 {
                whole = config.max_events;
                proof {
                    assert(whole * unit + part == capacity(config));
                }
            } else {
                let window: u128 = (config.per_secs as u128) * 1_000_000_000;
                let elapsed: u64 = now - last;
                proof {
                    assert(elapsed * config.max_events <= u128::MAX) by (nonlinear_arith)
                        requires
                            elapsed <= u64::MAX,
                            config.max_events <= u64::MAX,
                    ;
                }
                let earned: u128 = (elapsed as u128) * (config.max_events as u128);
                let tokens: u128 = earned / window;
                let rest: u128 = earned % window + part;
                proof {
                    div_mod::lemma_div_is_ordered_by_denominator(earned as int, 2, window as int);
                    div_mod::lemma_div_is_ordered_by_denominator(rest as int, 2, window as int);
                }
                let more: u128 = tokens + rest / window;
                let left: u128 = rest % window;
                proof {
                    lemma_refill(
                        whole as int,
                        part as int,
                        earned as int,
                        window as int,
                        more as int,
                        left as int,
                    );
                }
                if more >= (config.max_events - whole) as u128 {
                    proof {
                        lemma_overflows(
                            whole as int,
                            more as int,
                            left as int,
                            window as int,
                            config.max_events as int,
                        );
                    }
                    whole = config.max_events;
                    part = 0;
                } else {
                    proof {
                        lemma_below(
                            whole as int,
                            more as int,
                            left as int,
                            window as int,
                            config.max_events as int,
                        );
                    }
                    whole = whole + more as u64;
                    part = left;
                }
            }
            last = now;
        }
        proof {
            assert(BucketState { credit: whole * unit + part, last: last as int } == refilled(
                config,
                before,
                now as int,
            ));
            assert(whole > 0 ==> whole * unit + part >= unit) by (nonlinear_arith)
                requires
                    unit >= 0,
                    part >= 0,
                    whole >= 0,
            ;
            assert(whole > 0 ==> (whole - 1) * unit == whole * unit - unit) by (nonlinear_arith);
            assert(whole == 0 ==> whole * unit == 0) by (nonlinear_arith);
        }
        let allowed: bool = whole > 0;
        if allowed {
            whole = whole - 1;
        }
        *self = RateLimiter { config, whole, part, last };
        allowed
    }
}

proof fn lemma_refill(
    whole: int,
    part: int,
    earned: int,
    window: int,
    more: int,
    left: int,
)
    requires
        window > 0,
        earned >= 0,
        part >= 0,
        more == earned / window + (earned % window + part) / window,
        left == (earned % window + part) % window,
    ensures
        (whole + more) * window + left == whole * window + part + earned,
{
    let rest = earned % window + part;
    div_mod::lemma_fundamental_div_mod(earned, window);
    div_mod::lemma_fundamental_div_mod(rest, window);
    assert((whole + more) * window + left == whole * window + part + earned) by (nonlinear_arith)
        requires
            earned == window * (earned / window) + earned % window,
            rest == window * (rest / window) + rest % window,
            rest == earned % window + part,
            more == earned / window + rest / window,
            left == rest % window,
    ;
}

proof fn lemma_overflows(whole: int, more: int, left: int, window: int, max: int)
    requires
        window > 0,
        left >= 0,
        whole + more >= max,
    ensures
        (whole + more) * window + left >= max * window,
{
    assert((whole + more) * window >= max * window) by (nonlinear_arith)
        requires
            window > 0,
            whole + more >= max,
    ;
}

proof fn lemma_below(whole: int, more: int, left: int, window: int, max: int)
    requires
        0 <= left < window,
        whole + more < max,
    ensures
        (whole + more) * window + left < max * window,
{
    assert((whole + more) * window + left < max * window) by (nonlinear_arith)
        requires
            0 <= left < window,
            whole + more < max,
    ;
}

/// Waiting earns tokens: with the window in nanoseconds, `d` nanoseconds earn `d` times
/// `max_events` of it, up to a full bucket of `max_events` windows and no more. A clock
/// that stands still, or goes back, earns nothing.
pub proof fn law_waiting_earns(limit: RateLimit, state: BucketState, d: int)
    requires
        limit.per_secs > 0,
        state.credit <= limit.max_events * (limit.per_secs * 1_000_000_000),
    ensures
        ({
            let full = limit.max_events * (limit.per_secs * 1_000_000_000);
            let earned = state.credit + d * limit.max_events;
            let after = refilled(limit, state, state.last + d);
            if d <= 0 {
                after == state
            } else {
                &&& after.last == state.last + d
                &&& earned <= full ==> after.credit == earned
                &&& earned > full ==> after.credit == full
            }
        }),
{
}

/// Looking at the bucket in between does not change what is earned: waiting once is
/// waiting in two parts.
pub proof fn law_waiting_adds_up(limit: RateLimit, state: BucketState, a: int, b: int)
    requires
        state.last <= a <= b,
        state.credit <= capacity(limit),
        limit.per_secs > 0,
    ensures
        refilled(limit, refilled(limit, state, a), b) == refilled(limit, state, b),
{
    let max = limit.max_events as int;
    assert((a - state.last) * max + (b - a) * max == (b - state.last) * max) by (nonlinear_arith);
    assert((b - a) * max >= 0) by (nonlinear_arith)
        requires
            a <= b,
            max >= 0,
    ;
    assert(a == b ==> (b - a) * max == 0);
    assert(a == state.last ==> (a - state.last) * max == 0);
}

/// An event passes exactly where a whole token is there, costs exactly that token where
/// it passes, and nothing where it does not.
pub proof fn law_one_event_one_token(limit: RateLimit, state: BucketState, now: int)
    requires
        limit.per_secs > 0,
    ensures
        ({
            let there = refilled(limit, state, now);
            let (passed, after) = admitted(limit, state, now);
            &&& passed <==> there.credit >= limit.per_secs * 1_000_000_000
            &&& passed ==> after.credit == there.credit - limit.per_secs * 1_000_000_000
            &&& !passed ==> after.credit == there.credit
            &&& after.last == there.last
        }),
{
}

/// The limiter lets through what it promises: an event that comes at least one
/// `max_events`-th of the window after the bucket was last looked at passes, whatever
/// came before.
pub proof fn law_paced_events_pass(limit: RateLimit, state: BucketState, now: int)
    requires
        limit.per_secs > 0,
        limit.max_events > 0,
        0 <= state.credit <= capacity(limit),
        (now - state.last) * limit.max_events >= limit.per_secs * 1_000_000_000,
    ensures
        admitted(limit, state, now).0,
{
    let max = limit.max_events as int;
    let unit = limit.per_secs * 1_000_000_000;
    assert(now > state.last) by (nonlinear_arith)
        requires
            (now - state.last) * max >= unit,
            unit > 0,
            max > 0,
    ;
    assert(max * unit >= unit) by (nonlinear_arith)
        requires
            max > 0,
            unit > 0,
    ;
}

/// A quiet window fills the bucket, so that a whole burst passes again; a limit of no
/// events passes none.
pub proof fn law_quiet_window_fills(limit: RateLimit, state: BucketState, now: int)
    requires
        0 <= state.credit <= capacity(limit),
        limit.per_secs > 0,
    ensures
        now - state.last >= limit.per_secs * 1_000_000_000 ==> refilled(limit, state, now)
            == (BucketState { credit: capacity(limit), last: now }),
        limit.max_events == 0 ==> !admitted(limit, state, now).0,
        capacity(limit) == limit.max_events * (limit.per_secs * 1_000_000_000),
{
    let max = limit.max_events as int;
    let unit = limit.per_secs * 1_000_000_000;
    let d = now - state.last;
    if d >= unit {
        assert(d * max >= max * unit) by (nonlinear_arith)
            requires
                d >= unit,
                max >= 0,
        ;
    }
    if max == 0 {
        assert(max * unit == 0) by (nonlinear_arith)
            requires
                max == 0,
        ;
        assert(d * max == 0) by (nonlinear_arith)
            requires
                max == 0,
        ;
    }
}

/// With an empty window a token is an event, and the bucket is full again as soon as the
/// clock moves.
pub proof fn law_empty_window(limit: RateLimit, state: BucketState, now: int)
    requires
        limit.per_secs == 0,
    ensures
        now > state.last ==> refilled(limit, state, now) == (BucketState {
            credit: limit.max_events as int,
            last: now,
        }),
        now <= state.last ==> refilled(limit, state, now) == state,
        now > state.last ==> (admitted(limit, state, now).0 <==> limit.max_events > 0),
        admitted(limit, state, now).0 ==> admitted(limit, state, now).1.credit == refilled(
            limit,
            state,
            now,
        ).credit - 1,
        !admitted(limit, state, now).0 ==> admitted(limit, state, now).1 == refilled(
            limit,
            state,
            now,
        ),
{
    assert(limit.max_events * 1 == limit.max_events);
}

} // verus!
