//! Token bucket that bounds the aggregate download rate.
//!
//! Time is a count of nanoseconds that the caller reads from a monotonic
//! clock. Tokens are kept in billionths of a byte, so that refilling at a
//! whole number of bytes per second over a whole number of nanoseconds is
//! exact. The bucket holds at most one second's worth of tokens.

use vstd::prelude::*;

verus! {

/// Nanoseconds in a second, and billionths in a byte.
pub const NANOS_PER_SEC: u64 = 1000000000;

/// A token bucket; without a rate it admits everything at once.
#[derive(Debug, Clone, Copy)]
pub struct RateLimiter {
    /// Bytes per second, if the rate is bounded.
    pub bytes_per_sec: Option<u64>,
    /// Tokens in the bucket, in billionths of a byte.
    pub available: u128,
    /// When the bucket was last refilled, in nanoseconds.
    pub last: u64,
}

/// Most tokens that the bucket holds at a rate of `bps` bytes per second.
pub open spec fn capacity(bps: nat) -> nat {
    bps * (NANOS_PER_SEC as nat)
}

/// Tokens in the bucket after `elapsed` nanoseconds of refilling.
pub open spec fn refilled(available: nat, bps: nat, elapsed: nat) -> nat {
    if available + elapsed * bps <= capacity(bps) {
        available + elapsed * bps
    } else {
        capacity(bps)
    }
}

/// Nanoseconds between `last` and `now`; none where the clock did not move
/// forward.
pub open spec fn elapsed_since(last: nat, now: nat) -> nat {
    if now > last {
        (now - last) as nat
    } else {
        0
    }
}

/// Tokens that `n` bytes cost.
pub open spec fn cost(n: nat) -> nat {
    n * (NANOS_PER_SEC as nat)
}

/// Nanoseconds in which a rate of `bps` bytes per second refills `deficit`
/// tokens, rounded up; the longest wait that can be said where the rate is
/// zero or the wait is longer than that.
pub open spec fn wait_for(deficit: nat, bps: nat) -> nat {
    if bps == 0 {
        u64::MAX as nat
    } else if div_up(deficit, bps) > u64::MAX {
        u64::MAX as nat
    } else {
        div_up(deficit, bps)
    }
}

/// `a` divided by `b`, rounded up.
pub open spec fn div_up(a: nat, b: nat) -> nat {
    ((a + b - 1) / (b as int)) as nat
}

/// The bucket of a limiter at rate `bps` right after it was refilled at
/// time `now`.
pub open spec fn filled_at(before: RateLimiter, bps: u64, now: u64) -> nat {
    refilled(before.available as nat, bps as nat, elapsed_since(before.last as nat, now as nat))
}

/// The limiter after it was asked at time `now` to admit `n` bytes.
pub open spec fn after_consume(before: RateLimiter, now: u64, n: u64) -> RateLimiter {
    match before.bytes_per_sec {
        None => before,
        Some(bps) => RateLimiter {
            bytes_per_sec: before.bytes_per_sec,
            available: if filled_at(before, bps, now) >= cost(n as nat) {
                (filled_at(before, bps, now) - cost(n as nat)) as u128
            } else {
                0
            },
            last: if now > before.last {
                now
            } else {
                before.last
            },
        },
    }
}

/// For how many nanoseconds a caller waits that asks at time `now` to
/// admit `n` bytes.
pub open spec fn wait_of(before: RateLimiter, now: u64, n: u64) -> nat {
    match before.bytes_per_sec {
        None => 0,
        Some(bps) => if filled_at(before, bps, now) >= cost(n as nat) {
            0
        } else {
            wait_for((cost(n as nat) - filled_at(before, bps, now)) as nat, bps as nat)
        },
    }
}

/// What [`RateLimiter::consume`] leaves and returns.
pub open spec fn consumed(before: RateLimiter, after: RateLimiter, now: u64, n: u64, wait: u64) -> bool {
    after == after_consume(before, now, n) && wait == wait_of(before, now, n)
}

impl RateLimiter {
    /// A limiter with a full bucket at time `now`.
    pub fn new(bytes_per_sec: Option<u64>, now: u64) -> (out: RateLimiter)
        ensures
            out.bytes_per_sec == bytes_per_sec,
            out.last == now,
            out.available == match bytes_per_sec {
                Some(bps) => capacity(bps as nat),
                None => 0,
            },
    {
        let available: u128 = match bytes_per_sec {
            Some(bps) => {
                assert(bps * NANOS_PER_SEC <= u64::MAX * NANOS_PER_SEC) by (nonlinear_arith)
                    requires
                        bps <= u64::MAX,
                ;
                (bps as u128) * (NANOS_PER_SEC as u128)
            },
            None => 0,
        };
        RateLimiter { bytes_per_sec, available, last: now }
    }

    /// Asks to admit `n` bytes at time `now`; returns for how many
    /// nanoseconds the caller has to wait before it lets them through.
    ///
    /// The bucket is first refilled for the time since the last call, up to
    /// its capacity. If it then holds enough, the bytes are paid from it and
    /// the wait is zero. Otherwise the bucket is emptied and the wait is the
    /// time in which the rate refills what was lacking.
    pub fn consume(&mut self, now: u64, n: u64) -> (wait: u64)
        ensures
            consumed(*old(self), *final(self), now, n, wait),
    {
        match self.bytes_per_sec {
            None => 0,
            Some(bps) => {
                let dt: u64 = if now > self.last {
                    now - self.last
                } else {
                    0
                };
                if now > self.last {
                    self.last = now;
                }
                assert(dt * bps <= u64::MAX * u64::MAX) by (nonlinear_arith)
                    requires
                        dt <= u64::MAX,
                        bps <= u64::MAX,
                ;
                assert(bps * NANOS_PER_SEC <= u64::MAX * NANOS_PER_SEC) by (nonlinear_arith)
                    requires
                        bps <= u64::MAX,
                ;
                assert(n * NANOS_PER_SEC <= u64::MAX * NANOS_PER_SEC) by (nonlinear_arith)
                    requires
                        n <= u64::MAX,
                ;
                let gain: u128 = (dt as u128) * (bps as u128);
                let cap: u128 = (bps as u128) * (NANOS_PER_SEC as u128);
                let filled: u128 = match self.available.checked_add(gain) {
                    Some(sum) => if sum <= cap {
                        sum
                    } else {
                        cap
                    },
                    None => cap,
                };
                let need: u128 = (n as u128) * (NANOS_PER_SEC as u128);
                if filled >= need {
                    self.available = filled - need;
                    0
                } else {
                    self.available = 0;
                    let deficit: u128 = need - filled;
                    if bps == 0 {
                        u64::MAX
                    } else {
                        let rate: u128 = bps as u128;
                        let whole: u128 = (deficit + (rate - 1)) / rate;
                        if whole > u64::MAX as u128 {
                            u64::MAX
                        } else {
                            whole as u64
                        }
                    }
                }
            },
        }
    }
}

/// The wait covers the deficit and is the shortest that does: at the rate
/// given, the wait refills at least what was lacking, and one nanosecond
/// less would not.
pub proof fn lemma_wait_covers_deficit(deficit: nat, bps: nat)
    requires
        bps > 0,
        wait_for(deficit, bps) < u64::MAX,
    ensures
        wait_for(deficit, bps) * bps >= deficit,
        deficit > 0 ==> (wait_for(deficit, bps) - 1) * bps < deficit,
        deficit == 0 ==> wait_for(deficit, bps) == 0,
{
    let w = (deficit + bps - 1) / (bps as int);
    assert(w * bps >= deficit && (deficit > 0 ==> (w - 1) * bps < deficit) && (deficit == 0 ==> w
        == 0) && w >= 0) by (nonlinear_arith)
        requires
            bps > 0,
            deficit >= 0,
            w == (deficit + bps - 1) / (bps as int),
    ;
}

/// Every admitted byte is paid for: what a call takes from the bucket and
/// what its wait refills together cover the cost of the bytes, and the
/// bucket never holds more than one second's worth.
pub proof fn lemma_consume_pays(before: RateLimiter, now: u64, n: u64)
    requires
        before.bytes_per_sec matches Some(bps) && bps > 0,
        wait_of(before, now, n) < u64::MAX,
    ensures
        ({
            let bps = before.bytes_per_sec.unwrap();
            let after = after_consume(before, now, n);
            let wait = wait_of(before, now, n);
            &&& filled_at(before, bps, now) <= capacity(bps as nat)
            &&& after.available <= capacity(bps as nat)
            &&& (filled_at(before, bps, now) - after.available) + wait * bps >= cost(n as nat)
            &&& wait > 0 ==> after.available == 0
        }),
{
    let bps = before.bytes_per_sec.unwrap();
    let filled = filled_at(before, bps, now);
    assert(capacity(bps as nat) <= u64::MAX * NANOS_PER_SEC) by (nonlinear_arith)
        requires
            bps <= u64::MAX,
            capacity(bps as nat) == bps * NANOS_PER_SEC,
    ;
    if filled < cost(n as nat) {
        lemma_wait_covers_deficit((cost(n as nat) - filled) as nat, bps as nat);
    } else {
        assert(wait_of(before, now, n) * bps >= 0) by (nonlinear_arith)
            requires
                wait_of(before, now, n) >= 0,
                bps >= 0,
        ;
    }
}

/// The limiter after a run of calls, each a time and a number of bytes.
pub open spec fn after_run(start: RateLimiter, calls: Seq<(u64, u64)>) -> RateLimiter
    decreases calls.len(),
{
    if calls.len() == 0 {
        start
    } else {
        after_consume(after_run(start, calls.drop_last()), calls.last().0, calls.last().1)
    }
}

/// The bytes that a run of calls asked to admit.
pub open spec fn bytes_asked(calls: Seq<(u64, u64)>) -> nat
    decreases calls.len(),
{
    if calls.len() == 0 {
        0
    } else {
        bytes_asked(calls.drop_last()) + (calls.last().1 as nat)
    }
}

/// Whether the clock never runs backwards over a run of calls that starts
/// with the limiter `start`.
pub open spec fn clock_moves_on(start: RateLimiter, calls: Seq<(u64, u64)>) -> bool
    decreases calls.len(),
{
    calls.len() == 0 || (clock_moves_on(start, calls.drop_last()) && calls.last().0 >= after_run(
        start,
        calls.drop_last(),
    ).last)
}

/// Whether no call of the run has to wait.
pub open spec fn never_waits(start: RateLimiter, calls: Seq<(u64, u64)>) -> bool
    decreases calls.len(),
{
    calls.len() == 0 || (never_waits(start, calls.drop_last()) && wait_of(
        after_run(start, calls.drop_last()),
        calls.last().0,
        calls.last().1,
    ) == 0)
}

/// The rate bound for runs without waiting. Over a run of calls none of
/// which has to wait, the bytes admitted cost no more than the tokens that
/// the bucket held at the start plus what the rate refills in the time that
/// the run spans. Starting from a bucket that holds at most `burst` bytes,
/// this is: bytes admitted are at most rate times time plus `burst`.
pub proof fn lemma_rate_bound(start: RateLimiter, calls: Seq<(u64, u64)>, burst: nat)
    requires
        start.bytes_per_sec is Some,
        start.available <= cost(burst),
        clock_moves_on(start, calls),
        never_waits(start, calls),
    ensures
        after_run(start, calls).bytes_per_sec == start.bytes_per_sec,
        after_run(start, calls).last >= start.last,
        cost(bytes_asked(calls)) + after_run(start, calls).available <= start.available + (
        after_run(start, calls).last - start.last) * start.bytes_per_sec.unwrap(),
        cost(bytes_asked(calls)) <= cost(burst) + (after_run(start, calls).last - start.last)
            * start.bytes_per_sec.unwrap(),
    decreases calls.len(),
{
    let bps = start.bytes_per_sec.unwrap();
    if calls.len() == 0 {
        assert((start.last - start.last) * bps == 0) by (nonlinear_arith);
    } else {
        let front = calls.drop_last();
        let now = calls.last().0;
        let n = calls.last().1;
        lemma_rate_bound(start, front, burst);
        let mid = after_run(start, front);
        let end = after_run(start, calls);
        let filled = filled_at(mid, bps, now);
        let dt = elapsed_since(mid.last as nat, now as nat);
        assert(filled <= mid.available + dt * bps);
        assert(wait_of(mid, now, n) == 0);
        if filled < cost(n as nat) {
            let d = (cost(n as nat) - filled) as nat;
            if bps > 0 {
                assert((d + bps - 1) / (bps as int) >= 1) by (nonlinear_arith)
                    requires
                        d > 0,
                        bps > 0,
                ;
            }
            assert(wait_for(d, bps as nat) >= 1);
        }
        assert(filled >= cost(n as nat));
        assert(capacity(bps as nat) <= u64::MAX * NANOS_PER_SEC) by (nonlinear_arith)
            requires
                bps <= u64::MAX,
                capacity(bps as nat) == bps * NANOS_PER_SEC,
        ;
        assert(end.available == filled - cost(n as nat));
        assert(cost(bytes_asked(calls)) == cost(bytes_asked(front)) + cost(n as nat))
            by (nonlinear_arith)
            requires
                bytes_asked(calls) == bytes_asked(front) + n,
                cost(bytes_asked(calls)) == bytes_asked(calls) * NANOS_PER_SEC,
                cost(bytes_asked(front)) == bytes_asked(front) * NANOS_PER_SEC,
                cost(n as nat) == n * NANOS_PER_SEC,
        ;
        assert((end.last - start.last) * bps == (mid.last - start.last) * bps + dt * bps)
            by (nonlinear_arith)
            requires
                end.last - start.last == (mid.last - start.last) + dt,
        ;
    }
}

} // verus!
