//! Per-client rate limiting: the scheduling arithmetic.
//!
//! Each source client owns one limiter. Requests are serialized; after
//! each grant the next request must wait a fixed interval of
//! `1000 / rps` milliseconds. The limiter here decides the earliest
//! grant time for each request; the surrounding program sleeps until
//! that time and reports the clock back.

use vstd::prelude::*;

verus! {

/// The enforced gap between grants, in milliseconds, for a rate of
/// `rps` requests per second.
pub open spec fn spec_interval_ms(rps: int) -> int {
    1000int / rps
}

/// A per-client request throttle.
///
/// `interval_ms` is the enforced gap between grants; `last_grant` is the
/// time of the most recent grant, in milliseconds, once one happened.
#[derive(Debug, Clone, Copy, PartialEq, Eq, Structural)]
pub struct RateLimiter {
    /// The enforced gap between grants, in milliseconds.
    pub interval_ms: u64,
    /// The time of the most recent grant, if any.
    pub last_grant: Option<u64>,
}

impl RateLimiter {
    /// A limiter enforcing at most `requests_per_second` grants per
    /// second: the gap between grants is `1000 / requests_per_second`
    /// milliseconds.
    pub fn new(requests_per_second: u32) -> (r: RateLimiter)
        requires
            requests_per_second >= 1,
        ensures
            r.interval_ms == spec_interval_ms(requests_per_second as int),
            r.last_grant is None,
    {
        RateLimiter {
            interval_ms: 1000 / (requests_per_second as u64),
            last_grant: None,
        }
    }

    /// Grant a request at or after `now`: the first request proceeds at
    /// once, every later one no earlier than one interval after the
    /// previous grant. The grant time is recorded.
    pub fn acquire_at(&mut self, now: u64) -> (grant: u64)
        requires
            old(self).last_grant matches Some(g) ==> g + old(self).interval_ms <= u64::MAX,
        ensures
            old(self).last_grant is None ==> grant == now,
            old(self).last_grant matches Some(g) ==> grant == (if g + old(self).interval_ms > now {
                (g + old(self).interval_ms) as u64
            } else {
                now
            }),
            grant >= now,
            old(self).last_grant matches Some(g) ==> grant >= g + old(self).interval_ms,
            final(self).interval_ms == old(self).interval_ms,
            final(self).last_grant == Some(grant),
    {
        let grant = match self.last_grant {
            Some(g) => {
                let earliest = g + self.interval_ms;
                if earliest > now {
                    earliest
                } else {
                    now
                }
            },
            None => now,
        };
        self.last_grant = Some(grant);
        grant
    }
}

/// Rate-limit lower bound: when every consecutive pair of grant times is
/// at least `gap` apart, a window of `n` grants spans at least
/// `(n - 1) * gap` — so a client limited to `R` requests per second
/// takes at least `(n - 1) * 1000 / R` milliseconds for any `n`
/// requests.
pub proof fn lemma_rate_limit_window(times: Seq<int>, gap: int)
    requires
        gap >= 0,
        forall|i: int| 0 <= i && i + 1 < times.len() ==> (#[trigger] times[i + 1]) >= times[i] + gap,
        times.len() >= 1,
    ensures
        times.last() - times.first() >= (times.len() - 1) * gap,
    decreases times.len(),
{
    if times.len() > 1 {
        let pre = times.drop_last();
        assert forall|i: int| 0 <= i && i + 1 < pre.len() implies (#[trigger] pre[i + 1]) >= pre[i]
            + gap by {
            assert(pre[i + 1] == times[i + 1]);
            assert(pre[i] == times[i]);
        }
        lemma_rate_limit_window(pre, gap);
        assert(times[(times.len() - 2) + 1] >= times[times.len() - 2] + gap);
        assert(times.last() == times[times.len() - 1]);
        assert(pre.last() == times[times.len() - 2]);
        let n = times.len() as int;
        assert((n - 1) * gap == (n - 2) * gap + gap) by (nonlinear_arith)
            requires
                n >= 2,
        ;
    } else {
        assert((times.len() - 1) * gap == 0) by (nonlinear_arith)
            requires
                times.len() == 1,
        ;
    }
}

} // verus!
