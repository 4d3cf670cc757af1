//! Per-source-address rate limiting by token buckets. One bucket per
//! address: a fresh source holds its full allowance (the burst depth plus
//! one second's rate), a request spends one token, and refill is withheld
//! until a full second has passed since the last admitted request. The
//! withholding is what makes the window law below hold of every bucket:
//! once a source spends a token, nothing flows back in for a second, so no
//! sliding one-second window ever admits more than the allowance. The
//! caller supplies the clock as milliseconds of a monotonic reading.

use vstd::prelude::*;
use std::collections::HashMap;

verus! {

broadcast use vstd::std_specs::hash::group_hash_axioms;

#[derive(Debug, Clone)]
pub struct RateLimitConfig {
    pub requests_per_second: u32,
    pub burst_size: u32,
    pub window_size: u64,
}

impl Default for RateLimitConfig {
    /// One hundred requests per second with a burst of ten, over a
    /// one-second window.
    fn default() -> (r: RateLimitConfig)
        ensures
            r.requests_per_second == 100,
            r.burst_size == 10,
            r.window_size == 1000,
    {
        RateLimitConfig { requests_per_second: 100, burst_size: 10, window_size: 1000 }
    }
}

/// One source address's bucket. Tokens are counted in thousandths, so that
/// refilling at `requests_per_second` adds exactly `elapsed_ms * rate`
/// milli-tokens.
#[derive(Debug, Clone, Copy)]
pub struct TokenBucket {
    pub tokens_m: u64,
    pub last_admit_ms: u64,
    pub last_accrual_ms: u64,
}

/// A bucket's capacity in milli-tokens: one second's rate on top of the
/// burst depth, the whole allowance of any one-second window.
pub open spec fn cap_m(rps: u32, burst: u32) -> int {
    (burst + rps) * 1000
}

impl TokenBucket {
    /// A fresh bucket holds its full capacity and counts its creation as
    /// its last admission, so its refill starts a second later.
    pub open spec fn spec_full(rps: u32, burst: u32, now_ms: u64) -> TokenBucket {
        TokenBucket {
            tokens_m: ((burst + rps) * 1000) as u64,
            last_admit_ms: now_ms,
            last_accrual_ms: now_ms,
        }
    }

    /// The moment refill resumes: a second past the last admission, or the
    /// last accrual if that came later.
    pub open spec fn spec_accrual_start(self) -> int {
        if self.last_accrual_ms >= self.last_admit_ms + 1000 {
            self.last_accrual_ms as int
        } else {
            self.last_admit_ms + 1000
        }
    }

    /// The tokens on hand after refilling at `now_ms`: the time past the
    /// resume point times the rate, capped at the capacity. A clock that
    /// has not reached the resume point refills nothing.
    pub open spec fn spec_refilled(self, rps: u32, burst: u32, now_ms: u64) -> u64 {
        let start = self.spec_accrual_start();
        let elapsed = if now_ms > start {
            now_ms - start
        } else {
            0
        };
        let refill = if elapsed * rps > u64::MAX {
            u64::MAX as int
        } else {
            elapsed * rps
        };
        let filled = if self.tokens_m + refill > u64::MAX {
            u64::MAX as int
        } else {
            self.tokens_m + refill
        };
        if filled > cap_m(rps, burst) {
            ((burst + rps) * 1000) as u64
        } else {
            filled as u64
        }
    }

    /// Whether a request at `now_ms` passes: the refilled bucket holds at
    /// least one whole token.
    pub open spec fn spec_passes(self, rps: u32, burst: u32, now_ms: u64) -> bool {
        self.spec_refilled(rps, burst, now_ms) >= 1000
    }

    /// The bucket after a request at `now_ms`: refilled, then drained by
    /// one token when the request passed; a rejected request spends
    /// nothing. The accrual mark advances only once refill has resumed.
    pub open spec fn spec_after(self, rps: u32, burst: u32, now_ms: u64) -> TokenBucket {
        let filled = self.spec_refilled(rps, burst, now_ms);
        let pass = filled >= 1000;
        TokenBucket {
            tokens_m: if pass {
                (filled - 1000) as u64
            } else {
                filled
            },
            last_admit_ms: if pass {
                now_ms
            } else {
                self.last_admit_ms
            },
            last_accrual_ms: if now_ms > self.spec_accrual_start() {
                now_ms
            } else {
                self.last_accrual_ms
            },
        }
    }

    /// Refill and drain for one request; true when it passes.
    pub fn check(&mut self, rps: u32, burst: u32, now_ms: u64) -> (r: bool)
        ensures
            r == old(self).spec_passes(rps, burst, now_ms),
            *final(self) == old(self).spec_after(rps, burst, now_ms),
    {
        let start = if self.last_admit_ms > u64::MAX - 1000 {
            // the resume point lies beyond the clock's range: nothing refills
            u64::MAX
        } else if self.last_accrual_ms >= self.last_admit_ms + 1000 {
            self.last_accrual_ms
        } else {
            self.last_admit_ms + 1000
        };
        let elapsed = if now_ms > start {
            now_ms - start
        } else {
            0
        };
        proof {
            let spec_start = self.spec_accrual_start();
            if self.last_admit_ms > u64::MAX - 1000 {
                assert(spec_start > u64::MAX);
                assert(elapsed == 0);
            } else {
                assert(start == spec_start);
            }
            assert(elapsed == (if now_ms > spec_start {
                now_ms - spec_start
            } else {
                0int
            }));
        }
        let refill = match elapsed.checked_mul(rps as u64) {
            Some(v) => v,
            None => u64::MAX,
        };
        let mut filled = match self.tokens_m.checked_add(refill) {
            Some(v) => v,
            None => u64::MAX,
        };
        let cap = ((burst as u64) + (rps as u64)) * 1000;
        if filled > cap {
            filled = cap;
        }
        if now_ms > start {
            proof {
                assert(now_ms > self.spec_accrual_start());
            }
            self.last_accrual_ms = now_ms;
        } else {
            proof {
                assert(!(now_ms > old(self).spec_accrual_start()));
            }
        }
        if filled >= 1000 {
            self.tokens_m = filled - 1000;
            self.last_admit_ms = now_ms;
            true
        } else {
            self.tokens_m = filled;
            false
        }
    }
}

/// The number of requests a bucket passes over a run of request times.
pub open spec fn spec_passes_count(b: TokenBucket, times: Seq<u64>, rps: u32, burst: u32) -> nat
    decreases times.len(),
{
    if times.len() == 0 {
        0
    } else {
        (if b.spec_passes(rps, burst, times[0]) {
            1nat
        } else {
            0nat
        }) + spec_passes_count(b.spec_after(rps, burst, times[0]), times.drop_first(), rps, burst)
    }
}

/// While refill stays suspended through `horizon`, the bucket can only
/// spend what it already holds.
proof fn lemma_count_while_suspended(
    b: TokenBucket,
    times: Seq<u64>,
    rps: u32,
    burst: u32,
    horizon: int,
)
    requires
        b.last_admit_ms + 1000 >= horizon,
        forall|j: int| 0 <= j < times.len() ==> horizon - 1000 <= #[trigger] times[j] < horizon,
    ensures
        spec_passes_count(b, times, rps, burst) * 1000 <= b.tokens_m,
    decreases times.len(),
{
    if times.len() > 0 {
        let t = times[0];
        let b2 = b.spec_after(rps, burst, t);
        assert(t < b.spec_accrual_start());
        assert(b.spec_refilled(rps, burst, t) <= b.tokens_m);
        assert forall|j: int|
            0 <= j < times.drop_first().len() implies horizon - 1000
            <= #[trigger] times.drop_first()[j] < horizon by {
            assert(times.drop_first()[j] == times[j + 1]);
        }
        if b.spec_passes(rps, burst, t) {
            assert(b2.last_admit_ms + 1000 >= horizon);
            lemma_count_while_suspended(b2, times.drop_first(), rps, burst, horizon);
        } else {
            assert(b2.last_admit_ms == b.last_admit_ms);
            lemma_count_while_suspended(b2, times.drop_first(), rps, burst, horizon);
        }
    }
}

/// Law: for every source and every bucket state, the requests that pass
/// within any one-second window never exceed the burst depth plus the
/// per-second rate, however many are attempted and however they are
/// spaced. A fresh source is covered: its whole allowance fits the bound,
/// and refill stays suspended for a second after each admission.
pub proof fn lemma_rate_window_bound(b: TokenBucket, times: Seq<u64>, rps: u32, burst: u32)
    requires
        forall|j: int| 0 <= j < times.len() - 1 ==> #[trigger] times[j] <= times[j + 1],
        forall|j: int|
            0 <= j < times.len() ==> times[0] <= #[trigger] times[j] < times[0] + 1000,
    ensures
        spec_passes_count(b, times, rps, burst) <= burst + rps,
    decreases times.len(),
{
    if times.len() > 0 {
        let t0 = times[0];
        let filled = b.spec_refilled(rps, burst, t0);
        assert(filled <= cap_m(rps, burst));
        let b2 = b.spec_after(rps, burst, t0);
        assert forall|j: int|
            0 <= j < times.drop_first().len() - 1 implies #[trigger] times.drop_first()[j]
            <= times.drop_first()[j + 1] by {
            assert(times.drop_first()[j] == times[j + 1]);
            assert(times.drop_first()[j + 1] == times[j + 2]);
        }
        if b.spec_passes(rps, burst, t0) {
            assert(b2.tokens_m + 1000 <= cap_m(rps, burst));
            assert(b2.last_admit_ms == t0);
            assert forall|j: int|
                0 <= j < times.drop_first().len() implies (t0 + 1000) - 1000
                <= #[trigger] times.drop_first()[j] < t0 + 1000 by {
                assert(times.drop_first()[j] == times[j + 1]);
            }
            lemma_count_while_suspended(b2, times.drop_first(), rps, burst, t0 + 1000);
            assert(spec_passes_count(b2, times.drop_first(), rps, burst) * 1000 <= cap_m(
                rps,
                burst,
            ) - 1000);
        } else {
            assert forall|j: int|
                0 <= j < times.drop_first().len() implies times.drop_first()[0]
                <= #[trigger] times.drop_first()[j] < times.drop_first()[0] + 1000 by {
                assert(times.drop_first()[j] == times[j + 1]);
                lemma_times_sorted(times, 1, j + 1);
                assert(times[j + 1] < times[0] + 1000);
                assert(times[0] <= times[1]);
            }
            lemma_rate_window_bound(b2, times.drop_first(), rps, burst);
        }
    }
}

proof fn lemma_times_sorted(times: Seq<u64>, i: int, j: int)
    requires
        forall|k: int| 0 <= k < times.len() - 1 ==> #[trigger] times[k] <= times[k + 1],
        0 <= i <= j < times.len(),
    ensures
        times[i] <= times[j],
    decreases j - i,
{
    if i < j {
        lemma_times_sorted(times, i, j - 1);
        assert(times[j - 1] <= times[j]);
    }
}

/// The per-address rate limiter: a bucket for every source seen so far.
pub struct RateLimiter {
    limiters: HashMap<u128, TokenBucket>,
    config: RateLimitConfig,
}

impl RateLimiter {
    /// The buckets by source address.
    pub closed spec fn spec_buckets(self) -> Map<u128, TokenBucket> {
        self.limiters@
    }

    /// The configured rate.
    pub closed spec fn spec_config(self) -> (u32, u32) {
        (self.config.requests_per_second, self.config.burst_size)
    }

    pub fn new(config: RateLimitConfig) -> (r: Self)
        ensures
            r.spec_buckets() == Map::<u128, TokenBucket>::empty(),
            r.spec_config() == (config.requests_per_second, config.burst_size),
    {
        Self { limiters: HashMap::new(), config }
    }

    /// Admit or reject one request from `ip` at `now_ms`. A source not seen
    /// before starts with a full bucket.
    pub fn check_rate_limit(&mut self, ip: u128, now_ms: u64) -> (r: bool)
        ensures
            ({
                let before = if old(self).spec_buckets().contains_key(ip) {
                    old(self).spec_buckets()[ip]
                } else {
                    TokenBucket::spec_full(
                        old(self).spec_config().0,
                        old(self).spec_config().1,
                        now_ms,
                    )
                };
                let rps = old(self).spec_config().0;
                let burst = old(self).spec_config().1;
                &&& r == before.spec_passes(rps, burst, now_ms)
                &&& final(self).spec_buckets() == old(self).spec_buckets().insert(
                    ip,
                    before.spec_after(rps, burst, now_ms),
                )
                &&& final(self).spec_config() == old(self).spec_config()
            }),
    {
        let mut bucket = match self.limiters.get(&ip) {
            Some(b) => *b,
            None => TokenBucket {
                tokens_m: ((self.config.burst_size as u64) + (
                self.config.requests_per_second as u64)) * 1000,
                last_admit_ms: now_ms,
                last_accrual_ms: now_ms,
            },
        };
        let r = bucket.check(self.config.requests_per_second, self.config.burst_size, now_ms);
        self.limiters.insert(ip, bucket);
        r
    }

    /// Install a new rate and forget every bucket.
    pub fn update_config(&mut self, config: RateLimitConfig)
        ensures
            final(self).spec_buckets() == Map::<u128, TokenBucket>::empty(),
            final(self).spec_config() == (config.requests_per_second, config.burst_size),
    {
        self.config = config;
        self.limiters.clear();
    }
}

} // verus!
