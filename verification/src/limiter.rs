use vstd::prelude::*;
use vstd::arithmetic::div_mod::{
    lemma_div_is_ordered, lemma_div_multiples_vanish, lemma_fundamental_div_mod,
    lemma_multiply_divide_le,
};
use vstd::arithmetic::mul::{lemma_mul_inequality, lemma_mul_upper_bound};

verus! {

/// Default ceiling on outbound sends, in packets per second.
pub const DEFAULT_LIMIT_PPS: u64 = 10000;

/// Waits shorter than this are not worth a suspension and are skipped.
pub const MIN_WAIT_NANOS: u64 = 1000000;

/// Token-bucket state shared by every sender on one socket: the instant of
/// the last send and the sends still owed against the ceiling.
pub struct LimitBasket {
    /// Instant of the last send, in nanoseconds of a monotonic clock; `None`
    /// until the first send.
    pub last: Option<u64>,
    /// Sends not yet paid for by elapsed time.
    pub cnt: u64,
    /// The configured ceiling, in packets per second.
    pub limit_pps: u64,
}

/// What a sender must do before its send may go out.
#[derive(Clone, Copy, Debug, PartialEq, Eq, Structural)]
pub enum ShotStep {
    /// Send immediately.
    Go,
    /// Sleep this many nanoseconds, call `complete_wait`, then send.
    Sleep(u64),
}

/// Nanoseconds since the last send that the basket has seen; zero before the
/// first send or if the clock reads earlier than the last send.
pub open spec fn spec_elapsed(b: LimitBasket, now: u64) -> int {
    match b.last {
        None => 0,
        Some(l) => if now >= l {
            now - l
        } else {
            0
        },
    }
}

/// Sends paid for by `elapsed` nanoseconds under a ceiling of `limit_pps`
/// packets per second, truncated toward zero.
pub open spec fn spec_allowance(elapsed: int, limit_pps: int) -> int {
    elapsed * limit_pps / 1000000000
}

/// What remains owed at `now`, once elapsed time has paid its share.
pub open spec fn spec_owed(b: LimitBasket, now: u64) -> int {
    if b.last is None {
        0
    } else {
        let allow = spec_allowance(spec_elapsed(b, now), b.limit_pps as int);
        if allow >= b.cnt {
            0
        } else {
            b.cnt - allow
        }
    }
}

/// Nanoseconds the owed sends are worth at the configured ceiling.
pub open spec fn spec_wait(b: LimitBasket, now: u64) -> int {
    spec_owed(b, now) * 1000000000 / (b.limit_pps as int)
}

/// What one send attempt does: either the send may go at once and the basket
/// records it, or the basket is left as it is and the sender is told to
/// sleep the owed time first.
pub open spec fn spec_shot(b: LimitBasket, now: u64) -> (LimitBasket, ShotStep) {
    if b.last is Some && spec_owed(b, now) > 0 && spec_wait(b, now) >= MIN_WAIT_NANOS {
        (b, ShotStep::Sleep(spec_wait(b, now) as u64))
    } else {
        (
            (LimitBasket { last: Some(now), cnt: (spec_owed(b, now) + 1) as u64, ..b }),
            ShotStep::Go,
        )
    }
}

/// The state once a commanded sleep has been slept: the debt is considered
/// paid and the send that paid it is recorded.
pub open spec fn spec_complete(b: LimitBasket, now: u64) -> LimitBasket {
    LimitBasket { last: Some(now), cnt: 1, ..b }
}

impl LimitBasket {
    /// Well formed: a positive ceiling; what is owed never exceeds the burst
    /// allowance that the minimum-wait floor lets through; nothing owed
    /// before the first send.
    pub open spec fn wf(&self) -> bool {
        &&& 1 <= self.limit_pps
        &&& self.cnt <= self.limit_pps / 1000 + 1
        &&& (self.last is None ==> self.cnt == 0)
    }

    pub fn new(limit_pps: u64) -> (r: LimitBasket)
        requires
            1 <= limit_pps,
        ensures
            r == (LimitBasket { last: None, cnt: 0, limit_pps }),
            r.wf(),
    {
        LimitBasket { last: None, cnt: 0, limit_pps }
    }

    /// One send attempt at `now` (nanoseconds of a monotonic clock).
    pub fn shot(&mut self, now: u64) -> (r: ShotStep)
        requires
            old(self).wf(),
        ensures
            (*final(self), r) == spec_shot(*old(self), now),
            final(self).wf(),
            final(self).limit_pps == old(self).limit_pps,
    {
        proof {
            lemma_shot_props(*self, now);
        }
        let limit: u64 = self.limit_pps;
        match self.last {
            None => {
                self.last = Some(now);
                self.cnt = 1;
                ShotStep::Go
            },
            Some(l) => {
                let elapsed: u64 = if now >= l {
                    now - l
                } else {
                    0
                };
                proof {
                    lemma_mul_upper_bound(
                        elapsed as int,
                        0xffffffffffffffff,
                        limit as int,
                        0xffffffffffffffff,
                    );
                }
                let allow128: u128 = (elapsed as u128) * (limit as u128) / 1000000000u128;
                let owed: u64 = if allow128 >= self.cnt as u128 {
                    0
                } else {
                    self.cnt - (allow128 as u64)
                };
                assert(owed as int == spec_owed(*self, now));
                if owed > 0 {
                    let w128: u128 = (owed as u128) * 1000000000u128 / (limit as u128);
                    assert(w128 as int == spec_wait(*self, now));
                    if w128 >= MIN_WAIT_NANOS as u128 {
                        return ShotStep::Sleep(w128 as u64);
                    }
                }
                self.cnt = owed + 1;
                self.last = Some(now);
                ShotStep::Go
            },
        }
    }

    /// Record the send that ends a commanded sleep.
    pub fn complete_wait(&mut self, now: u64)
        requires
            old(self).wf(),
        ensures
            *final(self) == spec_complete(*old(self), now),
            final(self).wf(),
    {
        self.cnt = 1;
        self.last = Some(now);
    }
}

/// What every send attempt guarantees: the basket stays well formed, a
/// commanded sleep is the owed time exactly and leaves the basket alone, and
/// an immediate go records the attempt.
pub proof fn lemma_shot_props(b: LimitBasket, now: u64)
    requires
        b.wf(),
    ensures
        spec_shot(b, now).0.wf(),
        spec_shot(b, now).0.limit_pps == b.limit_pps,
        0 <= spec_owed(b, now) <= b.cnt,
        0 <= spec_wait(b, now) < 4000000000,
        spec_shot(b, now).1 is Sleep ==> spec_shot(b, now).0 == b,
        spec_shot(b, now).1 is Go ==> spec_shot(b, now).0 == (LimitBasket {
            last: Some(now),
            cnt: (spec_owed(b, now) + 1) as u64,
            ..b
        }),
{
    let limit = b.limit_pps as int;
    let owed = spec_owed(b, now);
    let wait = spec_wait(b, now);
    if b.last is Some {
        let elapsed = spec_elapsed(b, now);
        assert(elapsed >= 0);
        assert(elapsed * limit >= 0) by {
            lemma_mul_inequality(0, elapsed, limit);
        }
        assert(spec_allowance(elapsed, limit) >= 0) by {
            lemma_div_is_ordered(0, elapsed * limit, 1000000000);
        }
    }
    assert(0 <= owed <= b.cnt);
    // the owed time is bounded by what the burst allowance is worth
    assert(owed * 1000000000 >= 0) by {
        lemma_mul_inequality(0, owed, 1000000000);
    }
    assert(wait >= 0) by {
        lemma_div_is_ordered(0, owed * 1000000000, limit);
    }
    lemma_fundamental_div_mod(limit, 1000);
    let q = limit / 1000;
    assert(owed <= q + 1);
    assert(owed * 1000000000 <= limit * 2000000000) by {
        lemma_mul_inequality(owed, q + 1, 1000000000);
        if q >= 1 {
            assert((q + 1) * 1000000000 <= (1000 * q) * 2000000000);
            assert(limit * 2000000000 >= (1000 * q) * 2000000000) by {
                lemma_mul_inequality(1000 * q, limit, 2000000000);
            }
        } else {
            assert(limit * 2000000000 >= 1 * 2000000000) by {
                lemma_mul_inequality(1, limit, 2000000000);
            }
        }
    }
    assert(wait <= 2000000000) by {
        lemma_multiply_divide_le(owed * 1000000000, limit, 2000000000);
    }
    // a send that goes straight through keeps the debt under the allowance
    if !(b.last is Some && owed > 0 && wait >= MIN_WAIT_NANOS) {
        if owed > 0 {
            // wait < MIN_WAIT_NANOS here, so owed * 1000 < limit
            lemma_fundamental_div_mod(owed * 1000000000, limit);
            vstd::arithmetic::div_mod::lemma_mod_bound(owed * 1000000000, limit);
            assert(owed * 1000000000 < limit * (wait + 1)) by {
                vstd::arithmetic::mul::lemma_mul_is_distributive_add(limit, wait, 1);
            }
            assert(limit * (wait + 1) <= limit * 1000000) by {
                lemma_mul_inequality(wait + 1, 1000000, limit);
                assert((wait + 1) * limit == limit * (wait + 1)) by {
                    vstd::arithmetic::mul::lemma_mul_is_commutative(wait + 1, limit);
                }
                assert(1000000 * limit == limit * 1000000) by {
                    vstd::arithmetic::mul::lemma_mul_is_commutative(1000000, limit);
                }
            }
            assert(owed * 1000 < limit);
            assert(owed <= limit / 1000) by {
                lemma_div_is_ordered(owed * 1000, limit, 1000);
                lemma_div_multiples_vanish(owed, 1000);
            }
        }
    }
}

/// Law (no delay under the ceiling): when the time elapsed since the last
/// send pays for everything owed, the sender is never told to sleep.
pub proof fn lemma_under_ceiling_no_wait(b: LimitBasket, now: u64)
    requires
        b.wf(),
        spec_allowance(spec_elapsed(b, now), b.limit_pps as int) >= b.cnt,
    ensures
        spec_shot(b, now).1 == ShotStep::Go,
{
}

/// A burst: `k` sends issued back to back, no time passing between them, each
/// commanded sleep ending where it began on the basket's clock. Yields the
/// final basket and the total sleep commanded, in nanoseconds.
pub open spec fn spec_burst(b: LimitBasket, now: u64, k: nat) -> (LimitBasket, int)
    decreases k,
{
    if k == 0 {
        (b, 0)
    } else {
        let prev = spec_burst(b, now, (k - 1) as nat);
        let stepped = spec_shot(prev.0, now);
        match stepped.1 {
            ShotStep::Go => (stepped.0, prev.1),
            ShotStep::Sleep(w) => (spec_complete(prev.0, now), prev.1 + w),
        }
    }
}

/// Law (rate ceiling): across a burst of `k` back-to-back sends the limiter
/// commands sleeps worth at least `k` sends at the configured rate, minus
/// what stays owed in the basket (at most the burst allowance
/// `limit_pps / 1000 + 1`, by well-formedness) and at most one nanosecond of
/// rounding per send: `limit * total + owed * 1e9 + k * limit >= k * 1e9`.
pub proof fn lemma_burst_floor(b: LimitBasket, now: u64, k: nat)
    requires
        b.wf(),
        b.last is None || b.last == Some(now),
    ensures
        spec_burst(b, now, k).0.wf(),
        spec_burst(b, now, k).0.limit_pps == b.limit_pps,
        spec_burst(b, now, k).0.last is None ==> k == 0,
        k > 0 ==> spec_burst(b, now, k).0.last == Some(now),
        spec_burst(b, now, k).1 >= 0,
        (b.limit_pps as int) * spec_burst(b, now, k).1 + (spec_burst(b, now, k).0.cnt as int)
            * 1000000000 + (k as int) * (b.limit_pps as int) >= (k as int) * 1000000000,
    decreases k,
{
    let limit = b.limit_pps as int;
    if k == 0 {
    } else {
        lemma_burst_floor(b, now, (k - 1) as nat);
        let prev = spec_burst(b, now, (k - 1) as nat);
        let bp = prev.0;
        lemma_shot_props(bp, now);
        let owed = spec_owed(bp, now);
        let wait = spec_wait(bp, now);
        if bp.last is Some {
            assert(spec_elapsed(bp, now) == 0);
            assert(spec_allowance(0, limit) == 0);
            assert(owed == bp.cnt);
        }
        assert((k as int) * limit == (k - 1) * limit + limit) by {
            vstd::arithmetic::mul::lemma_mul_is_distributive_add_other_way(limit, (k - 1) as int, 1);
        }
        assert((k as int) * 1000000000 == (k - 1) * 1000000000 + 1000000000);
        let stepped = spec_shot(bp, now);
        match stepped.1 {
            ShotStep::Go => {
                assert(stepped.0.cnt == owed + 1);
            },
            ShotStep::Sleep(w) => {
                assert(w as int == wait);
                // what the sleep is worth covers the whole debt but for
                // less than one send's worth of rounding
                lemma_fundamental_div_mod(owed * 1000000000, limit);
                vstd::arithmetic::div_mod::lemma_mod_bound(owed * 1000000000, limit);
                assert(limit * wait > owed * 1000000000 - limit);
                assert(limit * (prev.1 + w as int) == limit * prev.1 + limit * (w as int)) by {
                    vstd::arithmetic::mul::lemma_mul_is_distributive_add(limit, prev.1, w as int);
                }
            },
        }
    }
}

} // verus!
