//! A token bucket that caps the rate of classified traffic.
//!
//! Times are nanoseconds on one monotonic clock. Tokens are counted in
//! billionths of a bit, so that a rate in bits per second times a number of
//! nanoseconds is a whole number of tokens.
use vstd::prelude::*;

verus! {

/// Tokens per byte.
pub const TOKENS_PER_BYTE: i128 = 8_000_000_000;

/// The bucket holds what flows in during this many nanoseconds.
pub const BURST_NANOS: i128 = 500_000_000;

/// The tokens that `bytes` bytes cost.
pub open spec fn cost(bytes: int) -> int {
    bytes * TOKENS_PER_BYTE
}

/// What a bucket of rate `rate` holds when it is full.
pub open spec fn burst(rate: int) -> int {
    rate * BURST_NANOS
}

/// What `bytes` bytes cost beyond what a full bucket of rate `rate` holds.
pub open spec fn excess(bytes: int, rate: int) -> int {
    if cost(bytes) > burst(rate) {
        cost(bytes) - burst(rate)
    } else {
        0
    }
}

/// The smaller of two numbers.
pub open spec fn min(a: int, b: int) -> int {
    if a <= b {
        a
    } else {
        b
    }
}

/// The time that has passed from `last` to `now`, and none where the clock
/// seems to have gone back.
pub open spec fn elapsed(last: int, now: int) -> int {
    if now >= last {
        now - last
    } else {
        0
    }
}

/// The least whole number of nanoseconds in which `deficit` tokens flow in.
pub open spec fn wait_for(deficit: int, rate: int) -> int {
    (deficit + rate - 1) / rate
}

/// The state of a bucket.
pub struct Bucket {
    /// Bits per second.
    pub rate: int,
    /// Tokens in the bucket, below zero after a large request.
    pub tokens: int,
    /// When the tokens were last brought up to date.
    pub last: int,
}

impl Bucket {
    /// The tokens at the time `now`.
    pub open spec fn refilled(self, now: int) -> int {
        min(self.tokens + elapsed(self.last, now) * self.rate, burst(self.rate))
    }

    /// The tokens that have to be there for `bytes` bytes to pass. A request
    /// beyond the capacity of the bucket passes when the bucket is full.
    pub open spec fn target(self, bytes: int) -> int {
        min(cost(bytes), burst(self.rate))
    }

    /// `bytes` bytes may pass at the time `now`.
    pub open spec fn passes(self, now: int, bytes: int) -> bool {
        self.refilled(now) >= self.target(bytes)
    }

    /// The bucket after `bytes` bytes were asked for at the time `now`.
    pub open spec fn after(self, now: int, bytes: int) -> Bucket {
        Bucket {
            rate: self.rate,
            tokens: if self.passes(now, bytes) {
                self.refilled(now) - cost(bytes)
            } else {
                self.refilled(now)
            },
            last: now,
        }
    }

    /// The time to wait before `bytes` bytes may pass.
    pub open spec fn wait(self, now: int, bytes: int) -> int {
        wait_for(self.target(bytes) - self.refilled(now), self.rate)
    }

    /// Never above the capacity, and never further below zero than one
    /// request can reach.
    pub open spec fn wf(self) -> bool {
        &&& 0 <= self.rate <= u64::MAX
        &&& 0 <= self.last <= u64::MAX
        &&& -cost(usize::MAX as int) <= self.tokens <= burst(self.rate)
    }
}

/// Caps a byte stream at a rate, with half a second of burst.
pub struct RateLimiter {
    rate: u64,
    tokens: i128,
    last: u64,
}

impl View for RateLimiter {
    type V = Bucket;

    closed spec fn view(&self) -> Bucket {
        Bucket { rate: self.rate as int, tokens: self.tokens as int, last: self.last as int }
    }
}

impl RateLimiter {
    #[verifier::type_invariant]
    spec fn inv(&self) -> bool {
        self@.wf()
    }

    /// A full bucket at the time `now` for a rate in bits per second.
    pub fn new(bits_per_sec: u64, now: u64) -> (res: Self)
        ensures
            res@.wf(),
            res@ == (Bucket {
                rate: bits_per_sec as int,
                tokens: burst(bits_per_sec as int),
                last: now as int,
            }),
    {
        RateLimiter {
            rate: bits_per_sec,
            tokens: bits_per_sec as i128 * BURST_NANOS,
            last: now,
        }
    }

    /// Asks for `bytes` bytes at the time `now`. `None` lets them pass and
    /// takes their tokens. `Some(wait)` takes none: the same request may pass
    /// `wait` nanoseconds later. At the rate zero no amount of waiting brings
    /// tokens, so the request has to be one that passes.
    pub fn consume(&mut self, now: u64, bytes: usize) -> (wait: Option<u128>)
        requires
            old(self)@.rate > 0 || old(self)@.passes(now as int, bytes as int),
        ensures
            final(self)@.wf(),
            final(self)@ == old(self)@.after(now as int, bytes as int),
            match wait {
                None => old(self)@.passes(now as int, bytes as int),
                Some(w) => !old(self)@.passes(now as int, bytes as int) && w == old(self)@.wait(
                    now as int,
                    bytes as int,
                ) && w > 0,
            },
    {
        proof {
            use_type_invariant(&*self);
        }
        let ghost before = self@;
        let capacity: i128 = self.rate as i128 * BURST_NANOS;
        let price: i128 = bytes as i128 * TOKENS_PER_BYTE;
        let target: i128 = if price <= capacity {
            price
        } else {
            capacity
        };
        let passed: u64 = if now >= self.last {
            now - self.last
        } else {
            0
        };
        assert(0 <= passed * self.rate <= u128::MAX) by (nonlinear_arith)
            requires
                0 <= passed <= u64::MAX,
                0 <= self.rate <= u64::MAX,
        ;
        let inflow: u128 = passed as u128 * self.rate as u128;
        let room: i128 = capacity - self.tokens;
        let tokens: i128 = if inflow >= room as u128 {
            capacity
        } else {
            self.tokens + inflow as i128
        };
        assert(tokens == before.refilled(now as int));
        assert(target == before.target(bytes as int));
        self.last = now;
        if tokens >= target {
            self.tokens = tokens - price;
            None
        } else {
            self.tokens = tokens;
            let rate = self.rate as i128;
            let deficit = target - tokens;
            let wait = (deficit + rate - 1) / rate;
            proof {
                lemma_wait(deficit as int, rate as int);
            }
            Some(wait as u128)
        }
    }

    /// Whether nothing can pass any more: the rate is zero and the bucket is
    /// overdrawn.
    pub fn is_stuck(&self) -> (res: bool)
        ensures
            forall|now: int, bytes: int|
                bytes >= 0 ==> res == (self@.rate == 0 && !#[trigger] self@.passes(now, bytes)),
    {
        let res = self.rate == 0 && self.tokens < 0;
        proof {
            assert forall|now: int, bytes: int| bytes >= 0 implies res == (self@.rate == 0
                && !#[trigger] self@.passes(now, bytes)) by {
                assert(self.rate == 0 ==> elapsed(self@.last, now) * self@.rate == 0)
                    by (nonlinear_arith)
                    requires
                        self@.rate == self.rate,
                ;
            }
        }
        res
    }
}

/// Waiting `wait_for` nanoseconds covers the deficit, and one less does not.
proof fn lemma_wait(deficit: int, rate: int)
    requires
        deficit > 0,
        rate > 0,
    ensures
        wait_for(deficit, rate) > 0,
        wait_for(deficit, rate) * rate >= deficit,
        (wait_for(deficit, rate) - 1) * rate < deficit,
        wait_for(deficit, rate) <= deficit,
{
    let w = wait_for(deficit, rate);
    let n = deficit + rate - 1;
    assert(n == rate * w + n % rate && 0 <= n % rate < rate) by (nonlinear_arith)
        requires
            rate > 0,
            w == n / rate,
    ;
    assert(w * rate >= deficit && (w - 1) * rate < deficit && w > 0 && w <= deficit)
        by (nonlinear_arith)
        requires
            n == rate * w + n % rate,
            0 <= n % rate < rate,
            n == deficit + rate - 1,
            deficit > 0,
            rate > 0,
    ;
}

/// A full bucket lets any request pass at once, however large.
pub proof fn full_bucket_passes(bucket: Bucket, now: int, bytes: int)
    requires
        bucket.wf(),
        bucket.tokens == burst(bucket.rate),
    ensures
        bucket.passes(now, bytes),
{
    assert(elapsed(bucket.last, now) * bucket.rate >= 0) by (nonlinear_arith)
        requires
            elapsed(bucket.last, now) >= 0,
            bucket.rate >= 0,
    ;
}

/// A request that was told to wait passes once that time is over, if nothing
/// else was taken meanwhile, and not a nanosecond before: no request waits for
/// ever, and none waits longer than it must.
pub proof fn waiting_is_enough(bucket: Bucket, now: int, bytes: int, later: int)
    requires
        bucket.wf(),
        bucket.rate > 0,
        !bucket.passes(now, bytes),
        now <= later,
    ensures
        bucket.after(now, bytes).passes(later, bytes) <==> later >= now + bucket.wait(now, bytes),
{
    let deficit = bucket.target(bytes) - bucket.refilled(now);
    let wait = bucket.wait(now, bytes);
    let passed = later - now;
    lemma_wait(deficit, bucket.rate);
    if passed >= wait {
        assert(passed * bucket.rate >= wait * bucket.rate) by (nonlinear_arith)
            requires
                passed >= wait,
                bucket.rate > 0,
        ;
    } else {
        assert(passed * bucket.rate <= (wait - 1) * bucket.rate) by (nonlinear_arith)
            requires
                passed <= wait - 1,
                bucket.rate > 0,
        ;
    }
}

/// A request for so many bytes at such a time.
pub struct Request {
    pub now: int,
    pub bytes: int,
}

/// The requests come in the order of their times, none before `start`.
pub open spec fn in_order(start: int, requests: Seq<Request>) -> bool {
    &&& forall|i: int| 0 <= i < requests.len() ==> start <= #[trigger] requests[i].now
    &&& forall|i: int, j: int|
        0 <= i < j < requests.len() ==> #[trigger] requests[i].now <= #[trigger] requests[j].now
}

/// The requests can be made of the bucket one after the other: they come in the
/// order of their times, and their numbers are those of the machine.
pub open spec fn can_follow(bucket: Bucket, requests: Seq<Request>) -> bool {
    &&& in_order(bucket.last, requests)
    &&& forall|i: int|
        0 <= i < requests.len() ==> 0 <= #[trigger] requests[i].bytes <= usize::MAX
    &&& forall|i: int| 0 <= i < requests.len() ==> #[trigger] requests[i].now <= u64::MAX
}

/// What holds of a sequence of requests holds of all but the last of them.
proof fn lemma_all_but_last_can_follow(bucket: Bucket, requests: Seq<Request>)
    requires
        can_follow(bucket, requests),
        requests.len() > 0,
    ensures
        can_follow(bucket, requests.drop_last()),
        bucket.last <= requests.last().now <= u64::MAX,
        0 <= requests.last().bytes <= usize::MAX,
        requests.len() > 1 ==> requests.drop_last().last().now <= requests.last().now,
{
    let earlier = requests.drop_last();
    assert forall|i: int| 0 <= i < earlier.len() implies earlier[i] == requests[i] by {}
    assert(requests[requests.len() - 1] == requests.last());
    if requests.len() > 1 {
        assert(earlier.last() == requests[requests.len() - 2]);
    }
}

/// The bucket after a sequence of requests.
pub open spec fn after_all(bucket: Bucket, requests: Seq<Request>) -> Bucket
    decreases requests.len(),
{
    if requests.len() == 0 {
        bucket
    } else {
        let r = requests.last();
        after_all(bucket, requests.drop_last()).after(r.now, r.bytes)
    }
}

/// The bytes that were let through in a sequence of requests.
pub open spec fn passed_bytes(bucket: Bucket, requests: Seq<Request>) -> int
    decreases requests.len(),
{
    if requests.len() == 0 {
        0
    } else {
        let r = requests.last();
        let before = after_all(bucket, requests.drop_last());
        passed_bytes(bucket, requests.drop_last()) + if before.passes(r.now, r.bytes) {
            r.bytes
        } else {
            0
        }
    }
}

/// What is let through is paid for by the tokens that were there and those
/// that flowed in at the bucket's rate.
pub proof fn tokens_are_conserved(bucket: Bucket, requests: Seq<Request>)
    requires
        bucket.wf(),
        can_follow(bucket, requests),
    ensures
        after_all(bucket, requests).wf(),
        after_all(bucket, requests).rate == bucket.rate,
        after_all(bucket, requests).last == (if requests.len() == 0 {
            bucket.last
        } else {
            requests.last().now
        }),
        cost(passed_bytes(bucket, requests)) + after_all(bucket, requests).tokens <= bucket.tokens
            + (after_all(bucket, requests).last - bucket.last) * bucket.rate,
    decreases requests.len(),
{
    if requests.len() > 0 {
        let earlier = requests.drop_last();
        let r = requests.last();
        lemma_all_but_last_can_follow(bucket, requests);
        tokens_are_conserved(bucket, earlier);
        let mid = after_all(bucket, earlier);
        assert((r.now - bucket.last) * bucket.rate == (mid.last - bucket.last) * bucket.rate + (
        r.now - mid.last) * bucket.rate) by (nonlinear_arith);
        assert((r.now - mid.last) * bucket.rate >= 0) by (nonlinear_arith)
            requires
                r.now >= mid.last,
                bucket.rate >= 0,
        ;
    }
}

/// From a request that passes on, what is let through and what is left is paid
/// for by one burst and by what flows in after that request.
proof fn lemma_from_first_pass(bucket: Bucket, requests: Seq<Request>)
    requires
        bucket.wf(),
        can_follow(bucket, requests),
        requests.len() > 0,
        bucket.passes(requests[0].now, requests[0].bytes),
    ensures
        cost(passed_bytes(bucket, requests)) + after_all(bucket, requests).tokens <= burst(
            bucket.rate,
        ) + (requests.last().now - requests[0].now) * bucket.rate,
    decreases requests.len(),
{
    let earlier = requests.drop_last();
    let first = requests[0];
    let r = requests.last();
    assert(requests[requests.len() - 1] == r);
    if requests.len() == 1 {
        assert(after_all(bucket, earlier) == bucket);
        assert(passed_bytes(bucket, earlier) == 0);
    } else {
        lemma_all_but_last_can_follow(bucket, requests);
        assert(earlier[0] == first);
        lemma_from_first_pass(bucket, earlier);
        tokens_are_conserved(bucket, earlier);
        let mid = after_all(bucket, earlier);
        assert((r.now - first.now) * bucket.rate == (mid.last - first.now) * bucket.rate + (r.now
            - mid.last) * bucket.rate) by (nonlinear_arith);
        assert((r.now - mid.last) * bucket.rate >= 0) by (nonlinear_arith)
            requires
                r.now >= mid.last,
                bucket.rate >= 0,
        ;
    }
}

/// The cap: over any stretch that begins and ends with a request that passes,
/// no more passes than one burst, what the rate allows for the time from the
/// first to the last of them, and what the last one exceeds a burst by. The
/// bucket is in whatever state earlier requests have left it. Tokens are
/// billionths of a bit, so the left side is the number of bits let through
/// times a billion.
pub proof fn rate_is_capped(bucket: Bucket, requests: Seq<Request>)
    requires
        bucket.wf(),
        can_follow(bucket, requests),
        requests.len() > 0,
        bucket.passes(requests[0].now, requests[0].bytes),
        after_all(bucket, requests.drop_last()).passes(
            requests.last().now,
            requests.last().bytes,
        ),
    ensures
        cost(passed_bytes(bucket, requests)) <= burst(bucket.rate) + (requests.last().now
            - requests[0].now) * bucket.rate + excess(requests.last().bytes, bucket.rate),
{
    let before = after_all(bucket, requests.drop_last());
    let r = requests.last();
    lemma_from_first_pass(bucket, requests);
    tokens_are_conserved(bucket, requests);
    assert(before.rate == bucket.rate);
    assert(after_all(bucket, requests).tokens == before.refilled(r.now) - cost(r.bytes));
}

/// Tokens flow in at the rate: a request within the burst passes as soon as the
/// tokens that were there and those of the time since then pay for it.
pub proof fn tokens_flow_in_at_the_rate(bucket: Bucket, t: int, bytes: int)
    requires
        bucket.wf(),
        t >= 0,
        bytes >= 0,
        bytes * 8_000_000_000 <= bucket.rate * 500_000_000,
        bucket.tokens + t * bucket.rate >= bytes * 8_000_000_000,
    ensures
        bucket.passes(bucket.last + t, bytes),
{
}

/// A request passes exactly when what is there and what has flowed in pays for
/// all of it, or fills the bucket with half a second of the rate.
pub proof fn passes_when_paid_for_or_full(bucket: Bucket, now: int, bytes: int)
    requires
        bucket.wf(),
        bytes >= 0,
        now >= bucket.last,
    ensures
        bucket.passes(now, bytes) <==> ({
            let have = bucket.tokens + (now - bucket.last) * bucket.rate;
            have >= bytes * 8_000_000_000 || have >= bucket.rate * 500_000_000
        }),
{
}

/// A clock that goes back brings nothing in and takes nothing out.
pub proof fn going_back_changes_nothing(bucket: Bucket, now: int, bytes: int)
    requires
        now <= bucket.last,
    ensures
        bucket.passes(now, bytes) == bucket.passes(bucket.last, bytes),
        bucket.after(now, bytes).tokens == bucket.after(bucket.last, bytes).tokens,
{
    assert(elapsed(bucket.last, now) == 0);
}

/// Who passes pays eight bits for each byte, who does not pays nothing, and
/// what flows in beyond half a second of the rate is lost.
pub proof fn who_passes_pays(bucket: Bucket, now: int, bytes: int)
    requires
        bucket.wf(),
        bytes >= 0,
        now >= bucket.last,
    ensures
        bucket.after(now, bytes).rate == bucket.rate,
        bucket.after(now, bytes).last == now,
        ({
            let have = bucket.tokens + (now - bucket.last) * bucket.rate;
            let full = bucket.rate * 500_000_000;
            let kept = if have <= full {
                have
            } else {
                full
            };
            bucket.after(now, bytes).tokens == (if bucket.passes(now, bytes) {
                kept - bytes * 8_000_000_000
            } else {
                kept
            })
        }),
{
}

/// The wait is the time in which the shortage flows in at the rate, in whole
/// nanoseconds and not one more.
pub proof fn wait_is_the_shortage_at_the_rate(bucket: Bucket, now: int, bytes: int)
    requires
        bucket.wf(),
        bucket.rate > 0,
        bytes >= 0,
        now >= bucket.last,
        !bucket.passes(now, bytes),
    ensures
        bucket.wait(now, bytes) > 0,
        ({
            let have = bucket.tokens + (now - bucket.last) * bucket.rate;
            let then = have + bucket.wait(now, bytes) * bucket.rate;
            let before = have + (bucket.wait(now, bytes) - 1) * bucket.rate;
            &&& then >= bytes * 8_000_000_000 || then >= bucket.rate * 500_000_000
            &&& before < bytes * 8_000_000_000 && before < bucket.rate * 500_000_000
        }),
{
    lemma_wait(bucket.target(bytes) - bucket.refilled(now), bucket.rate);
}

/// A fresh bucket holds half a second of the rate: once `bytes` bytes have
/// passed, `more` bytes pass at the same instant exactly if all of them are
/// within it, or nothing was taken yet.
pub proof fn burst_is_half_a_second(rate: int, now: int, bytes: int, more: int)
    requires
        0 <= rate <= u64::MAX,
        0 <= now <= u64::MAX,
        0 <= bytes <= usize::MAX,
        0 <= more,
    ensures
        ({
            let fresh = Bucket { rate, tokens: burst(rate), last: now };
            &&& fresh.passes(now, bytes)
            &&& fresh.after(now, bytes).passes(now, more) <==> bytes == 0 || 16 * (bytes + more)
                <= rate
        }),
{
    let fresh = Bucket { rate, tokens: burst(rate), last: now };
    let used = fresh.after(now, bytes);
    assert(elapsed(now, now) * rate == 0) by (nonlinear_arith)
        requires
            elapsed(now, now) == 0,
    ;
    assert(fresh.refilled(now) == burst(rate));
    assert(used.refilled(now) == burst(rate) - cost(bytes));
}

/// Two requests at one instant come to the same as one for both, within the
/// burst.
pub proof fn requests_add_up(bucket: Bucket, now: int, first: int, second: int)
    requires
        bucket.wf(),
        now >= bucket.last,
        first >= 0,
        second >= 0,
        16 * (first + second) <= bucket.rate,
        bucket.passes(now, first + second),
    ensures
        bucket.passes(now, first),
        bucket.after(now, first).passes(now, second),
        bucket.after(now, first).after(now, second) == bucket.after(now, first + second),
{
    let mid = bucket.after(now, first);
    assert(elapsed(now, now) * bucket.rate == 0) by (nonlinear_arith)
        requires
            elapsed(now, now) == 0,
    ;
    assert(mid.refilled(now) == mid.tokens);
}

/// Every request counts: it changes the bucket, and its bytes are let through
/// exactly if it passes.
pub proof fn every_request_counts(bucket: Bucket, requests: Seq<Request>, r: Request)
    ensures
        after_all(bucket, requests.push(r)) == after_all(bucket, requests).after(r.now, r.bytes),
        passed_bytes(bucket, requests.push(r)) - passed_bytes(bucket, requests) == (if after_all(
            bucket,
            requests,
        ).passes(r.now, r.bytes) {
            r.bytes
        } else {
            0
        }),
        after_all(bucket, seq![]) == bucket,
        passed_bytes(bucket, seq![]) == 0,
{
    assert(requests.push(r).drop_last() =~= requests);
}

/// The service sustains the rate: from a bucket that is not overdrawn, requests
/// within the burst all pass, if each comes when the rate has paid for it since
/// the one before.
pub proof fn rate_is_sustained(bucket: Bucket, requests: Seq<Request>)
    requires
        bucket.wf(),
        bucket.tokens >= 0,
        can_follow(bucket, requests),
        forall|i: int|
            0 <= i < requests.len() ==> (#[trigger] requests[i]).bytes * 16 <= bucket.rate,
        forall|i: int|
            0 <= i < requests.len() ==> (#[trigger] requests[i]).bytes * 8_000_000_000 <= (
            requests[i].now - (if i == 0 {
                bucket.last
            } else {
                requests[i - 1].now
            })) * bucket.rate,
    ensures
        forall|i: int|
            0 <= i < requests.len() ==> (#[trigger] after_all(bucket, requests.take(i))).passes(
                requests[i].now,
                requests[i].bytes,
            ),
        after_all(bucket, requests).tokens >= 0,
    decreases requests.len(),
{
    if requests.len() > 0 {
        let earlier = requests.drop_last();
        let r = requests.last();
        let n = requests.len() - 1;
        lemma_all_but_last_can_follow(bucket, requests);
        assert forall|i: int| 0 <= i < earlier.len() implies (#[trigger] earlier[i]).bytes * 16
            <= bucket.rate && earlier[i].bytes * 8_000_000_000 <= (earlier[i].now - (if i == 0 {
            bucket.last
        } else {
            earlier[i - 1].now
        })) * bucket.rate by {
            assert(earlier[i] == requests[i]);
            if i > 0 {
                assert(earlier[i - 1] == requests[i - 1]);
            }
        }
        rate_is_sustained(bucket, earlier);
        tokens_are_conserved(bucket, earlier);
        let mid = after_all(bucket, earlier);
        assert(requests[n] == r);
        if n > 0 {
            assert(earlier.last() == requests[n - 1]);
        }
        assert(requests.take(n) =~= earlier);
        tokens_flow_in_at_the_rate(mid, r.now - mid.last, r.bytes);
        assert forall|i: int| 0 <= i < requests.len() implies (#[trigger] after_all(
            bucket,
            requests.take(i),
        )).passes(requests[i].now, requests[i].bytes) by {
            if i < n {
                assert(requests.take(i) =~= earlier.take(i));
                assert(after_all(bucket, earlier.take(i)).passes(earlier[i].now, earlier[i].bytes));
            }
        }
        assert((r.now - mid.last) * bucket.rate >= 0) by (nonlinear_arith)
            requires
                r.now >= mid.last,
                bucket.rate >= 0,
        ;
    }
}

} // verus!
