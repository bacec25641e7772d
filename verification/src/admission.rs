//! The admission controller: whether a request may enter, and how often a rejection is logged.

use std::time::{Duration, Instant};

use vstd::prelude::*;
use vstd::string::*;

use crate::rounding;
use crate::text;

verus! {

/// What the controller decides of a request.
#[derive(Debug, Clone, Copy, PartialEq, Eq, Structural)]
pub enum AdmissionDecision {
    Admit,
    RejectMemory { rss: u64, limit: u64 },
    RejectQueueDepth { depth: usize, limit: usize },
}

impl AdmissionDecision {
    pub fn is_admit(&self) -> (admitted: bool)
        ensures
            admitted == (*self == AdmissionDecision::Admit),
    {
        match self {
            AdmissionDecision::Admit => true,
            _ => false,
        }
    }

    /// The label under which the decision is counted.
    pub open spec fn label(self) -> Seq<char> {
        match self {
            AdmissionDecision::Admit => "admit"@,
            AdmissionDecision::RejectMemory { .. } => "reject_memory"@,
            AdmissionDecision::RejectQueueDepth { .. } => "reject_queue_depth"@,
        }
    }

    /// What the caller is told.
    pub open spec fn told(self) -> Seq<char> {
        match self {
            AdmissionDecision::Admit => "ok"@,
            AdmissionDecision::RejectMemory { .. } => "memory limit"@,
            AdmissionDecision::RejectQueueDepth { .. } => "queue depth limit"@,
        }
    }

    /// The label under which the decision is counted.
    pub fn reason_label(&self) -> (label: &'static str)
        ensures
            label@ == self.label(),
    {
        match self {
            AdmissionDecision::Admit => "admit",
            AdmissionDecision::RejectMemory { .. } => "reject_memory",
            AdmissionDecision::RejectQueueDepth { .. } => "reject_queue_depth",
        }
    }

    /// What the caller is told.
    pub fn reject_message(&self) -> (message: &'static str)
        ensures
            message@ == self.told(),
    {
        match self {
            AdmissionDecision::Admit => "ok",
            AdmissionDecision::RejectMemory { .. } => "memory limit",
            AdmissionDecision::RejectQueueDepth { .. } => "queue depth limit",
        }
    }
}

/// `std::time::Instant`, carried through without a look inside.
#[verifier::external_type_specification]
#[verifier::external_body]
pub struct ExInstant(std::time::Instant);

/// `std::time::Instant::now`: some point in time; nothing is claimed of which.
pub assume_specification[ std::time::Instant::now ]() -> std::time::Instant;

/// The time from `earlier` to `later`; none where they are in the wrong order.
pub uninterp spec fn time_between(later: Instant, earlier: Instant) -> Duration;

/// The length of a duration in whole nanoseconds.
pub uninterp spec fn nanoseconds(duration: Duration) -> u128;

/// `std::time::Instant::saturating_duration_since`: the time between two instants, which depends
/// on the two alone; how long it is, is left open, for an instant is opaque here.
pub assume_specification[ std::time::Instant::saturating_duration_since ](
    later: &std::time::Instant,
    earlier: std::time::Instant,
) -> (duration: std::time::Duration)
    ensures
        duration == time_between(*later, earlier),
;

/// `std::time::Duration::as_nanos`: the length of a duration, which depends on the duration alone;
/// how long it is, is left open, for a duration is opaque here.
pub assume_specification[ std::time::Duration::as_nanos ](duration: &std::time::Duration) -> (ns:
    u128)
    ensures
        ns == nanoseconds(*duration),
;

/// A token bucket: it holds up to `capacity` tokens, gains `refill_per_sec` a second, and each
/// permission takes one.
#[derive(Debug)]
pub struct RateLimiter {
    capacity: u32,
    tokens: u32,
    refill_per_sec: u32,
    last_refill: Instant,
}

/// The mathematical value of a [`RateLimiter`].
pub ghost struct RateLimiterView {
    pub capacity: nat,
    pub tokens: nat,
    pub refill_per_sec: nat,
    pub last_refill: Instant,
}

impl View for RateLimiter {
    type V = RateLimiterView;

    closed spec fn view(&self) -> RateLimiterView {
        RateLimiterView {
            capacity: self.capacity as nat,
            tokens: self.tokens as nat,
            refill_per_sec: self.refill_per_sec as nat,
            last_refill: self.last_refill,
        }
    }
}

/// A second in the units in which times are rounded, of `2^-82` seconds each.
pub const SECOND: u128 = 4835703278458516698824704;

/// A time in seconds as floating-point arithmetic has it, in units: the whole seconds plus the
/// nanoseconds divided down to seconds, each step rounded.
pub open spec fn seconds(elapsed_ns: nat) -> nat {
    rounding::rounded(
        rounding::rounded(elapsed_ns / 1_000_000_000 * SECOND as nat, 1) + rounding::rounded(
            elapsed_ns % 1_000_000_000 * SECOND as nat,
            1_000_000_000,
        ),
        1,
    )
}

/// The whole tokens gained in `elapsed_ns` nanoseconds at `rate` a second, as far as a `u32`
/// counts them: the time in seconds times the rate, rounded as floating-point arithmetic rounds
/// it, without its fraction.
pub open spec fn refill(rate: nat, elapsed_ns: nat) -> nat {
    let gained = rounding::rounded(seconds(elapsed_ns) * rate, 1) / SECOND as nat;
    if gained <= u32::MAX {
        gained
    } else {
        u32::MAX as nat
    }
}

impl RateLimiterView {
    /// The bucket is not overfull.
    pub open spec fn wf(self) -> bool {
        self.tokens <= self.capacity <= u32::MAX
    }

    /// The nanoseconds from the last refill to `now`.
    pub open spec fn elapsed(self, now: Instant) -> nat {
        nanoseconds(time_between(now, self.last_refill)) as nat
    }

    /// The bucket `elapsed_ns` nanoseconds after its last refill, when it is `now`. The time
    /// counts as spent only once it has brought a token.
    pub open spec fn refilled(self, elapsed_ns: nat, now: Instant) -> RateLimiterView {
        let gained = refill(self.refill_per_sec, elapsed_ns);
        if gained == 0 {
            self
        } else {
            RateLimiterView {
                tokens: if self.tokens + gained <= self.capacity {
                    self.tokens + gained
                } else {
                    self.capacity
                },
                last_refill: now,
                ..self
            }
        }
    }

    /// Whether a request is permitted at that time.
    pub open spec fn permits(self, elapsed_ns: nat, now: Instant) -> bool {
        self.refilled(elapsed_ns, now).tokens > 0
    }

    /// The bucket after a request at that time.
    pub open spec fn after(self, elapsed_ns: nat, now: Instant) -> RateLimiterView {
        let full = self.refilled(elapsed_ns, now);
        if full.tokens > 0 {
            RateLimiterView { tokens: (full.tokens - 1) as nat, ..full }
        } else {
            full
        }
    }
}

impl RateLimiter {
    #[verifier::type_invariant]
    spec fn inv(self) -> bool {
        self.tokens <= self.capacity
    }

    /// A full bucket for `rate_per_sec` permissions a second.
    pub fn new(rate_per_sec: u32) -> (limiter: RateLimiter)
        ensures
            limiter@.wf(),
            limiter@.capacity == rate_per_sec,
            limiter@.tokens == rate_per_sec,
            limiter@.refill_per_sec == rate_per_sec,
            call_ensures(Instant::now, (), limiter@.last_refill),
    {
        RateLimiter {
            capacity: rate_per_sec,
            tokens: rate_per_sec,
            refill_per_sec: rate_per_sec,
            last_refill: Instant::now(),
        }
    }

    /// Asks for a permission now.
    pub fn allow(&mut self) -> (allowed: bool)
        ensures
            final(self)@.wf(),
            exists|now: Instant|
                {
                    &&& call_ensures(Instant::now, (), now)
                    &&& #[trigger] old(self)@.permits(old(self)@.elapsed(now), now) == allowed
                    &&& final(self)@ == old(self)@.after(old(self)@.elapsed(now), now)
                },
    {
        let now = Instant::now();
        let elapsed_ns = now.saturating_duration_since(self.last_refill).as_nanos();
        assert(elapsed_ns == old(self)@.elapsed(now));
        self.allow_after(elapsed_ns, now)
    }

    /// Asks for a permission `elapsed_ns` nanoseconds after the last refill, when it is `now`.
    pub fn allow_after(&mut self, elapsed_ns: u128, now: Instant) -> (allowed: bool)
        ensures
            final(self)@.wf(),
            allowed == old(self)@.permits(elapsed_ns as nat, now),
            final(self)@ == old(self)@.after(elapsed_ns as nat, now),
            allowed <==> old(self)@.capacity > 0 && old(self)@.tokens + refill(
                old(self)@.refill_per_sec,
                elapsed_ns as nat,
            ) > 0,
            allowed ==> final(self)@.tokens < old(self)@.capacity,
    {
        proof {
            use_type_invariant(&*self);
        }
        let gained = tokens_gained(self.refill_per_sec, elapsed_ns);
        let mut tokens: u32 = self.tokens;
        if gained > 0 {
            tokens =
            if gained <= self.capacity - tokens {
                tokens + gained
            } else {
                self.capacity
            };
            self.last_refill = now;
        }
        if tokens > 0 {
            self.tokens = tokens - 1;
            true
        } else {
            self.tokens = tokens;
            false
        }
    }
}

/// `2^32` seconds in units are a power of two.
proof fn lemma_most_seconds()
    ensures
        vstd::arithmetic::power2::pow2(114) == 20769187434139310514121985316880384,
        20769187434139310514121985316880384 == 0x1_0000_0000 * SECOND,
{
    vstd::arithmetic::power2::lemma2_to64();
    vstd::arithmetic::power2::lemma2_to64_rest();
    vstd::arithmetic::power2::lemma_pow2_adds(64, 50);
}

/// `2^32` or more tokens count as the largest `u32`.
proof fn lemma_refill_saturates(rate: nat, elapsed_ns: nat)
    requires
        seconds(elapsed_ns) * rate >= 20769187434139310514121985316880384,
    ensures
        refill(rate, elapsed_ns) == u32::MAX,
{
    lemma_most_seconds();
    rounding::lemma_rounded_keeps_power_of_two(seconds(elapsed_ns) * rate, 114);
}

/// The whole tokens gained in `elapsed_ns` nanoseconds at `rate` a second.
pub fn tokens_gained(rate: u32, elapsed_ns: u128) -> (gained: u32)
    ensures
        gained == refill(rate as nat, elapsed_ns as nat),
{
    if rate == 0 {
        proof {
            rounding::lemma_rounded_zero(1);
        }
        return 0;
    }
    proof {
        lemma_most_seconds();
    }
    let whole: u128 = elapsed_ns / 1_000_000_000;
    let nanos: u128 = elapsed_ns % 1_000_000_000;
    if whole >= 0x1_0000_0000 {
        proof {
            let s = rounding::rounded(whole as nat * SECOND as nat, 1);
            let f = rounding::rounded(nanos as nat * SECOND as nat, 1_000_000_000);
            rounding::lemma_rounded_keeps_power_of_two(whole as nat * SECOND as nat, 114);
            rounding::lemma_rounded_keeps_power_of_two(s + f, 114);
            assert(seconds(elapsed_ns as nat) * rate >= seconds(elapsed_ns as nat))
                by (nonlinear_arith)
                requires
                    rate >= 1,
                    seconds(elapsed_ns as nat) >= 0,
            ;
            lemma_refill_saturates(rate as nat, elapsed_ns as nat);
        }
        return u32::MAX;
    }
    proof {
        rounding::lemma_rounded_bound(whole as nat * SECOND as nat, 1);
        rounding::lemma_rounded_bound(nanos as nat * SECOND as nat, 1_000_000_000);
    }
    let in_seconds = rounding::round(
        rounding::round(whole * SECOND, 1) + rounding::round(nanos * SECOND, 1_000_000_000),
        1,
    );
    assert(in_seconds == seconds(elapsed_ns as nat));
    match in_seconds.checked_mul(rate as u128) {
        Some(product) => {
            if product < 20769187434139310514121985316880384 {
                let gained: u128 = rounding::round(product, 1) / SECOND;
                if gained <= u32::MAX as u128 {
                    gained as u32
                } else {
                    u32::MAX
                }
            } else {
                proof {
                    lemma_refill_saturates(rate as nat, elapsed_ns as nat);
                }
                u32::MAX
            }
        },
        None => {
            proof {
                lemma_refill_saturates(rate as nat, elapsed_ns as nat);
            }
            u32::MAX
        },
    }
}

/// Decides whether requests enter, by the memory that the process holds and by the number of
/// requests that wait.
#[derive(Debug)]
pub struct AdmissionController {
    rss: u64,
    queue_depth: usize,
    max_rss_bytes: u64,
    max_queue_depth: usize,
    log_limiter: RateLimiter,
}

/// The mathematical value of an [`AdmissionController`].
pub ghost struct AdmissionView {
    pub rss: u64,
    pub queue_depth: usize,
    pub max_rss_bytes: u64,
    pub max_queue_depth: usize,
    pub log_limiter: RateLimiterView,
}

impl View for AdmissionController {
    type V = AdmissionView;

    closed spec fn view(&self) -> AdmissionView {
        AdmissionView {
            rss: self.rss,
            queue_depth: self.queue_depth,
            max_rss_bytes: self.max_rss_bytes,
            max_queue_depth: self.max_queue_depth,
            log_limiter: self.log_limiter@,
        }
    }
}

impl AdmissionView {
    /// The decision: memory first, then the queue.
    pub open spec fn decision(self) -> AdmissionDecision {
        if self.rss > self.max_rss_bytes {
            AdmissionDecision::RejectMemory { rss: self.rss, limit: self.max_rss_bytes }
        } else if self.queue_depth > self.max_queue_depth {
            AdmissionDecision::RejectQueueDepth {
                depth: self.queue_depth,
                limit: self.max_queue_depth,
            }
        } else {
            AdmissionDecision::Admit
        }
    }

    /// Whether a decision is logged: a rejection, as often as the limiter permits.
    pub open spec fn logs(
        self,
        decision: AdmissionDecision,
        elapsed_ns: nat,
        now: Instant,
    ) -> bool {
        decision != AdmissionDecision::Admit && self.log_limiter.permits(elapsed_ns, now)
    }

    /// The controller after it was asked whether to log a decision.
    pub open spec fn after_log(
        self,
        decision: AdmissionDecision,
        elapsed_ns: nat,
        now: Instant,
    ) -> AdmissionView {
        if decision == AdmissionDecision::Admit {
            self
        } else {
            AdmissionView { log_limiter: self.log_limiter.after(elapsed_ns, now), ..self }
        }
    }

    /// The controller with one more request waiting.
    pub open spec fn enqueued(self) -> AdmissionView {
        AdmissionView { queue_depth: (self.queue_depth + 1) as usize, ..self }
    }

    /// The controller with `n` requests fewer waiting.
    pub open spec fn dequeued(self, n: usize) -> AdmissionView {
        AdmissionView { queue_depth: (self.queue_depth - n) as usize, ..self }
    }

    /// The controller after a reading of the memory that the process holds, or a failed one.
    pub open spec fn sampled(self, sample: Option<u64>) -> AdmissionView {
        match sample {
            Some(bytes) => AdmissionView { rss: bytes, ..self },
            None => self,
        }
    }
}

impl AdmissionController {
    /// A controller with these limits, no reading and nothing waiting; it logs up to ten
    /// rejections a second.
    pub fn new(max_rss_bytes: u64, max_queue_depth: usize) -> (controller: AdmissionController)
        ensures
            controller@.rss == 0,
            controller@.queue_depth == 0,
            controller@.max_rss_bytes == max_rss_bytes,
            controller@.max_queue_depth == max_queue_depth,
            controller@.log_limiter.wf(),
            controller@.log_limiter.capacity == 10,
            controller@.log_limiter.tokens == 10,
            controller@.log_limiter.refill_per_sec == 10,
            call_ensures(Instant::now, (), controller@.log_limiter.last_refill),
    {
        AdmissionController {
            rss: 0,
            queue_depth: 0,
            max_rss_bytes,
            max_queue_depth,
            log_limiter: RateLimiter::new(10),
        }
    }

    /// Decides whether a request may enter.
    pub fn check(&self) -> (decision: AdmissionDecision)
        ensures
            decision == self@.decision(),
    {
        if self.rss > self.max_rss_bytes {
            return AdmissionDecision::RejectMemory { rss: self.rss, limit: self.max_rss_bytes };
        }
        if self.queue_depth > self.max_queue_depth {
            return AdmissionDecision::RejectQueueDepth {
                depth: self.queue_depth,
                limit: self.max_queue_depth,
            };
        }
        AdmissionDecision::Admit
    }

    /// Whether to log a decision now.
    pub fn maybe_log_rejection(&mut self, decision: &AdmissionDecision) -> (log: bool)
        ensures
            *decision != AdmissionDecision::Admit ==> exists|now: Instant|
                {
                    &&& call_ensures(Instant::now, (), now)
                    &&& #[trigger] old(self)@.logs(
                        *decision,
                        old(self)@.log_limiter.elapsed(now),
                        now,
                    ) == log
                    &&& final(self)@ == old(self)@.after_log(
                        *decision,
                        old(self)@.log_limiter.elapsed(now),
                        now,
                    )
                },
            *decision == AdmissionDecision::Admit ==> !log && final(self)@ == old(self)@,
    {
        if decision.is_admit() {
            return false;
        }
        let log = self.log_limiter.allow();
        proof {
            let limiter = old(self)@.log_limiter;
            let now = choose|now: Instant|
                {
                    &&& call_ensures(Instant::now, (), now)
                    &&& #[trigger] limiter.permits(limiter.elapsed(now), now) == log
                    &&& self.log_limiter@ == limiter.after(limiter.elapsed(now), now)
                };
            assert(old(self)@.logs(*decision, limiter.elapsed(now), now) == log);
        }
        log
    }

    /// Whether to log a decision `elapsed_ns` nanoseconds after the limiter's last refill.
    pub fn maybe_log_rejection_after(
        &mut self,
        decision: &AdmissionDecision,
        elapsed_ns: u128,
        now: Instant,
    ) -> (log: bool)
        ensures
            log == old(self)@.logs(*decision, elapsed_ns as nat, now),
            final(self)@ == old(self)@.after_log(*decision, elapsed_ns as nat, now),
    {
        if decision.is_admit() {
            return false;
        }
        self.log_limiter.allow_after(elapsed_ns, now)
    }

    /// Counts one more waiting request, and gives the new depth.
    pub fn incr_queue(&mut self) -> (depth: usize)
        requires
            old(self)@.queue_depth < usize::MAX,
        ensures
            final(self)@ == old(self)@.enqueued(),
            depth == old(self)@.queue_depth + 1,
    {
        self.queue_depth = self.queue_depth + 1;
        self.queue_depth
    }

    /// Counts `n` waiting requests fewer, and gives the new depth.
    pub fn decr_queue(&mut self, n: usize) -> (depth: usize)
        requires
            n <= old(self)@.queue_depth,
        ensures
            final(self)@ == old(self)@.dequeued(n),
            depth == old(self)@.queue_depth - n,
    {
        self.queue_depth = self.queue_depth - n;
        self.queue_depth
    }

    /// Takes over a reading of the memory that the process holds; a failed one changes nothing.
    pub fn record_sample(&mut self, sample: Option<u64>)
        ensures
            final(self)@ == old(self)@.sampled(sample),
    {
        match sample {
            Some(bytes) => {
                self.rss = bytes;
            },
            None => {},
        }
    }

    /// The number of requests that wait.
    pub fn queue_depth(&self) -> (depth: usize)
        ensures
            depth == self@.queue_depth,
    {
        self.queue_depth
    }

    /// The memory that the process held at the last reading.
    pub fn rss(&self) -> (rss: u64)
        ensures
            rss == self@.rss,
    {
        self.rss
    }
}

/// The resident pages that `/proc/self/statm` reports: its second field.
pub fn resident_pages(statm: &str) -> (pages: Result<u64, String>)
    ensures
        match pages {
            Ok(n) => text::field(statm@, 1) is Some && text::parsed_u64(text::field(statm@, 1)->0)
                == Some(n),
            Err(text) => text@ == "malformed /proc/self/statm"@ && (text::field(statm@, 1) is Some
                ==> text::parsed_u64(text::field(statm@, 1)->0) is None),
        },
{
    match text::second_field_u64(statm) {
        Some(pages) => Ok(pages),
        None => Err("malformed /proc/self/statm".to_string()),
    }
}

/// The bytes of `pages` pages, or `None` where they cannot be counted.
pub fn resident_bytes(pages: u64, page_size: u64) -> (bytes: Option<u64>)
    ensures
        bytes == (if pages * page_size <= u64::MAX {
            Some((pages * page_size) as u64)
        } else {
            None
        }),
{
    pages.checked_mul(page_size)
}

/// A request enters exactly when neither the memory nor the queue is over its limit, and a
/// process over its memory limit is told so whatever the queue holds.
pub proof fn lemma_enters_exactly_within_limits(controller: AdmissionView)
    ensures
        controller.decision() == AdmissionDecision::Admit <==> controller.rss
            <= controller.max_rss_bytes && controller.queue_depth <= controller.max_queue_depth,
        controller.rss > controller.max_rss_bytes ==> controller.decision() is RejectMemory,
{
}

/// A request that has come and gone leaves the controller as it was.
pub proof fn lemma_queue_count_balances(controller: AdmissionView)
    requires
        controller.queue_depth < usize::MAX,
    ensures
        controller.enqueued().dequeued(1) == controller,
{
}

/// The bucket after a run of requests, each at a time after the last refill before it.
pub open spec fn limiter_after(limiter: RateLimiterView, times: Seq<(nat, Instant)>) ->
    RateLimiterView
    decreases times.len(),
{
    if times.len() == 0 {
        limiter
    } else {
        limiter_after(limiter, times.drop_last()).after(times.last().0, times.last().1)
    }
}

/// How many requests of a run are permitted.
pub open spec fn permissions(limiter: RateLimiterView, times: Seq<(nat, Instant)>) -> nat
    decreases times.len(),
{
    if times.len() == 0 {
        0
    } else {
        permissions(limiter, times.drop_last()) + if limiter_after(
            limiter,
            times.drop_last(),
        ).permits(times.last().0, times.last().1) {
            1nat
        } else {
            0nat
        }
    }
}

/// The tokens that the times of a run bring.
pub open spec fn tokens_brought(rate: nat, times: Seq<(nat, Instant)>) -> nat
    decreases times.len(),
{
    if times.len() == 0 {
        0
    } else {
        tokens_brought(rate, times.drop_last()) + refill(rate, times.last().0)
    }
}

/// A run of requests gets no more permissions than there were tokens at its start and time has
/// brought since, and the bucket is never overfull.
pub proof fn lemma_permissions_bounded(limiter: RateLimiterView, times: Seq<(nat, Instant)>)
    requires
        limiter.wf(),
    ensures
        limiter_after(limiter, times).wf(),
        limiter_after(limiter, times).capacity == limiter.capacity,
        limiter_after(limiter, times).refill_per_sec == limiter.refill_per_sec,
        permissions(limiter, times) + limiter_after(limiter, times).tokens <= limiter.tokens
            + tokens_brought(limiter.refill_per_sec, times),
    decreases times.len(),
{
    if times.len() > 0 {
        lemma_permissions_bounded(limiter, times.drop_last());
    }
}

/// No time brings no token.
pub proof fn lemma_no_time_brings_no_token(rate: nat)
    ensures
        refill(rate, 0) == 0,
{
    rounding::lemma_rounded_zero(1);
    rounding::lemma_rounded_zero(1_000_000_000);
    assert(seconds(0) == 0);
    assert(0 * rate == 0) by (nonlinear_arith);
}

/// While no time passes, the first requests of a run are permitted until the tokens are spent,
/// and all that follow are refused.
pub proof fn lemma_burst_spends_the_tokens(limiter: RateLimiterView, times: Seq<(nat, Instant)>)
    requires
        limiter.wf(),
        forall|i: int| 0 <= i < times.len() ==> (#[trigger] times[i]).0 == 0,
    ensures
        times.len() <= limiter.tokens ==> {
            &&& permissions(limiter, times) == times.len()
            &&& limiter_after(limiter, times).tokens == limiter.tokens - times.len()
        },
        times.len() > limiter.tokens ==> {
            &&& permissions(limiter, times) == limiter.tokens
            &&& limiter_after(limiter, times).tokens == 0
        },
{
    if times.len() > 0 {
        lemma_burst_after_idle_time(limiter, times);
        lemma_no_time_brings_no_token(limiter.refill_per_sec);
        assert(times[0].0 == 0);
    }
}

/// After an idle time the bucket holds what it held and what the time has brought, up to its
/// capacity. Of a run of requests that then come before time brings another token, exactly as
/// many are permitted as it holds, the first ones, and all that follow are refused.
pub proof fn lemma_burst_after_idle_time(limiter: RateLimiterView, times: Seq<(nat, Instant)>)
    requires
        limiter.wf(),
        times.len() > 0,
        forall|i: int|
            1 <= i < times.len() ==> (#[trigger] times[i]).0 == 0 || refill(
                limiter.refill_per_sec,
                times[i].0,
            ) == 0,
    ensures
        ({
            let brought = limiter.tokens + refill(limiter.refill_per_sec, times[0].0);
            let held = if brought <= limiter.capacity {
                brought
            } else {
                limiter.capacity
            };
            &&& permissions(limiter, times) == (if times.len() <= held {
                times.len()
            } else {
                held
            })
            &&& limiter_after(limiter, times).tokens == held - permissions(limiter, times)
            &&& forall|i: int|
                0 <= i < times.len() ==> (#[trigger] limiter_after(limiter, times.take(i)).permits(
                    times[i].0,
                    times[i].1,
                ) <==> i < held)
        }),
    decreases times.len(),
{
    let init = times.drop_last();
    let last = times.len() - 1;
    lemma_permissions_bounded(limiter, init);
    lemma_no_time_brings_no_token(limiter.refill_per_sec);
    assert(times.take(last) == init);
    if last == 0 {
        assert(init.len() == 0);
    } else {
        assert forall|i: int| 1 <= i < init.len() implies (#[trigger] init[i]).0 == 0 || refill(
            limiter.refill_per_sec,
            init[i].0,
        ) == 0 by {
            assert(init[i] == times[i]);
        }
        lemma_burst_after_idle_time(limiter, init);
        assert(times[last].0 == 0 || refill(limiter.refill_per_sec, times[last].0) == 0);
    }
    assert forall|i: int| 0 <= i < last implies limiter_after(
        limiter,
        #[trigger] times.take(i),
    ) == limiter_after(limiter, init.take(i)) && times[i] == init[i] by {
        assert(times.take(i) == init.take(i));
    }
}

/// How many decisions of a run are rejections.
pub open spec fn rejections(calls: Seq<(AdmissionDecision, nat, Instant)>) -> nat
    decreases calls.len(),
{
    if calls.len() == 0 {
        0
    } else {
        rejections(calls.drop_last()) + if calls.last().0 == AdmissionDecision::Admit {
            0nat
        } else {
            1nat
        }
    }
}

/// The controller after it was asked of a run of decisions whether to log them, each at a time
/// after the last refill of its limiter.
pub open spec fn controller_after(
    controller: AdmissionView,
    calls: Seq<(AdmissionDecision, nat, Instant)>,
) -> AdmissionView
    decreases calls.len(),
{
    if calls.len() == 0 {
        controller
    } else {
        controller_after(controller, calls.drop_last()).after_log(
            calls.last().0,
            calls.last().1,
            calls.last().2,
        )
    }
}

/// Of a run of decisions that come before time brings the limiter another token, the rejections
/// are logged for as long as it has one (a new controller has ten) and not after; an admission is
/// not logged and takes none; and nothing but the tokens of the limiter changes.
pub proof fn lemma_rejections_are_logged_while_tokens_last(
    controller: AdmissionView,
    calls: Seq<(AdmissionDecision, nat, Instant)>,
)
    requires
        controller.log_limiter.wf(),
        forall|i: int|
            0 <= i < calls.len() ==> (#[trigger] calls[i]).1 == 0 || refill(
                controller.log_limiter.refill_per_sec,
                calls[i].1,
            ) == 0,
    ensures
        forall|i: int|
            0 <= i < calls.len() ==> (#[trigger] controller_after(controller, calls.take(i)).logs(
                calls[i].0,
                calls[i].1,
                calls[i].2,
            ) <==> calls[i].0 != AdmissionDecision::Admit && rejections(calls.take(i))
                < controller.log_limiter.tokens),
        controller_after(controller, calls) == (AdmissionView {
            log_limiter: RateLimiterView {
                tokens: if rejections(calls) <= controller.log_limiter.tokens {
                    (controller.log_limiter.tokens - rejections(calls)) as nat
                } else {
                    0
                },
                ..controller.log_limiter
            },
            ..controller
        }),
    decreases calls.len(),
{
    if calls.len() > 0 {
        let init = calls.drop_last();
        let last = calls.len() - 1;
        assert forall|i: int| 0 <= i < init.len() implies (#[trigger] init[i]).1 == 0 || refill(
            controller.log_limiter.refill_per_sec,
            init[i].1,
        ) == 0 by {
            assert(init[i] == calls[i]);
        }
        lemma_rejections_are_logged_while_tokens_last(controller, init);
        lemma_no_time_brings_no_token(controller.log_limiter.refill_per_sec);
        assert(calls.take(last) == init);
        assert(calls[last].1 == 0 || refill(
            controller.log_limiter.refill_per_sec,
            calls[last].1,
        ) == 0);
        assert forall|i: int| 0 <= i < last implies #[trigger] calls.take(i) == init.take(i)
            && calls[i] == init[i] by {}
    }
}

/// What a check decides, and what it reports: memory over its limit, then a queue over its limit.
pub proof fn lemma_decisions(controller: AdmissionView)
    ensures
        controller.rss > controller.max_rss_bytes ==> controller.decision() == (
        AdmissionDecision::RejectMemory { rss: controller.rss, limit: controller.max_rss_bytes }),
        controller.rss <= controller.max_rss_bytes && controller.queue_depth
            > controller.max_queue_depth ==> controller.decision() == (
        AdmissionDecision::RejectQueueDepth {
            depth: controller.queue_depth,
            limit: controller.max_queue_depth,
        }),
        controller.rss <= controller.max_rss_bytes && controller.queue_depth
            <= controller.max_queue_depth ==> controller.decision() == AdmissionDecision::Admit,
{
}

/// How a decision is counted and what the caller is told, whatever figures it carries.
pub proof fn lemma_decisions_in_words(rss: u64, rss_limit: u64, depth: usize, depth_limit: usize)
    ensures
        AdmissionDecision::Admit.label() == "admit"@,
        (AdmissionDecision::RejectMemory { rss, limit: rss_limit }).label() == "reject_memory"@,
        (AdmissionDecision::RejectQueueDepth { depth, limit: depth_limit }).label()
            == "reject_queue_depth"@,
        AdmissionDecision::Admit.told() == "ok"@,
        (AdmissionDecision::RejectMemory { rss, limit: rss_limit }).told() == "memory limit"@,
        (AdmissionDecision::RejectQueueDepth { depth, limit: depth_limit }).told()
            == "queue depth limit"@,
{
}

/// A coming and a going request change the depth by one each, a reading changes the memory, and
/// none of them anything else.
pub proof fn lemma_counts_and_readings(controller: AdmissionView, n: usize, bytes: u64)
    ensures
        controller.queue_depth < usize::MAX ==> controller.enqueued().queue_depth
            == controller.queue_depth + 1,
        controller.enqueued().rss == controller.rss,
        controller.enqueued().max_rss_bytes == controller.max_rss_bytes,
        controller.enqueued().max_queue_depth == controller.max_queue_depth,
        controller.enqueued().log_limiter == controller.log_limiter,
        n <= controller.queue_depth ==> controller.dequeued(n).queue_depth == controller.queue_depth
            - n,
        controller.dequeued(n).rss == controller.rss,
        controller.dequeued(n).max_rss_bytes == controller.max_rss_bytes,
        controller.dequeued(n).max_queue_depth == controller.max_queue_depth,
        controller.dequeued(n).log_limiter == controller.log_limiter,
        controller.sampled(Some(bytes)).rss == bytes,
        controller.sampled(Some(bytes)).queue_depth == controller.queue_depth,
        controller.sampled(Some(bytes)).max_rss_bytes == controller.max_rss_bytes,
        controller.sampled(Some(bytes)).max_queue_depth == controller.max_queue_depth,
        controller.sampled(Some(bytes)).log_limiter == controller.log_limiter,
        controller.sampled(None) == controller,
{
}

/// One request to the bucket: it first gains what the time has brought, up to its capacity, and
/// takes the time as spent only if that is a token or more; then the request takes a token, or is
/// refused where there is none.
pub proof fn lemma_one_request_to_the_bucket(
    limiter: RateLimiterView,
    elapsed_ns: nat,
    now: Instant,
)
    requires
        limiter.wf(),
    ensures
        ({
            let gained = refill(limiter.refill_per_sec, elapsed_ns);
            let held = if limiter.tokens + gained <= limiter.capacity {
                limiter.tokens + gained
            } else {
                limiter.capacity
            };
            &&& limiter.permits(elapsed_ns, now) <==> held > 0
            &&& held > 0 ==> limiter.after(elapsed_ns, now).tokens == held - 1
            &&& held == 0 ==> limiter.after(elapsed_ns, now).tokens == 0
            &&& gained > 0 ==> limiter.after(elapsed_ns, now).last_refill == now
            &&& gained == 0 ==> limiter.after(elapsed_ns, now).last_refill == limiter.last_refill
        }),
        limiter.after(elapsed_ns, now).capacity == limiter.capacity,
        limiter.after(elapsed_ns, now).refill_per_sec == limiter.refill_per_sec,
        limiter.elapsed(now) == nanoseconds(time_between(now, limiter.last_refill)),
{
}

/// Whole seconds bring exactly their number times the rate.
pub proof fn lemma_whole_seconds_bring_the_rate(rate: nat, secs: nat)
    requires
        secs * rate <= u32::MAX,
        rate > 0,
    ensures
        refill(rate, secs * 1_000_000_000) == secs * rate,
{
    let unit = SECOND as nat;
    lemma_most_seconds();
    vstd::arithmetic::power2::lemma2_to64();
    vstd::arithmetic::power2::lemma2_to64_rest();
    vstd::arithmetic::power2::lemma_pow2_adds(64, 18);
    assert(unit == vstd::arithmetic::power2::pow2(82));
    let ns = secs * 1_000_000_000;
    assert(ns / 1_000_000_000 == secs && ns % 1_000_000_000 == 0);
    assert(secs <= secs * rate) by (nonlinear_arith)
        requires
            rate > 0,
    ;
    rounding::lemma_rounded_exact(secs, 82);
    rounding::lemma_rounded_zero(1_000_000_000);
    assert(seconds(ns) == secs * unit);
    assert((secs * unit) * rate == (secs * rate) * unit) by (nonlinear_arith);
    rounding::lemma_rounded_exact(secs * rate, 82);
    vstd::arithmetic::div_mod::lemma_div_multiples_vanish((secs * rate) as int, unit as int);
    assert((secs * rate) * unit == unit * (secs * rate)) by (nonlinear_arith);
}

proof fn lemma_product_error(rate: nat, elapsed_ns: nat)
    ensures
        ({
            let d = rounding::rounded(seconds(elapsed_ns) * rate, 1);
            let e = elapsed_ns * SECOND as nat * rate;
            let n = 1_000_000_000int;
            let k = 9007199254740992int;
            let slack = k * n + 6 * e + 4 * (rate * (k * n));
            -slack <= k * (d * n - e) <= slack
        }),
{
    let u = SECOND as int;
    let n: int = 1_000_000_000;
    let k: int = 9007199254740992;
    let w = (elapsed_ns / 1_000_000_000) as int;
    let f = (elapsed_ns % 1_000_000_000) as int;
    let r = rate as int;
    let a = rounding::rounded((w * u) as nat, 1) as int;
    let b = rounding::rounded((f * u) as nat, 1_000_000_000) as int;
    let c = rounding::rounded((a + b) as nat, 1) as int;
    let d = rounding::rounded((c * r) as nat, 1) as int;
    assert(w * u >= 0 && f * u >= 0) by (nonlinear_arith)
        requires
            w >= 0,
            f >= 0,
            u >= 0,
    ;
    assert(c * r >= 0) by (nonlinear_arith)
        requires
            c >= 0,
            r >= 0,
    ;
    rounding::lemma_rounded_error((w * u) as nat, 1);
    rounding::lemma_rounded_error((f * u) as nat, 1_000_000_000);
    rounding::lemma_rounded_error((a + b) as nat, 1);
    rounding::lemma_rounded_error((c * r) as nat, 1);
    assert(c == seconds(elapsed_ns));
    assert(d == rounding::rounded(seconds(elapsed_ns) * rate, 1));
    let exact = w * u * n + f * u;
    assert(exact == elapsed_ns * SECOND as nat) by (nonlinear_arith)
        requires
            exact == w * u * n + f * u,
            elapsed_ns == w * n + f,
            u == SECOND as int,
    ;
    let sum = (a + b) * n - exact;
    assert(-(k * n + exact) <= k * sum <= k * n + exact);
    let sec = c * n - exact;
    assert(-(2 * (k * n) + 3 * exact) <= k * sec <= 2 * (k * n) + 3 * exact);
    assert(-(2 * (r * (k * n)) + 3 * (exact * r)) <= k * (sec * r) <= 2 * (r * (k * n)) + 3 * (exact
        * r)) by (nonlinear_arith)
        requires
            -(2 * (k * n) + 3 * exact) <= k * sec <= 2 * (k * n) + 3 * exact,
            r >= 0,
    ;
    assert(sec * r == (c * r) * n - exact * r) by (nonlinear_arith)
        requires
            sec == c * n - exact,
    ;
    assert(0 <= r * (k * n)) by (nonlinear_arith)
        requires
            r >= 0,
            k == 9007199254740992,
            n == 1_000_000_000,
    ;
    assert(0 <= exact * r) by (nonlinear_arith)
        requires
            r >= 0,
            exact >= 0,
    ;
    assert(exact * r == elapsed_ns * SECOND as nat * rate);
}

/// Rounding moves the tokens that a time brings by no more than one from their exact number, the
/// whole part of the time in seconds times the rate; and once there are far more than a `u32`
/// counts, the largest `u32` is brought.
pub proof fn lemma_tokens_are_close_to_exact(rate: nat, elapsed_ns: nat)
    requires
        rate <= u32::MAX,
    ensures
        elapsed_ns * rate / 1_000_000_000 <= u32::MAX ==> {
            &&& refill(rate, elapsed_ns) <= elapsed_ns * rate / 1_000_000_000 + 1
            &&& elapsed_ns * rate / 1_000_000_000 <= refill(rate, elapsed_ns) + 1
        },
        elapsed_ns * rate >= 0x4_0000_0000 * 1_000_000_000 ==> refill(rate, elapsed_ns) == u32::MAX,
{
    let u = SECOND as int;
    let n: int = 1_000_000_000;
    let k: int = 9007199254740992;
    let r = rate as int;
    let p = elapsed_ns * rate;
    let e = elapsed_ns * SECOND as nat * rate;
    let d = rounding::rounded(seconds(elapsed_ns) * rate, 1) as int;
    lemma_product_error(rate, elapsed_ns);
    assert(e == p * u) by (nonlinear_arith)
        requires
            e == elapsed_ns * u * rate,
            p == elapsed_ns * rate,
    ;
    let slack = k * n + 6 * e + 4 * (rate * (k * n));
    let g = d / u;
    vstd::arithmetic::div_mod::lemma_fundamental_div_mod(d, u);
    let x = (p / 1_000_000_000) as int;
    assert(4 * (rate * (k * n)) <= 4 * (u32::MAX * (k * n))) by (nonlinear_arith)
        requires
            rate <= u32::MAX,
            k == 9007199254740992,
            n == 1_000_000_000,
    ;
    if x <= u32::MAX {
        assert(p < 0x1_0000_0000 * n);
        assert(slack < k * (u * n));
        assert(-(u * n) < d * n - e < u * n);
        assert(g <= x + 1) by (nonlinear_arith)
            requires
                u * g <= d,
                d * n < p * u + u * n,
                p < (x + 1) * n,
                n == 1_000_000_000,
                u > 0,
        ;
        assert(x <= g + 1) by (nonlinear_arith)
            requires
                d < u * (g + 1),
                p * u - u * n < d * n,
                x * n <= p,
                n == 1_000_000_000,
                u > 0,
        ;
    }
    if p >= 0x4_0000_0000 * 1_000_000_000 {
        assert(k * (d * n) >= (k - 6) * e - k * n - 4 * (u32::MAX * (k * n)));
        assert(e >= 0x4_0000_0000 * (u * n)) by (nonlinear_arith)
            requires
                e == p * u,
                p >= 0x4_0000_0000 * n,
                u > 0,
        ;
        assert(d >= 0x1_0000_0000 * u);
        assert(g >= 0x1_0000_0000) by (nonlinear_arith)
            requires
                d < u * (g + 1),
                d >= 0x1_0000_0000 * u,
                u > 0,
        ;
    }
}

/// The steps in which a time becomes tokens, each rounded to the nearest value of 53 bits: the
/// nanoseconds are divided down to seconds, the whole seconds are added, and the rate multiplies
/// the sum, of which the whole part counts.
pub proof fn lemma_steps_from_time_to_tokens(rate: nat, secs: nat, nanos: nat, sum: nat)
    requires
        nanos < 1_000_000_000,
        sum == rounding::rounded(secs * SECOND as nat, 1) + rounding::rounded(
            nanos * SECOND as nat,
            1_000_000_000,
        ),
    ensures
        SECOND as nat == vstd::arithmetic::power2::pow2(82),
        rounding::rounded(rounding::rounded(sum, 1) * rate, 1) < 0x1_0000_0000 * SECOND ==> refill(
            rate,
            secs * 1_000_000_000 + nanos,
        ) == rounding::rounded(rounding::rounded(sum, 1) * rate, 1) / SECOND as nat,
{
    vstd::arithmetic::power2::lemma2_to64();
    vstd::arithmetic::power2::lemma2_to64_rest();
    vstd::arithmetic::power2::lemma_pow2_adds(64, 18);
    let ns = secs * 1_000_000_000 + nanos;
    assert(ns / 1_000_000_000 == secs && ns % 1_000_000_000 == nanos);
}

/// To ask whether to log a decision asks the limiter of the log for a rejection, and nobody for an
/// admission.
pub proof fn lemma_asking_to_log(
    controller: AdmissionView,
    decision: AdmissionDecision,
    elapsed_ns: nat,
    now: Instant,
)
    ensures
        decision == AdmissionDecision::Admit ==> {
            &&& !controller.logs(decision, elapsed_ns, now)
            &&& controller.after_log(decision, elapsed_ns, now) == controller
        },
        decision != AdmissionDecision::Admit ==> {
            let after = controller.after_log(decision, elapsed_ns, now);
            &&& controller.logs(decision, elapsed_ns, now) <==> controller.log_limiter.permits(
                elapsed_ns,
                now,
            )
            &&& after.log_limiter == controller.log_limiter.after(elapsed_ns, now)
            &&& after.rss == controller.rss
            &&& after.queue_depth == controller.queue_depth
            &&& after.max_rss_bytes == controller.max_rss_bytes
            &&& after.max_queue_depth == controller.max_queue_depth
        },
{
}

} // verus!
