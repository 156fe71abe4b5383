//! The delivery of one event to one endpoint: attempts, retries, and the row that is logged.

use crate::outcome::{take_last, AttemptOutcome};
use vstd::arithmetic::power2::{lemma2_to64, lemma_pow2_strictly_increases, lemma_pow2_unfold, pow2};
use vstd::prelude::*;

verus! {

/// How often a delivery is attempted, and how long it waits in between.
#[derive(Clone, Copy, Debug, PartialEq, Eq)]
pub struct RetryPolicy {
    /// Most attempts that are made. At least one is made in any case.
    pub max_attempts: u32,
    /// Wait before the first retry, in milliseconds; each further wait is twice as long.
    pub base_delay_ms: u64,
    /// Longest wait, in milliseconds.
    pub max_delay_ms: u64,
}

/// Default retry policy: 3 attempts, 1s then 2s backoff, bounded by the delivery timeout.
pub fn default_retry_policy() -> (r: RetryPolicy)
    ensures
        r.max_attempts == 3,
        r.base_delay_ms == 1_000,
        r.max_delay_ms == 4_000,
{
    RetryPolicy { max_attempts: 3, base_delay_ms: 1_000, max_delay_ms: 4_000 }
}

impl RetryPolicy {
    /// The wait after `attempts` failed attempts: `base_delay_ms` after the first, twice as long
    /// after each further one, and never longer than `max_delay_ms`.
    pub open spec fn backoff(self, attempts: u32) -> int {
        let doublings: nat = if attempts == 0 {
            0
        } else {
            (attempts - 1) as nat
        };
        let delay = self.base_delay_ms * pow2(doublings);
        if delay < self.max_delay_ms {
            delay
        } else {
            self.max_delay_ms as int
        }
    }

    /// The wait after `attempts` failed attempts, in milliseconds.
    pub fn backoff_ms(&self, attempts: u32) -> (ms: u64)
        ensures
            ms == self.backoff(attempts),
    {
        if self.base_delay_ms == 0 {
            return 0;
        }
        let mut delay: u64 = self.base_delay_ms;
        let mut n: u32 = 1;
        proof {
            lemma2_to64();
            assert(self.base_delay_ms * pow2(0) == self.base_delay_ms) by (nonlinear_arith)
                requires
                    pow2(0) == 1,
            ;
        }
        while n < attempts && delay < self.max_delay_ms
            invariant
                1 <= n,
                n <= attempts || n == 1,
                self.base_delay_ms > 0,
                delay > 0,
                delay < self.max_delay_ms ==> delay == self.base_delay_ms * pow2((n - 1) as nat),
                delay >= self.max_delay_ms ==> self.base_delay_ms * pow2((n - 1) as nat)
                    >= self.max_delay_ms,
            decreases attempts - n,
        {
            let ghost before = delay;
            delay = if delay < self.max_delay_ms - delay {
                delay * 2
            } else {
                self.max_delay_ms
            };
            proof {
                lemma_pow2_unfold(n as nat);
                assert(self.base_delay_ms * pow2(n as nat) == 2 * before) by (nonlinear_arith)
                    requires
                        pow2(n as nat) == 2 * pow2((n - 1) as nat),
                        before == self.base_delay_ms * pow2((n - 1) as nat),
                ;
            }
            n += 1;
        }
        proof {
            if n < attempts {
                lemma_pow2_strictly_increases((n - 1) as nat, (attempts - 1) as nat);
                assert(self.base_delay_ms * pow2((attempts - 1) as nat) >= self.base_delay_ms
                    * pow2((n - 1) as nat)) by (nonlinear_arith)
                    requires
                        pow2((attempts - 1) as nat) >= pow2((n - 1) as nat),
                        self.base_delay_ms >= 0,
                ;
            }
        }
        if delay < self.max_delay_ms {
            delay
        } else {
            self.max_delay_ms
        }
    }
}

/// Whether an endpoint accepted the event in the end.
#[derive(Clone, Copy, Debug, PartialEq, Eq, Structural)]
pub enum DeliveryStatus {
    Delivered,
    Failed,
}

impl DeliveryStatus {
    /// The name under which the status is logged.
    pub fn as_str(self) -> (s: &'static str)
        ensures
            s@ == (match self {
                DeliveryStatus::Delivered => "delivered"@,
                DeliveryStatus::Failed => "failed"@,
            }),
    {
        match self {
            DeliveryStatus::Delivered => "delivered",
            DeliveryStatus::Failed => "failed",
        }
    }
}

/// How a delivery came to its end.
pub enum DeliveryEnd {
    /// An attempt was accepted.
    Succeeded(AttemptOutcome),
    /// The last attempt failed, and no further one is made.
    Exhausted(AttemptOutcome),
    /// Attempts were gated before another one could be made.
    CircuitOpen,
    /// The overall deadline passed, perhaps in the middle of an attempt.
    DeadlineExceeded,
}

/// What follows an attempt.
pub enum Verdict {
    /// Wait for this many milliseconds, then try again.
    RetryAfter(u64),
    /// The delivery is over.
    Finished(DeliveryEnd),
}

/// What follows the attempt number `attempts` with the given outcome: a success and a final
/// answer end the delivery, and so does a transient failure when no attempt is left.
pub open spec fn verdict_on(policy: RetryPolicy, attempts: u32, outcome: AttemptOutcome) -> Verdict {
    if outcome.success() {
        Verdict::Finished(DeliveryEnd::Succeeded(outcome))
    } else if outcome.retriable() && attempts < policy.max_attempts {
        Verdict::RetryAfter(policy.backoff(attempts) as u64)
    } else {
        Verdict::Finished(DeliveryEnd::Exhausted(outcome))
    }
}

/// The number of attempts as it is logged: at least one, and wrapped into the 32-bit signed
/// column that holds it.
pub open spec fn logged_attempts(attempts: u32) -> int {
    if attempts == 0 {
        1
    } else if attempts <= i32::MAX {
        attempts as int
    } else {
        attempts - 0x1_0000_0000
    }
}

/// One row of the delivery log, for one endpoint and one event.
pub struct LogRow {
    pub endpoint_id: u128,
    pub event_type: String,
    pub status: DeliveryStatus,
    pub attempts: i32,
    pub response_code: Option<i32>,
    pub body_snippet: Option<String>,
}

impl LogRow {
    /// The row reports what `outcome` observed.
    pub open spec fn reports(self, outcome: AttemptOutcome) -> bool {
        &&& self.response_code == (match outcome.status {
            Some(s) => Some(s as i32),
            None => None,
        })
        &&& self.body_snippet == outcome.body_snippet
    }
}

/// The delivery of one event to one endpoint.
pub struct Delivery {
    policy: RetryPolicy,
    attempts: u32,
    last: AttemptOutcome,
}

impl Delivery {
    /// The policy that rules the retries.
    pub closed spec fn policy(self) -> RetryPolicy {
        self.policy
    }

    /// The number of attempts begun so far.
    pub closed spec fn attempts(self) -> u32 {
        self.attempts
    }

    /// Last observation, kept so a deadline mid-retry still logs what the endpoint said.
    pub closed spec fn last(self) -> AttemptOutcome {
        self.last
    }

    /// A delivery of which nothing has been attempted.
    pub fn new(policy: RetryPolicy) -> (r: Self)
        ensures
            r.policy() == policy,
            r.attempts() == 0,
            r.last().observed_nothing(),
    {
        Delivery { policy, attempts: 0, last: AttemptOutcome::default() }
    }

    /// Counts an attempt that is about to be made.
    pub fn begin_attempt(&mut self)
        ensures
            final(self).policy() == old(self).policy(),
            final(self).last() == old(self).last(),
            final(self).attempts() == (if old(self).attempts() == u32::MAX {
                0
            } else {
                old(self).attempts() + 1
            }),
    {
        self.attempts = self.attempts.wrapping_add(1);
    }

    /// Records what an attempt observed and says what follows.
    pub fn observe(&mut self, outcome: AttemptOutcome) -> (v: Verdict)
        ensures
            final(self).policy() == old(self).policy(),
            final(self).attempts() == old(self).attempts(),
            final(self).last() == outcome,
            v == verdict_on(old(self).policy(), old(self).attempts(), outcome),
    {
        self.last = outcome.clone();
        if outcome.is_success() {
            Verdict::Finished(DeliveryEnd::Succeeded(outcome))
        } else if outcome.is_retriable() && self.attempts < self.policy.max_attempts {
            Verdict::RetryAfter(self.policy.backoff_ms(self.attempts))
        } else {
            Verdict::Finished(DeliveryEnd::Exhausted(outcome))
        }
    }

    /// The row that a delivery with this end leaves in the log.
    pub open spec fn closes_with(self, end: DeliveryEnd, row: LogRow) -> bool {
        &&& row.attempts == logged_attempts(self.attempts())
        &&& match end {
            DeliveryEnd::Succeeded(outcome) => row.status == DeliveryStatus::Delivered
                && row.reports(outcome),
            DeliveryEnd::Exhausted(outcome) => row.status == DeliveryStatus::Failed && row.reports(
                outcome,
            ),
            DeliveryEnd::CircuitOpen => row.status == DeliveryStatus::Failed && row.reports(
                self.last(),
            ),
            DeliveryEnd::DeadlineExceeded => row.status == DeliveryStatus::Failed && row.reports(
                self.last(),
            ),
        }
    }

    /// Ends the delivery: the row for the log.
    pub fn close(self, end: DeliveryEnd, endpoint_id: u128, event_type: String) -> (row: LogRow)
        ensures
            self.closes_with(end, row),
            row.endpoint_id == endpoint_id,
            row.event_type == event_type,
    {
        let mut this = self;
        let (status, outcome) = match end {
            DeliveryEnd::Succeeded(outcome) => (DeliveryStatus::Delivered, outcome),
            DeliveryEnd::Exhausted(outcome) => (DeliveryStatus::Failed, outcome),
            DeliveryEnd::CircuitOpen => (DeliveryStatus::Failed, take_last(&mut this.last)),
            DeliveryEnd::DeadlineExceeded => (DeliveryStatus::Failed, take_last(&mut this.last)),
        };
        let counted: u32 = if this.attempts == 0 {
            1
        } else {
            this.attempts
        };
        let attempts: i32 = #[verifier::truncate] (counted as i32);
        assert(attempts == logged_attempts(self.attempts)) by {
            assert(counted <= 0x7fff_ffff ==> counted as i32 == counted) by (bit_vector);
            assert(counted > 0x7fff_ffff ==> counted as i32 == counted - 0x1_0000_0000)
                by (bit_vector);
        }
        let response_code = match outcome.status {
            Some(s) => Some(s as i32),
            None => None,
        };
        LogRow {
            endpoint_id,
            event_type,
            status,
            attempts,
            response_code,
            body_snippet: outcome.body_snippet,
        }
    }
}

/// A delivery that reaches its attempt number `attempt`, where `script` gives the outcome of each
/// attempt: the number of attempts made in the end, and how it ends.
pub open spec fn run(
    policy: RetryPolicy,
    script: spec_fn(u32) -> AttemptOutcome,
    attempt: u32,
) -> (u32, DeliveryEnd)
    decreases policy.max_attempts - attempt,
{
    match verdict_on(policy, attempt, script(attempt)) {
        Verdict::Finished(end) => (attempt, end),
        Verdict::RetryAfter(_) => run(policy, script, (attempt + 1) as u32),
    }
}

proof fn lemma_run_from(
    policy: RetryPolicy,
    script: spec_fn(u32) -> AttemptOutcome,
    attempt: u32,
)
    ensures
        ({
            let (n, end) = run(policy, script, attempt);
            &&& attempt <= n
            &&& n == attempt || n <= policy.max_attempts
            &&& forall|k: u32|
                attempt <= k < n ==> (#[trigger] script(k)).retriable() && !script(k).success()
            &&& script(n).success() ==> end == DeliveryEnd::Succeeded(script(n))
            &&& !script(n).success() ==> {
                &&& end == DeliveryEnd::Exhausted(script(n))
                &&& script(n).retriable() ==> n >= policy.max_attempts
            }
        }),
    decreases policy.max_attempts - attempt,
{
    if verdict_on(policy, attempt, script(attempt)) is RetryAfter {
        lemma_run_from(policy, script, (attempt + 1) as u32);
    }
}

/// Every delivery makes between one and `max_attempts` attempts. It goes on exactly as long as
/// attempts fail for a transient reason and another one is left: each attempt before the last was
/// a transport error or a 5xx; the last one was accepted, was a final answer, or used up the
/// policy. The delivery succeeds if and only if its last attempt did: if it was answered with a
/// status from 200 to 299.
pub proof fn delivery_attempts(policy: RetryPolicy, script: spec_fn(u32) -> AttemptOutcome)
    ensures
        ({
            let (n, end) = run(policy, script, 1);
            &&& 1 <= n
            &&& n == 1 || n <= policy.max_attempts
            &&& forall|k: u32|
                1 <= k < n ==> {
                    ||| (#[trigger] script(k)).status is None
                    ||| 500 <= script(k).status->0 <= 599
                }
            &&& n < policy.max_attempts ==> script(n).status is Some && !(500
                <= script(n).status->0 <= 599)
            &&& end == (if script(n).status is Some && 200 <= script(n).status->0 <= 299 {
                DeliveryEnd::Succeeded(script(n))
            } else {
                DeliveryEnd::Exhausted(script(n))
            })
        }),
        ({
            let (n, end) = run(policy, script, 1);
            &&& 1 <= n
            &&& n == 1 || n <= policy.max_attempts
            &&& forall|k: u32|
                1 <= k < n ==> (#[trigger] script(k)).retriable() && !script(k).success()
            &&& script(n).success() ==> end == DeliveryEnd::Succeeded(script(n))
            &&& !script(n).success() ==> {
                &&& end == DeliveryEnd::Exhausted(script(n))
                &&& script(n).retriable() ==> n >= policy.max_attempts
            }
        }),
{
    lemma_run_from(policy, script, 1);
}

/// The first attempt that is accepted, or answered with finality, is the last one, provided that
/// the policy lets the delivery get that far.
pub proof fn delivery_stops_at_first_answer(
    policy: RetryPolicy,
    script: spec_fn(u32) -> AttemptOutcome,
    n: u32,
)
    requires
        1 <= n,
        n == 1 || n <= policy.max_attempts,
        forall|k: u32|
            1 <= k < n ==> (#[trigger] script(k)).retriable() && !script(k).success(),
        script(n).success() || !script(n).retriable() || n >= policy.max_attempts,
    ensures
        run(policy, script, 1).0 == n,
{
    lemma_run_from(policy, script, 1);
    let m = run(policy, script, 1).0;
    if m < n {
        assert(script(m).retriable());
    } else if n < m {
        assert(script(n).retriable());
    }
}

/// The row of a delivery that ran to its end: delivered if and only if the last attempt was
/// accepted, with the number of attempts made and what the last one observed.
pub proof fn finished_delivery_is_logged(
    d: Delivery,
    script: spec_fn(u32) -> AttemptOutcome,
    row: LogRow,
)
    requires
        d.attempts() == run(d.policy(), script, 1).0,
        d.closes_with(run(d.policy(), script, 1).1, row),
    ensures
        row.status == DeliveryStatus::Delivered <==> script(d.attempts()).success(),
        row.reports(script(d.attempts())),
        d.attempts() <= i32::MAX ==> row.attempts == d.attempts(),
        ({
            let seen = script(d.attempts());
            &&& row.status == DeliveryStatus::Delivered <==> seen.status is Some && 200
                <= seen.status->0 <= 299
            &&& seen.status matches Some(s) ==> (row.response_code matches Some(c)
                && c as int == s as int)
            &&& seen.status is None ==> row.response_code is None
            &&& row.body_snippet == seen.body_snippet
        }),
{
    lemma_run_from(d.policy(), script, 1);
}

/// A delivery that is cut off is logged as failed, with what the endpoint said last.
pub proof fn cut_off_delivery_is_logged(d: Delivery, end: DeliveryEnd, row: LogRow)
    requires
        end is DeadlineExceeded || end is CircuitOpen,
        d.closes_with(end, row),
    ensures
        row.status == DeliveryStatus::Failed,
        row.reports(d.last()),
        d.last().status matches Some(s) ==> (row.response_code matches Some(c)
            && c as int == s as int),
        d.last().status is None ==> row.response_code is None,
        row.body_snippet == d.last().body_snippet,
        1 <= d.attempts() <= i32::MAX ==> row.attempts == d.attempts(),
        d.attempts() == 0 ==> row.attempts == 1,
{
}

/// A delivery is never logged with zero attempts: a row with zero attempts is of an endpoint that
/// was skipped.
pub proof fn closed_delivery_counts_an_attempt(d: Delivery, end: DeliveryEnd, row: LogRow)
    requires
        d.closes_with(end, row),
    ensures
        row.attempts != 0,
{
}

/// A delivery starts under its policy, with no attempt made and nothing observed.
pub proof fn delivery_starts_with_nothing(policy: RetryPolicy, d: Delivery)
    requires
        call_ensures(Delivery::new, (policy,), d),
    ensures
        d.policy() == policy,
        d.attempts() == 0,
        d.last().status is None,
        d.last().body_snippet is None,
{
}

/// Each attempt that is begun counts one, and changes nothing else. The count wraps after the
/// largest number it can hold.
pub proof fn attempt_counts_one(d: &mut Delivery)
    requires
        call_ensures(Delivery::begin_attempt, (d,), ()),
    ensures
        old(d).attempts() < u32::MAX ==> final(d).attempts() == old(d).attempts() + 1,
        old(d).attempts() == u32::MAX ==> final(d).attempts() == 0,
        final(d).policy() == old(d).policy(),
        final(d).last() == old(d).last(),
{
}

/// What follows an attempt is decided by its status. Every status from 500 to 599, and no response
/// at all, is retried after the wait of the policy as long as an attempt is left. A status from 200
/// to 299 ends the delivery as a success, and anything else as a failure. Whatever follows, what
/// was observed is kept as it is.
pub proof fn status_decides_what_follows(
    d: &mut Delivery,
    outcome: AttemptOutcome,
    wait: u64,
    v: Verdict,
)
    requires
        call_ensures(Delivery::observe, (d, outcome), v),
        call_ensures(RetryPolicy::backoff_ms, (&old(d).policy(), old(d).attempts()), wait),
    ensures
        ({
            let accepted = outcome.status is Some && 200 <= outcome.status->0 <= 299;
            let transient = outcome.status is None || 500 <= outcome.status->0 <= 599;
            let left = old(d).attempts() < old(d).policy().max_attempts;
            &&& accepted ==> v == Verdict::Finished(DeliveryEnd::Succeeded(outcome))
            &&& transient && left ==> v == Verdict::RetryAfter(wait)
            &&& !accepted && !(transient && left) ==> v == Verdict::Finished(
                DeliveryEnd::Exhausted(outcome),
            )
        }),
        v == verdict_on(old(d).policy(), old(d).attempts(), outcome),
        final(d).last().status == outcome.status,
        final(d).last().body_snippet == outcome.body_snippet,
        final(d).attempts() == old(d).attempts(),
        final(d).policy() == old(d).policy(),
{
}

/// The row of a delivery has the endpoint and the event that it is closed with, and the number of
/// attempts that were begun, at least one. It says delivered if and only if an attempt was
/// accepted. Its response code is the status of the outcome that ended the delivery or, where it
/// was cut off, of the last one that was observed, and its snippet is that of the same outcome.
pub proof fn row_tells_what_was_observed(
    d: Delivery,
    end: DeliveryEnd,
    endpoint_id: u128,
    event_type: String,
    row: LogRow,
)
    requires
        call_ensures(Delivery::close, (d, end, endpoint_id, event_type), row),
    ensures
        ({
            let seen = match end {
                DeliveryEnd::Succeeded(outcome) => outcome,
                DeliveryEnd::Exhausted(outcome) => outcome,
                DeliveryEnd::CircuitOpen => d.last(),
                DeliveryEnd::DeadlineExceeded => d.last(),
            };
            &&& row.status == DeliveryStatus::Delivered <==> end is Succeeded
            &&& seen.status matches Some(s) ==> (row.response_code matches Some(c)
                && c as int == s as int)
            &&& seen.status is None ==> row.response_code is None
            &&& row.body_snippet == seen.body_snippet
        }),
        d.attempts() == 0 ==> row.attempts == 1,
        1 <= d.attempts() <= i32::MAX ==> row.attempts == d.attempts(),
        d.attempts() > i32::MAX ==> row.attempts + 0x1_0000_0000 == d.attempts(),
        row.endpoint_id == endpoint_id,
        row.event_type == event_type,
        d.closes_with(end, row),
{
}

/// The status of a row is logged under the name `delivered` or `failed`, and no other.
pub proof fn status_has_its_name(status: DeliveryStatus, name: &str)
    requires
        call_ensures(DeliveryStatus::as_str, (status,), name),
    ensures
        status is Delivered ==> name@ == "delivered"@,
        status is Failed ==> name@ == "failed"@,
{
}

/// The first wait is the base delay, each further one is twice as long as the one before it, and
/// none is longer than the longest wait. Without an attempt the wait is that after the first.
pub proof fn wait_doubles_up_to_its_limit(
    policy: &RetryPolicy,
    attempts: u32,
    none: u64,
    first: u64,
    wait: u64,
    next: u64,
)
    requires
        1 <= attempts < u32::MAX,
        call_ensures(RetryPolicy::backoff_ms, (policy, 0), none),
        call_ensures(RetryPolicy::backoff_ms, (policy, 1), first),
        call_ensures(RetryPolicy::backoff_ms, (policy, attempts), wait),
        call_ensures(RetryPolicy::backoff_ms, (policy, (attempts + 1) as u32), next),
    ensures
        first == (if policy.base_delay_ms < policy.max_delay_ms {
            policy.base_delay_ms
        } else {
            policy.max_delay_ms
        }),
        next == (if 2 * wait < policy.max_delay_ms {
            2 * wait
        } else {
            policy.max_delay_ms as int
        }),
        none == first,
        policy.backoff(attempts) == wait,
{
    lemma2_to64();
    assert(policy.base_delay_ms * pow2(0) == policy.base_delay_ms) by (nonlinear_arith)
        requires
            pow2(0) == 1,
    ;
    lemma_pow2_unfold(attempts as nat);
    assert(policy.base_delay_ms * pow2(attempts as nat) == 2 * (policy.base_delay_ms * pow2(
        (attempts - 1) as nat,
    ))) by (nonlinear_arith)
        requires
            pow2(attempts as nat) == 2 * pow2((attempts - 1) as nat),
    ;
}

/// Waits never get shorter from attempt to attempt, and never exceed the longest wait.
pub proof fn backoff_grows_to_its_limit(policy: RetryPolicy, a: u32, b: u32)
    requires
        a <= b,
    ensures
        policy.backoff(a) <= policy.backoff(b) <= policy.max_delay_ms,
{
    if 1 <= a && a < b {
        lemma_pow2_strictly_increases((a - 1) as nat, (b - 1) as nat);
        assert(policy.base_delay_ms * pow2((a - 1) as nat) <= policy.base_delay_ms * pow2(
            (b - 1) as nat,
        )) by (nonlinear_arith)
            requires
                pow2((a - 1) as nat) < pow2((b - 1) as nat),
        ;
    } else if a == 0 && b > 1 {
        lemma_pow2_strictly_increases(0, (b - 1) as nat);
        assert(policy.base_delay_ms * pow2(0) <= policy.base_delay_ms * pow2((b - 1) as nat))
            by (nonlinear_arith)
            requires
                pow2(0) < pow2((b - 1) as nat),
        ;
    }
}

} // verus!
