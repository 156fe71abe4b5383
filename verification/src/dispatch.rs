//! The dispatch of one event to all active endpoints of a wallet.

use crate::delivery::{
    default_retry_policy, Delivery, DeliveryEnd, DeliveryStatus, LogRow, RetryPolicy,
};
use crate::envelope::{body_bytes, body_of, envelope, envelope_of, Event};
use crate::target::{is_safe_url, local_allowed, safe_url, url_host};
use core::time::Duration;
use vstd::prelude::*;
use vstd::utf8::*;

verus! {

/// Default ceiling on the total time of a delivery, across all retries, in seconds.
pub const DEFAULT_DELIVERY_TIMEOUT_SECS: u64 = 20;

/// Ceiling on the time of a single request, in seconds.
pub const REQUEST_TIMEOUT_SECS: u64 = 10;

/// The length of a duration in nanoseconds.
pub uninterp spec fn nanos(d: Duration) -> nat;

/// `core::time::Duration::from_secs`: a duration of that many whole seconds.
#[verifier::external_body]
fn seconds(secs: u64) -> (d: Duration)
    ensures
        nanos(d) == secs * 1_000_000_000,
{
    Duration::from_secs(secs)
}

/// Sends signed webhooks for a wallet's active endpoints, with retry + delivery logging: the
/// settings that rule a dispatch.
pub struct WebhookSender {
    pub retry_policy: RetryPolicy,
    /// Ceiling on the total time of a delivery to one endpoint, across all retries.
    pub delivery_timeout: Duration,
    /// Ceiling on the time of a single request.
    pub request_timeout: Duration,
}

impl Clone for WebhookSender {
    fn clone(&self) -> (r: Self)
        ensures
            r == *self,
    {
        WebhookSender {
            retry_policy: self.retry_policy,
            delivery_timeout: self.delivery_timeout,
            request_timeout: self.request_timeout,
        }
    }
}

impl WebhookSender {
    /// The default settings.
    pub fn new() -> (r: Self)
        ensures
            r.retry_policy.max_attempts == 3,
            r.retry_policy.base_delay_ms == 1_000,
            r.retry_policy.max_delay_ms == 4_000,
            nanos(r.delivery_timeout) == DEFAULT_DELIVERY_TIMEOUT_SECS * 1_000_000_000,
            nanos(r.request_timeout) == REQUEST_TIMEOUT_SECS * 1_000_000_000,
    {
        WebhookSender {
            retry_policy: default_retry_policy(),
            delivery_timeout: seconds(DEFAULT_DELIVERY_TIMEOUT_SECS),
            request_timeout: seconds(REQUEST_TIMEOUT_SECS),
        }
    }

    /// Set a custom total delivery timeout ceiling per endpoint, across all retries (default 20s).
    pub fn with_delivery_timeout(self, timeout: Duration) -> (r: Self)
        ensures
            r.delivery_timeout == timeout,
            r.retry_policy == self.retry_policy,
            r.request_timeout == self.request_timeout,
    {
        WebhookSender { delivery_timeout: timeout, ..self }
    }

    /// Override the retry policy (attempt count and backoff) used for each endpoint.
    pub fn with_retry_policy(self, policy: RetryPolicy) -> (r: Self)
        ensures
            r.retry_policy == policy,
            r.delivery_timeout == self.delivery_timeout,
            r.request_timeout == self.request_timeout,
    {
        WebhookSender { retry_policy: policy, ..self }
    }

    /// Starts the dispatch of `event` to every active endpoint of a wallet. `endpoints` is `None`
    /// where they could not be loaded; nothing is delivered then.
    pub fn dispatch(&self, endpoints: Option<Vec<Endpoint>>, event: &Event) -> (r: Dispatch)
        ensures
            r.wf(),
            r.policy() == self.retry_policy,
            r.endpoints() == (match endpoints {
                Some(list) => list@,
                None => Seq::empty(),
            }),
            r.event_type() == event.event_type@,
            r.body() == envelope_of(*event),
            r.rows() == Seq::<LogRow>::empty(),
            !r.delivering(),
    {
        let list = match endpoints {
            Some(list) => list,
            None => Vec::new(),
        };
        let body = envelope(event);
        let bytes = body_bytes(&body);
        Dispatch {
            policy: self.retry_policy,
            endpoints: list,
            event_type: event.event_type.clone(),
            body,
            bytes,
            at: 0,
            delivered: 0,
            delivering: false,
            rows: Ghost(Seq::empty()),
        }
    }
}

/// A registered webhook endpoint.
pub struct Endpoint {
    pub id: u128,
    pub url: String,
    pub secret: String,
}

/// A delivery that is to be made: what is signed, and what is sent where.
pub struct DeliveryJob {
    pub endpoint_id: u128,
    pub url: String,
    pub secret: String,
    pub body: Vec<u8>,
}

/// A signed POST request.
pub struct WebhookRequest {
    pub url: String,
    pub headers: Vec<(String, String)>,
    pub body: Vec<u8>,
}

impl DeliveryJob {
    /// The key and the message of the signature: the endpoint's secret and the body.
    pub fn signing_input(&self) -> (r: (&[u8], &[u8]))
        ensures
            r.0@ == encode_utf8(self.secret@),
            r.1@ == self.body@,
    {
        (self.secret.as_str().as_bytes(), self.body.as_slice())
    }

    /// The request of one attempt: a JSON POST of the body that was signed, with the signature in
    /// the header `signature_header`.
    pub fn request(&self, signature_header: &str, signature: &str) -> (r: WebhookRequest)
        ensures
            r.url == self.url,
            r.headers@.len() == 2,
            r.headers@[0].0@ == "content-type"@,
            r.headers@[0].1@ == "application/json"@,
            r.headers@[1].0@ == signature_header@,
            r.headers@[1].1@ == signature@,
            r.body@ == self.body@,
    {
        let mut headers: Vec<(String, String)> = Vec::new();
        headers.push(("content-type".to_owned(), "application/json".to_owned()));
        headers.push((signature_header.to_owned(), signature.to_owned()));
        let body = self.body.clone();
        assert(body@ =~= self.body@);
        WebhookRequest { url: self.url.clone(), headers, body }
    }
}

/// The number of rows that say delivered.
pub open spec fn accepted(rows: Seq<LogRow>) -> nat
    decreases rows.len(),
{
    if rows.len() == 0 {
        0
    } else {
        accepted(rows.drop_last()) + (if rows.last().status == DeliveryStatus::Delivered {
            1nat
        } else {
            0nat
        })
    }
}

/// No more endpoints accept than rows are logged.
pub proof fn accepted_is_bounded(rows: Seq<LogRow>)
    ensures
        accepted(rows) <= rows.len(),
    decreases rows.len(),
{
    if rows.len() > 0 {
        accepted_is_bounded(rows.drop_last());
    }
}

/// What a dispatch does next.
pub enum DispatchStep {
    /// The endpoint's URL is unsafe: it is skipped, and this row is logged.
    Skip { row: LogRow, url: String },
    /// This delivery is to be made.
    Deliver(DeliveryJob),
    /// All endpoints are done; this many accepted.
    Finished(usize),
}

/// The dispatch of one event, endpoint by endpoint. Best-effort per endpoint: a failing endpoint
/// is logged and does not block the others.
pub struct Dispatch {
    policy: RetryPolicy,
    endpoints: Vec<Endpoint>,
    event_type: String,
    body: serde_json::Value,
    bytes: Vec<u8>,
    at: usize,
    delivered: usize,
    delivering: bool,
    rows: Ghost<Seq<LogRow>>,
}

impl Dispatch {
    /// The policy of every delivery.
    pub closed spec fn policy(self) -> RetryPolicy {
        self.policy
    }

    /// The endpoints, in the order in which they are served.
    pub closed spec fn endpoints(self) -> Seq<Endpoint> {
        self.endpoints@
    }

    /// The type of the event.
    pub closed spec fn event_type(self) -> Seq<char> {
        self.event_type@
    }

    /// The envelope of the event.
    pub closed spec fn body(self) -> serde_json::Value {
        self.body
    }

    /// The rows logged so far, one per endpoint that is done.
    pub closed spec fn rows(self) -> Seq<LogRow> {
        self.rows@
    }

    /// A delivery to the current endpoint has been handed out and not been completed.
    pub closed spec fn delivering(self) -> bool {
        self.delivering
    }

    /// The endpoint that is served next.
    pub open spec fn current(self) -> Endpoint {
        self.endpoints()[self.rows().len() as int]
    }

    /// Some endpoint is still to be served.
    pub open spec fn pending(self) -> bool {
        self.rows().len() < self.endpoints().len()
    }

    /// The counters agree with the rows, and the bytes with the envelope.
    pub closed spec fn consistent(self) -> bool {
        &&& self.at == self.rows@.len()
        &&& self.delivered == accepted(self.rows@)
        &&& self.bytes@ == body_of(self.body)
    }

    /// Exactly one row has been logged for each endpoint that is done, in order, and all of them
    /// are for this event.
    pub open spec fn wf(self) -> bool {
        &&& self.consistent()
        &&& self.rows().len() <= self.endpoints().len()
        &&& self.delivering() ==> self.pending()
        &&& forall|i: int|
            0 <= i < self.rows().len() ==> {
                &&& (#[trigger] self.rows()[i]).endpoint_id == self.endpoints()[i].id
                &&& self.rows()[i].event_type@ == self.event_type()
            }
    }

    /// `after` is a later state of this dispatch: the policy, the endpoints and the event stay.
    pub open spec fn same_dispatch(self, after: Dispatch) -> bool {
        &&& after.policy() == self.policy()
        &&& after.endpoints() == self.endpoints()
        &&& after.event_type() == self.event_type()
        &&& after.body() == self.body()
    }

    /// `after` is this dispatch with `row` logged and the current endpoint done.
    pub open spec fn logs(self, row: LogRow, after: Dispatch) -> bool {
        &&& self.same_dispatch(after)
        &&& !after.delivering()
        &&& after.rows() == self.rows().push(row)
    }

    /// The envelope that is logged with each row.
    pub fn logged_body(&self) -> (r: &serde_json::Value)
        ensures
            *r == self.body(),
    {
        &self.body
    }

    /// A delivery to the current endpoint of which nothing has been attempted.
    pub fn start_delivery(&self) -> (r: Delivery)
        ensures
            r.policy() == self.policy(),
            r.attempts() == 0,
            r.last().observed_nothing(),
    {
        Delivery::new(self.policy)
    }

    /// `step` follows in this state, where `safe` is the verdict on the current endpoint's URL, and
    /// leads to `after`.
    pub open spec fn steps(self, safe: bool, step: DispatchStep, after: Dispatch) -> bool {
        match step {
            DispatchStep::Finished(n) => {
                &&& !self.pending()
                &&& n == accepted(self.rows())
                &&& after == self
            },
            DispatchStep::Skip { row, url } => {
                &&& self.pending()
                &&& !safe
                &&& url == self.current().url
                &&& row.endpoint_id == self.current().id
                &&& row.event_type@ == self.event_type()
                &&& row.status == DeliveryStatus::Failed
                &&& row.attempts == 0
                &&& row.response_code is None
                &&& row.body_snippet is None
                &&& self.logs(row, after)
            },
            DispatchStep::Deliver(job) => {
                &&& self.pending()
                &&& safe
                &&& job.endpoint_id == self.current().id
                &&& job.url == self.current().url
                &&& job.secret == self.current().secret
                &&& job.body@ == body_of(self.body())
                &&& self.same_dispatch(after)
                &&& after.rows() == self.rows()
                &&& after.delivering()
            },
        }
    }

    /// What is to be done next, given the value of the local-webhooks setting. An endpoint whose
    /// URL is unsafe is logged as failed without an attempt, and the dispatch goes on to the next
    /// one.
    pub fn next(&mut self, local_setting: Option<&str>) -> (step: DispatchStep)
        requires
            old(self).wf(),
        ensures
            final(self).wf(),
            old(self).steps(
                safe_url(
                    old(self).current().url@,
                    url_host(old(self).current().url@),
                    local_allowed(local_setting),
                ),
                step,
                *final(self),
            ),
    {
        let safe = self.at < self.endpoints.len() && is_safe_url(
            self.endpoints[self.at].url.as_str(),
            local_setting,
        );
        self.next_judged(safe)
    }

    /// What is to be done next, given the verdict on the current endpoint's URL.
    pub fn next_judged(&mut self, safe: bool) -> (step: DispatchStep)
        requires
            old(self).wf(),
        ensures
            final(self).wf(),
            old(self).steps(safe, step, *final(self)),
    {
        if self.at >= self.endpoints.len() {
            return DispatchStep::Finished(self.delivered);
        }
        let endpoint = &self.endpoints[self.at];
        if !safe {
            let url = endpoint.url.clone();
            let row = LogRow {
                endpoint_id: endpoint.id,
                event_type: self.event_type.clone(),
                status: DeliveryStatus::Failed,
                attempts: 0,
                response_code: None,
                body_snippet: None,
            };
            self.advance(&row);
            return DispatchStep::Skip { row, url };
        }
        let body = self.bytes.clone();
        assert(body@ =~= self.bytes@);
        let job = DeliveryJob {
            endpoint_id: endpoint.id,
            url: endpoint.url.clone(),
            secret: endpoint.secret.clone(),
            body,
        };
        self.delivering = true;
        DispatchStep::Deliver(job)
    }

    /// Goes on to the next endpoint, and counts the current one if it accepted.
    fn advance(&mut self, row: &LogRow)
        requires
            old(self).wf(),
            old(self).pending(),
            row.endpoint_id == old(self).current().id,
            row.event_type@ == old(self).event_type(),
        ensures
            final(self).wf(),
            old(self).logs(*row, *final(self)),
    {
        proof {
            accepted_is_bounded(self.rows@);
            assert(self.at < self.endpoints.len());
        }
        if row.status == DeliveryStatus::Delivered {
            self.delivered = self.delivered + 1;
        }
        self.at = self.at + 1;
        self.delivering = false;
        self.rows = Ghost(self.rows@.push(*row));
        assert(self.rows@.drop_last() =~= old(self).rows@);
    }

    /// `row` is logged for the delivery to the current endpoint that came to this end, and leads to
    /// `after`.
    pub open spec fn completes(
        self,
        delivery: Delivery,
        end: DeliveryEnd,
        row: LogRow,
        after: Dispatch,
    ) -> bool {
        &&& delivery.closes_with(end, row)
        &&& row.endpoint_id == self.current().id
        &&& row.event_type@ == self.event_type()
        &&& self.logs(row, after)
    }

    /// Ends the delivery that was handed out: the row for the log. The dispatch goes on to the
    /// next endpoint whatever the end was, and counts the endpoint if it accepted.
    pub fn complete(&mut self, delivery: Delivery, end: DeliveryEnd) -> (row: LogRow)
        requires
            old(self).wf(),
            old(self).delivering(),
        ensures
            final(self).wf(),
            old(self).completes(delivery, end, row, *final(self)),
    {
        let endpoint_id = self.endpoints[self.at].id;
        let row = delivery.close(end, endpoint_id, self.event_type.clone());
        self.advance(&row);
        row
    }
}

/// When a dispatch is finished, every endpoint has exactly one row, in order, and the number that
/// is returned counts the endpoints whose row says delivered.
pub proof fn finished_dispatch_logged_every_endpoint(d: Dispatch)
    requires
        d.wf(),
        !d.pending(),
    ensures
        d.rows().len() == d.endpoints().len(),
        forall|i: int|
            0 <= i < d.endpoints().len() ==> (#[trigger] d.rows()[i]).endpoint_id
                == d.endpoints()[i].id,
        accepted(d.rows()) <= d.endpoints().len(),
{
    accepted_is_bounded(d.rows());
}

/// No endpoint blocks the others: whatever row is logged for the current endpoint, the next one is
/// up, and the count goes up by one if and only if the row says delivered.
pub proof fn no_endpoint_blocks_the_others(before: Dispatch, row: LogRow, after: Dispatch)
    requires
        before.pending(),
        before.logs(row, after),
    ensures
        after.rows().len() == before.rows().len() + 1,
        after.pending() <==> before.rows().len() + 1 < before.endpoints().len(),
        after.pending() ==> after.current() == before.endpoints()[before.rows().len() as int + 1],
        accepted(after.rows()) == accepted(before.rows()) + (if row.status
            == DeliveryStatus::Delivered {
            1nat
        } else {
            0nat
        }),
{
    assert(after.rows().drop_last() =~= before.rows());
}

/// The number of endpoints that accepted is the number of rows that say delivered.
pub proof fn accepted_counts_the_delivered_rows(rows: Seq<LogRow>)
    ensures
        accepted(rows) == rows.filter(|row: LogRow| row.status == DeliveryStatus::Delivered).len(),
    decreases rows.len(),
{
    reveal(Seq::filter);
    if rows.len() > 0 {
        accepted_counts_the_delivered_rows(rows.drop_last());
    }
}

/// A new sender attempts a delivery three times, waits 1s and then 2s in between and never longer
/// than 4s, and allows 20s for a delivery and 10s for a request.
pub proof fn new_sender_has_the_default_settings(sender: WebhookSender, policy: RetryPolicy)
    requires
        call_ensures(WebhookSender::new, (), sender),
        call_ensures(default_retry_policy, (), policy),
    ensures
        sender.retry_policy == policy,
        policy.max_attempts == 3,
        policy.base_delay_ms == 1_000,
        policy.max_delay_ms == 4_000,
        nanos(sender.delivery_timeout) == 20_000_000_000,
        nanos(sender.request_timeout) == 10_000_000_000,
{
}

/// Each setting is set by itself and leaves the others as they are, so the order in which they are
/// set does not matter; and a copy of a sender has all of its settings.
pub proof fn settings_are_independent(
    sender: WebhookSender,
    timeout: Duration,
    policy: RetryPolicy,
    timed: WebhookSender,
    ruled: WebhookSender,
    timed_then_ruled: WebhookSender,
    ruled_then_timed: WebhookSender,
    copy: WebhookSender,
)
    requires
        call_ensures(WebhookSender::with_delivery_timeout, (sender, timeout), timed),
        call_ensures(WebhookSender::with_retry_policy, (sender, policy), ruled),
        call_ensures(WebhookSender::with_retry_policy, (timed, policy), timed_then_ruled),
        call_ensures(WebhookSender::with_delivery_timeout, (ruled, timeout), ruled_then_timed),
        call_ensures(<WebhookSender as Clone>::clone, (&sender,), copy),
    ensures
        timed.delivery_timeout == timeout,
        timed.retry_policy == sender.retry_policy,
        timed.request_timeout == sender.request_timeout,
        ruled.retry_policy == policy,
        ruled.delivery_timeout == sender.delivery_timeout,
        ruled.request_timeout == sender.request_timeout,
        timed_then_ruled == ruled_then_timed,
        copy.retry_policy == sender.retry_policy,
        copy.delivery_timeout == sender.delivery_timeout,
        copy.request_timeout == sender.request_timeout,
{
}

/// A dispatch starts with the endpoints in the order in which they were loaded, all of them, with
/// none where they could not be loaded, under the policy of the sender, with the event's type and
/// its envelope, and with nothing logged.
pub proof fn dispatch_starts_with_all_endpoints(
    sender: &WebhookSender,
    list: Vec<Endpoint>,
    event: &Event,
    wrapped: serde_json::Value,
    loaded: Dispatch,
    failed: Dispatch,
)
    requires
        call_ensures(envelope, (event,), wrapped),
        call_ensures(WebhookSender::dispatch, (sender, Some(list), event), loaded),
        call_ensures(WebhookSender::dispatch, (sender, None, event), failed),
    ensures
        loaded.wf() && failed.wf(),
        loaded.endpoints() == list@,
        failed.endpoints().len() == 0,
        loaded.policy() == sender.retry_policy,
        loaded.event_type() == event.event_type@,
        loaded.body() == wrapped,
        loaded.rows().len() == 0,
        !loaded.delivering(),
{
}

/// What is signed is the whole body, with the bytes of the job's own secret as the key.
pub proof fn secret_signs_the_body(job: &DeliveryJob, key: &[u8], message: &[u8])
    requires
        call_ensures(DeliveryJob::signing_input, (job,), (key, message)),
    ensures
        key@ == encode_utf8(job.secret@),
        message@ == job.body@,
{
}

/// A request goes to the URL of the job and carries the body that is signed, its content type, and
/// the signature under the header of that name, and no other header.
pub proof fn request_carries_what_is_signed(
    job: &DeliveryJob,
    key: &[u8],
    message: &[u8],
    header: &str,
    signature: &str,
    request: WebhookRequest,
)
    requires
        call_ensures(DeliveryJob::signing_input, (job,), (key, message)),
        call_ensures(DeliveryJob::request, (job, header, signature), request),
    ensures
        request.url == job.url,
        request.body@ == message@,
        request.headers@.len() == 2,
        request.headers@[0].0@ == "content-type"@,
        request.headers@[0].1@ == "application/json"@,
        request.headers@[1].0@ == header@,
        request.headers@[1].1@ == signature@,
{
}

/// What is logged with each row is the envelope of the event, and each delivery starts under the
/// policy of the dispatch, with no attempt made and nothing observed.
pub proof fn deliveries_start_alike(d: &Dispatch, logged: &serde_json::Value, delivery: Delivery)
    requires
        call_ensures(Dispatch::logged_body, (d,), logged),
        call_ensures(Dispatch::start_delivery, (d,), delivery),
    ensures
        *logged == d.body(),
        delivery.policy() == d.policy(),
        delivery.attempts() == 0,
        delivery.last().status is None,
        delivery.last().body_snippet is None,
{
}

/// With `k` rows logged, the endpoint at position `k` is up, and what is done next is done with
/// its own fields. If its URL is safe, the job has its id, its URL and its secret, and the bytes
/// of the envelope. If it is not, that URL is skipped, and the row has the endpoint's id and the
/// type of the event and says failed, without an attempt, a response code or a snippet. With all
/// endpoints done, the number of rows that say delivered is reported, and nothing changes.
pub proof fn endpoint_that_is_up_is_served(
    d: &mut Dispatch,
    safe: bool,
    bytes: Vec<u8>,
    step: DispatchStep,
)
    requires
        old(d).wf(),
        call_ensures(Dispatch::next_judged, (d, safe), step),
        call_ensures(body_bytes, (&old(d).body(),), bytes),
    ensures
        final(d).wf(),
        final(d).policy() == old(d).policy(),
        final(d).endpoints() == old(d).endpoints(),
        final(d).event_type() == old(d).event_type(),
        final(d).body() == old(d).body(),
        ({
            let k = old(d).rows().len() as int;
            let endpoint = old(d).endpoints()[k];
            match step {
                DispatchStep::Finished(n) => {
                    &&& k >= old(d).endpoints().len()
                    &&& n == old(d).rows().filter(
                        |row: LogRow| row.status == DeliveryStatus::Delivered,
                    ).len()
                    &&& *final(d) == *old(d)
                },
                DispatchStep::Skip { row, url } => {
                    &&& k < old(d).endpoints().len() && !safe
                    &&& url == endpoint.url
                    &&& row.endpoint_id == endpoint.id
                    &&& row.event_type@ == old(d).event_type()
                    &&& row.status == DeliveryStatus::Failed
                    &&& row.attempts == 0
                    &&& row.response_code is None
                    &&& row.body_snippet is None
                    &&& final(d).rows() == old(d).rows().push(row)
                    &&& !final(d).delivering()
                },
                DispatchStep::Deliver(job) => {
                    &&& k < old(d).endpoints().len() && safe
                    &&& job.endpoint_id == endpoint.id
                    &&& job.url == endpoint.url
                    &&& job.secret == endpoint.secret
                    &&& job.body@ == bytes@
                    &&& final(d).rows() == old(d).rows()
                    &&& final(d).delivering()
                },
            }
        }),
{
    accepted_counts_the_delivered_rows(old(d).rows());
}

/// What is done next is what the verdict on the URL of the endpoint that is up asks for, where the
/// verdict is that of `is_safe_url` under the same setting: it is delivered to if and only if it is
/// safe, and skipped if and only if it is not.
pub proof fn unsafe_url_is_skipped(
    d: &mut Dispatch,
    setting: Option<&str>,
    url: &str,
    safe: bool,
    step: DispatchStep,
)
    requires
        old(d).wf(),
        call_ensures(Dispatch::next, (d, setting), step),
        url@ == old(d).endpoints()[old(d).rows().len() as int].url@,
        call_ensures(is_safe_url, (url, setting), safe),
    ensures
        final(d).wf(),
        old(d).steps(safe, step, *final(d)),
        step is Finished <==> old(d).rows().len() == old(d).endpoints().len(),
        step is Deliver <==> old(d).rows().len() < old(d).endpoints().len() && safe,
        step is Skip <==> old(d).rows().len() < old(d).endpoints().len() && !safe,
{
}

/// A delivery that is completed is logged in one row, that of the delivery closed for the endpoint
/// that is up and for the event of the dispatch. The dispatch goes on to the next endpoint, and
/// one more endpoint accepted if and only if the row says delivered.
pub proof fn completed_delivery_is_logged_once(
    d: &mut Dispatch,
    delivery: Delivery,
    end: DeliveryEnd,
    event_type: String,
    closed: LogRow,
    row: LogRow,
)
    requires
        old(d).wf(),
        old(d).delivering(),
        event_type@ == old(d).event_type(),
        call_ensures(Dispatch::complete, (d, delivery, end), row),
        call_ensures(
            Delivery::close,
            (delivery, end, old(d).endpoints()[old(d).rows().len() as int].id, event_type),
            closed,
        ),
    ensures
        final(d).wf(),
        final(d).policy() == old(d).policy(),
        final(d).endpoints() == old(d).endpoints(),
        final(d).event_type() == old(d).event_type(),
        final(d).body() == old(d).body(),
        !final(d).delivering(),
        final(d).rows() == old(d).rows().push(row),
        accepted(final(d).rows()) == accepted(old(d).rows()) + (if closed.status
            == DeliveryStatus::Delivered {
            1nat
        } else {
            0nat
        }),
        row.endpoint_id == closed.endpoint_id,
        row.event_type@ == closed.event_type@,
        row.status == closed.status,
        row.attempts == closed.attempts,
        row.response_code == closed.response_code,
        row.body_snippet == closed.body_snippet,
{
    no_endpoint_blocks_the_others(*old(d), row, *final(d));
}

} // verus!
