//! A dispatch as a whole: endpoints are served independently of each other.

use crate::delivery::{
    finished_delivery_is_logged, logged_attempts, run, Delivery, DeliveryEnd, DeliveryStatus,
    LogRow, RetryPolicy,
};
use crate::dispatch::{accepted, DeliveryJob, Dispatch, DispatchStep, Endpoint, WebhookSender};
use crate::envelope::{body_bytes, envelope, Event};
use crate::outcome::AttemptOutcome;
use vstd::prelude::*;
use vstd::utf8::*;

verus! {

/// What the deliveries to one endpoint meet with.
pub enum Replies {
    /// Attempt number `k` has the outcome `script(k)`, and the delivery runs to its end.
    Answered(spec_fn(u32) -> AttemptOutcome),
    /// The deadline passes, or attempts are gated, after `attempts` attempts were begun and `last`
    /// was observed last.
    CutOff { attempts: u32, last: AttemptOutcome },
}

/// How it goes with one endpoint: the verdict on its URL and, if it is safe, its replies.
pub struct Course {
    pub safe: bool,
    pub replies: Replies,
}

/// A delivery under `policy` that meets with these replies comes to `end`.
pub open spec fn follows(
    delivery: Delivery,
    end: DeliveryEnd,
    policy: RetryPolicy,
    replies: Replies,
) -> bool {
    &&& delivery.policy() == policy
    &&& match replies {
        Replies::Answered(script) => (delivery.attempts(), end) == run(policy, script, 1),
        Replies::CutOff { attempts, last } => {
            &&& delivery.attempts() == attempts
            &&& delivery.last() == last
            &&& end is DeadlineExceeded || end is CircuitOpen
        },
    }
}

/// One endpoint is served: `before` hands out its step, and with the endpoint's row logged `after`
/// is reached.
pub open spec fn serves(before: Dispatch, course: Course, after: Dispatch) -> bool {
    let row = after.rows().last();
    if course.safe {
        exists|job: DeliveryJob, mid: Dispatch, delivery: Delivery, end: DeliveryEnd|
            {
                &&& #[trigger] before.steps(true, DispatchStep::Deliver(job), mid)
                &&& follows(delivery, end, before.policy(), course.replies)
                &&& #[trigger] mid.completes(delivery, end, row, after)
            }
    } else {
        exists|url: String| #[trigger] before.steps(false, DispatchStep::Skip { row, url }, after)
    }
}

/// A dispatch goes through these states while its endpoints are served on these courses, one
/// after the other.
pub open spec fn goes(states: Seq<Dispatch>, courses: Seq<Course>) -> bool {
    &&& states.len() == courses.len() + 1
    &&& at_start(states[0])
    &&& forall|i: int|
        0 <= i < courses.len() ==> serves(states[i], #[trigger] courses[i], states[i + 1])
}

/// The response code is the number of the status, and there is none where no response came.
pub open spec fn is_code_of(code: Option<i32>, status: Option<u16>) -> bool {
    match status {
        Some(s) => code is Some && code->0 as int == s as int,
        None => code is None,
    }
}

/// The row that an endpoint on this course has in the log. Nothing else decides on it.
pub open spec fn is_row_of(
    row: LogRow,
    policy: RetryPolicy,
    endpoint: Endpoint,
    event_type: Seq<char>,
    course: Course,
) -> bool {
    &&& row.endpoint_id == endpoint.id
    &&& row.event_type@ == event_type
    &&& if !course.safe {
        &&& row.status == DeliveryStatus::Failed
        &&& row.attempts == 0
        &&& row.response_code is None
        &&& row.body_snippet is None
    } else {
        match course.replies {
            Replies::Answered(script) => {
                let n = run(policy, script, 1).0;
                let status = script(n).status;
                &&& row.status == (if status is Some && 200 <= status->0 <= 299 {
                    DeliveryStatus::Delivered
                } else {
                    DeliveryStatus::Failed
                })
                &&& row.attempts == logged_attempts(n)
                &&& n <= i32::MAX ==> row.attempts == n
                &&& is_code_of(row.response_code, status)
                &&& row.body_snippet == script(n).body_snippet
            },
            Replies::CutOff { attempts, last } => {
                &&& row.status == DeliveryStatus::Failed
                &&& row.attempts == logged_attempts(attempts)
                &&& 1 <= attempts <= i32::MAX ==> row.attempts == attempts
                &&& is_code_of(row.response_code, last.status)
                &&& row.body_snippet == last.body_snippet
            },
        }
    }
}

/// Two rows say the same.
pub open spec fn same_row(a: LogRow, b: LogRow) -> bool {
    &&& a.endpoint_id == b.endpoint_id
    &&& a.event_type@ == b.event_type@
    &&& a.status == b.status
    &&& a.attempts == b.attempts
    &&& a.response_code == b.response_code
    &&& a.body_snippet == b.body_snippet
}

/// A dispatch that has not served any endpoint yet.
pub open spec fn at_start(d: Dispatch) -> bool {
    d.rows().len() == 0
}

/// The sum of a sequence.
pub open spec fn sum(s: Seq<nat>) -> nat
    decreases s.len(),
{
    if s.len() == 0 {
        0
    } else {
        sum(s.drop_last()) + s.last()
    }
}

proof fn lemma_serves(before: Dispatch, course: Course, after: Dispatch)
    requires
        serves(before, course, after),
    ensures
        before.pending(),
        before.logs(after.rows().last(), after),
        is_row_of(
            after.rows().last(),
            before.policy(),
            before.current(),
            before.event_type(),
            course,
        ),
{
    let row = after.rows().last();
    if course.safe {
        let (job, mid, delivery, end) = choose|
            job: DeliveryJob,
            mid: Dispatch,
            delivery: Delivery,
            end: DeliveryEnd,
        |
            {
                &&& #[trigger] before.steps(true, DispatchStep::Deliver(job), mid)
                &&& follows(delivery, end, before.policy(), course.replies)
                &&& #[trigger] mid.completes(delivery, end, row, after)
            };
        if let Replies::Answered(script) = course.replies {
            finished_delivery_is_logged(delivery, script, row);
        }
    }
}

/// Whatever the courses of the other endpoints are, each endpoint that was served has the row of
/// its own course.
pub proof fn every_row_is_of_its_own_course(states: Seq<Dispatch>, courses: Seq<Course>)
    requires
        goes(states, courses),
    ensures
        states[0].same_dispatch(states.last()),
        courses.len() <= states[0].endpoints().len(),
        states.last().rows().len() == courses.len(),
        forall|i: int|
            0 <= i < courses.len() ==> is_row_of(
                #[trigger] states.last().rows()[i],
                states[0].policy(),
                states[0].endpoints()[i],
                states[0].event_type(),
                courses[i],
            ),
    decreases courses.len(),
{
    if courses.len() > 0 {
        let n = courses.len() - 1;
        let before = states.drop_last();
        assert forall|i: int| 0 <= i < n implies serves(
            before[i],
            #[trigger] courses.drop_last()[i],
            before[i + 1],
        ) by {
            assert(courses.drop_last()[i] == courses[i]);
        }
        every_row_is_of_its_own_course(before, courses.drop_last());
        assert(serves(states[n], courses[n], states[n + 1]));
        lemma_serves(states[n], courses[n], states[n + 1]);
        assert forall|i: int| 0 <= i < courses.len() implies is_row_of(
            #[trigger] states.last().rows()[i],
            states[0].policy(),
            states[0].endpoints()[i],
            states[0].event_type(),
            courses[i],
        ) by {
            if i < n {
                assert(states.last().rows()[i] == before.last().rows()[i]);
                assert(courses.drop_last()[i] == courses[i]);
            }
        }
    }
}

proof fn lemma_endpoint_at(states: Seq<Dispatch>, courses: Seq<Course>, i: int)
    requires
        goes(states, courses),
        0 <= i < states.len(),
    ensures
        states[0].same_dispatch(states[i]),
        states[i].rows().len() == i,
{
    let before = courses.take(i);
    assert forall|j: int| 0 <= j < i implies serves(
        states.take(i + 1)[j],
        #[trigger] before[j],
        states.take(i + 1)[j + 1],
    ) by {
        assert(before[j] == courses[j]);
    }
    every_row_is_of_its_own_course(states.take(i + 1), before);
}

/// In a dispatch to any list of endpoints, whatever the courses of the others are, the job that is
/// handed out for the `i`-th endpoint is to its URL, and what is signed is the whole body, with the
/// UTF-8 bytes of the secret of the `i`-th endpoint itself as the key. The body is the bytes of the
/// envelope of the event, the same for every endpoint. An endpoint that is skipped is reported with
/// its own URL.
pub proof fn every_job_is_of_its_own_endpoint(
    sender: &WebhookSender,
    list: Vec<Endpoint>,
    event: &Event,
    states: Seq<Dispatch>,
    courses: Seq<Course>,
    i: int,
    safe: bool,
    step: DispatchStep,
    after: Dispatch,
    wrapped: serde_json::Value,
    bytes: Vec<u8>,
)
    requires
        call_ensures(WebhookSender::dispatch, (sender, Some(list), event), states[0]),
        goes(states, courses),
        0 <= i < states.len(),
        states[i].steps(safe, step, after),
        call_ensures(envelope, (event,), wrapped),
        call_ensures(body_bytes, (&wrapped,), bytes),
    ensures
        step is Finished <==> i == list@.len(),
        step is Deliver ==> i < list@.len() && safe,
        step is Skip ==> i < list@.len() && !safe,
        step matches DispatchStep::Deliver(job) ==> {
            &&& job.endpoint_id == list@[i].id
            &&& job.url == list@[i].url
            &&& job.secret == list@[i].secret
            &&& job.body@ == bytes@
            &&& forall|key: &[u8], message: &[u8]| #[trigger]
                call_ensures(DeliveryJob::signing_input, (&job,), (key, message)) ==> {
                    &&& key@ == encode_utf8(list@[i].secret@)
                    &&& message@ == bytes@
                }
        },
        step matches DispatchStep::Skip { row, url } ==> {
            &&& row.endpoint_id == list@[i].id
            &&& url == list@[i].url
        },
{
    lemma_endpoint_at(states, courses, i);
    every_row_is_of_its_own_course(states, courses);
}

proof fn lemma_accepted_is_sum(rows: Seq<LogRow>, single: Seq<nat>)
    requires
        rows.len() == single.len(),
        forall|i: int|
            0 <= i < rows.len() ==> #[trigger] single[i] == (if rows[i].status
                == DeliveryStatus::Delivered {
                1nat
            } else {
                0nat
            }),
    ensures
        accepted(rows) == sum(single),
    decreases rows.len(),
{
    if rows.len() > 0 {
        lemma_accepted_is_sum(rows.drop_last(), single.drop_last());
    }
}

/// A dispatch to many endpoints is the sum of dispatches to each of them alone. Take a dispatch
/// that goes through `states` and serves all its endpoints, and for each endpoint a dispatch of the
/// same event that goes through `alone[i]` and serves it alone, on the same course. Then all of
/// them are finished, each endpoint has the same row in both, with the same number of attempts, and
/// the number of endpoints that accepted is the sum of the single numbers. The job that is handed
/// out for an endpoint is the same in both too, with the same URL, the same secret and, for the
/// same envelope, the same bytes, and so is the URL that is skipped. So an endpoint that fails,
/// times out or has an unsafe URL changes nothing for the others.
pub proof fn dispatch_is_the_sum_of_its_endpoints(
    states: Seq<Dispatch>,
    courses: Seq<Course>,
    alone: Seq<Seq<Dispatch>>,
)
    requires
        goes(states, courses),
        courses.len() == states[0].endpoints().len(),
        alone.len() == courses.len(),
        forall|i: int|
            0 <= i < alone.len() ==> {
                &&& goes(#[trigger] alone[i], seq![courses[i]])
                &&& alone[i][0].policy() == states[0].policy()
                &&& alone[i][0].event_type() == states[0].event_type()
                &&& alone[i][0].endpoints() == seq![states[0].endpoints()[i]]
            },
    ensures
        !states.last().pending(),
        forall|i: int|
            0 <= i < alone.len() ==> {
                &&& !(#[trigger] alone[i]).last().pending()
                &&& alone[i].last().rows().len() == 1
                &&& same_row(states.last().rows()[i], alone[i].last().rows()[0])
            },
        forall|i: int, job: DeliveryJob, mid: Dispatch, single: DeliveryJob, single_mid: Dispatch|
            {
                &&& 0 <= i < alone.len()
                &&& #[trigger] states[i].steps(true, DispatchStep::Deliver(job), mid)
                &&& #[trigger] alone[i][0].steps(true, DispatchStep::Deliver(single), single_mid)
            } ==> {
                &&& job.endpoint_id == single.endpoint_id
                &&& job.url == single.url
                &&& job.secret == single.secret
                &&& states[0].body() == alone[i][0].body() ==> job.body@ == single.body@
            },
        forall|
            i: int,
            row: LogRow,
            url: String,
            after: Dispatch,
            single_row: LogRow,
            single_url: String,
            single_after: Dispatch,
        |
            {
                &&& 0 <= i < alone.len()
                &&& #[trigger] states[i].steps(false, DispatchStep::Skip { row, url }, after)
                &&& #[trigger] alone[i][0].steps(
                    false,
                    DispatchStep::Skip { row: single_row, url: single_url },
                    single_after,
                )
            } ==> url == single_url && same_row(row, single_row),
        accepted(states.last().rows()) == sum(
            alone.map_values(|d: Seq<Dispatch>| accepted(d.last().rows())),
        ),
{
    every_row_is_of_its_own_course(states, courses);
    let rows = states.last().rows();
    let single = alone.map_values(|d: Seq<Dispatch>| accepted(d.last().rows()));
    assert forall|i: int| 0 <= i < alone.len() implies {
        &&& !(#[trigger] alone[i]).last().pending()
        &&& alone[i].last().rows().len() == 1
        &&& same_row(rows[i], alone[i].last().rows()[0])
    } by {
        every_row_is_of_its_own_course(alone[i], seq![courses[i]]);
        let row = alone[i].last().rows()[0];
        assert(is_row_of(
            row,
            states[0].policy(),
            states[0].endpoints()[i],
            states[0].event_type(),
            courses[i],
        ));
        assert(is_row_of(
            rows[i],
            states[0].policy(),
            states[0].endpoints()[i],
            states[0].event_type(),
            courses[i],
        ));
    }
    assert forall|i: int| 0 <= i < rows.len() implies #[trigger] single[i] == (if rows[i].status
        == DeliveryStatus::Delivered {
        1nat
    } else {
        0nat
    }) by {
        let one = alone[i].last().rows();
        assert(same_row(rows[i], one[0]));
        assert(accepted(one.drop_last()) == 0);
    }
    lemma_accepted_is_sum(rows, single);
    assert forall|i: int| 0 <= i < alone.len() implies {
        &&& (#[trigger] alone[i])[0].rows().len() == 0
        &&& states[i].current() == alone[i][0].current()
        &&& states[i].event_type() == alone[i][0].event_type()
        &&& states[i].body() == states[0].body()
    } by {
        assert(goes(alone[i], seq![courses[i]]));
        lemma_endpoint_at(states, courses, i);
    }
}

} // verus!
