//! Dispatches against a scripted sink: retry classification and what is written to the log.

use octo_webhooks::envelope::{body_bytes, envelope};
use octo_webhooks::{
    default_retry_policy, AttemptOutcome, BodyReader, Delivery, DeliveryEnd, DeliveryStatus,
    Dispatch, DispatchStep, Endpoint, Event, LogRow, RetryPolicy, Verdict, WebhookSender,
    RESPONSE_SNIPPET_MAX_BYTES,
};
use std::time::Duration;

struct Report {
    delivered: usize,
    hits: usize,
    rows: Vec<LogRow>,
}

fn event() -> Event {
    let mut data = serde_json::Map::new();
    data.insert("amount".to_string(), serde_json::Value::String("1.0000000".to_string()));
    Event { event_type: "deposit.created".to_string(), data: serde_json::Value::Object(data) }
}

fn endpoint(id: u128, url: &str) -> Endpoint {
    Endpoint { id, url: url.to_string(), secret: "dispatch-secret".to_string() }
}

fn sender() -> WebhookSender {
    WebhookSender::new().with_retry_policy(RetryPolicy {
        max_attempts: 3,
        base_delay_ms: 10,
        max_delay_ms: 20,
    })
}

/// The sink answers with `script[n]` on its n-th hit (last entry repeats); `None` is a refused
/// connection.
fn deliver(dispatch: &Dispatch, script: &[Option<(u16, String)>], hits: &mut usize) -> (Delivery, DeliveryEnd) {
    let mut delivery = dispatch.start_delivery();
    loop {
        delivery.begin_attempt();
        let n = if *hits < script.len() { *hits } else { script.len() - 1 };
        *hits += 1;
        let outcome = match &script[n] {
            Some((status, text)) => {
                let mut reader = BodyReader::new();
                for chunk in text.as_bytes().chunks(700) {
                    if !reader.wants_more() {
                        break;
                    }
                    reader.push(chunk);
                }
                reader.into_outcome(*status, "the-signature", "dispatch-secret")
            }
            None => AttemptOutcome::default(),
        };
        match delivery.observe(outcome) {
            Verdict::RetryAfter(_) => {}
            Verdict::Finished(end) => return (delivery, end),
        }
    }
}

fn run(endpoints: Vec<Endpoint>, script: &[Option<(u16, String)>], local: Option<&str>) -> Report {
    let mut dispatch = sender().dispatch(Some(endpoints), &event());
    let mut hits = 0;
    let mut rows = Vec::new();
    loop {
        match dispatch.next(local) {
            DispatchStep::Skip { row, .. } => rows.push(row),
            DispatchStep::Deliver(_) => {
                let (delivery, end) = deliver(&dispatch, script, &mut hits);
                rows.push(dispatch.complete(delivery, end));
            }
            DispatchStep::Finished(delivered) => return Report { delivered, hits, rows },
        }
    }
}

fn answer(status: u16, text: &str) -> Option<(u16, String)> {
    Some((status, text.to_string()))
}

/// One endpoint that points at the sink.
fn run_one(script: &[Option<(u16, String)>]) -> (usize, usize, LogRow) {
    let mut report = run(vec![endpoint(7, "http://127.0.0.1:4000/hook")], script, Some("1"));
    assert_eq!(report.rows.len(), 1, "exactly one log row per dispatch");
    (report.delivered, report.hits, report.rows.remove(0))
}

#[test]
fn dispatch_retries_a_5xx_response_and_eventually_succeeds() {
    let (delivered, hits, d) =
        run_one(&[answer(503, "deploying"), answer(502, "deploying"), answer(200, "ok")]);
    assert_eq!(delivered, 1);
    assert_eq!(hits, 3);
    assert_eq!(d.status.as_str(), "delivered");
    assert_eq!(d.attempts, 3);
    assert_eq!(d.response_code, Some(200));
    assert_eq!(d.body_snippet.as_deref(), Some("ok"));
    assert_eq!(d.endpoint_id, 7);
    assert_eq!(d.event_type, "deposit.created");
}

#[test]
fn dispatch_does_not_retry_a_4xx_response() {
    let (delivered, hits, d) = run_one(&[answer(400, "bad payload")]);
    assert_eq!(delivered, 0);
    assert_eq!(hits, 1);
    assert_eq!(d.status.as_str(), "failed");
    assert_eq!(d.attempts, 1);
    assert_eq!(d.response_code, Some(400));
}

#[test]
fn dispatch_gives_up_after_the_configured_attempt_count_and_logs_failure() {
    let (delivered, hits, d) = run_one(&[answer(500, "boom")]);
    assert_eq!(delivered, 0);
    assert_eq!(hits, 3);
    assert_eq!(d.status.as_str(), "failed");
    assert_eq!(d.attempts, 3);
}

#[test]
fn dispatch_records_the_response_status_on_failure() {
    let (_, _, d) = run_one(&[answer(422, "missing field `id`")]);
    assert_eq!(d.status.as_str(), "failed");
    assert_eq!(d.response_code, Some(422));
    assert_eq!(d.body_snippet.as_deref(), Some("missing field `id`"));
}

#[test]
fn dispatch_truncates_an_oversized_response_body_before_storing_it() {
    let huge = "E".repeat(64 * 1024);
    let (_, _, d) = run_one(&[answer(400, &huge)]);
    let snippet = d.body_snippet.unwrap();
    assert_eq!(snippet.len(), RESPONSE_SNIPPET_MAX_BYTES);
    assert!(snippet.chars().all(|c| c == 'E'));
}

#[test]
fn dispatch_never_stores_an_echoed_secret_in_the_snippet() {
    let (_, _, d) = run_one(&[answer(400, "you sent dispatch-secret")]);
    assert!(!d.body_snippet.unwrap().contains("dispatch-secret"));
}

#[test]
fn refused_connections_are_retried_and_logged_without_a_code() {
    let (delivered, hits, d) = run_one(&[None]);
    assert_eq!((delivered, hits), (0, 3));
    assert_eq!(d.attempts, 3);
    assert_eq!(d.response_code, None);
    assert_eq!(d.body_snippet, None);
}

#[test]
fn unsafe_endpoints_are_skipped_and_block_nobody() {
    let endpoints = vec![
        endpoint(1, "https://example.org/hook"),
        endpoint(2, "http://localhost/hook"),
        endpoint(3, "ftp://example.org"),
        endpoint(4, "https://8.8.8.8/hook"),
    ];
    let script = [answer(400, "no"), answer(200, "ok")];
    let report = run(endpoints, &script, None);
    assert_eq!(report.delivered, 1);
    assert_eq!(report.hits, 2);
    let ids: Vec<u128> = report.rows.iter().map(|r| r.endpoint_id).collect();
    assert_eq!(ids, vec![1, 2, 3, 4]);
    let attempts: Vec<i32> = report.rows.iter().map(|r| r.attempts).collect();
    assert_eq!(attempts, vec![1, 0, 0, 1]);
    assert!(report.rows[1].status == DeliveryStatus::Failed);
    assert_eq!(report.rows[1].response_code, None);
    assert_eq!(report.rows[1].body_snippet, None);
    assert!(report.rows[3].status == DeliveryStatus::Delivered);
}

#[test]
fn a_status_from_600_up_is_a_final_answer() {
    for status in [600, 999] {
        let (delivered, hits, d) = run_one(&[answer(status, "odd"), answer(200, "ok")]);
        assert_eq!((delivered, hits), (0, 1));
        assert_eq!(d.status.as_str(), "failed");
        assert_eq!(d.attempts, 1);
        assert_eq!(d.response_code, Some(status as i32));
    }
}

/// Serves each endpoint by the script of its id.
fn run_by_id(ids: &[u128], local: Option<&str>) -> (usize, Vec<LogRow>) {
    let scripts = [
        vec![answer(503, "busy"), answer(200, "ok")],
        vec![answer(400, "no")],
        vec![None],
        vec![answer(204, "")],
    ];
    let urls = ["https://8.8.8.8/a", "https://example.org/b", "https://8.8.4.4/c", "http://localhost/d"];
    let endpoints = ids.iter().map(|id| endpoint(*id, urls[*id as usize])).collect();
    let mut dispatch = sender().dispatch(Some(endpoints), &event());
    let mut rows = Vec::new();
    loop {
        match dispatch.next(local) {
            DispatchStep::Skip { row, .. } => rows.push(row),
            DispatchStep::Deliver(job) => {
                let mut hits = 0;
                let script = &scripts[job.endpoint_id as usize];
                let (delivery, end) = deliver(&dispatch, script, &mut hits);
                rows.push(dispatch.complete(delivery, end));
            }
            DispatchStep::Finished(delivered) => return (delivered, rows),
        }
    }
}

#[test]
fn a_dispatch_is_the_sum_of_its_endpoints() {
    for (local, expected) in [(None, 1), (Some("1"), 2)] {
        let (together, rows) = run_by_id(&[0, 1, 2, 3], local);
        assert_eq!(together, expected);
        let mut sum = 0;
        for id in 0..4 {
            let (one, alone) = run_by_id(&[id], local);
            sum += one;
            let row = &rows[id as usize];
            assert_eq!(alone.len(), 1);
            assert_eq!(alone[0].endpoint_id, row.endpoint_id);
            assert_eq!(alone[0].event_type, row.event_type);
            assert!(alone[0].status == row.status);
            assert_eq!(alone[0].attempts, row.attempts);
            assert_eq!(alone[0].response_code, row.response_code);
            assert_eq!(alone[0].body_snippet, row.body_snippet);
        }
        assert_eq!(together, sum);
    }
}

#[test]
fn nothing_is_delivered_where_endpoints_cannot_be_loaded() {
    let mut dispatch = sender().dispatch(None, &event());
    assert!(matches!(dispatch.next(None), DispatchStep::Finished(0)));
    let mut dispatch = sender().dispatch(Some(Vec::new()), &event());
    assert!(matches!(dispatch.next(Some("1")), DispatchStep::Finished(0)));
}

#[test]
fn deadline_logs_the_last_answer_and_counts_the_attempt_in_flight() {
    let mut delivery = Delivery::new(default_retry_policy());
    delivery.begin_attempt();
    let outcome = AttemptOutcome { status: Some(503), body_snippet: Some("busy".to_string()) };
    assert!(matches!(delivery.observe(outcome), Verdict::RetryAfter(1000)));
    delivery.begin_attempt();
    let row = delivery.close(DeliveryEnd::DeadlineExceeded, 9, "e".to_string());
    assert_eq!(row.status.as_str(), "failed");
    assert_eq!(row.attempts, 2);
    assert_eq!(row.response_code, Some(503));
    assert_eq!(row.body_snippet.as_deref(), Some("busy"));
    assert_eq!(row.endpoint_id, 9);
}

#[test]
fn open_circuit_logs_a_failure_with_at_least_one_attempt() {
    let row = Delivery::new(default_retry_policy()).close(DeliveryEnd::CircuitOpen, 1, "e".to_string());
    assert_eq!(row.status.as_str(), "failed");
    assert_eq!(row.attempts, 1);
    assert_eq!(row.response_code, None);
    assert_eq!(row.body_snippet, None);
}

#[test]
fn backoff_doubles_up_to_the_longest_wait() {
    let policy = default_retry_policy();
    assert_eq!(policy.max_attempts, 3);
    assert_eq!(policy.backoff_ms(1), 1_000);
    assert_eq!(policy.backoff_ms(2), 2_000);
    assert_eq!(policy.backoff_ms(3), 4_000);
    assert_eq!(policy.backoff_ms(4), 4_000);
    assert_eq!(policy.backoff_ms(u32::MAX), 4_000);
    let short = RetryPolicy { max_attempts: 3, base_delay_ms: 50, max_delay_ms: 20 };
    assert_eq!(short.backoff_ms(1), 20);
    let none = RetryPolicy { max_attempts: 3, base_delay_ms: 0, max_delay_ms: 20 };
    assert_eq!(none.backoff_ms(u32::MAX), 0);
    let wide = RetryPolicy { max_attempts: 3, base_delay_ms: 3, max_delay_ms: u64::MAX };
    assert_eq!(wide.backoff_ms(3), 12);
    assert_eq!(wide.backoff_ms(100), u64::MAX);
}

#[test]
fn envelope_wraps_the_event() {
    let body = envelope(&event());
    assert_eq!(body["event"], serde_json::Value::String("deposit.created".to_string()));
    assert_eq!(body["data"]["amount"], serde_json::Value::String("1.0000000".to_string()));
    assert_eq!(body.as_object().unwrap().len(), 2);
    assert_eq!(
        body_bytes(&body),
        br#"{"data":{"amount":"1.0000000"},"event":"deposit.created"}"#.to_vec()
    );
}

#[test]
fn the_signed_body_is_the_one_that_is_sent() {
    let mut dispatch = sender().dispatch(Some(vec![endpoint(1, "https://example.org/hook")]), &event());
    let expected = body_bytes(&envelope(&event()));
    assert_eq!(*dispatch.logged_body(), envelope(&event()));
    match dispatch.next(None) {
        DispatchStep::Deliver(job) => {
            let (key, message) = job.signing_input();
            assert_eq!(key, b"dispatch-secret");
            assert_eq!(message, expected.as_slice());
            let request = job.request("x-signature", "abc");
            assert_eq!(request.url, "https://example.org/hook");
            assert_eq!(request.body, expected);
            assert_eq!(
                request.headers,
                vec![
                    ("content-type".to_string(), "application/json".to_string()),
                    ("x-signature".to_string(), "abc".to_string()),
                ]
            );
        }
        _ => panic!("a safe endpoint is delivered to"),
    }
}

#[test]
fn settings_have_defaults_and_can_be_overridden() {
    let sender = WebhookSender::new();
    assert_eq!(sender.delivery_timeout, Duration::from_secs(20));
    assert_eq!(sender.request_timeout, Duration::from_secs(10));
    assert_eq!(sender.retry_policy, default_retry_policy());
    let sender = sender.with_delivery_timeout(Duration::from_millis(1500));
    assert_eq!(sender.delivery_timeout, Duration::from_millis(1500));
    assert_eq!(sender.retry_policy.max_attempts, 3);
    let policy = RetryPolicy { max_attempts: 5, base_delay_ms: 1, max_delay_ms: 2 };
    let sender = sender.with_retry_policy(policy);
    assert_eq!(sender.retry_policy, policy);
    assert_eq!(sender.delivery_timeout, Duration::from_millis(1500));
}

#[test]
fn the_verdict_on_the_url_decides_between_skip_and_delivery() {
    let endpoints = vec![endpoint(1, "a"), endpoint(2, "b")];
    let mut dispatch = sender().dispatch(Some(endpoints), &event());
    match dispatch.next_judged(false) {
        DispatchStep::Skip { row, url } => {
            assert_eq!(url, "a");
            assert_eq!(row.endpoint_id, 1);
            assert_eq!(row.event_type, "deposit.created");
            assert_eq!(row.attempts, 0);
        }
        _ => panic!("an unsafe endpoint is skipped"),
    }
    match dispatch.next_judged(true) {
        DispatchStep::Deliver(job) => {
            assert_eq!(job.endpoint_id, 2);
            assert_eq!(job.url, "b");
            assert_eq!(job.secret, "dispatch-secret");
        }
        _ => panic!("a safe endpoint is delivered to"),
    }
    let outcome = AttemptOutcome { status: Some(204), body_snippet: None };
    let row = dispatch.complete(dispatch.start_delivery(), DeliveryEnd::Succeeded(outcome));
    assert_eq!((row.endpoint_id, row.attempts, row.response_code), (2, 1, Some(204)));
    assert!(matches!(dispatch.next_judged(true), DispatchStep::Finished(1)));
    assert!(matches!(dispatch.next_judged(false), DispatchStep::Finished(1)));
}
