//! What is kept of a response body.

use octo_webhooks::outcome::READ_LIMIT_BYTES;
use octo_webhooks::snippet::{clip_text, replace_secret};
use octo_webhooks::{response_snippet, take_last, AttemptOutcome, BodyReader};
use octo_webhooks::RESPONSE_SNIPPET_MAX_BYTES;

#[test]
fn response_snippet_redacts_secrets_and_caps_size() {
    let body = format!("echo sig=abc123 secret=s3cr3t {}", "x".repeat(4096));
    let snippet = response_snippet(body.as_bytes(), &["abc123", "s3cr3t"]).unwrap();
    assert!(!snippet.contains("abc123") && !snippet.contains("s3cr3t"));
    assert!(snippet.len() <= RESPONSE_SNIPPET_MAX_BYTES);
    assert_eq!(response_snippet(b"", &["abc123"]), None);
}

#[test]
fn response_snippet_truncates_on_a_char_boundary() {
    let body = "é".repeat(RESPONSE_SNIPPET_MAX_BYTES);
    let snippet = response_snippet(body.as_bytes(), &[]).unwrap();
    assert!(snippet.len() <= RESPONSE_SNIPPET_MAX_BYTES);
    assert!(snippet.chars().all(|c| c == 'é'));
}

#[test]
fn redaction_is_exact() {
    assert_eq!(
        response_snippet(b"echo sig=abc123 secret=s3cr3t", &["abc123", "s3cr3t"]).unwrap(),
        "echo sig=[redacted] secret=[redacted]"
    );
    // From left to right, without overlaps.
    assert_eq!(replace_secret("aaaaa", "aa"), "[redacted][redacted]a");
    assert_eq!(replace_secret("abab", "ba"), "a[redacted]b");
    assert_eq!(replace_secret("", "a"), "");
    assert_eq!(replace_secret("é1é", "é"), "[redacted]1[redacted]");
}

#[test]
fn empty_secrets_are_passed_over() {
    assert_eq!(response_snippet(b"body", &["", ""]).unwrap(), "body");
    assert_eq!(replace_secret("body", ""), "body");
}

#[test]
fn secrets_are_redacted_in_order() {
    assert_eq!(clip_text("xay".to_string(), &["a", "redacted"]), "x[[redacted]]y");
    assert_eq!(clip_text("xay".to_string(), &["redacted", "a"]), "x[redacted]y");
}

#[test]
fn bodies_that_are_not_utf8_are_read_lossily() {
    assert_eq!(response_snippet(b"a\xffb", &[]).unwrap(), "a\u{fffd}b");
    assert_eq!(response_snippet(b"k\xc3", &["k"]).unwrap(), "[redacted]\u{fffd}");
}

#[test]
fn a_body_that_is_not_empty_leaves_a_snippet() {
    assert_eq!(response_snippet(b"\xff", &[]).unwrap(), "\u{fffd}");
    assert_eq!(response_snippet(b"\xe2\x82", &["x"]).unwrap(), "\u{fffd}");
    assert_eq!(response_snippet(b"k", &["k"]).unwrap(), "[redacted]");
    assert_eq!(response_snippet("𝄞".as_bytes(), &[]).unwrap(), "𝄞");
}

#[test]
fn the_signature_is_redacted_whatever_the_secret_is() {
    for secret in ["ted", "redacted", "[", "x[", "]", "", "abc123"] {
        let mut reader = BodyReader::new();
        reader.push(b"abc123 x[abc123] ted redacted abc123");
        let kept = reader.into_outcome(400, "abc123", secret).body_snippet.unwrap();
        assert!(!kept.contains("abc123"));
    }
}

#[test]
fn harmless_bodies_are_kept_as_they_are() {
    assert_eq!(response_snippet(b"missing field `id`", &["sig"]).unwrap(), "missing field `id`");
    let full = "E".repeat(RESPONSE_SNIPPET_MAX_BYTES);
    assert_eq!(response_snippet(full.as_bytes(), &["sig"]).unwrap(), full);
}

#[test]
fn cut_keeps_as_many_whole_characters_as_fit() {
    let body = format!("a{}", "é".repeat(1000));
    let snippet = response_snippet(body.as_bytes(), &[]).unwrap();
    assert_eq!(snippet.len(), 1023);
    let body = format!("{}{}", "x".repeat(1022), "𝄞");
    assert_eq!(response_snippet(body.as_bytes(), &[]).unwrap(), "x".repeat(1022));
    let body = "€".repeat(2000);
    assert_eq!(response_snippet(body.as_bytes(), &[]).unwrap(), "€".repeat(341));
}

#[test]
fn a_secret_straddling_the_cut_is_redacted() {
    let body = format!("{}s3cr3t-and-long{}", "x".repeat(1020), "y".repeat(2000));
    let snippet = response_snippet(body.as_bytes(), &["s3cr3t-and-long"]).unwrap();
    assert_eq!(snippet, format!("{}[red", "x".repeat(1020)));
}

fn read(body: &str, signature: &str) -> String {
    let mut reader = BodyReader::new();
    reader.push(body.as_bytes());
    reader.into_outcome(400, signature, "the-secret").body_snippet.unwrap()
}

#[test]
fn a_read_limit_inside_a_character_changes_nothing_before_it() {
    // The limit falls on the second byte of a character.
    let body = format!("a{}", "é".repeat(3000));
    assert_eq!(read(&body, "sig"), format!("a{}", "é".repeat(511)));
    // A secret across the cap is redacted all the same.
    let body = format!("{}s3cr3t-and-long{}", "x".repeat(1020), "é".repeat(3000));
    assert_eq!(read(&body, "s3cr3t-and-long"), format!("{}[red", "x".repeat(1020)));
}

#[test]
fn no_part_of_a_secret_across_the_cap_is_kept() {
    let secret = "s".repeat(1024);
    for lead in [0, 1, 1000, 1013, 1014, 1015, 1023] {
        let body = format!("{}{}{}", "x".repeat(lead), secret, "y".repeat(3000));
        let kept = read(&body, &secret);
        assert!(!kept.contains('s'));
        let whole = format!("{}[redacted]{}", "x".repeat(lead), "y".repeat(2048 - 1024 - lead));
        assert_eq!(kept, whole[..whole.len().min(RESPONSE_SNIPPET_MAX_BYTES)].to_string());
    }
}

#[test]
fn reader_keeps_a_bounded_prefix() {
    let mut reader = BodyReader::new();
    assert!(reader.wants_more());
    reader.push(&[b'a'; 2000]);
    assert!(reader.wants_more());
    reader.push(&[b'b'; 2000]);
    assert!(!reader.wants_more());
    reader.push(b"more");
    let text = format!("{}{}", "a".repeat(2000), "b".repeat(48));
    assert_eq!(text.len(), READ_LIMIT_BYTES);
    // The read bytes come to light once the long run is redacted away.
    let run = "a".repeat(2000);
    let outcome = reader.into_outcome(200, &run, "");
    assert_eq!(outcome.status, Some(200));
    assert_eq!(outcome.body_snippet, Some(format!("[redacted]{}", "b".repeat(48))));
}

#[test]
fn chunks_may_split_a_secret() {
    let mut reader = BodyReader::new();
    reader.push(b"you sent dispatch-");
    reader.push(b"");
    reader.push(b"secret");
    let outcome = reader.into_outcome(400, "sig", "dispatch-secret");
    assert_eq!(outcome.body_snippet, Some("you sent [redacted]".to_string()));
}

#[test]
fn empty_body_has_no_snippet() {
    let outcome = BodyReader::new().into_outcome(204, "sig", "secret");
    assert_eq!(outcome.status, Some(204));
    assert_eq!(outcome.body_snippet, None);
}

fn with_status(status: Option<u16>) -> AttemptOutcome {
    AttemptOutcome { status, body_snippet: None }
}

#[test]
fn outcomes_are_classified_by_status() {
    assert!(!with_status(Some(199)).is_success());
    assert!(with_status(Some(200)).is_success());
    assert!(with_status(Some(299)).is_success());
    assert!(!with_status(Some(300)).is_success());
    assert!(!with_status(None).is_success());
    assert!(with_status(None).is_retriable());
    assert!(!with_status(Some(200)).is_retriable());
    assert!(!with_status(Some(404)).is_retriable());
    assert!(!with_status(Some(499)).is_retriable());
    assert!(with_status(Some(500)).is_retriable());
    assert!(with_status(Some(599)).is_retriable());
    assert!(!with_status(Some(600)).is_retriable());
    assert!(!with_status(Some(999)).is_retriable());
    assert!(!with_status(Some(600)).is_success());
    assert!(!with_status(Some(999)).is_success());
}

#[test]
fn taking_the_last_outcome_leaves_an_empty_one() {
    let mut last = AttemptOutcome { status: Some(502), body_snippet: Some("deploying".to_string()) };
    let copy = last.clone();
    let taken = take_last(&mut last);
    assert_eq!(taken.status, Some(502));
    assert_eq!(taken.body_snippet, copy.body_snippet);
    assert_eq!(last.status, None);
    assert_eq!(last.body_snippet, None);
}
