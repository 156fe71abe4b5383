//! Outbound webhooks.
//!
//! Delivers signed JSON events (e.g. `deposit.created`) to a wallet's registered endpoints. Each
//! payload is signed so consumers can authenticate it, retried with backoff on failure, and every
//! delivery is logged.
//!
//! This library holds the decisions; the program around it performs them. It loads the endpoints,
//! signs, sends, sleeps and writes the log, and hands back what it observed:
//!
//! - [`WebhookSender::dispatch`] starts a [`Dispatch`], which goes through the endpoints one by one;
//! - a [`Delivery`] counts the attempts on one endpoint and decides after each whether to retry;
//! - a [`BodyReader`] keeps a bounded prefix of a response, and [`response_snippet`] what of it may
//!   be logged;
//! - [`is_safe_url`] blocks obvious internal targets (localhost, link-local, private ranges) as
//!   defense in depth.

pub mod address;
pub mod delivery;
pub mod dispatch;
pub mod envelope;
pub mod independence;
pub mod outcome;
pub mod redaction;
pub mod snippet;
pub mod target;
pub mod text;

pub use address::{is_public_ipv4, is_public_ipv6, Ipv4Addr, Ipv6Addr};
pub use delivery::{
    default_retry_policy, Delivery, DeliveryEnd, DeliveryStatus, LogRow, RetryPolicy, Verdict,
};
pub use dispatch::{
    DeliveryJob, Dispatch, DispatchStep, Endpoint, WebhookRequest, WebhookSender,
    DEFAULT_DELIVERY_TIMEOUT_SECS, REQUEST_TIMEOUT_SECS,
};
pub use envelope::Event;
pub use outcome::{take_last, AttemptOutcome, BodyReader};
pub use snippet::{response_snippet, RESPONSE_SNIPPET_MAX_BYTES};
pub use target::{is_public_hostname, is_safe_url};
