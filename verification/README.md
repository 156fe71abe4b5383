# octo_webhooks

Outbound webhooks: signed JSON events, delivered to a wallet's registered endpoints with retries,
a delivery log, and a guard against internal targets.

- `src/` decides, and every decision is verified with Verus: which URLs are safe (`target`,
  `address`), how an event is wrapped (`envelope`), when a delivery is retried and what is logged of
  it (`delivery`), the walk over all endpoints (`dispatch`, with the independence of
  endpoints in `independence`), and what of a response is kept (`outcome`, `snippet`, with the
  guarantees of redaction in `redaction`).
- `app/` performs: HTTP, the clock, the environment and the store.
- `tests/` runs the library with the real URL parser and JSON writer.
