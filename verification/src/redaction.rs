//! What redaction guarantees.
//!
//! For every secret: each character of the redacted text was either copied from the response or
//! written as part of a marker, and no copied stretch reads a secret. A secret that cannot share
//! characters with a marker cannot be read in the redacted text at all. Redaction comes before the
//! cut, so a secret that lies across the cut is redacted as a whole.

use crate::delivery::LogRow;
use crate::outcome::{bounded, text_of, AttemptOutcome, REDACTION_SLACK_BYTES};
use crate::snippet::{
    clip, clip_text, marker, reads_valid_prefixes, redact, replace_all, replace_secret,
    response_snippet, snippet_of, texts, utf8_lossy, RESPONSE_SNIPPET_MAX_BYTES,
};
use crate::text::{
    lemma_boundary_after_prefix, occurs_at, utf8_prefix, utf8_prefix_is_longest,
    utf8_prefix_of_long_text,
};
use vstd::prelude::*;
use vstd::utf8::*;

verus! {

/// A character, and whether it was written as part of a marker.
pub struct Traced {
    pub c: char,
    pub written: bool,
}

/// The characters of a traced text.
pub open spec fn plain(t: Seq<Traced>) -> Seq<char> {
    t.map_values(|x: Traced| x.c)
}

/// `c` with its origin.
pub open spec fn trace(c: char, written: bool) -> Traced {
    Traced { c, written }
}

/// `s` with the same origin for all characters.
pub open spec fn traced(s: Seq<char>, written: bool) -> Seq<Traced> {
    s.map_values(|c: char| trace(c, written))
}

/// `replace_all` with the marker, keeping track of origins.
pub open spec fn trace_replace(t: Seq<Traced>, secret: Seq<char>) -> Seq<Traced>
    decreases t.len(),
{
    if secret.len() == 0 || t.len() < secret.len() {
        t
    } else if plain(t).take(secret.len() as int) == secret {
        traced(marker(), true) + trace_replace(t.skip(secret.len() as int), secret)
    } else {
        seq![t[0]] + trace_replace(t.skip(1), secret)
    }
}

/// `redact`, keeping track of origins.
pub open spec fn trace_redact(text: Seq<char>, secrets: Seq<Seq<char>>) -> Seq<Traced>
    decreases secrets.len(),
{
    if secrets.len() == 0 {
        traced(text, false)
    } else {
        trace_replace(trace_redact(text, secrets.drop_last()), secrets.last())
    }
}

/// The `n` characters from `at` on were all copied.
pub open spec fn copied(t: Seq<Traced>, at: int, n: int) -> bool {
    forall|p: int| at <= p < at + n ==> !(#[trigger] t[p]).written
}

/// `needle` can be read in `t` from `at` on, in copied characters alone.
pub open spec fn copied_occurrence(t: Seq<Traced>, needle: Seq<char>, at: int) -> bool {
    occurs_at(plain(t), needle, at) && copied(t, at, needle.len() as int)
}

/// No copied stretch of `t` reads `needle`.
pub open spec fn clean(t: Seq<Traced>, needle: Seq<char>) -> bool {
    forall|at: int| !#[trigger] copied_occurrence(t, needle, at)
}

proof fn lemma_plain_replace(t: Seq<Traced>, secret: Seq<char>)
    ensures
        plain(trace_replace(t, secret)) == replace_all(plain(t), secret, marker()),
    decreases t.len(),
{
    let n = secret.len() as int;
    if n == 0 || t.len() < n {
    } else if plain(t).take(n) == secret {
        lemma_plain_replace(t.skip(n), secret);
        assert(plain(t.skip(n)) =~= plain(t).skip(n));
        assert(plain(traced(marker(), true)) =~= marker());
        assert(plain(trace_replace(t, secret)) =~= plain(traced(marker(), true)) + plain(
            trace_replace(t.skip(n), secret),
        ));
    } else {
        lemma_plain_replace(t.skip(1), secret);
        assert(plain(t.skip(1)) =~= plain(t).skip(1));
        assert(plain(trace_replace(t, secret)) =~= seq![t[0].c] + plain(
            trace_replace(t.skip(1), secret),
        ));
    }
}

/// Dropping the origins of `trace_redact` gives `redact`.
pub proof fn trace_redact_reads_redact(text: Seq<char>, secrets: Seq<Seq<char>>)
    ensures
        plain(trace_redact(text, secrets)) == redact(text, secrets),
    decreases secrets.len(),
{
    if secrets.len() == 0 {
        assert(plain(traced(text, false)) =~= text);
    } else {
        trace_redact_reads_redact(text, secrets.drop_last());
        lemma_plain_replace(trace_redact(text, secrets.drop_last()), secrets.last());
    }
}

/// What the result starts with, as far as it is copied, the argument starts with.
proof fn lemma_copied_start(t: Seq<Traced>, secret: Seq<char>, n: int)
    requires
        0 <= n <= trace_replace(t, secret).len(),
        copied(trace_replace(t, secret), 0, n),
    ensures
        n <= t.len(),
        trace_replace(t, secret).take(n) == t.take(n),
    decreases t.len(),
{
    let m = secret.len() as int;
    let r = trace_replace(t, secret);
    if m == 0 || t.len() < m {
    } else if plain(t).take(m) == secret {
        reveal_strlit("[redacted]");
        if n > 0 {
            assert(r[0].written);
        }
        assert(r.take(n) =~= t.take(n));
    } else {
        if n > 0 {
            let rest = trace_replace(t.skip(1), secret);
            assert forall|p: int| 0 <= p < n - 1 implies !(#[trigger] rest[p]).written by {
                assert(r[p + 1] == rest[p]);
            }
            lemma_copied_start(t.skip(1), secret, n - 1);
            assert(r.take(n) =~= t.take(n)) by {
                assert forall|p: int| 0 <= p < n implies r.take(n)[p] == t.take(n)[p] by {
                    if p > 0 {
                        assert(r[p] == rest[p - 1]);
                        assert(rest.take(n - 1)[p - 1] == t.skip(1).take(n - 1)[p - 1]);
                    }
                }
            }
        } else {
            assert(r.take(0) =~= t.take(0));
        }
    }
}

/// A copied stretch of the result is a stretch of the argument.
proof fn lemma_copied_stretch(t: Seq<Traced>, secret: Seq<char>, at: int, n: int) -> (from: int)
    requires
        0 <= at,
        0 < n,
        at + n <= trace_replace(t, secret).len(),
        copied(trace_replace(t, secret), at, n),
    ensures
        0 <= from,
        from + n <= t.len(),
        trace_replace(t, secret).subrange(at, at + n) == t.subrange(from, from + n),
    decreases t.len(),
{
    let m = secret.len() as int;
    let r = trace_replace(t, secret);
    if m == 0 || t.len() < m {
        at
    } else if plain(t).take(m) == secret {
        let k = marker().len() as int;
        let rest = trace_replace(t.skip(m), secret);
        if at < k {
            assert(r[at].written);
            assert(false);
        }
        assert forall|p: int| at - k <= p < at - k + n implies !(#[trigger] rest[p]).written by {
            assert(r[p + k] == rest[p]);
        }
        let from = lemma_copied_stretch(t.skip(m), secret, at - k, n);
        assert(r.subrange(at, at + n) =~= rest.subrange(at - k, at - k + n));
        assert(t.skip(m).subrange(from, from + n) =~= t.subrange(from + m, from + m + n));
        from + m
    } else if at == 0 {
        lemma_copied_start(t, secret, n);
        assert(r.subrange(0, n) =~= r.take(n));
        assert(t.subrange(0, n) =~= t.take(n));
        0
    } else {
        let rest = trace_replace(t.skip(1), secret);
        assert forall|p: int| at - 1 <= p < at - 1 + n implies !(#[trigger] rest[p]).written by {
            assert(r[p + 1] == rest[p]);
        }
        let from = lemma_copied_stretch(t.skip(1), secret, at - 1, n);
        assert(r.subrange(at, at + n) =~= rest.subrange(at - 1, at - 1 + n));
        assert(t.skip(1).subrange(from, from + n) =~= t.subrange(from + 1, from + 1 + n));
        from + 1
    }
}

/// Replacing one secret leaves no copied occurrence of it.
proof fn lemma_replace_cleans(t: Seq<Traced>, secret: Seq<char>)
    requires
        secret.len() > 0,
    ensures
        clean(trace_replace(t, secret), secret),
    decreases t.len(),
{
    let m = secret.len() as int;
    let r = trace_replace(t, secret);
    assert forall|at: int| !#[trigger] copied_occurrence(r, secret, at) by {
        if copied_occurrence(r, secret, at) {
            if t.len() < m {
            } else if plain(t).take(m) == secret {
                let k = marker().len() as int;
                let rest = trace_replace(t.skip(m), secret);
                lemma_replace_cleans(t.skip(m), secret);
                if at < k {
                    assert(r[at].written);
                } else {
                    assert forall|p: int| at - k <= p < at - k + m implies !(
                    #[trigger] rest[p]).written by {
                        assert(r[p + k] == rest[p]);
                    }
                    assert(plain(rest).subrange(at - k, at - k + m) =~= plain(r).subrange(
                        at,
                        at + m,
                    ));
                    assert(copied_occurrence(rest, secret, at - k));
                }
            } else if at == 0 {
                lemma_copied_start(t, secret, m);
                assert(plain(t).take(m) =~= plain(r).subrange(0, m)) by {
                    assert forall|p: int| 0 <= p < m implies plain(t)[p] == plain(r)[p] by {
                        assert(t.take(m)[p] == r.take(m)[p]);
                    }
                }
            } else {
                let rest = trace_replace(t.skip(1), secret);
                lemma_replace_cleans(t.skip(1), secret);
                assert forall|p: int| at - 1 <= p < at - 1 + m implies !(
                #[trigger] rest[p]).written by {
                    assert(r[p + 1] == rest[p]);
                }
                assert(plain(rest).subrange(at - 1, at - 1 + m) =~= plain(r).subrange(at, at + m));
                assert(copied_occurrence(rest, secret, at - 1));
            }
        }
    }
}

/// Replacing a secret brings back no copied occurrence of another.
proof fn lemma_replace_keeps_clean(t: Seq<Traced>, secret: Seq<char>, needle: Seq<char>)
    requires
        needle.len() > 0,
        clean(t, needle),
    ensures
        clean(trace_replace(t, secret), needle),
{
    let n = needle.len() as int;
    let r = trace_replace(t, secret);
    assert forall|at: int| !#[trigger] copied_occurrence(r, needle, at) by {
        if copied_occurrence(r, needle, at) {
            let from = lemma_copied_stretch(t, secret, at, n);
            assert forall|p: int| from <= p < from + n implies !(#[trigger] t[p]).written by {
                assert(t.subrange(from, from + n)[p - from] == r.subrange(at, at + n)[p - from]);
                assert(!r[at + (p - from)].written);
            }
            assert(plain(t).subrange(from, from + n) =~= plain(t.subrange(from, from + n)));
            assert(plain(r).subrange(at, at + n) =~= plain(r.subrange(at, at + n)));
            assert(copied_occurrence(t, needle, from));
        }
    }
}

/// No stretch of redacted text that was copied from the response reads a secret: wherever a
/// secret can still be read, part of it was written by the redaction itself.
pub proof fn no_secret_is_copied(text: Seq<char>, secrets: Seq<Seq<char>>, i: int)
    requires
        0 <= i < secrets.len(),
        secrets[i].len() > 0,
    ensures
        clean(trace_redact(text, secrets), secrets[i]),
    decreases secrets.len(),
{
    let before = trace_redact(text, secrets.drop_last());
    if i == secrets.len() - 1 {
        lemma_replace_cleans(before, secrets.last());
    } else {
        no_secret_is_copied(text, secrets.drop_last(), i);
        lemma_replace_keeps_clean(before, secrets.last(), secrets[i]);
    }
}

/// Laid over the marker with its first character at the marker's position `k`, `secret` reads the
/// same as the marker wherever both have a character.
pub open spec fn agrees(secret: Seq<char>, k: int) -> bool {
    forall|i: int|
        0 <= i < secret.len() && 0 <= k + i < marker().len() ==> #[trigger] secret[i]
            == marker()[k + i]
}

/// `secret` can share characters with a marker: it lies within it, around it, or across one of
/// its ends.
pub open spec fn meets_marker(secret: Seq<char>) -> bool {
    &&& secret.len() > 0
    &&& exists|k: int| -secret.len() < k < marker().len() && #[trigger] agrees(secret, k)
}

/// What the result starts with is what the argument starts with, up to the first marker.
proof fn lemma_start_or_marker(s: Seq<char>, from: Seq<char>, n: int) -> (b: int)
    requires
        0 <= n <= replace_all(s, from, marker()).len(),
    ensures
        ({
            let r = replace_all(s, from, marker());
            ||| n <= s.len() && r.take(n) == s.take(n)
            ||| 0 <= b < n && occurs_at(r, marker(), b)
        }),
    decreases s.len(),
{
    let m = from.len() as int;
    let r = replace_all(s, from, marker());
    if n == 0 {
        assert(r.take(0) =~= s.take(0));
        0
    } else if m == 0 || s.len() < m {
        0
    } else if s.take(m) == from {
        assert(r.subrange(0, marker().len() as int) =~= marker());
        0
    } else {
        let rest = replace_all(s.skip(1), from, marker());
        let b = lemma_start_or_marker(s.skip(1), from, n - 1);
        if n - 1 <= s.skip(1).len() && rest.take(n - 1) == s.skip(1).take(n - 1) {
            assert(r.take(n) =~= seq![s[0]] + rest.take(n - 1));
            assert(s.take(n) =~= seq![s[0]] + s.skip(1).take(n - 1));
        } else {
            assert(r.subrange(b + 1, b + 1 + marker().len()) =~= rest.subrange(
                b,
                b + marker().len(),
            ));
        }
        b + 1
    }
}

/// A secret that reads the same as a marker where the two overlap in some text meets the marker.
proof fn lemma_overlap_meets_marker(s: Seq<char>, secret: Seq<char>, at: int, b: int)
    requires
        secret.len() > 0,
        occurs_at(s, secret, at),
        occurs_at(s, marker(), b),
        at < b + marker().len(),
        b < at + secret.len(),
    ensures
        meets_marker(secret),
{
    let k = at - b;
    assert forall|i: int|
        0 <= i < secret.len() && 0 <= k + i < marker().len() implies #[trigger] secret[i]
        == marker()[k + i] by {
        assert(s.subrange(at, at + secret.len())[i] == secret[i]);
        assert(s.subrange(b, b + marker().len())[k + i] == marker()[k + i]);
    }
    assert(agrees(secret, k));
}

/// Replacing `from` by the marker leaves no occurrence of `secret`, if `secret` cannot meet a
/// marker and either is what is replaced or did not occur before.
proof fn lemma_replace_leaves_none(s: Seq<char>, from: Seq<char>, secret: Seq<char>, at: int)
    requires
        secret.len() > 0,
        !meets_marker(secret),
        from == secret || forall|p: int| !occurs_at(s, secret, p),
    ensures
        !occurs_at(replace_all(s, from, marker()), secret, at),
    decreases s.len(),
{
    let m = from.len() as int;
    let n = secret.len() as int;
    let k = marker().len() as int;
    let r = replace_all(s, from, marker());
    reveal_strlit("[redacted]");
    if m == 0 || s.len() < m {
    } else if s.take(m) == from {
        let rest = replace_all(s.skip(m), from, marker());
        assert forall|p: int| from != secret implies !occurs_at(s.skip(m), secret, p) by {
            if occurs_at(s.skip(m), secret, p) {
                assert(s.subrange(p + m, p + m + n) =~= s.skip(m).subrange(p, p + n));
                assert(occurs_at(s, secret, p + m));
            }
        }
        lemma_replace_leaves_none(s.skip(m), from, secret, at - k);
        if occurs_at(r, secret, at) {
            if at < k {
                assert(r.subrange(0, k) =~= marker());
                lemma_overlap_meets_marker(r, secret, at, 0);
            } else {
                assert(rest.subrange(at - k, at - k + n) =~= r.subrange(at, at + n));
            }
        }
    } else {
        let rest = replace_all(s.skip(1), from, marker());
        assert forall|p: int| from != secret implies !occurs_at(s.skip(1), secret, p) by {
            if occurs_at(s.skip(1), secret, p) {
                assert(s.subrange(p + 1, p + 1 + n) =~= s.skip(1).subrange(p, p + n));
                assert(occurs_at(s, secret, p + 1));
            }
        }
        lemma_replace_leaves_none(s.skip(1), from, secret, at - 1);
        if occurs_at(r, secret, at) {
            if at == 0 {
                let b = lemma_start_or_marker(s, from, n);
                if n <= s.len() && r.take(n) == s.take(n) {
                    assert(s.subrange(0, n) =~= s.take(n));
                    assert(r.subrange(0, n) =~= r.take(n));
                    assert(occurs_at(s, secret, 0));
                } else {
                    lemma_overlap_meets_marker(r, secret, 0, b);
                }
            } else {
                assert(rest.subrange(at - 1, at - 1 + n) =~= r.subrange(at, at + n));
            }
        }
    }
}

/// Redacted text holds no secret that cannot share characters with the marker that takes its
/// place, whatever the other secrets are.
pub proof fn redacted_text_holds_no_secret(
    text: Seq<char>,
    secrets: Seq<Seq<char>>,
    i: int,
    at: int,
)
    requires
        0 <= i < secrets.len(),
        secrets[i].len() > 0,
        !meets_marker(secrets[i]),
    ensures
        !occurs_at(redact(text, secrets), secrets[i], at),
    decreases secrets.len(),
{
    let before = redact(text, secrets.drop_last());
    if i < secrets.len() - 1 {
        assert forall|p: int| !occurs_at(before, secrets[i], p) by {
            redacted_text_holds_no_secret(text, secrets.drop_last(), i, p);
        }
    }
    lemma_replace_leaves_none(before, secrets.last(), secrets[i], at);
}

/// A secret without brackets that cannot be read within the marker cannot share characters with
/// one.
pub proof fn bracket_free_secret_meets_no_marker(secret: Seq<char>)
    requires
        !secret.contains('['),
        !secret.contains(']'),
        forall|at: int| !occurs_at(marker(), secret, at),
    ensures
        !meets_marker(secret),
{
    reveal_strlit("[redacted]");
    assert forall|k: int| -secret.len() < k < marker().len() implies !#[trigger] agrees(
        secret,
        k,
    ) by {
        if agrees(secret, k) {
            if k <= 0 {
                assert(secret[-k] == marker()[0]);
            } else if k + secret.len() > 9 {
                assert(secret[9 - k] == marker()[9]);
            } else {
                assert(marker().subrange(k, k + secret.len()) =~= secret);
                assert(occurs_at(marker(), secret, k));
            }
        }
    }
}

/// Redacted text holds no secret that has no bracket and cannot be read within the marker,
/// whatever the other secrets are. A hex-encoded signature longer than the marker is such a secret.
pub proof fn redacted_text_holds_no_bracket_free_secret(
    text: Seq<char>,
    secrets: Seq<Seq<char>>,
    i: int,
    at: int,
)
    requires
        0 <= i < secrets.len(),
        secrets[i].len() > 0,
        !secrets[i].contains('['),
        !secrets[i].contains(']'),
        forall|p: int| !occurs_at(marker(), secrets[i], p),
    ensures
        !occurs_at(redact(text, secrets), secrets[i], at),
{
    bracket_free_secret_meets_no_marker(secrets[i]);
    redacted_text_holds_no_secret(text, secrets, i, at);
}

/// A snippet never holds a secret that cannot share characters with the marker, wherever the
/// response body echoed it, wherever the cut falls, and whatever the other secrets are.
pub proof fn snippet_holds_no_secret(raw: Seq<u8>, secrets: Seq<Seq<char>>, i: int, at: int)
    requires
        0 <= i < secrets.len(),
        secrets[i].len() > 0,
        !meets_marker(secrets[i]),
    ensures
        snippet_of(raw, secrets) matches Some(kept) ==> !occurs_at(kept, secrets[i], at),
{
    if raw.len() > 0 {
        let full = redact(utf8_lossy(raw), secrets);
        let kept = snippet_of(raw, secrets)->0;
        utf8_prefix_is_longest(full, RESPONSE_SNIPPET_MAX_BYTES as int);
        redacted_text_holds_no_secret(utf8_lossy(raw), secrets, i, at);
        if occurs_at(kept, secrets[i], at) {
            assert(full.subrange(at, at + secrets[i].len()) =~= kept.subrange(
                at,
                at + secrets[i].len(),
            ));
        }
    }
}

/// The signature and the endpoint's secret never land in the log: of a response that was read as
/// `raw`, a row keeps neither. Each of the two is promised on its own, as long as it cannot share
/// characters with the marker.
pub proof fn log_holds_neither_signature_nor_secret(
    raw: Seq<u8>,
    signature: Seq<char>,
    secret: Seq<char>,
    outcome: AttemptOutcome,
    row: LogRow,
    at: int,
)
    requires
        text_of(outcome.body_snippet) == snippet_of(raw, seq![signature, secret]),
        row.reports(outcome),
    ensures
        row.body_snippet matches Some(kept) ==> {
            &&& signature.len() > 0 && !meets_marker(signature) ==> !occurs_at(kept@, signature, at)
            &&& secret.len() > 0 && !meets_marker(secret) ==> !occurs_at(kept@, secret, at)
        },
{
    let secrets = seq![signature, secret];
    assert(secrets[0] == signature);
    assert(secrets[1] == secret);
    if signature.len() > 0 && !meets_marker(signature) {
        snippet_holds_no_secret(raw, secrets, 0, at);
    }
    if secret.len() > 0 && !meets_marker(secret) {
        snippet_holds_no_secret(raw, secrets, 1, at);
    }
}

/// The first occurrence of a secret is replaced by a marker as a whole: what stands before it stays,
/// and redaction goes on behind it.
pub proof fn first_occurrence_is_replaced_whole(
    before: Seq<char>,
    secret: Seq<char>,
    after: Seq<char>,
)
    requires
        secret.len() > 0,
        forall|p: int|
            0 <= p < before.len() ==> !occurs_at(before + secret + after, secret, p),
    ensures
        replace_all(before + secret + after, secret, marker()) == before + marker() + replace_all(
            after,
            secret,
            marker(),
        ),
    decreases before.len(),
{
    let n = secret.len() as int;
    let s = before + secret + after;
    if before.len() == 0 {
        assert(s.take(n) =~= secret);
        assert(s.skip(n) =~= after);
        assert(before + marker() + replace_all(after, secret, marker()) =~= marker() + replace_all(
            after,
            secret,
            marker(),
        ));
    } else {
        let rest = before.drop_first();
        let t = rest + secret + after;
        assert(s.skip(1) =~= t);
        assert(s.take(n) =~= s.subrange(0, n));
        assert(!occurs_at(s, secret, 0));
        assert forall|p: int| 0 <= p < rest.len() implies !occurs_at(t, secret, p) by {
            if occurs_at(t, secret, p) {
                assert(s.subrange(p + 1, p + 1 + n) =~= t.subrange(p, p + n));
                assert(occurs_at(s, secret, p + 1));
            }
        }
        first_occurrence_is_replaced_whole(rest, secret, after);
        assert(before + marker() + replace_all(after, secret, marker()) =~= seq![s[0]] + (rest
            + marker() + replace_all(after, secret, marker())));
    }
}

/// Redacting some secrets and then others is redacting all of them in that order.
pub proof fn redaction_goes_secret_by_secret(
    text: Seq<char>,
    first: Seq<Seq<char>>,
    then: Seq<Seq<char>>,
)
    ensures
        redact(text, first + then) == redact(redact(text, first), then),
    decreases then.len(),
{
    let all = first + then;
    if then.len() == 0 {
        assert(all =~= first);
    } else {
        assert(all.drop_last() =~= first + then.drop_last());
        assert(all.last() == then.last());
        redaction_goes_secret_by_secret(text, first, then.drop_last());
    }
}

/// A secret that lies across the cut is redacted before the cut is made: its place is taken by the
/// marker as a whole, and what is cut is the text with the marker in it. The secret is any in the
/// list, at its first occurrence once the secrets before it have been redacted.
pub proof fn secret_is_redacted_before_the_cut(
    text: Seq<char>,
    secrets: Seq<Seq<char>>,
    i: int,
    before: Seq<char>,
    after: Seq<char>,
)
    requires
        0 <= i < secrets.len(),
        secrets[i].len() > 0,
        redact(text, secrets.take(i)) == before + secrets[i] + after,
        forall|p: int|
            0 <= p < before.len() ==> !occurs_at(before + secrets[i] + after, secrets[i], p),
    ensures
        redact(text, secrets) == redact(
            before + marker() + replace_all(after, secrets[i], marker()),
            secrets.skip(i + 1),
        ),
        clip(text, secrets) == clip(
            before + marker() + replace_all(after, secrets[i], marker()),
            secrets.skip(i + 1),
        ),
{
    let head = secrets.take(i + 1);
    assert(head.drop_last() =~= secrets.take(i));
    assert(head.last() == secrets[i]);
    first_occurrence_is_replaced_whole(before, secrets[i], after);
    assert(head + secrets.skip(i + 1) =~= secrets);
    redaction_goes_secret_by_secret(text, head, secrets.skip(i + 1));
}

/// A secret that straddles the snippet cap is still redacted, however long the response body is:
/// where the body first echoes it within the cap, and it is no longer than the slack, the snippet
/// is cut from a text that has the marker in its place. What precedes it is kept as it stands, and
/// the read limit may fall anywhere behind it, even inside a character.
pub proof fn straddling_secret_is_redacted(
    body: Seq<u8>,
    before: Seq<char>,
    after: Seq<char>,
    secrets: Seq<Seq<char>>,
)
    requires
        secrets.len() > 0,
        secrets[0].len() > 0,
        body == encode_utf8(before + secrets[0] + after),
        encode_utf8(before).len() < RESPONSE_SNIPPET_MAX_BYTES,
        encode_utf8(secrets[0]).len() <= REDACTION_SLACK_BYTES,
        forall|p: int|
            0 <= p < before.len() ==> !occurs_at(before + secrets[0] + after, secrets[0], p),
        reads_valid_prefixes(bounded(body), utf8_lossy(bounded(body))),
    ensures
        ({
            let read = utf8_lossy(bounded(body));
            let rest = read.skip((before.len() + secrets[0].len()) as int);
            &&& (before + secrets[0]).is_prefix_of(read)
            &&& snippet_of(bounded(body), secrets) == Some(
                clip(
                    before + marker() + replace_all(rest, secrets[0], marker()),
                    secrets.drop_first(),
                ),
            )
        }),
{
    let secret = secrets[0];
    let n = secret.len() as int;
    let head = before + secret;
    let raw = bounded(body);
    let read = utf8_lossy(raw);
    lemma_boundary_after_prefix(head, after);
    lemma_boundary_after_prefix(before, secret);
    encode_utf8_valid_utf8(head);
    encode_utf8_decode_utf8(head);
    let k = encode_utf8(head).len() as int;
    assert(raw.take(k) =~= encode_utf8(head));
    if k == 0 {
        assert(encode_utf8(head) =~= Seq::<u8>::empty());
        assert(decode_utf8(encode_utf8(head)).len() == 0);
    }
    let rest = read.skip(head.len() as int);
    assert(read =~= before + secret + rest);
    assert forall|p: int| 0 <= p < before.len() implies !occurs_at(
        before + secret + rest,
        secret,
        p,
    ) by {
        if occurs_at(before + secret + rest, secret, p) {
            assert((before + secret + after).subrange(p, p + n) =~= (before + secret
                + rest).subrange(p, p + n));
            assert(occurs_at(before + secret + after, secret, p));
        }
    }
    assert(redact(read, secrets.take(0)) == read);
    secret_is_redacted_before_the_cut(read, secrets, 0, before, rest);
    assert(secrets.skip(1) =~= secrets.drop_first());
}

/// A snippet takes at most [`RESPONSE_SNIPPET_MAX_BYTES`] bytes, and it is a prefix of the redacted
/// body that ends on a character boundary and could not be one character longer.
pub proof fn snippet_is_bounded(raw: Seq<u8>, secrets: Seq<Seq<char>>)
    ensures
        snippet_of(raw, secrets) matches Some(kept) ==> {
            let full = redact(utf8_lossy(raw), secrets);
            &&& kept.is_prefix_of(full)
            &&& encode_utf8(kept).len() <= RESPONSE_SNIPPET_MAX_BYTES
            &&& kept.len() < full.len() ==> encode_utf8(full.take(kept.len() as int + 1)).len()
                > RESPONSE_SNIPPET_MAX_BYTES
        },
{
    if raw.len() > 0 {
        utf8_prefix_is_longest(
            redact(utf8_lossy(raw), secrets),
            RESPONSE_SNIPPET_MAX_BYTES as int,
        );
    }
}

proof fn lemma_nothing_to_replace(s: Seq<char>, secret: Seq<char>)
    requires
        secret.len() > 0 ==> forall|at: int| !occurs_at(s, secret, at),
    ensures
        replace_all(s, secret, marker()) == s,
    decreases s.len(),
{
    let n = secret.len() as int;
    if n > 0 && s.len() >= n {
        assert(s.take(n) =~= s.subrange(0, n));
        assert(!occurs_at(s, secret, 0));
        assert forall|at: int| !occurs_at(s.skip(1), secret, at) by {
            if occurs_at(s.skip(1), secret, at) {
                assert(s.subrange(at + 1, at + 1 + n) =~= s.skip(1).subrange(at, at + n));
                assert(occurs_at(s, secret, at + 1));
            }
        }
        lemma_nothing_to_replace(s.skip(1), secret);
        assert(seq![s[0]] + s.skip(1) =~= s);
    }
}

proof fn lemma_nothing_to_redact(text: Seq<char>, secrets: Seq<Seq<char>>)
    requires
        forall|i: int, at: int|
            0 <= i < secrets.len() && secrets[i].len() > 0 ==> !#[trigger] occurs_at(
                text,
                secrets[i],
                at,
            ),
    ensures
        redact(text, secrets) == text,
    decreases secrets.len(),
{
    if secrets.len() > 0 {
        assert forall|i: int, at: int|
            0 <= i < secrets.drop_last().len() && secrets.drop_last()[i].len()
                > 0 implies !#[trigger] occurs_at(text, secrets.drop_last()[i], at) by {
            assert(secrets.drop_last()[i] == secrets[i]);
        }
        lemma_nothing_to_redact(text, secrets.drop_last());
        let last = secrets.len() - 1;
        assert(secrets[last] == secrets.last());
        lemma_nothing_to_replace(text, secrets.last());
    }
}

/// A text that echoes no secret and fits is kept as it stands.
pub proof fn harmless_text_is_kept(text: Seq<char>, secrets: Seq<Seq<char>>)
    requires
        encode_utf8(text).len() <= RESPONSE_SNIPPET_MAX_BYTES,
        forall|i: int, at: int|
            0 <= i < secrets.len() && secrets[i].len() > 0 ==> !#[trigger] occurs_at(
                text,
                secrets[i],
                at,
            ),
    ensures
        clip(text, secrets) == text,
{
    lemma_nothing_to_redact(text, secrets);
    utf8_prefix_is_longest(text, RESPONSE_SNIPPET_MAX_BYTES as int);
    let kept = utf8_prefix(text, RESPONSE_SNIPPET_MAX_BYTES as int);
    assert(text.take(text.len() as int) =~= text);
    assert(kept =~= text);
}

/// Of a long body that echoes no secret, the first bytes are kept as they stand, even where what was
/// read of it ends inside a character: the first `k` bytes are well-formed and fill the snippet.
pub proof fn long_harmless_body_is_kept_up_to_the_cap(
    raw: Seq<u8>,
    secrets: Seq<Seq<char>>,
    k: int,
)
    requires
        RESPONSE_SNIPPET_MAX_BYTES <= k <= raw.len(),
        valid_utf8(raw.take(k)),
        reads_valid_prefixes(raw, utf8_lossy(raw)),
        forall|i: int, at: int|
            0 <= i < secrets.len() && secrets[i].len() > 0 ==> !#[trigger] occurs_at(
                utf8_lossy(raw),
                secrets[i],
                at,
            ),
    ensures
        snippet_of(raw, secrets) == Some(
            utf8_prefix(decode_utf8(raw.take(k)), RESPONSE_SNIPPET_MAX_BYTES as int),
        ),
{
    let read = utf8_lossy(raw);
    let p = decode_utf8(raw.take(k));
    let q = read.skip(p.len() as int);
    lemma_nothing_to_redact(read, secrets);
    decode_utf8_encode_utf8(raw.take(k));
    assert(read =~= p + q);
    utf8_prefix_of_long_text(p, q, RESPONSE_SNIPPET_MAX_BYTES as int);
}

proof fn lemma_occurrence_splits(s: Seq<char>, needle: Seq<char>, at: int)
    requires
        occurs_at(s, needle, at),
    ensures
        s == s.take(at) + needle + s.skip(at + needle.len()),
{
    assert(s =~= s.take(at) + needle + s.skip(at + needle.len()));
}

/// A text in which the secret cannot be read is kept as it stands, and so is every text where the
/// secret is empty.
pub proof fn text_without_the_secret_is_kept(text: &str, secret: &str, redacted: String)
    requires
        call_ensures(replace_secret, (text, secret), redacted),
        secret@.len() == 0 || forall|a: Seq<char>, b: Seq<char>|
            text@ != #[trigger] (a + secret@ + b),
    ensures
        redacted@ == text@,
{
    if secret@.len() > 0 {
        assert forall|at: int| !occurs_at(text@, secret@, at) by {
            if occurs_at(text@, secret@, at) {
                lemma_occurrence_splits(text@, secret@, at);
            }
        }
    }
    lemma_nothing_to_replace(text@, secret@);
}

/// Where a secret can be read in a text, and not any earlier in it, `[redacted]` takes its place,
/// what stands before it stays as it is, and what stands behind it is redacted by itself.
pub proof fn secret_is_replaced_and_nothing_else(
    text: &str,
    secret: &str,
    before: Seq<char>,
    behind: &str,
    redacted: String,
    redacted_behind: String,
)
    requires
        call_ensures(replace_secret, (text, secret), redacted),
        call_ensures(replace_secret, (behind, secret), redacted_behind),
        secret@.len() > 0,
        text@ == before + secret@ + behind@,
        forall|a: Seq<char>, b: Seq<char>|
            text@ == #[trigger] (a + secret@ + b) ==> a.len() >= before.len(),
    ensures
        redacted@ == before + "[redacted]"@ + redacted_behind@,
{
    assert forall|p: int| 0 <= p < before.len() implies !occurs_at(text@, secret@, p) by {
        if occurs_at(text@, secret@, p) {
            lemma_occurrence_splits(text@, secret@, p);
        }
    }
    first_occurrence_is_replaced_whole(before, secret@, behind@);
}

/// A text is clipped by replacing one secret after the other, in the order of the list and each in
/// what the ones before it left, and by cutting the result: to as many whole characters as take
/// 1024 bytes in UTF-8. `stages` are the text and what each replacement leaves of it.
pub proof fn text_is_clipped_after_every_secret(
    text: String,
    secrets: &[&str],
    stages: Seq<&str>,
    replaced: Seq<String>,
    kept: String,
)
    requires
        call_ensures(clip_text, (text, secrets), kept),
        stages.len() == secrets@.len() + 1,
        replaced.len() == secrets@.len(),
        stages[0]@ == text@,
        forall|i: int|
            0 <= i < replaced.len() ==> {
                &&& call_ensures(replace_secret, (stages[i], secrets@[i]), #[trigger] replaced[i])
                &&& stages[i + 1]@ == replaced[i]@
            },
    ensures
        ({
            let full = stages.last()@;
            &&& kept@.is_prefix_of(full)
            &&& encode_utf8(kept@).len() <= 1024
            &&& kept@.len() < full.len() ==> encode_utf8(full.take(kept@.len() as int + 1)).len()
                > 1024
        }),
{
    let all = texts(secrets@);
    lemma_stages_are_redacted(text@, secrets, stages, replaced, secrets@.len() as int);
    assert(all.take(secrets@.len() as int) =~= all);
    utf8_prefix_is_longest(stages.last()@, RESPONSE_SNIPPET_MAX_BYTES as int);
}

proof fn lemma_stages_are_redacted(
    text: Seq<char>,
    secrets: &[&str],
    stages: Seq<&str>,
    replaced: Seq<String>,
    n: int,
)
    requires
        0 <= n <= secrets@.len(),
        stages.len() == secrets@.len() + 1,
        replaced.len() == secrets@.len(),
        stages[0]@ == text,
        forall|i: int|
            0 <= i < replaced.len() ==> {
                &&& call_ensures(replace_secret, (stages[i], secrets@[i]), #[trigger] replaced[i])
                &&& stages[i + 1]@ == replaced[i]@
            },
    ensures
        stages[n]@ == redact(text, texts(secrets@).take(n)),
    decreases n,
{
    let head = texts(secrets@).take(n);
    if n > 0 {
        lemma_stages_are_redacted(text, secrets, stages, replaced, n - 1);
        assert(head.drop_last() =~= texts(secrets@).take(n - 1));
        assert(stages[n]@ == replaced[n - 1]@);
    }
}

/// An empty body has no snippet; every other body has one, and it is what clipping leaves of the
/// text that the body reads.
pub proof fn snippet_is_the_clipped_text(
    raw: &[u8],
    secrets: &[&str],
    text: String,
    kept: String,
    snippet: Option<String>,
)
    requires
        call_ensures(response_snippet, (raw, secrets), snippet),
        call_ensures(clip_text, (text, secrets), kept),
        text@ == utf8_lossy(raw@) || valid_utf8(raw@) && text@ == decode_utf8(raw@),
    ensures
        snippet is None <==> raw@.len() == 0,
        snippet matches Some(s) ==> s@ == kept@,
{
}

} // verus!
