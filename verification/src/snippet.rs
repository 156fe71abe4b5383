//! What is kept of an endpoint's response body: redacted first, then cut to a bounded size.

use crate::text::{chars_of, occurs_in, truncate_utf8, utf8_prefix, utf8_width};
use vstd::prelude::*;
use vstd::utf8::*;

verus! {

/// Most bytes of an endpoint's response body kept in the delivery log (bounds table growth).
pub const RESPONSE_SNIPPET_MAX_BYTES: usize = 1024;

/// What stands in place of a redacted secret.
pub open spec fn marker() -> Seq<char> {
    "[redacted]"@
}

/// `s` with every occurrence of `from` replaced by `to`; occurrences are found from left to right
/// and do not overlap.
pub open spec fn replace_all(s: Seq<char>, from: Seq<char>, to: Seq<char>) -> Seq<char>
    decreases s.len(),
{
    if from.len() == 0 || s.len() < from.len() {
        s
    } else if s.take(from.len() as int) == from {
        to + replace_all(s.skip(from.len() as int), from, to)
    } else {
        seq![s[0]] + replace_all(s.skip(1), from, to)
    }
}

/// `text` with every secret replaced by the marker, one secret after the other. An empty secret
/// is passed over.
pub open spec fn redact(text: Seq<char>, secrets: Seq<Seq<char>>) -> Seq<char>
    decreases secrets.len(),
{
    if secrets.len() == 0 {
        text
    } else {
        replace_all(redact(text, secrets.drop_last()), secrets.last(), marker())
    }
}

/// The characters that `String::from_utf8_lossy` reads in `bytes`.
pub uninterp spec fn utf8_lossy(bytes: Seq<u8>) -> Seq<char>;

/// Every well-formed beginning of `raw` is read in `text` as it stands.
pub open spec fn reads_valid_prefixes(raw: Seq<u8>, text: Seq<char>) -> bool {
    forall|k: int|
        0 <= k <= raw.len() && valid_utf8(#[trigger] raw.take(k)) ==> decode_utf8(
            raw.take(k),
        ).is_prefix_of(text)
}

/// `String::from_utf8_lossy`: the result is a function of the bytes. Well-formed UTF-8 is decoded
/// as it stands, and so is the well-formed beginning of bytes that are malformed further on. What
/// is malformed is replaced, not dropped, so bytes never read as nothing.
#[verifier::external_body]
fn decode_lossy(raw: &[u8]) -> (text: String)
    ensures
        text@ == utf8_lossy(raw@),
        valid_utf8(raw@) ==> text@ == decode_utf8(raw@),
        reads_valid_prefixes(raw@, text@),
        raw@.len() > 0 ==> text@.len() > 0,
{
    String::from_utf8_lossy(raw).into_owned()
}

/// The text of each secret.
pub open spec fn texts(secrets: Seq<&str>) -> Seq<Seq<char>> {
    secrets.map_values(|s: &str| s@)
}

/// The snippet of a response body that reads `text`.
pub open spec fn clip(text: Seq<char>, secrets: Seq<Seq<char>>) -> Seq<char> {
    utf8_prefix(redact(text, secrets), RESPONSE_SNIPPET_MAX_BYTES as int)
}

/// The snippet of the response body `raw`; an empty body has none.
pub open spec fn snippet_of(raw: Seq<u8>, secrets: Seq<Seq<char>>) -> Option<Seq<char>> {
    if raw.len() == 0 {
        None
    } else {
        Some(clip(utf8_lossy(raw), secrets))
    }
}

proof fn lemma_redacted_text_is_not_empty(text: Seq<char>, secrets: Seq<Seq<char>>)
    requires
        text.len() > 0,
    ensures
        redact(text, secrets).len() > 0,
    decreases secrets.len(),
{
    reveal_strlit("[redacted]");
    if secrets.len() > 0 {
        lemma_redacted_text_is_not_empty(text, secrets.drop_last());
    }
}

/// The snippet of a text that is not empty is not empty: whatever is read of a response leaves a
/// trace in the log.
pub proof fn snippet_is_not_empty(text: Seq<char>, secrets: Seq<Seq<char>>)
    requires
        text.len() > 0,
    ensures
        clip(text, secrets).len() > 0,
{
    lemma_redacted_text_is_not_empty(text, secrets);
    assert(utf8_width(redact(text, secrets)[0]) <= 4);
}

/// `text` with every occurrence of `secret` replaced by the marker.
pub fn replace_secret(text: &str, secret: &str) -> (r: String)
    ensures
        r@ == replace_all(text@, secret@, marker()),
{
    let s = chars_of(text);
    let pat = chars_of(secret);
    let mut out = String::new();
    if pat.len() == 0 {
        return text.to_owned();
    }
    // `text[..copied]` is in `out`; no occurrence starts in `text[copied..i]`.
    let mut copied: usize = 0;
    let mut i: usize = 0;
    assert(s@.skip(0) =~= s@);
    while i < s.len()
        invariant
            copied <= i <= s.len(),
            s@ == text@,
            pat@ == secret@,
            pat.len() > 0,
            replace_all(text@, secret@, marker()) == out@ + text@.subrange(copied as int, i as int)
                + replace_all(text@.skip(i as int), secret@, marker()),
        decreases s.len() - i,
    {
        let ghost rest = text@.skip(i as int);
        if occurs_in(&s, &pat, i) {
            assert(rest.take(pat.len() as int) =~= secret@);
            assert(rest.skip(pat.len() as int) =~= text@.skip(i + pat.len()));
            out.append(text.substring_char(copied, i));
            out.append("[redacted]");
            i += pat.len();
            copied = i;
        } else {
            assert(rest.len() >= pat.len() ==> rest.take(pat.len() as int) =~= s@.subrange(
                i as int,
                i + pat.len(),
            ));
            assert(rest =~= seq![rest[0]] + rest.skip(1));
            assert(rest.skip(1) =~= text@.skip(i + 1));
            assert(text@.subrange(copied as int, i + 1) =~= text@.subrange(copied as int, i as int)
                + seq![rest[0]]);
            i += 1;
        }
    }
    out.append(text.substring_char(copied, s.len()));
    out
}

/// Redacts `secrets` from `text` and cuts the result to [`RESPONSE_SNIPPET_MAX_BYTES`].
pub fn clip_text(text: String, secrets: &[&str]) -> (r: String)
    ensures
        r@ == clip(text@, texts(secrets@)),
{
    let mut redacted = text;
    let mut i: usize = 0;
    assert(texts(secrets@).take(0) =~= Seq::empty());
    while i < secrets.len()
        invariant
            i <= secrets.len(),
            redacted@ == redact(text@, texts(secrets@).take(i as int)),
        decreases secrets.len() - i,
    {
        redacted = replace_secret(redacted.as_str(), secrets[i]);
        assert(texts(secrets@).take(i + 1).drop_last() =~= texts(secrets@).take(i as int));
        i += 1;
    }
    assert(texts(secrets@).take(i as int) =~= texts(secrets@));
    truncate_utf8(redacted.as_str(), RESPONSE_SNIPPET_MAX_BYTES)
}

/// Redacts `secrets` from a response body and truncates it to [`RESPONSE_SNIPPET_MAX_BYTES`] on a
/// character boundary. An endpoint echoing our headers back must never land the signature in the
/// log.
pub fn response_snippet(raw: &[u8], secrets: &[&str]) -> (r: Option<String>)
    ensures
        r is Some <==> raw@.len() > 0,
        r matches Some(t) ==> Some(t@) == snippet_of(raw@, texts(secrets@)),
        r matches Some(t) ==> (valid_utf8(raw@) ==> t@ == clip(
            decode_utf8(raw@),
            texts(secrets@),
        )),
        raw@.len() > 0 ==> reads_valid_prefixes(raw@, utf8_lossy(raw@)),
        r matches Some(t) ==> t@.len() > 0,
{
    if raw.len() == 0 {
        return None;
    }
    let text = decode_lossy(raw);
    proof {
        snippet_is_not_empty(text@, texts(secrets@));
    }
    Some(clip_text(text, secrets))
}

} // verus!
