//! What a single HTTP attempt observed, and how its response body is read.

use crate::snippet::{
    clip, reads_valid_prefixes, response_snippet, snippet_of, texts, utf8_lossy,
    RESPONSE_SNIPPET_MAX_BYTES,
};
use vstd::prelude::*;
use vstd::utf8::*;

verus! {

/// Extra bytes read past the snippet cap so a secret straddling the cut is still redacted.
pub const REDACTION_SLACK_BYTES: usize = 1024;

/// Most bytes of a response body that are read.
pub const READ_LIMIT_BYTES: usize = RESPONSE_SNIPPET_MAX_BYTES + REDACTION_SLACK_BYTES;

/// The text of an optional string.
pub open spec fn text_of(s: Option<String>) -> Option<Seq<char>> {
    match s {
        Some(t) => Some(t@),
        None => None,
    }
}

/// What a single HTTP attempt observed: the only response data that is persisted.
#[derive(Debug)]
pub struct AttemptOutcome {
    /// HTTP status, or `None` for a connection error / per-request timeout.
    pub status: Option<u16>,
    /// Redacted, truncated response body.
    pub body_snippet: Option<String>,
}

impl AttemptOutcome {
    /// The attempt observed nothing: no response came back.
    pub open spec fn observed_nothing(self) -> bool {
        self.status is None && self.body_snippet is None
    }

    /// The endpoint accepted the event: it answered with a 2xx status.
    pub open spec fn success(self) -> bool {
        self.status matches Some(s) && 200 <= s < 300
    }

    /// The attempt failed for a reason that may pass: no response, or a 5xx status.
    pub open spec fn retriable(self) -> bool {
        self.status matches Some(s) ==> 500 <= s < 600
    }

    /// Whether the endpoint accepted the event.
    pub fn is_success(&self) -> (r: bool)
        ensures
            r == self.success(),
    {
        match self.status {
            Some(s) => s >= 200 && s < 300,
            None => false,
        }
    }

    /// Transport errors and 5xx are transient; any other non-2xx is the endpoint's final answer.
    pub fn is_retriable(&self) -> (r: bool)
        ensures
            r == self.retriable(),
    {
        match self.status {
            Some(s) => s >= 500 && s < 600,
            None => true,
        }
    }

    /// Every status from 500 to 599, and no response at all, is transient; every status from 200
    /// to 299 is an acceptance; every other status is neither.
    pub proof fn status_decides(&self, accepted: bool, transient: bool)
        requires
            call_ensures(AttemptOutcome::is_success, (self,), accepted),
            call_ensures(AttemptOutcome::is_retriable, (self,), transient),
        ensures
            self.status is None ==> transient && !accepted,
            self.status matches Some(s) ==> (transient <==> 500 <= s <= 599),
            self.status matches Some(s) ==> (accepted <==> 200 <= s <= 299),
            self.success() == accepted,
            self.retriable() == transient,
    {
    }

    /// No outcome is both a success and worth a retry.
    pub proof fn success_is_not_retried(self)
        ensures
            !(self.success() && self.retriable()),
    {
    }

    /// A response with a status outside 5xx is final: a 2xx is a success, anything else a failure
    /// that is not retried.
    pub proof fn status_outside_5xx_is_final(self, status: u16)
        requires
            self.status == Some(status),
            status < 500 || status >= 600,
        ensures
            !self.retriable(),
            self.success() <==> 200 <= status < 300,
    {
    }
}

impl Default for AttemptOutcome {
    fn default() -> (r: Self)
        ensures
            r.observed_nothing(),
    {
        AttemptOutcome { status: None, body_snippet: None }
    }
}

impl Clone for AttemptOutcome {
    fn clone(&self) -> (r: Self)
        ensures
            r == *self,
    {
        let body_snippet = match &self.body_snippet {
            Some(t) => Some(t.clone()),
            None => None,
        };
        AttemptOutcome { status: self.status, body_snippet }
    }
}

/// Takes the last attempt's outcome and leaves an empty one.
pub fn take_last(last: &mut AttemptOutcome) -> (r: AttemptOutcome)
    ensures
        r == *old(last),
        final(last).observed_nothing(),
{
    let mut taken = AttemptOutcome::default();
    core::mem::swap(&mut taken, last);
    taken
}

/// Taking an outcome moves all of it out, and leaves one without status and without body.
pub proof fn taking_moves_the_outcome(last: &mut AttemptOutcome, taken: AttemptOutcome)
    requires
        call_ensures(take_last, (last,), taken),
    ensures
        taken.status == old(last).status,
        taken.body_snippet == old(last).body_snippet,
        final(last).status is None,
        final(last).body_snippet is None,
{
}

/// An outcome of no response has neither status nor body, and a copy of an outcome has both of it.
pub proof fn outcomes_are_copied_whole(
    none: AttemptOutcome,
    o: &AttemptOutcome,
    copy: AttemptOutcome,
)
    requires
        call_ensures(<AttemptOutcome as Default>::default, (), none),
        call_ensures(<AttemptOutcome as Clone>::clone, (o,), copy),
    ensures
        none.status is None,
        none.body_snippet is None,
        copy.status == o.status,
        copy.body_snippet == o.body_snippet,
{
}

/// `raw`, or as much of it as is read of a response body.
pub open spec fn bounded(raw: Seq<u8>) -> Seq<u8> {
    if raw.len() <= READ_LIMIT_BYTES {
        raw
    } else {
        raw.take(READ_LIMIT_BYTES as int)
    }
}

/// What has been read after the given chunks came in.
pub open spec fn read_chunks(chunks: Seq<Seq<u8>>) -> Seq<u8>
    decreases chunks.len(),
{
    if chunks.len() == 0 {
        Seq::empty()
    } else {
        bounded(read_chunks(chunks.drop_last()) + chunks.last())
    }
}

/// The chunks one after the other.
pub open spec fn joined(chunks: Seq<Seq<u8>>) -> Seq<u8>
    decreases chunks.len(),
{
    if chunks.len() == 0 {
        Seq::empty()
    } else {
        joined(chunks.drop_last()) + chunks.last()
    }
}

proof fn lemma_joined_is_flattened(chunks: Seq<Seq<u8>>)
    ensures
        joined(chunks) == chunks.flatten(),
{
    lemma_joined_is_flattened_alt(chunks);
    chunks.lemma_flatten_and_flatten_alt_are_equivalent();
}

proof fn lemma_joined_is_flattened_alt(chunks: Seq<Seq<u8>>)
    ensures
        joined(chunks) == chunks.flatten_alt(),
    decreases chunks.len(),
{
    if chunks.len() > 0 {
        lemma_joined_is_flattened_alt(chunks.drop_last());
    }
}

/// However a response body is split into chunks, what is kept of it is its first 2048 bytes, or all
/// of it where it is shorter.
pub proof fn chunking_does_not_matter(chunks: Seq<Seq<u8>>)
    ensures
        read_chunks(chunks) == bounded(joined(chunks)),
        read_chunks(chunks).len() <= READ_LIMIT_BYTES,
        read_chunks(chunks).is_prefix_of(chunks.flatten()),
        read_chunks(chunks).len() == (if chunks.flatten().len() < 2048 {
            chunks.flatten().len() as int
        } else {
            2048
        }),
    decreases chunks.len(),
{
    lemma_joined_is_flattened(chunks);
    if chunks.len() > 0 {
        chunking_does_not_matter(chunks.drop_last());
        let all = joined(chunks.drop_last());
        assert(bounded(bounded(all) + chunks.last()) =~= bounded(all + chunks.last()));
    }
}

/// Once the limit is reached, what is still to come changes nothing, so reading can stop.
pub proof fn full_reader_ignores_the_rest(chunks: Seq<Seq<u8>>, more: Seq<u8>)
    requires
        read_chunks(chunks).len() >= READ_LIMIT_BYTES,
    ensures
        read_chunks(chunks.push(more)) == read_chunks(chunks),
{
    chunking_does_not_matter(chunks);
    assert(chunks.push(more).drop_last() =~= chunks);
    assert(bounded(read_chunks(chunks) + more) =~= read_chunks(chunks));
}

/// A stretch of the body that starts within the snippet cap and is no longer than the slack is
/// read whole, so a secret that straddles the cap is seen as a whole.
pub proof fn straddling_stretch_is_read_whole(body: Seq<u8>, at: int, n: int)
    requires
        0 <= at < RESPONSE_SNIPPET_MAX_BYTES,
        0 <= n <= REDACTION_SLACK_BYTES,
        at + n <= body.len(),
    ensures
        at + n <= bounded(body).len(),
        bounded(body).subrange(at, at + n) == body.subrange(at, at + n),
{
    assert(bounded(body).subrange(at, at + n) =~= body.subrange(at, at + n));
}

/// Collects a bounded prefix of a response body, so a huge error page can't balloon memory.
pub struct BodyReader {
    raw: Vec<u8>,
}

impl View for BodyReader {
    type V = Seq<u8>;

    closed spec fn view(&self) -> Seq<u8> {
        self.raw@
    }
}

impl BodyReader {
    /// No more has been read than the limit allows.
    pub open spec fn wf(self) -> bool {
        self@.len() <= READ_LIMIT_BYTES
    }

    /// A reader that has read nothing.
    pub fn new() -> (r: Self)
        ensures
            r.wf(),
            r@ == Seq::<u8>::empty(),
    {
        BodyReader { raw: Vec::new() }
    }

    /// Whether another chunk is to be read.
    pub fn wants_more(&self) -> (r: bool)
        ensures
            r == (self@.len() < READ_LIMIT_BYTES),
    {
        self.raw.len() < READ_LIMIT_BYTES
    }

    /// Takes in a chunk, as far as the limit allows.
    pub fn push(&mut self, chunk: &[u8])
        requires
            old(self).wf(),
        ensures
            final(self).wf(),
            final(self)@ == bounded(old(self)@ + chunk@),
    {
        let room = READ_LIMIT_BYTES - self.raw.len();
        let take = if chunk.len() < room {
            chunk.len()
        } else {
            room
        };
        let ghost before = self.raw@;
        let mut i: usize = 0;
        while i < take
            invariant
                i <= take <= chunk.len(),
                self.raw@ == before + chunk@.take(i as int),
            decreases take - i,
        {
            self.raw.push(chunk[i]);
            assert(chunk@.take(i + 1) =~= chunk@.take(i as int).push(chunk@[i as int]));
            i += 1;
        }
        assert(before + chunk@.take(take as int) =~= bounded(before + chunk@));
    }

    /// The outcome of an attempt that was answered with `status` and this body. Neither the
    /// signature nor the endpoint's secret is kept, should the endpoint have echoed them.
    pub fn into_outcome(self, status: u16, signature: &str, secret: &str) -> (r: AttemptOutcome)
        ensures
            r.status == Some(status),
            text_of(r.body_snippet) == snippet_of(self@, seq![signature@, secret@]),
            self@.len() > 0 && valid_utf8(self@) ==> text_of(r.body_snippet) == Some(
                clip(decode_utf8(self@), seq![signature@, secret@]),
            ),
            self@.len() > 0 ==> reads_valid_prefixes(self@, utf8_lossy(self@)),
            r.body_snippet matches Some(kept) ==> kept@.len() > 0,
    {
        let secrets = [signature, secret];
        let body_snippet = response_snippet(self.raw.as_slice(), secrets.as_slice());
        assert(texts(secrets@) =~= seq![signature@, secret@]);
        AttemptOutcome { status: Some(status), body_snippet }
    }
}

/// A reader starts empty, wants more as long as it holds less than 2048 bytes, and keeps what comes
/// in, byte for byte and in order, until it holds that many.
pub proof fn reader_keeps_the_first_bytes(
    fresh: BodyReader,
    reader: &mut BodyReader,
    chunk: &[u8],
    wants: bool,
)
    requires
        call_ensures(BodyReader::new, (), fresh),
        call_ensures(BodyReader::wants_more, (&*old(reader),), wants),
        call_ensures(BodyReader::push, (reader, chunk), ()),
        old(reader).wf(),
    ensures
        fresh@.len() == 0,
        wants <==> old(reader)@.len() < 2048,
        old(reader)@.is_prefix_of(final(reader)@),
        final(reader)@.is_prefix_of(old(reader)@ + chunk@),
        final(reader)@.len() == (if old(reader)@.len() + chunk@.len() < 2048 {
            old(reader)@.len() + chunk@.len()
        } else {
            2048
        }),
{
    let all = old(reader)@ + chunk@;
    assert(all.subrange(0, final(reader)@.len() as int) =~= final(reader)@);
    assert(final(reader)@.subrange(0, old(reader)@.len() as int) =~= old(reader)@);
}

/// The outcome of an answered attempt has the status of the answer, and the snippet of what was
/// read of its body, with the signature and the secret redacted in this order.
pub proof fn answer_is_observed_as_it_came(
    reader: BodyReader,
    status: u16,
    signature: &str,
    secret: &str,
    raw: &[u8],
    secrets: &[&str],
    outcome: AttemptOutcome,
    kept: Option<String>,
)
    requires
        call_ensures(BodyReader::into_outcome, (reader, status, signature, secret), outcome),
        raw@ == reader@,
        secrets@ == seq![signature, secret],
        call_ensures(response_snippet, (raw, secrets), kept),
    ensures
        outcome.status == Some(status),
        outcome.body_snippet is Some <==> kept is Some,
        kept matches Some(k) ==> outcome.body_snippet->0@ == k@,
{
    assert(texts(secrets@) =~= seq![signature@, secret@]);
}

} // verus!
