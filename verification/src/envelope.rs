//! Events and the signed envelope that carries them.

use vstd::prelude::*;

verus! {

/// A JSON value, opaque to proofs.
#[verifier::external_type_specification]
#[verifier::external_body]
pub struct ExJsonValue(serde_json::Value);

/// The members of a JSON object.
#[verifier::external_type_specification]
#[verifier::external_body]
#[verifier::reject_recursive_types(K)]
#[verifier::reject_recursive_types(V)]
pub struct ExJsonMap<K, V>(serde_json::Map<K, V>);

/// Why a JSON value could not be written.
#[verifier::external_type_specification]
#[verifier::external_body]
pub struct ExJsonError(serde_json::Error);

/// A webhook event to deliver.
pub struct Event {
    /// e.g. `"deposit.created"`.
    pub event_type: String,
    /// The JSON payload (the `data` of the event).
    pub data: serde_json::Value,
}

/// The members of a JSON object, by name.
pub uninterp spec fn json_members(
    m: serde_json::Map<String, serde_json::Value>,
) -> Map<Seq<char>, serde_json::Value>;

/// The JSON object with the given members.
pub uninterp spec fn json_object(members: Map<Seq<char>, serde_json::Value>) -> serde_json::Value;

/// The JSON string that reads `text`.
pub uninterp spec fn json_string(text: Seq<char>) -> serde_json::Value;

/// The bytes that `serde_json::to_vec` writes for `v`, if it can write it.
pub uninterp spec fn json_bytes(v: serde_json::Value) -> Option<Seq<u8>>;

/// `serde_json::Map::new`: an object without members.
#[verifier::external_body]
fn new_members() -> (m: serde_json::Map<String, serde_json::Value>)
    ensures
        (json_members(m) == Map::<Seq<char>, serde_json::Value>::empty()),
{
    serde_json::Map::new()
}

/// `serde_json::Map::insert`: sets one member, in place of the one of that name if there is one,
/// which is returned.
#[verifier::external_body]
fn insert_member(
    m: &mut serde_json::Map<String, serde_json::Value>,
    name: String,
    value: serde_json::Value,
) -> (replaced: Option<serde_json::Value>)
    ensures
        json_members(*final(m)) == json_members(*old(m)).insert(name@, value),
        replaced == (if json_members(*old(m)).contains_key(name@) {
            Some(json_members(*old(m))[name@])
        } else {
            None
        }),
{
    m.insert(name, value)
}

/// `serde_json::Value::Object`: the object with these members. Members have no order of their
/// own: without the `preserve_order` feature the map sorts them by name.
#[verifier::external_body]
fn object_value(m: serde_json::Map<String, serde_json::Value>) -> (v: serde_json::Value)
    ensures
        v == json_object(json_members(m)),
{
    serde_json::Value::Object(m)
}

/// `serde_json::Value::String`: the JSON string that reads `text`.
#[verifier::external_body]
fn string_value(text: String) -> (v: serde_json::Value)
    ensures
        v == json_string(text@),
{
    serde_json::Value::String(text)
}

/// `Clone` of `serde_json::Value`: a copy is the same value.
#[verifier::external_body]
fn copy_value(v: &serde_json::Value) -> (copy: serde_json::Value)
    ensures
        copy == *v,
{
    v.clone()
}

/// `serde_json::to_vec`: the compact text of a value as bytes, or an error; which of the two, and
/// which bytes, is a function of the value.
#[verifier::external_body]
fn to_vec(v: &serde_json::Value) -> (written: Result<Vec<u8>, serde_json::Error>)
    ensures
        match written {
            Ok(bytes) => json_bytes(*v) == Some(bytes@),
            Err(_) => json_bytes(*v) is None,
        },
{
    serde_json::to_vec(v)
}

/// The members of the envelope of an event.
pub open spec fn envelope_members(event: Event) -> Map<Seq<char>, serde_json::Value> {
    map!["event"@ => json_string(event.event_type@), "data"@ => event.data]
}

/// The standard envelope of an event.
pub open spec fn envelope_of(event: Event) -> serde_json::Value {
    json_object(envelope_members(event))
}

/// The bytes of a JSON value that are signed and sent; none where it cannot be written.
pub open spec fn body_of(v: serde_json::Value) -> Seq<u8> {
    match json_bytes(v) {
        Some(bytes) => bytes,
        None => Seq::empty(),
    }
}

/// Wraps an event in the standard envelope.
pub fn envelope(event: &Event) -> (v: serde_json::Value)
    ensures
        v == envelope_of(*event),
{
    let mut members = new_members();
    let _ = insert_member(&mut members, "event".to_owned(), string_value(event.event_type.clone()));
    let _ = insert_member(&mut members, "data".to_owned(), copy_value(&event.data));
    assert(json_members(members) =~= envelope_members(*event)) by {
        reveal_strlit("event");
        reveal_strlit("data");
    }
    object_value(members)
}

/// The bytes of an envelope that are signed and sent.
pub fn body_bytes(v: &serde_json::Value) -> (bytes: Vec<u8>)
    ensures
        bytes@ == body_of(*v),
{
    match to_vec(v) {
        Ok(bytes) => bytes,
        Err(_) => Vec::new(),
    }
}

/// The envelope of an event is the JSON object with exactly two members: under `event` the JSON
/// string of the whole event type, and under `data` the data of the event.
pub proof fn envelope_has_two_members(
    event: &Event,
    members: Map<Seq<char>, serde_json::Value>,
    v: serde_json::Value,
)
    requires
        call_ensures(envelope, (event,), v),
        members.dom() == set!["event"@, "data"@],
        members["event"@] == json_string(event.event_type@),
        members["data"@] == event.data,
    ensures
        v == json_object(members),
        envelope_of(*event) == json_object(members),
        envelope_members(*event) == members,
{
    reveal_strlit("event");
    reveal_strlit("data");
    assert("event"@.len() != "data"@.len());
    assert(envelope_members(*event).dom() =~= set!["event"@, "data"@]);
    assert(envelope_members(*event) =~= members);
}

/// The members of every envelope are named `event` and `data`, and no others, and hold the whole
/// event type and the data.
pub proof fn envelope_members_are_the_fields(event: Event)
    ensures
        forall|name: Seq<char>| #[trigger]
            envelope_members(event).contains_key(name) <==> name == "event"@ || name == "data"@,
        envelope_members(event)["event"@] == json_string(event.event_type@),
        envelope_members(event)["data"@] == event.data,
{
    reveal_strlit("event");
    reveal_strlit("data");
    assert("event"@.len() != "data"@.len());
}

/// The bytes of a value that are signed and sent are those that are written for it, all of them;
/// where it cannot be written there are none.
pub proof fn body_is_what_is_written(v: &serde_json::Value, bytes: Vec<u8>)
    requires
        call_ensures(body_bytes, (v,), bytes),
    ensures
        json_bytes(*v) matches Some(written) ==> bytes@ == written,
        json_bytes(*v) is None ==> bytes@.len() == 0,
        body_of(*v) == bytes@,
{
}

} // verus!
