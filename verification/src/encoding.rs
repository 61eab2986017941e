//! The encodings of values on the wire: JSON texts, Base64 and RFC 3339 times.

use crate::string_map::{Entries, StringMap};
use base64::Engine;
use vstd::prelude::*;
use vstd::string::*;

verus! {

/// The JSON string for a text, in its quotes.
pub uninterp spec fn json_quoted(s: Seq<char>) -> Seq<char>;

/// Writes a text as a JSON string. Calls `serde_json::to_string` on a `str`, which puts the text in
/// double quotes, escapes what JSON wants escaped, and does not fail on a `str`. The contract names
/// the result, a function of the text.
#[verifier::external_body]
pub(crate) fn json_string(s: &str) -> (r: String)
    ensures
        r@ == json_quoted(s@),
{
    serde_json::to_string(s).unwrap_or_default()
}

/// The standard Base64 text for some bytes, padded.
pub uninterp spec fn base64_text(data: Seq<u8>) -> Seq<char>;

/// The bytes that a text stands for in standard, padded Base64; where it stands for none, why not.
pub uninterp spec fn base64_decoded(text: Seq<char>) -> Result<Seq<u8>, Seq<char>>;

/// Encodes bytes. Calls `base64`'s `Engine::encode` on the `STANDARD` engine. The contract names
/// the text, a function of the bytes, and claims that `STANDARD` decodes it to these bytes. The
/// bound on the length keeps the text, four characters for three bytes, below the size that an
/// allocation can have; beyond it `encode` panics.
#[verifier::external_body]
pub(crate) fn base64_encode(data: &Vec<u8>) -> (r: String)
    requires
        data@.len() <= isize::MAX / 2,
    ensures
        r@ == base64_text(data@),
        base64_decoded(r@) is Ok,
        base64_decoded(r@)->Ok_0 == data@,
{
    base64::engine::general_purpose::STANDARD.encode(data)
}

/// Decodes a text. Calls `base64`'s `Engine::decode` on the `STANDARD` engine, and formats the
/// error where it returns one. The contract names what comes back, a function of the text.
#[verifier::external_body]
pub(crate) fn base64_decode(text: &str) -> (r: Result<Vec<u8>, String>)
    ensures
        match r {
            Ok(data) => base64_decoded(text@) is Ok && base64_decoded(text@)->Ok_0 == data@,
            Err(why) => base64_decoded(text@) is Err && base64_decoded(text@)->Err_0 == why@,
        },
{
    base64::engine::general_purpose::STANDARD.decode(text).map_err(|e| e.to_string())
}

/// The first and the last time that [`timestamp_text`] gives a text to, in milliseconds since the
/// Unix epoch.
pub const FIRST_TIMESTAMP_MS: i64 = -377_705_023_201_000;

/// See [`FIRST_TIMESTAMP_MS`].
pub const LAST_TIMESTAMP_MS: i64 = 253_402_207_200_000;

/// The RFC 3339 text, in UTC, for a time in milliseconds since the Unix epoch.
pub uninterp spec fn timestamp_text(ms_since_epoch: int) -> Seq<char>;

/// Formats a time. Calls `jiff::Timestamp::from_millisecond` and, on the timestamp, `to_string`.
/// The contract names the text, a function of the milliseconds, and claims that jiff has a
/// timestamp for exactly the milliseconds in its documented range.
#[verifier::external_body]
pub(crate) fn timestamp(ms_since_epoch: i64) -> (r: Option<String>)
    ensures
        match r {
            Some(s) => FIRST_TIMESTAMP_MS <= ms_since_epoch <= LAST_TIMESTAMP_MS && s@
                == timestamp_text(ms_since_epoch as int),
            None => !(FIRST_TIMESTAMP_MS <= ms_since_epoch <= LAST_TIMESTAMP_MS),
        },
{
    match jiff::Timestamp::from_millisecond(ms_since_epoch) {
        Ok(t) => Some(t.to_string()),
        Err(_) => None,
    }
}

/// The RFC 3339 text for a time; the Unix epoch's for a time that has none.
pub open spec fn rfc3339_text(ms_since_epoch: int) -> Seq<char> {
    if FIRST_TIMESTAMP_MS <= ms_since_epoch <= LAST_TIMESTAMP_MS {
        timestamp_text(ms_since_epoch)
    } else {
        "1970-01-01T00:00:00Z"@
    }
}

/// The RFC 3339 text for a time; the Unix epoch's for a time that has none.
pub fn rfc3339(ms_since_epoch: i64) -> (r: String)
    ensures
        r@ == rfc3339_text(ms_since_epoch as int),
{
    match timestamp(ms_since_epoch) {
        Some(s) => s,
        None => String::from_str("1970-01-01T00:00:00Z"),
    }
}

/// The members of a JSON object: for each the JSON texts of its key and of its value.
pub type Members = Seq<(Seq<char>, Seq<char>)>;

/// The texts `key:value` of some members, with commas between them.
pub open spec fn members_text(members: Members) -> Seq<char>
    decreases members.len(),
{
    if members.len() == 0 {
        Seq::empty()
    } else if members.len() == 1 {
        members[0].0 + ":"@ + members[0].1
    } else {
        members_text(members.drop_last()) + ","@ + members.last().0 + ":"@ + members.last().1
    }
}

/// The JSON object with these members.
pub open spec fn object_text(members: Members) -> Seq<char> {
    "{"@ + members_text(members) + "}"@
}

/// The members that some pairs of texts stand for.
pub open spec fn members_of(members: Seq<(String, String)>) -> Members {
    members.map_values(|m: (String, String)| (m.0@, m.1@))
}

/// Writes the JSON object with these members.
pub fn object(members: &Vec<(String, String)>) -> (r: String)
    ensures
        r@ == object_text(members_of(members@)),
{
    let mut r = String::from_str("{");
    let ghost all = members_of(members@);
    let mut i: usize = 0;
    assert(all.take(0) =~= Seq::empty());
    assert(r@ =~= "{"@ + members_text(all.take(0)));
    while i < members.len()
        invariant
            i <= members.len(),
            all == members_of(members@),
            r@ == "{"@ + members_text(all.take(i as int)),
        decreases members.len() - i,
    {
        let ghost before = r@;
        if i > 0 {
            r.append(",");
        }
        r.append(members[i].0.as_str());
        r.append(":");
        r.append(members[i].1.as_str());
        proof {
            let now = all.take(i + 1);
            assert(now.drop_last() =~= all.take(i as int));
            assert(now.last() == all[i as int]);
            assert(r@ =~= "{"@ + members_text(now));
        }
        i = i + 1;
    }
    assert(all.take(i as int) =~= all);
    r.append("}");
    r
}

/// The members of the JSON object for a map of texts.
pub open spec fn entry_members(entries: Entries) -> Members {
    entries.map_values(|e: (Seq<char>, Seq<char>)| (json_quoted(e.0), json_quoted(e.1)))
}

/// Writes the JSON object for a map of texts.
pub fn string_map_object(map: &StringMap) -> (r: String)
    ensures
        r@ == object_text(entry_members(map@)),
{
    let mut members: Vec<(String, String)> = Vec::new();
    let mut i: usize = 0;
    while i < map.len()
        invariant
            i <= map@.len(),
            members_of(members@) == entry_members(map@.take(i as int)),
        decreases map@.len() - i,
    {
        let ghost before = members@;
        let m = (json_string(map.key(i).as_str()), json_string(map.value(i).as_str()));
        let ghost written = (m.0@, m.1@);
        members.push(m);
        proof {
            assert(members_of(members@) =~= members_of(before).push(written));
            assert(map@.take(i + 1) =~= map@.take(i as int).push(map@[i as int]));
            assert(entry_members(map@.take(i + 1)) =~= entry_members(map@.take(i as int)).push(
                written,
            ));
        }
        i = i + 1;
    }
    assert(map@.take(i as int) =~= map@);
    object(&members)
}

} // verus!
