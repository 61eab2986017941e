//! The HTTP request that carries a message to a push endpoint.
//!
//! There are two formats. The wrapped one, which is the default, is a JSON body
//! `{"message": {...}, "subscription": "..."}` in which every field of the message is present under
//! its camel case and its snake case key. The unwrapped one is the message's data as the body, with
//! the rest in `x-goog-pubsub-*` headers.

use crate::encoding;
use crate::encoding::Members;
use crate::service::{PulledMessage, PulledView};
use crate::store::codec;
use crate::text;
use vstd::prelude::*;
use vstd::string::*;
use vstd::utf8::encode_utf8;

verus! {

/// What is sent: a body and the headers that the format asks for.
#[derive(Debug)]
pub struct PushRequestBody {
    /// The body.
    pub body: Vec<u8>,
    /// The value of the `Content-Type` header.
    pub content_type: &'static str,
    /// The other headers.
    pub extra_headers: Vec<(String, String)>,
}

/// What a [`PushRequestBody`] holds.
pub struct RequestView {
    pub body: Seq<u8>,
    pub content_type: Seq<char>,
    pub extra_headers: Seq<(Seq<char>, Seq<char>)>,
}

impl View for PushRequestBody {
    type V = RequestView;

    open spec fn view(&self) -> RequestView {
        RequestView {
            body: self.body@,
            content_type: self.content_type@,
            extra_headers: encoding::members_of(self.extra_headers@),
        }
    }
}

/// The members of the JSON object for a message. Those for the ordering key and the number of
/// attempts are there only where the message has one and the attempts are told.
pub open spec fn message_members(m: PulledView, delivery_attempt: Option<u32>) -> Members {
    let attributes = (
        "\"attributes\""@,
        encoding::object_text(encoding::entry_members(m.attributes)),
    );
    let data = ("\"data\""@, "\""@ + encoding::base64_text(m.data) + "\""@);
    let attempts = match delivery_attempt {
        Some(n) => seq![
            ("\"deliveryAttempt\""@, text::dec(n as nat)),
            ("\"delivery_attempt\""@, text::dec(n as nat)),
        ],
        None => Seq::empty(),
    };
    let id = encoding::json_quoted(m.message_id);
    let ids = seq![("\"messageId\""@, id), ("\"message_id\""@, id)];
    let key = encoding::json_quoted(m.ordering_key);
    let keys = if m.ordering_key.len() > 0 {
        seq![("\"orderingKey\""@, key), ("\"ordering_key\""@, key)]
    } else {
        Seq::empty()
    };
    let time = "\""@ + encoding::rfc3339_text(m.publish_time_ms as int) + "\""@;
    let times = seq![("\"publishTime\""@, time), ("\"publish_time\""@, time)];
    seq![attributes, data] + attempts + ids + keys + times
}

/// The wrapped request for a message.
pub open spec fn wrapped(
    subscription: Seq<char>,
    m: PulledView,
    delivery_attempt: Option<u32>,
) -> RequestView {
    RequestView {
        body: encode_utf8(
            encoding::object_text(
                seq![
                    ("\"message\""@, encoding::object_text(message_members(m, delivery_attempt))),
                    ("\"subscription\""@, encoding::json_quoted(subscription)),
                ],
            ),
        ),
        content_type: "application/json"@,
        extra_headers: Seq::empty(),
    }
}

/// The headers of the unwrapped request for a message.
pub open spec fn metadata_headers(
    subscription: Seq<char>,
    m: PulledView,
    write_metadata: bool,
) -> Seq<(Seq<char>, Seq<char>)> {
    let keys = if m.ordering_key.len() > 0 {
        seq![("x-goog-pubsub-ordering-key"@, m.ordering_key)]
    } else {
        Seq::empty()
    };
    let attributes = if write_metadata {
        m.attributes
    } else {
        Seq::empty()
    };
    seq![
        ("x-goog-pubsub-subscription-name"@, subscription),
        ("x-goog-pubsub-message-id"@, m.message_id),
        ("x-goog-pubsub-publish-time"@, encoding::rfc3339_text(m.publish_time_ms as int)),
    ] + keys + attributes
}

/// The unwrapped request for a message.
pub open spec fn unwrapped(
    subscription: Seq<char>,
    m: PulledView,
    write_metadata: bool,
) -> RequestView {
    RequestView {
        body: m.data,
        content_type: "application/octet-stream"@,
        extra_headers: metadata_headers(subscription, m, write_metadata),
    }
}

fn add_pair(pairs: &mut Vec<(String, String)>, key: &str, value: &str)
    ensures
        encoding::members_of(final(pairs)@) == encoding::members_of(old(pairs)@).push(
            (key@, value@),
        ),
{
    pairs.push((String::from_str(key), String::from_str(value)));
    assert(encoding::members_of(pairs@) =~= encoding::members_of(old(pairs)@).push(
        (key@, value@),
    ));
}

fn add_both(pairs: &mut Vec<(String, String)>, first: &str, second: &str, value: &str)
    ensures
        encoding::members_of(final(pairs)@) == encoding::members_of(old(pairs)@) + seq![
            (first@, value@),
            (second@, value@),
        ],
{
    let ghost before = encoding::members_of(pairs@);
    add_pair(pairs, first, value);
    add_pair(pairs, second, value);
    assert(encoding::members_of(pairs@) =~= before + seq![(first@, value@), (second@, value@)]);
}

fn message_object(msg: &PulledMessage, delivery_attempt: Option<u32>) -> (r: String)
    requires
        msg.data@.len() <= isize::MAX / 2,
    ensures
        r@ == encoding::object_text(message_members(msg@, delivery_attempt)),
{
    let mut members: Vec<(String, String)> = Vec::new();
    let ghost none: Members = Seq::empty();
    assert(encoding::members_of(members@) =~= none);
    let attributes = encoding::string_map_object(&msg.attributes);
    add_pair(&mut members, "\"attributes\"", attributes.as_str());
    let data = encoding::base64_encode(&msg.data);
    let data = text::cat3("\"", data.as_str(), "\"");
    add_pair(&mut members, "\"data\"", data.as_str());
    let ghost first = encoding::members_of(members@);
    assert(first =~= seq![("\"attributes\""@, attributes@), ("\"data\""@, data@)]);
    match delivery_attempt {
        Some(n) => {
            let count = text::u64_text(n as u64);
            add_both(
                &mut members,
                "\"deliveryAttempt\"",
                "\"delivery_attempt\"",
                count.as_str(),
            );
        },
        None => {
            assert(first + none =~= first);
        },
    }
    let id = encoding::json_string(msg.message_id.as_str());
    add_both(&mut members, "\"messageId\"", "\"message_id\"", id.as_str());
    let ghost so_far = encoding::members_of(members@);
    if !msg.ordering_key.as_str().is_empty() {
        let key = encoding::json_string(msg.ordering_key.as_str());
        add_both(&mut members, "\"orderingKey\"", "\"ordering_key\"", key.as_str());
    } else {
        assert(so_far + none =~= so_far);
    }
    let time = encoding::rfc3339(msg.publish_time_ms);
    let time = text::cat3("\"", time.as_str(), "\"");
    add_both(&mut members, "\"publishTime\"", "\"publish_time\"", time.as_str());
    assert(encoding::members_of(members@) =~= message_members(msg@, delivery_attempt));
    encoding::object(&members)
}

/// Builds the wrapped request. The number of attempts is told only where it is given, which is to
/// say where the subscription has a dead-letter policy. The data's length is bounded because the
/// Base64 text is longer than the data and must still fit into memory.
pub fn build_wrapped(
    subscription_full_name: &str,
    msg: &PulledMessage,
    delivery_attempt: Option<u32>,
) -> (r: PushRequestBody)
    requires
        msg.data@.len() <= isize::MAX / 2,
    ensures
        r@ == wrapped(subscription_full_name@, msg@, delivery_attempt),
{
    let message = message_object(msg, delivery_attempt);
    let subscription = encoding::json_string(subscription_full_name);
    let mut members: Vec<(String, String)> = Vec::new();
    let ghost none: Members = Seq::empty();
    assert(encoding::members_of(members@) =~= none);
    add_pair(&mut members, "\"message\"", message.as_str());
    add_pair(&mut members, "\"subscription\"", subscription.as_str());
    assert(encoding::members_of(members@) =~= seq![
        ("\"message\""@, message@),
        ("\"subscription\""@, subscription@),
    ]);
    let envelope = encoding::object(&members);
    let extra_headers: Vec<(String, String)> = Vec::new();
    assert(encoding::members_of(extra_headers@) =~= none);
    PushRequestBody {
        body: vstd::slice::slice_to_vec(envelope.as_str().as_bytes()),
        content_type: "application/json",
        extra_headers,
    }
}

/// Builds the unwrapped request, with the attributes as headers where `write_metadata` is set.
pub fn build_no_wrapper(
    subscription_full_name: &str,
    msg: &PulledMessage,
    write_metadata: bool,
) -> (r: PushRequestBody)
    ensures
        r@ == unwrapped(subscription_full_name@, msg@, write_metadata),
{
    let mut headers: Vec<(String, String)> = Vec::new();
    let ghost none: Seq<(Seq<char>, Seq<char>)> = Seq::empty();
    assert(encoding::members_of(headers@) =~= none);
    add_pair(&mut headers, "x-goog-pubsub-subscription-name", subscription_full_name);
    add_pair(&mut headers, "x-goog-pubsub-message-id", msg.message_id.as_str());
    let time = encoding::rfc3339(msg.publish_time_ms);
    add_pair(&mut headers, "x-goog-pubsub-publish-time", time.as_str());
    let ghost first = encoding::members_of(headers@);
    assert(first =~= seq![
        ("x-goog-pubsub-subscription-name"@, subscription_full_name@),
        ("x-goog-pubsub-message-id"@, msg.message_id@),
        ("x-goog-pubsub-publish-time"@, time@),
    ]);
    if !msg.ordering_key.as_str().is_empty() {
        add_pair(&mut headers, "x-goog-pubsub-ordering-key", msg.ordering_key.as_str());
    }
    let ghost so_far = encoding::members_of(headers@);
    if write_metadata {
        let mut i: usize = 0;
        assert(so_far + msg.attributes@.take(0) =~= so_far);
        while i < msg.attributes.len()
            invariant
                i <= msg.attributes@.len(),
                encoding::members_of(headers@) == so_far + msg.attributes@.take(i as int),
            decreases msg.attributes@.len() - i,
        {
            add_pair(
                &mut headers,
                msg.attributes.key(i).as_str(),
                msg.attributes.value(i).as_str(),
            );
            assert(encoding::members_of(headers@) =~= so_far + msg.attributes@.take(i + 1));
            i = i + 1;
        }
        assert(msg.attributes@.take(i as int) =~= msg.attributes@);
    }
    assert(encoding::members_of(headers@) =~= metadata_headers(
        subscription_full_name@,
        msg@,
        write_metadata,
    ));
    PushRequestBody {
        body: codec::copy_bytes(&msg.data),
        content_type: "application/octet-stream",
        extra_headers: headers,
    }
}

/// Builds the request in the format that a subscription asks for.
pub fn build(
    subscription_full_name: &str,
    msg: &PulledMessage,
    delivery_attempt: Option<u32>,
    no_wrapper: bool,
    write_metadata: bool,
) -> (r: PushRequestBody)
    requires
        no_wrapper || msg.data@.len() <= isize::MAX / 2,
    ensures
        r@ == if no_wrapper {
            unwrapped(subscription_full_name@, msg@, write_metadata)
        } else {
            wrapped(subscription_full_name@, msg@, delivery_attempt)
        },
{
    if no_wrapper {
        build_no_wrapper(subscription_full_name, msg, write_metadata)
    } else {
        build_wrapped(subscription_full_name, msg, delivery_attempt)
    }
}

proof fn lemma_keys_differ()
    ensures
        seq![
            "\"attributes\""@,
            "\"data\""@,
            "\"deliveryAttempt\""@,
            "\"delivery_attempt\""@,
            "\"messageId\""@,
            "\"message_id\""@,
            "\"orderingKey\""@,
            "\"ordering_key\""@,
            "\"publishTime\""@,
            "\"publish_time\""@,
        ].no_duplicates(),
{
    reveal_strlit("\"attributes\"");
    reveal_strlit("\"data\"");
    reveal_strlit("\"deliveryAttempt\"");
    reveal_strlit("\"delivery_attempt\"");
    reveal_strlit("\"messageId\"");
    reveal_strlit("\"message_id\"");
    reveal_strlit("\"orderingKey\"");
    reveal_strlit("\"ordering_key\"");
    reveal_strlit("\"publishTime\"");
    reveal_strlit("\"publish_time\"");
    assert("\"attributes\""@.len() == 12);
    assert("\"data\""@.len() == 6);
    assert("\"deliveryAttempt\""@.len() == 17);
    assert("\"delivery_attempt\""@.len() == 18);
    assert("\"messageId\""@.len() == 11);
    assert("\"message_id\""@.len() == 12);
    assert("\"orderingKey\""@.len() == 13);
    assert("\"ordering_key\""@.len() == 14);
    assert("\"publishTime\""@.len() == 13);
    assert("\"publish_time\""@.len() == 14);
    assert("\"attributes\""@[1] == 'a');
    assert("\"message_id\""@[1] == 'm');
    assert("\"orderingKey\""@[1] == 'o');
    assert("\"publishTime\""@[1] == 'p');
    assert("\"ordering_key\""@[1] == 'o');
    assert("\"publish_time\""@[1] == 'p');
    let keys = seq![
        "\"attributes\""@,
        "\"data\""@,
        "\"deliveryAttempt\""@,
        "\"delivery_attempt\""@,
        "\"messageId\""@,
        "\"message_id\""@,
        "\"orderingKey\""@,
        "\"ordering_key\""@,
        "\"publishTime\""@,
        "\"publish_time\""@,
    ];
    assert forall|i: int, j: int| 0 <= i < keys.len() && 0 <= j < keys.len() && i != j implies keys[i]
        != keys[j] by {
        if keys[i].len() == keys[j].len() {
            assert(keys[i][1] != keys[j][1]);
        }
    }
}

/// Every field of the message whose name has more than one word is in the wrapped request under
/// both styles of key, with the same value.
pub proof fn law_both_key_styles(m: PulledView, delivery_attempt: Option<u32>, value: Seq<char>)
    ensures
        ({
            let members = message_members(m, delivery_attempt);
            &&& members.contains(("\"messageId\""@, value)) <==> members.contains(
                ("\"message_id\""@, value),
            )
            &&& members.contains(("\"publishTime\""@, value)) <==> members.contains(
                ("\"publish_time\""@, value),
            )
            &&& members.contains(("\"orderingKey\""@, value)) <==> members.contains(
                ("\"ordering_key\""@, value),
            )
            &&& members.contains(("\"deliveryAttempt\""@, value)) <==> members.contains(
                ("\"delivery_attempt\""@, value),
            )
        }),
{
    lemma_keys_differ();
    let keys = seq![
        "\"attributes\""@,
        "\"data\""@,
        "\"deliveryAttempt\""@,
        "\"delivery_attempt\""@,
        "\"messageId\""@,
        "\"message_id\""@,
        "\"orderingKey\""@,
        "\"ordering_key\""@,
        "\"publishTime\""@,
        "\"publish_time\""@,
    ];
    assert(keys[0] != keys[4]);
    let members = message_members(m, delivery_attempt);
    let attempts = if delivery_attempt is Some {
        2int
    } else {
        0
    };
    let ordered = if m.ordering_key.len() > 0 {
        2int
    } else {
        0
    };
    assert(members.len() == 6 + attempts + ordered);
    assert(members[0].0 == keys[0]);
    assert(members[1].0 == keys[1]);
    if attempts == 2 {
        assert(members[2].0 == keys[2]);
        assert(members[3].0 == keys[3]);
        assert(members[2].1 == members[3].1);
    }
    assert(members[2 + attempts].0 == keys[4]);
    assert(members[3 + attempts].0 == keys[5]);
    assert(members[2 + attempts].1 == members[3 + attempts].1);
    if ordered == 2 {
        assert(members[4 + attempts].0 == keys[6]);
        assert(members[5 + attempts].0 == keys[7]);
        assert(members[4 + attempts].1 == members[5 + attempts].1);
    }
    assert(members[4 + attempts + ordered].0 == keys[8]);
    assert(members[5 + attempts + ordered].0 == keys[9]);
    assert(members[4 + attempts + ordered].1 == members[5 + attempts + ordered].1);
    assert forall|i: int| 0 <= i < members.len() implies {
        ||| (#[trigger] members[i]).0 == keys[0]
        ||| members[i].0 == keys[1]
        ||| (members[i].0 == keys[2] && attempts == 2 && i == 2)
        ||| (members[i].0 == keys[3] && attempts == 2 && i == 3)
        ||| (members[i].0 == keys[4] && i == 2 + attempts)
        ||| (members[i].0 == keys[5] && i == 3 + attempts)
        ||| (members[i].0 == keys[6] && ordered == 2 && i == 4 + attempts)
        ||| (members[i].0 == keys[7] && ordered == 2 && i == 5 + attempts)
        ||| (members[i].0 == keys[8] && i == 4 + attempts + ordered)
        ||| (members[i].0 == keys[9] && i == 5 + attempts + ordered)
    } by {}
}

} // verus!
