//! Size, count and duration limits, and the validators that hold requests to them.

use crate::error;
use crate::error::{invalid, Error, ErrorView};
use crate::string_map::{Entries, StringMap};
use crate::text;
use vstd::prelude::*;
use vstd::string::*;
use vstd::utf8::*;

verus! {

/// Maximum bytes of one message: body and attributes together.
pub const MAX_MESSAGE_BYTES: usize = 10 * 1024 * 1024;

/// Maximum number of messages in one publish request.
pub const MAX_PUBLISH_BATCH_MESSAGES: usize = 1000;

/// Maximum bytes of all messages in one publish request.
pub const MAX_PUBLISH_BATCH_BYTES: usize = 10 * 1024 * 1024;

/// Maximum number of attributes on one message.
pub const MAX_ATTRIBUTES: usize = 100;

/// Maximum bytes of one attribute key.
pub const MAX_ATTRIBUTE_KEY_BYTES: usize = 256;

/// Maximum bytes of one attribute value.
pub const MAX_ATTRIBUTE_VALUE_BYTES: usize = 1024;

/// Maximum bytes of an ordering key.
pub const MAX_ORDERING_KEY_BYTES: usize = 1024;

/// Minimum ack deadline of a subscription, in seconds.
pub const MIN_ACK_DEADLINE_SECS: i32 = 10;

/// Maximum ack deadline of a subscription, in seconds.
pub const MAX_ACK_DEADLINE_SECS: i32 = 600;

/// Minimum retention of a subscription, in seconds (10 minutes).
pub const MIN_SUBSCRIPTION_RETENTION_SECS: i64 = 600;

/// Maximum retention of a subscription, in seconds (7 days).
pub const MAX_SUBSCRIPTION_RETENTION_SECS: i64 = 7 * 24 * 3600;

/// Minimum retention of a topic, in seconds (10 minutes).
pub const MIN_TOPIC_RETENTION_SECS: i64 = 600;

/// Maximum retention of a topic, in seconds (31 days).
pub const MAX_TOPIC_RETENTION_SECS: i64 = 31 * 24 * 3600;

/// Maximum lifetime of a snapshot, in seconds (7 days).
pub const MAX_SNAPSHOT_LIFETIME_SECS: i64 = MAX_SUBSCRIPTION_RETENTION_SECS;

/// Minimum lifetime that a snapshot must have left when it is created, in seconds (1 hour).
pub const MIN_SNAPSHOT_REMAINING_LIFETIME_SECS: i64 = 3600;

/// Minimum number of delivery attempts before dead-lettering.
pub const MIN_DEAD_LETTER_MAX_ATTEMPTS: i32 = 5;

/// Maximum number of delivery attempts before dead-lettering.
pub const MAX_DEAD_LETTER_MAX_ATTEMPTS: i32 = 100;

/// Minimum retry backoff, in seconds.
pub const MIN_RETRY_BACKOFF_SECS: i64 = 0;

/// Maximum retry backoff, in seconds.
pub const MAX_RETRY_BACKOFF_SECS: i64 = 600;

/// Maximum length of a filter, in characters.
pub const MAX_FILTER_CHARS: usize = 256;

/// Minimum number of messages of a pull request.
pub const MIN_PULL_MAX_MESSAGES: i32 = 1;

/// Maximum number of messages of a pull request.
pub const MAX_PULL_MAX_MESSAGES: i32 = 1000;

/// Attribute keys that start with this are reserved.
pub const ATTRIBUTE_KEY_FORBIDDEN_PREFIX: &'static str = "goog";

/// The number of bytes of a text.
pub open spec fn byte_len(s: Seq<char>) -> nat {
    encode_utf8(s).len()
}

/// The number of bytes of all keys and values.
pub open spec fn attributes_bytes(attributes: Entries) -> nat
    decreases attributes.len(),
{
    if attributes.len() == 0 {
        0
    } else {
        attributes_bytes(attributes.drop_last()) + byte_len(attributes.last().0) + byte_len(
            attributes.last().1,
        )
    }
}

/// What is wrong with one attribute, if anything is.
pub open spec fn attribute_error(key: Seq<char>, value: Seq<char>) -> Option<ErrorView> {
    if byte_len(key) > MAX_ATTRIBUTE_KEY_BYTES {
        Some(
            error::invalid_argument(
                "attributes.key"@,
                "attribute key "@ + text::debug_text(key) + " is "@ + text::dec(byte_len(key))
                    + " bytes, exceeding maximum of 256"@,
            ),
        )
    } else if text::has_prefix(key, "goog"@) {
        Some(
            error::invalid_argument(
                "attributes.key"@,
                "attribute key "@ + text::debug_text(key) + " must not start with \"goog\""@,
            ),
        )
    } else if byte_len(value) > MAX_ATTRIBUTE_VALUE_BYTES {
        Some(
            error::invalid_argument(
                "attributes.value"@,
                "attribute value for key "@ + text::debug_text(key) + " is "@ + text::dec(
                    byte_len(value),
                ) + " bytes, exceeding maximum of 1024"@,
            ),
        )
    } else {
        None
    }
}

/// What is wrong with the first attribute, from position `from` on, with which anything is.
pub open spec fn first_attribute_error(attributes: Entries, from: int) -> Option<ErrorView>
    decreases attributes.len() - from,
{
    if from < 0 || from >= attributes.len() {
        None
    } else {
        match attribute_error(attributes[from].0, attributes[from].1) {
            Some(e) => Some(e),
            None => first_attribute_error(attributes, from + 1),
        }
    }
}

/// `n`, held within the range of a `usize`.
pub open spec fn clamp_usize(n: nat) -> nat {
    if n > usize::MAX {
        usize::MAX as nat
    } else {
        n
    }
}

/// What is wrong with a message, if anything is.
pub open spec fn message_error(
    data_len: nat,
    attributes: Entries,
    ordering_key: Seq<char>,
) -> Option<ErrorView> {
    let total = clamp_usize(data_len + attributes_bytes(attributes));
    if attributes.len() > MAX_ATTRIBUTES {
        Some(
            error::invalid_argument(
                "attributes"@,
                "attributes count "@ + text::dec(attributes.len()) + " exceeds maximum of 100"@,
            ),
        )
    } else if first_attribute_error(attributes, 0) is Some {
        first_attribute_error(attributes, 0)
    } else if total > MAX_MESSAGE_BYTES {
        Some(
            error::invalid_argument(
                "data"@,
                "message size "@ + text::dec(total)
                    + " bytes (data + attributes) exceeds maximum of 10485760"@,
            ),
        )
    } else if byte_len(ordering_key) > MAX_ORDERING_KEY_BYTES {
        Some(
            error::invalid_argument(
                "ordering_key"@,
                "ordering_key is "@ + text::dec(byte_len(ordering_key))
                    + " bytes, exceeding maximum of 1024"@,
            ),
        )
    } else {
        None
    }
}

/// The number of bytes of a text.
pub fn bytes_in(s: &str) -> (n: usize)
    ensures
        n == byte_len(s@),
{
    s.as_bytes().len()
}

fn check_attribute(key: &str, value: &str) -> (r: Result<(), Error>)
    ensures
        error::checked(r, attribute_error(key@, value@)),
{
    let key_len: usize = bytes_in(key);
    if key_len > MAX_ATTRIBUTE_KEY_BYTES {
        return Err(
            invalid(
                "attributes.key",
                text::cat5(
                    "attribute key ",
                    text::quoted(key).as_str(),
                    " is ",
                    text::usize_text(key_len).as_str(),
                    " bytes, exceeding maximum of 256",
                ),
            ),
        );
    }
    if text::str_has_prefix(key, "goog") {
        return Err(
            invalid(
                "attributes.key",
                text::cat3(
                    "attribute key ",
                    text::quoted(key).as_str(),
                    " must not start with \"goog\"",
                ),
            ),
        );
    }
    let value_len: usize = bytes_in(value);
    if value_len > MAX_ATTRIBUTE_VALUE_BYTES {
        return Err(
            invalid(
                "attributes.value",
                text::cat5(
                    "attribute value for key ",
                    text::quoted(key).as_str(),
                    " is ",
                    text::usize_text(value_len).as_str(),
                    " bytes, exceeding maximum of 1024",
                ),
            ),
        );
    }
    Ok(())
}

/// Validates the size of a message's body, its attributes and its ordering key.
pub fn validate_message(data_len: usize, attributes: &StringMap, ordering_key: &str) -> (r: Result<
    (),
    Error,
>)
    ensures
        error::checked(r, message_error(data_len as nat, attributes@, ordering_key@)),
{
    if attributes.len() > MAX_ATTRIBUTES {
        return Err(
            invalid(
                "attributes",
                text::cat3(
                    "attributes count ",
                    text::usize_text(attributes.len()).as_str(),
                    " exceeds maximum of 100",
                ),
            ),
        );
    }
    let mut total_attributes: usize = 0;
    let mut i: usize = 0;
    assert(attributes@.take(0) =~= Entries::empty());
    while i < attributes.len()
        invariant
            i <= attributes@.len() <= MAX_ATTRIBUTES,
            first_attribute_error(attributes@, 0) == first_attribute_error(attributes@, i as int),
            total_attributes == attributes_bytes(attributes@.take(i as int)),
            total_attributes <= i * 1280,
        decreases attributes@.len() - i,
    {
        match check_attribute(attributes.key(i).as_str(), attributes.value(i).as_str()) {
            Ok(_) => {},
            Err(e) => {
                return Err(e);
            },
        }
        let key_len: usize = bytes_in(attributes.key(i).as_str());
        let value_len: usize = bytes_in(attributes.value(i).as_str());
        total_attributes = total_attributes + key_len + value_len;
        assert(attributes@.take(i + 1).drop_last() =~= attributes@.take(i as int));
        i = i + 1;
    }
    assert(attributes@.take(i as int) =~= attributes@);
    let total: usize = data_len.saturating_add(total_attributes);
    if total > MAX_MESSAGE_BYTES {
        return Err(
            invalid(
                "data",
                text::cat3(
                    "message size ",
                    text::usize_text(total).as_str(),
                    " bytes (data + attributes) exceeds maximum of 10485760",
                ),
            ),
        );
    }
    let ordering_len: usize = bytes_in(ordering_key);
    if ordering_len > MAX_ORDERING_KEY_BYTES {
        return Err(
            invalid(
                "ordering_key",
                text::cat3(
                    "ordering_key is ",
                    text::usize_text(ordering_len).as_str(),
                    " bytes, exceeding maximum of 1024",
                ),
            ),
        );
    }
    Ok(())
}

/// `start` and the bytes of all keys and values, up to the largest number.
pub fn add_attribute_bytes(start: usize, attributes: &StringMap) -> (total: usize)
    ensures
        total == clamp_usize(start as nat + attributes_bytes(attributes@)),
{
    let mut total: usize = start;
    let mut i: usize = 0;
    assert(attributes@.take(0) =~= Entries::empty());
    while i < attributes.len()
        invariant
            i <= attributes@.len(),
            total == clamp_usize(start as nat + attributes_bytes(attributes@.take(i as int))),
        decreases attributes@.len() - i,
    {
        assert(attributes@.take(i + 1).drop_last() =~= attributes@.take(i as int));
        total = total.saturating_add(bytes_in(attributes.key(i).as_str())).saturating_add(
            bytes_in(attributes.value(i).as_str()),
        );
        i = i + 1;
    }
    assert(attributes@.take(i as int) =~= attributes@);
    total
}

/// What is wrong with a batch of messages, if anything is.
pub open spec fn batch_error(message_count: nat, total_bytes: nat) -> Option<ErrorView> {
    if message_count > MAX_PUBLISH_BATCH_MESSAGES {
        Some(
            error::invalid_argument(
                "messages"@,
                "batch contains "@ + text::dec(message_count)
                    + " messages, exceeding maximum of 1000"@,
            ),
        )
    } else if total_bytes > MAX_PUBLISH_BATCH_BYTES {
        Some(
            error::invalid_argument(
                "messages"@,
                "batch total size "@ + text::dec(total_bytes)
                    + " bytes exceeds maximum of 10485760"@,
            ),
        )
    } else {
        None
    }
}

/// Validates the number of messages and their bytes in one publish request.
pub fn validate_publish_batch(message_count: usize, total_bytes: usize) -> (r: Result<(), Error>)
    ensures
        error::checked(r, batch_error(message_count as nat, total_bytes as nat)),
{
    if message_count > MAX_PUBLISH_BATCH_MESSAGES {
        return Err(
            invalid(
                "messages",
                text::cat3(
                    "batch contains ",
                    text::usize_text(message_count).as_str(),
                    " messages, exceeding maximum of 1000",
                ),
            ),
        );
    }
    if total_bytes > MAX_PUBLISH_BATCH_BYTES {
        return Err(
            invalid(
                "messages",
                text::cat3(
                    "batch total size ",
                    text::usize_text(total_bytes).as_str(),
                    " bytes exceeds maximum of 10485760",
                ),
            ),
        );
    }
    Ok(())
}

/// What is wrong with an ack deadline, if anything is.
pub open spec fn ack_deadline_error(v: int) -> Option<ErrorView> {
    if MIN_ACK_DEADLINE_SECS <= v <= MAX_ACK_DEADLINE_SECS {
        None
    } else {
        Some(
            error::invalid_argument(
                "ack_deadline_seconds"@,
                "ack_deadline_seconds "@ + text::dec_int(v)
                    + " is outside the allowed range 10..=600"@,
            ),
        )
    }
}

/// Validates an ack deadline in seconds.
pub fn validate_ack_deadline_secs(v: i32) -> (r: Result<(), Error>)
    ensures
        error::checked(r, ack_deadline_error(v as int)),
{
    if v < MIN_ACK_DEADLINE_SECS || v > MAX_ACK_DEADLINE_SECS {
        return Err(
            invalid(
                "ack_deadline_seconds",
                text::cat3(
                    "ack_deadline_seconds ",
                    text::i64_text(v as i64).as_str(),
                    " is outside the allowed range 10..=600",
                ),
            ),
        );
    }
    Ok(())
}

/// What is wrong with a subscription's retention, if anything is.
pub open spec fn subscription_retention_error(v: int) -> Option<ErrorView> {
    if MIN_SUBSCRIPTION_RETENTION_SECS <= v <= MAX_SUBSCRIPTION_RETENTION_SECS {
        None
    } else {
        Some(
            error::invalid_argument(
                "message_retention_duration"@,
                "message_retention_duration "@ + text::dec_int(v)
                    + "s is outside the allowed range 600..=604800"@,
            ),
        )
    }
}

/// Validates a subscription's message retention in seconds.
pub fn validate_subscription_retention_secs(v: i64) -> (r: Result<(), Error>)
    ensures
        error::checked(r, subscription_retention_error(v as int)),
{
    if v < MIN_SUBSCRIPTION_RETENTION_SECS || v > MAX_SUBSCRIPTION_RETENTION_SECS {
        return Err(
            invalid(
                "message_retention_duration",
                text::cat3(
                    "message_retention_duration ",
                    text::i64_text(v).as_str(),
                    "s is outside the allowed range 600..=604800",
                ),
            ),
        );
    }
    Ok(())
}

/// What is wrong with a topic's retention, if anything is.
pub open spec fn topic_retention_error(v: int) -> Option<ErrorView> {
    if MIN_TOPIC_RETENTION_SECS <= v <= MAX_TOPIC_RETENTION_SECS {
        None
    } else {
        Some(
            error::invalid_argument(
                "message_retention_duration"@,
                "message_retention_duration "@ + text::dec_int(v)
                    + "s is outside the allowed range 600..=2678400"@,
            ),
        )
    }
}

/// Validates a topic's message retention in seconds.
pub fn validate_topic_retention_secs(v: i64) -> (r: Result<(), Error>)
    ensures
        error::checked(r, topic_retention_error(v as int)),
{
    if v < MIN_TOPIC_RETENTION_SECS || v > MAX_TOPIC_RETENTION_SECS {
        return Err(
            invalid(
                "message_retention_duration",
                text::cat3(
                    "message_retention_duration ",
                    text::i64_text(v).as_str(),
                    "s is outside the allowed range 600..=2678400",
                ),
            ),
        );
    }
    Ok(())
}

/// What is wrong with a number of delivery attempts, if anything is. `0` stands for the default.
pub open spec fn dead_letter_attempts_error(v: int) -> Option<ErrorView> {
    if v == 0 || MIN_DEAD_LETTER_MAX_ATTEMPTS <= v <= MAX_DEAD_LETTER_MAX_ATTEMPTS {
        None
    } else {
        Some(
            error::invalid_argument(
                "dead_letter_policy.max_delivery_attempts"@,
                "max_delivery_attempts "@ + text::dec_int(v)
                    + " is outside the allowed range 5..=100"@,
            ),
        )
    }
}

/// Validates the number of delivery attempts before dead-lettering.
pub fn validate_dead_letter_max_attempts(v: i32) -> (r: Result<(), Error>)
    ensures
        error::checked(r, dead_letter_attempts_error(v as int)),
{
    if v != 0 && (v < MIN_DEAD_LETTER_MAX_ATTEMPTS || v > MAX_DEAD_LETTER_MAX_ATTEMPTS) {
        return Err(
            invalid(
                "dead_letter_policy.max_delivery_attempts",
                text::cat3(
                    "max_delivery_attempts ",
                    text::i64_text(v as i64).as_str(),
                    " is outside the allowed range 5..=100",
                ),
            ),
        );
    }
    Ok(())
}

/// What is wrong with a retry backoff, if anything is.
pub open spec fn retry_backoff_error(v: int) -> Option<ErrorView> {
    if MIN_RETRY_BACKOFF_SECS <= v <= MAX_RETRY_BACKOFF_SECS {
        None
    } else {
        Some(
            error::invalid_argument(
                "retry_policy.backoff"@,
                "backoff "@ + text::dec_int(v) + "s is outside the allowed range 0..=600"@,
            ),
        )
    }
}

/// Validates a retry backoff in seconds.
pub fn validate_retry_backoff_secs(v: i64) -> (r: Result<(), Error>)
    ensures
        error::checked(r, retry_backoff_error(v as int)),
{
    if v < MIN_RETRY_BACKOFF_SECS || v > MAX_RETRY_BACKOFF_SECS {
        return Err(
            invalid(
                "retry_policy.backoff",
                text::cat3(
                    "backoff ",
                    text::i64_text(v).as_str(),
                    "s is outside the allowed range 0..=600",
                ),
            ),
        );
    }
    Ok(())
}

/// What is wrong with the length of a filter, if anything is.
pub open spec fn filter_len_error(filter: Seq<char>) -> Option<ErrorView> {
    if filter.len() > MAX_FILTER_CHARS {
        Some(
            error::invalid_argument(
                "filter"@,
                "filter is "@ + text::dec(filter.len()) + " characters, exceeding maximum of 256"@,
            ),
        )
    } else {
        None
    }
}

/// Validates the length of a filter, in characters.
pub fn validate_filter_len(filter: &str) -> (r: Result<(), Error>)
    ensures
        error::checked(r, filter_len_error(filter@)),
{
    let char_count: usize = filter.unicode_len();
    if char_count > MAX_FILTER_CHARS {
        return Err(
            invalid(
                "filter",
                text::cat3(
                    "filter is ",
                    text::usize_text(char_count).as_str(),
                    " characters, exceeding maximum of 256",
                ),
            ),
        );
    }
    Ok(())
}

/// What is wrong with the number of messages of a pull request, if anything is.
pub open spec fn pull_max_error(v: int) -> Option<ErrorView> {
    if MIN_PULL_MAX_MESSAGES <= v <= MAX_PULL_MAX_MESSAGES {
        None
    } else {
        Some(
            error::invalid_argument(
                "max_messages"@,
                "max_messages "@ + text::dec_int(v) + " is outside the allowed range 1..=1000"@,
            ),
        )
    }
}

/// Validates the number of messages of a pull request.
pub fn validate_pull_max_messages(v: i32) -> (r: Result<(), Error>)
    ensures
        error::checked(r, pull_max_error(v as int)),
{
    if v < MIN_PULL_MAX_MESSAGES || v > MAX_PULL_MAX_MESSAGES {
        return Err(
            invalid(
                "max_messages",
                text::cat3(
                    "max_messages ",
                    text::i64_text(v as i64).as_str(),
                    " is outside the allowed range 1..=1000",
                ),
            ),
        );
    }
    Ok(())
}

} // verus!
