use open_pubusb::error::Error;
use open_pubusb::limits::{validate_ack_deadline_secs, validate_dead_letter_max_attempts, validate_filter_len, validate_message, validate_publish_batch, validate_pull_max_messages, validate_retry_backoff_secs, validate_subscription_retention_secs, validate_topic_retention_secs, MAX_ACK_DEADLINE_SECS, MAX_ATTRIBUTES, MAX_ATTRIBUTE_KEY_BYTES, MAX_ATTRIBUTE_VALUE_BYTES, MAX_DEAD_LETTER_MAX_ATTEMPTS, MAX_FILTER_CHARS, MAX_MESSAGE_BYTES, MAX_ORDERING_KEY_BYTES, MAX_PUBLISH_BATCH_BYTES, MAX_PUBLISH_BATCH_MESSAGES, MAX_PULL_MAX_MESSAGES, MAX_RETRY_BACKOFF_SECS, MAX_SUBSCRIPTION_RETENTION_SECS, MAX_TOPIC_RETENTION_SECS, MIN_ACK_DEADLINE_SECS, MIN_DEAD_LETTER_MAX_ATTEMPTS, MIN_PULL_MAX_MESSAGES, MIN_RETRY_BACKOFF_SECS, MIN_SUBSCRIPTION_RETENTION_SECS, MIN_TOPIC_RETENTION_SECS};
use open_pubusb::string_map::StringMap;

fn attrs(pairs: &[(&str, &str)]) -> StringMap {
    string_map(pairs.iter().map(|(k, v)| (k.to_string(), v.to_string())))
}

fn string_map(pairs: impl Iterator<Item = (String, String)>) -> StringMap {
    let mut m = StringMap::new();
    for (k, v) in pairs {
        m.insert(k, v);
    }
    m
}


// ---- validate_message: data + attributes total size ----

#[test]
fn message_at_max_bytes_ok() {
    let data_len = MAX_MESSAGE_BYTES;
    assert!(validate_message(data_len, &StringMap::new(), "").is_ok());
}

#[test]
fn message_over_max_bytes_errs() {
    let data_len = MAX_MESSAGE_BYTES + 1;
    assert!(matches!(
        validate_message(data_len, &StringMap::new(), ""),
        Err(Error::InvalidArgument { .. })
    ));
}

#[test]
fn message_total_size_includes_attributes() {
    // data alone is within budget, but data + attribute bytes tips over.
    let attributes = attrs(&[("k", &"v".repeat(10))]);
    let attr_bytes = 1 + 10; // key "k" + 10 "v"s
    let data_len = MAX_MESSAGE_BYTES - attr_bytes; // exactly at max combined
    assert!(validate_message(data_len, &attributes, "").is_ok());
    assert!(validate_message(data_len + 1, &attributes, "").is_err());
}

// ---- validate_message: attribute count ----

#[test]
fn attribute_count_at_max_ok() {
    let attributes = string_map((0..MAX_ATTRIBUTES).map(|i| (format!("k{i}"), "v".to_string())));
    assert!(validate_message(0, &attributes, "").is_ok());
}

#[test]
fn attribute_count_over_max_errs() {
    let attributes = string_map((0..=MAX_ATTRIBUTES).map(|i| (format!("k{i}"), "v".to_string())));
    assert!(matches!(
        validate_message(0, &attributes, ""),
        Err(Error::InvalidArgument { .. })
    ));
}

// ---- validate_message: attribute key length ----

#[test]
fn attribute_key_at_max_bytes_ok() {
    let key = "k".repeat(MAX_ATTRIBUTE_KEY_BYTES);
    let attributes = attrs(&[(key.as_str(), "v")]);
    assert!(validate_message(0, &attributes, "").is_ok());
}

#[test]
fn attribute_key_over_max_bytes_errs() {
    let key = "k".repeat(MAX_ATTRIBUTE_KEY_BYTES + 1);
    let attributes = attrs(&[(key.as_str(), "v")]);
    assert!(matches!(
        validate_message(0, &attributes, ""),
        Err(Error::InvalidArgument { .. })
    ));
}

// ---- validate_message: forbidden "goog" attribute key prefix ----

#[test]
fn attribute_key_with_goog_prefix_errs() {
    let attributes = attrs(&[("googreserved", "v")]);
    assert!(matches!(
        validate_message(0, &attributes, ""),
        Err(Error::InvalidArgument { .. })
    ));
}

#[test]
fn attribute_key_without_goog_prefix_ok() {
    let attributes = attrs(&[("mykey", "v")]);
    assert!(validate_message(0, &attributes, "").is_ok());
}

// ---- validate_message: attribute value length ----

#[test]
fn attribute_value_at_max_bytes_ok() {
    let value = "v".repeat(MAX_ATTRIBUTE_VALUE_BYTES);
    let attributes = attrs(&[("k", value.as_str())]);
    assert!(validate_message(0, &attributes, "").is_ok());
}

#[test]
fn attribute_value_over_max_bytes_errs() {
    let value = "v".repeat(MAX_ATTRIBUTE_VALUE_BYTES + 1);
    let attributes = attrs(&[("k", value.as_str())]);
    assert!(matches!(
        validate_message(0, &attributes, ""),
        Err(Error::InvalidArgument { .. })
    ));
}

// ---- validate_message: ordering_key length ----

#[test]
fn ordering_key_at_max_bytes_ok() {
    let key = "k".repeat(MAX_ORDERING_KEY_BYTES);
    assert!(validate_message(0, &StringMap::new(), &key).is_ok());
}

#[test]
fn ordering_key_over_max_bytes_errs() {
    let key = "k".repeat(MAX_ORDERING_KEY_BYTES + 1);
    assert!(matches!(
        validate_message(0, &StringMap::new(), &key),
        Err(Error::InvalidArgument { .. })
    ));
}

// ---- validate_publish_batch ----

#[test]
fn publish_batch_message_count_at_max_ok() {
    assert!(validate_publish_batch(MAX_PUBLISH_BATCH_MESSAGES, 0).is_ok());
}

#[test]
fn publish_batch_message_count_over_max_errs() {
    assert!(matches!(
        validate_publish_batch(MAX_PUBLISH_BATCH_MESSAGES + 1, 0),
        Err(Error::InvalidArgument { .. })
    ));
}

#[test]
fn publish_batch_bytes_at_max_ok() {
    assert!(validate_publish_batch(0, MAX_PUBLISH_BATCH_BYTES).is_ok());
}

#[test]
fn publish_batch_bytes_over_max_errs() {
    assert!(matches!(
        validate_publish_batch(0, MAX_PUBLISH_BATCH_BYTES + 1),
        Err(Error::InvalidArgument { .. })
    ));
}

// ---- validate_ack_deadline_secs ----

#[test]
fn ack_deadline_min_ok() {
    assert!(validate_ack_deadline_secs(MIN_ACK_DEADLINE_SECS).is_ok());
}

#[test]
fn ack_deadline_below_min_errs() {
    assert!(matches!(
        validate_ack_deadline_secs(MIN_ACK_DEADLINE_SECS - 1),
        Err(Error::InvalidArgument { .. })
    ));
}

#[test]
fn ack_deadline_max_ok() {
    assert!(validate_ack_deadline_secs(MAX_ACK_DEADLINE_SECS).is_ok());
}

#[test]
fn ack_deadline_above_max_errs() {
    assert!(matches!(
        validate_ack_deadline_secs(MAX_ACK_DEADLINE_SECS + 1),
        Err(Error::InvalidArgument { .. })
    ));
}

// ---- validate_subscription_retention_secs ----

#[test]
fn subscription_retention_min_ok() {
    assert!(validate_subscription_retention_secs(MIN_SUBSCRIPTION_RETENTION_SECS).is_ok());
}

#[test]
fn subscription_retention_below_min_errs() {
    assert!(matches!(
        validate_subscription_retention_secs(MIN_SUBSCRIPTION_RETENTION_SECS - 1),
        Err(Error::InvalidArgument { .. })
    ));
}

#[test]
fn subscription_retention_max_ok() {
    assert!(validate_subscription_retention_secs(MAX_SUBSCRIPTION_RETENTION_SECS).is_ok());
}

#[test]
fn subscription_retention_above_max_errs() {
    assert!(matches!(
        validate_subscription_retention_secs(MAX_SUBSCRIPTION_RETENTION_SECS + 1),
        Err(Error::InvalidArgument { .. })
    ));
}

// ---- validate_topic_retention_secs ----

#[test]
fn topic_retention_min_ok() {
    assert!(validate_topic_retention_secs(MIN_TOPIC_RETENTION_SECS).is_ok());
}

#[test]
fn topic_retention_below_min_errs() {
    assert!(matches!(
        validate_topic_retention_secs(MIN_TOPIC_RETENTION_SECS - 1),
        Err(Error::InvalidArgument { .. })
    ));
}

#[test]
fn topic_retention_max_ok() {
    assert!(validate_topic_retention_secs(MAX_TOPIC_RETENTION_SECS).is_ok());
}

#[test]
fn topic_retention_above_max_errs() {
    assert!(matches!(
        validate_topic_retention_secs(MAX_TOPIC_RETENTION_SECS + 1),
        Err(Error::InvalidArgument { .. })
    ));
}

// ---- validate_dead_letter_max_attempts ----

#[test]
fn dead_letter_zero_is_unspecified_and_ok() {
    assert!(validate_dead_letter_max_attempts(0).is_ok());
}

#[test]
fn dead_letter_min_ok() {
    assert!(validate_dead_letter_max_attempts(MIN_DEAD_LETTER_MAX_ATTEMPTS).is_ok());
}

#[test]
fn dead_letter_below_min_nonzero_errs() {
    assert!(matches!(
        validate_dead_letter_max_attempts(MIN_DEAD_LETTER_MAX_ATTEMPTS - 1),
        Err(Error::InvalidArgument { .. })
    ));
}

#[test]
fn dead_letter_max_ok() {
    assert!(validate_dead_letter_max_attempts(MAX_DEAD_LETTER_MAX_ATTEMPTS).is_ok());
}

#[test]
fn dead_letter_above_max_errs() {
    assert!(matches!(
        validate_dead_letter_max_attempts(MAX_DEAD_LETTER_MAX_ATTEMPTS + 1),
        Err(Error::InvalidArgument { .. })
    ));
}

// ---- validate_retry_backoff_secs ----

#[test]
fn retry_backoff_min_ok() {
    assert!(validate_retry_backoff_secs(MIN_RETRY_BACKOFF_SECS).is_ok());
}

#[test]
fn retry_backoff_below_min_errs() {
    assert!(matches!(
        validate_retry_backoff_secs(MIN_RETRY_BACKOFF_SECS - 1),
        Err(Error::InvalidArgument { .. })
    ));
}

#[test]
fn retry_backoff_max_ok() {
    assert!(validate_retry_backoff_secs(MAX_RETRY_BACKOFF_SECS).is_ok());
}

#[test]
fn retry_backoff_above_max_errs() {
    assert!(matches!(
        validate_retry_backoff_secs(MAX_RETRY_BACKOFF_SECS + 1),
        Err(Error::InvalidArgument { .. })
    ));
}

// ---- validate_filter_len ----

#[test]
fn filter_at_max_chars_ok() {
    let filter = "a".repeat(MAX_FILTER_CHARS);
    assert!(validate_filter_len(&filter).is_ok());
}

#[test]
fn filter_over_max_chars_errs() {
    let filter = "a".repeat(MAX_FILTER_CHARS + 1);
    assert!(matches!(
        validate_filter_len(&filter),
        Err(Error::InvalidArgument { .. })
    ));
}

#[test]
fn filter_len_counts_chars_not_bytes() {
    // "€" is 3 bytes in UTF-8 but 1 char; MAX_FILTER_CHARS of them
    // should be accepted even though the byte length is much larger.
    let filter = "€".repeat(MAX_FILTER_CHARS);
    assert!(validate_filter_len(&filter).is_ok());
    let filter_over = "€".repeat(MAX_FILTER_CHARS + 1);
    assert!(validate_filter_len(&filter_over).is_err());
}

// ---- validate_pull_max_messages ----

#[test]
fn pull_max_messages_min_ok() {
    assert!(validate_pull_max_messages(MIN_PULL_MAX_MESSAGES).is_ok());
}

#[test]
fn pull_max_messages_below_min_errs() {
    assert!(matches!(
        validate_pull_max_messages(MIN_PULL_MAX_MESSAGES - 1),
        Err(Error::InvalidArgument { .. })
    ));
}

#[test]
fn pull_max_messages_max_ok() {
    assert!(validate_pull_max_messages(MAX_PULL_MAX_MESSAGES).is_ok());
}

#[test]
fn pull_max_messages_above_max_errs() {
    assert!(matches!(
        validate_pull_max_messages(MAX_PULL_MAX_MESSAGES + 1),
        Err(Error::InvalidArgument { .. })
    ));
}

#[test]
fn errors_show_a_bad_key_with_escapes() {
    match validate_message(0, &attrs(&[("goog\"\n", "v")]), "") {
        Err(Error::InvalidArgument { message, .. }) => assert_eq!(
            message,
            "attribute key \"goog\\\"\\n\" must not start with \"goog\""
        ),
        _ => panic!("accepted a reserved key"),
    }
}
