use open_pubusb::error::Error;
use open_pubusb::store::format::{
    check_format_version, storage_error, value_kind, OpenError, ValueKind, FORMAT_VERSION,
};
use open_pubusb::store::keys::{cursor_key, delivery_key, delivery_key_prefix, id_seq_key, lane_key, msg_key, msg_key_prefix, name_key, parse_delivery_key, parse_msg_key, snapshot_key, snapshot_state_key, sub_key, topic_key, topic_seq_counter_key, topic_sub_idx_key, topic_sub_idx_prefix, NameKind};
use open_pubusb::store::kv::{KvStore, KvValue, MemKv};

// -- keys

#[test]
fn topic_key_has_expected_prefix_and_length() {
    let key = topic_key(42);
    assert_eq!(&key[..2], b"t/");
    assert_eq!(key.len(), 10);
}

#[test]
fn sub_key_has_expected_prefix_and_length() {
    let key = sub_key(42);
    assert_eq!(&key[..2], b"s/");
    assert_eq!(key.len(), 10);
}

#[test]
fn snapshot_key_has_expected_prefix_and_length() {
    let key = snapshot_key(42);
    assert_eq!(&key[..5], b"snap/");
    assert_eq!(key.len(), 13);
}

#[test]
fn name_key_uses_kind_specific_prefix() {
    assert_eq!(name_key(NameKind::Topic, "foo"), b"name/t/foo".to_vec());
    assert_eq!(
        name_key(NameKind::Subscription, "foo"),
        b"name/s/foo".to_vec()
    );
    assert_eq!(
        name_key(NameKind::Snapshot, "foo"),
        b"name/snap/foo".to_vec()
    );
}

#[test]
fn id_seq_key_is_constant() {
    assert_eq!(id_seq_key(), b"id_seq".to_vec());
}

#[test]
fn msg_key_round_trip() {
    let key = msg_key(7, 12345);
    assert_eq!(parse_msg_key(&key), Some((7, 12345)));
}

#[test]
fn msg_key_round_trip_zero_and_max() {
    let key = msg_key(0, u64::MAX);
    assert_eq!(parse_msg_key(&key), Some((0, u64::MAX)));
}

#[test]
fn msg_key_prefix_matches_msg_key_start() {
    let prefix = msg_key_prefix(7);
    let key = msg_key(7, 12345);
    assert!(key.starts_with(&prefix));
}

#[test]
fn parse_msg_key_rejects_wrong_length() {
    assert_eq!(parse_msg_key(&[0u8; 15]), None);
    assert_eq!(parse_msg_key(&[0u8; 17]), None);
}

#[test]
fn msg_key_orders_by_topic_then_seq() {
    // BE encoding must preserve numeric ordering under byte-lexicographic
    // comparison, since range scans depend on it.
    assert!(msg_key(1, 0) < msg_key(1, 1));
    assert!(msg_key(1, u64::MAX) < msg_key(2, 0));
}

#[test]
fn cursor_key_round_trip_length() {
    let key = cursor_key(9);
    assert_eq!(key.len(), 8);
    assert_eq!(u64::from_be_bytes(key.try_into().unwrap()), 9);
}

#[test]
fn delivery_key_round_trip() {
    let key = delivery_key(3, 99);
    assert_eq!(parse_delivery_key(&key), Some((3, 99)));
}

#[test]
fn delivery_key_prefix_matches_delivery_key_start() {
    let prefix = delivery_key_prefix(3);
    let key = delivery_key(3, 99);
    assert!(key.starts_with(&prefix));
}

#[test]
fn parse_delivery_key_rejects_wrong_length() {
    assert_eq!(parse_delivery_key(&[0u8; 15]), None);
    assert_eq!(parse_delivery_key(&[0u8; 17]), None);
}

#[test]
fn lane_key_has_expected_length() {
    let key = lane_key(3, 0xdead_beef_1234_5678);
    assert_eq!(key.len(), 16);
    assert_eq!(&key[0..8], &3u64.to_be_bytes());
    assert_eq!(&key[8..16], &0xdead_beef_1234_5678u64.to_be_bytes());
}

#[test]
fn snapshot_state_key_round_trip_length() {
    let key = snapshot_state_key(11);
    assert_eq!(key.len(), 8);
    assert_eq!(u64::from_be_bytes(key.try_into().unwrap()), 11);
}

#[test]
fn topic_sub_idx_key_has_expected_length() {
    let key = topic_sub_idx_key(5, 6);
    assert_eq!(key.len(), 16);
    assert_eq!(&key[0..8], &5u64.to_be_bytes());
    assert_eq!(&key[8..16], &6u64.to_be_bytes());
}

#[test]
fn topic_sub_idx_prefix_matches_idx_key_start() {
    let prefix = topic_sub_idx_prefix(5);
    let key = topic_sub_idx_key(5, 6);
    assert!(key.starts_with(&prefix));
}

#[test]
fn topic_seq_counter_key_has_expected_prefix_and_length() {
    let key = topic_seq_counter_key(42);
    assert_eq!(&key[..6], b"t/seq/");
    assert_eq!(key.len(), 14);
}

#[test]
fn topic_seq_counter_key_distinguishes_topics() {
    assert_ne!(topic_seq_counter_key(1), topic_seq_counter_key(2));
}

// -- the store in memory

#[test]
fn kv_put_then_get_round_trip() {
    let mut kv = MemKv::new();
    kv.put("meta", b"k1".to_vec(), KvValue::Bytes(b"v1".to_vec())).unwrap();
    assert_eq!(kv.get("meta", b"k1"), Some(KvValue::Bytes(b"v1".to_vec())));
}

#[test]
fn get_missing_is_none() {
    let kv = MemKv::new();
    assert_eq!(kv.get("meta", b"missing"), None);
}

#[test]
fn kv_keyspaces_are_isolated() {
    let mut kv = MemKv::new();
    kv.put("meta", b"k".to_vec(), KvValue::Bytes(b"meta-v".to_vec())).unwrap();
    kv.put("msg", b"k".to_vec(), KvValue::Bytes(b"msg-v".to_vec())).unwrap();
    assert_eq!(kv.get("meta", b"k"), Some(KvValue::Bytes(b"meta-v".to_vec())));
    assert_eq!(kv.get("msg", b"k"), Some(KvValue::Bytes(b"msg-v".to_vec())));
}

#[test]
fn kv_delete_removes_key() {
    let mut kv = MemKv::new();
    kv.put("meta", b"k".to_vec(), KvValue::Bytes(b"v".to_vec())).unwrap();
    kv.delete("meta", b"k").unwrap();
    assert_eq!(kv.get("meta", b"k"), None);
}

#[test]
fn kv_scan_prefix_returns_matching_sorted() {
    let mut kv = MemKv::new();
    kv.put("meta", b"name/t/b".to_vec(), KvValue::Bytes(b"2".to_vec())).unwrap();
    kv.put("meta", b"name/t/a".to_vec(), KvValue::Bytes(b"1".to_vec())).unwrap();
    kv.put("meta", b"name/s/a".to_vec(), KvValue::Bytes(b"other".to_vec()))
        .unwrap();
    let results = kv.scan_prefix("meta", b"name/t/");
    assert_eq!(
        results,
        vec![
            (b"name/t/a".to_vec(), KvValue::Bytes(b"1".to_vec())),
            (b"name/t/b".to_vec(), KvValue::Bytes(b"2".to_vec())),
        ]
    );
}

// -- the format of a data directory

#[test]
fn first_open_writes_current_format_version() {
    match check_format_version("/data", None) {
        Ok(Some(marker)) => {
            let arr: [u8; 4] = marker.try_into().unwrap();
            assert_eq!(u32::from_be_bytes(arr), FORMAT_VERSION);
        }
        _ => panic!("a new directory gets a marker"),
    }
}

#[test]
fn newer_format_version_refuses_to_open() {
    let newer = (FORMAT_VERSION + 1).to_be_bytes();
    match check_format_version("/data", Some(&newer)) {
        Err(OpenError::UnsupportedFormatVersion { path, found, supported }) => {
            assert_eq!(path, "/data");
            assert_eq!(found, FORMAT_VERSION + 1);
            assert_eq!(supported, FORMAT_VERSION);
        }
        other => panic!("expected UnsupportedFormatVersion, got {}", other.is_ok()),
    }
}

#[test]
fn known_format_versions_open() {
    assert!(matches!(
        check_format_version("/data", Some(&FORMAT_VERSION.to_be_bytes())),
        Ok(None)
    ));
    assert!(matches!(check_format_version("/data", Some(&[0, 0, 0, 0])), Ok(None)));
}

#[test]
fn a_corrupt_marker_is_told_apart() {
    let e = check_format_version("/data", Some(&[1])).unwrap_err();
    assert_eq!(
        e.to_string(),
        "open-pubusb data directory /data has a corrupt format-version marker"
    );
    let e = check_format_version("/d", Some(&[1, 0, 0, 0])).unwrap_err();
    assert_eq!(
        e.to_string(),
        "open-pubusb data directory /d was written with format version 16777216, but this binary \
         only supports up to 1; upgrade open-pubusb, or point storage.data_dir at an empty directory"
    );
    let e = OpenError::Storage { path: "/d".to_string(), source: "locked".to_string() };
    assert_eq!(e.to_string(), "failed to open open-pubusb data directory /d: locked");
}

#[test]
fn a_full_disk_is_resource_exhausted() {
    assert!(matches!(
        storage_error(true, "no space"),
        Error::ResourceExhausted { message } if message == "storage engine reported ENOSPC: no space"
    ));
    assert!(matches!(
        storage_error(false, "poisoned"),
        Error::Internal { message } if message == "storage engine error: poisoned"
    ));
}

#[test]
fn keys_tell_the_kinds_of_their_values() {
    assert_eq!(value_kind("meta", &topic_key(7)), ValueKind::Topic);
    assert_eq!(value_kind("meta", &sub_key(7)), ValueKind::Subscription);
    assert_eq!(value_kind("meta", &snapshot_key(7)), ValueKind::Snapshot);
    assert_eq!(value_kind("meta", &topic_seq_counter_key(7)), ValueKind::Bytes);
    assert_eq!(value_kind("meta", &id_seq_key()), ValueKind::Bytes);
    assert_eq!(value_kind("meta", &name_key(NameKind::Topic, "abc")), ValueKind::Bytes);
    assert_eq!(value_kind("msg", &msg_key(1, 2)), ValueKind::Message);
    assert_eq!(value_kind("sub", &cursor_key(1)), ValueKind::Cursor);
    assert_eq!(value_kind("dlv", &delivery_key(1, 2)), ValueKind::Delivery);
    assert_eq!(value_kind("idx", &topic_sub_idx_key(1, 2)), ValueKind::Bytes);
}
