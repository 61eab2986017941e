use open_pubusb::delivery::retention::sweep_expired_messages;
use open_pubusb::delivery::snapshot::{compute_expire_at_ms, SnapshotStore};
use open_pubusb::error::Error;
use open_pubusb::limits::{
    MAX_FILTER_CHARS, MAX_MESSAGE_BYTES, MAX_PUBLISH_BATCH_MESSAGES, MAX_SNAPSHOT_LIFETIME_SECS,
};
use open_pubusb::names::DELETED_TOPIC;
use open_pubusb::store::codec::{CursorRecord, MessageRecord, SnapshotRecord};
use open_pubusb::store::keys::{
    cursor_key, delivery_key, msg_key, snapshot_key, sub_key, topic_key,
};
use open_pubusb::store::kv::{KvStore, KvValue, MemKv};
use open_pubusb::string_map::StringMap;
use open_pubusb::subscription::{
    CreateSubscriptionOptions, PushConfig, SubscriptionRecord, SubscriptionStore,
    SubscriptionUpdatePatch,
};
use open_pubusb::topic::{TopicRecord, TopicStore};

/// A store with the rows that it works on.
struct Topics {
    kv: MemKv,
    store: TopicStore,
}

fn topics() -> Topics {
    Topics { kv: MemKv::new(), store: TopicStore::new() }
}

fn labels() -> StringMap {
    StringMap::new()
}

impl Topics {
    fn create(
        &mut self,
        name: &str,
        labels: StringMap,
        retention: Option<i64>,
        kms: Option<String>,
        schema: bool,
        ingestion: bool,
    ) -> Result<TopicRecord, Error> {
        self.store.create(&mut self.kv, name, labels, retention, kms, schema, ingestion)
    }

    fn get(&self, name: &str) -> Result<TopicRecord, Error> {
        self.store.get(&self.kv, name)
    }

    fn list(
        &self,
        project: &str,
        size: usize,
        token: Option<&str>,
    ) -> Result<(Vec<TopicRecord>, Option<String>), Error> {
        self.store.list(&self.kv, project, size, token)
    }

    fn update(
        &mut self,
        name: &str,
        labels: Option<StringMap>,
        retention: Option<Option<i64>>,
        kms: Option<Option<String>>,
    ) -> Result<TopicRecord, Error> {
        self.store.update(&mut self.kv, name, labels, retention, kms)
    }

    fn delete(&mut self, name: &str) -> Result<(), Error> {
        self.store.delete(&mut self.kv, name)
    }

    fn append(
        &mut self,
        topic_id: u64,
        messages: Vec<(Vec<u8>, StringMap, String)>,
        now_ms: i64,
        retention_secs: i64,
    ) -> Result<Vec<u64>, Error> {
        self.store.append(&mut self.kv, topic_id, messages, now_ms, retention_secs)
    }
}

struct Snapshots {
    kv: MemKv,
    store: SnapshotStore,
}

fn snapshots() -> Snapshots {
    Snapshots { kv: MemKv::new(), store: SnapshotStore::new() }
}

impl Snapshots {
    fn create(
        &mut self,
        name: &str,
        topic: &str,
        topic_id: u64,
        labels: StringMap,
        cursor: CursorRecord,
        expire_at_ms: i64,
    ) -> Result<SnapshotRecord, Error> {
        self.store.create(&mut self.kv, name, topic, topic_id, labels, cursor, expire_at_ms)
    }

    fn get(&self, name: &str) -> Result<SnapshotRecord, Error> {
        self.store.get(&self.kv, name)
    }

    fn list(
        &self,
        project: &str,
        size: usize,
        token: Option<&str>,
    ) -> Result<(Vec<SnapshotRecord>, Option<String>), Error> {
        self.store.list(&self.kv, project, size, token)
    }

    fn update_labels(&mut self, name: &str, labels: StringMap) -> Result<SnapshotRecord, Error> {
        self.store.update_labels(&mut self.kv, name, labels)
    }

    fn delete(&mut self, name: &str) -> Result<(), Error> {
        self.store.delete(&mut self.kv, name)
    }

    fn sweep_expired(&mut self, project: &str, now_ms: i64) -> Result<usize, Error> {
        self.store.sweep_expired(&mut self.kv, project, now_ms)
    }
}

struct Subscriptions {
    kv: MemKv,
    store: SubscriptionStore,
}

fn subscriptions() -> Subscriptions {
    Subscriptions { kv: MemKv::new(), store: SubscriptionStore::new() }
}

impl Subscriptions {
    fn create(
        &mut self,
        name: &str,
        topic: &str,
        topic_id: u64,
        attach_seq: u64,
        now_ms: i64,
        opts: CreateSubscriptionOptions,
    ) -> Result<SubscriptionRecord, Error> {
        self.store.create(&mut self.kv, name, topic, topic_id, attach_seq, now_ms, opts)
    }

    fn get(&self, name: &str) -> Result<SubscriptionRecord, Error> {
        self.store.get(&self.kv, name)
    }

    fn list(
        &self,
        project: &str,
        size: usize,
        token: Option<&str>,
    ) -> Result<(Vec<SubscriptionRecord>, Option<String>), Error> {
        self.store.list(&self.kv, project, size, token)
    }

    fn list_by_topic_id(&self, topic_id: u64) -> Result<Vec<u64>, Error> {
        self.store.list_by_topic_id(&self.kv, topic_id)
    }

    fn update(
        &mut self,
        name: &str,
        patch: SubscriptionUpdatePatch,
    ) -> Result<SubscriptionRecord, Error> {
        self.store.update(&mut self.kv, name, patch)
    }

    fn delete(&mut self, name: &str) -> Result<(), Error> {
        self.store.delete(&mut self.kv, name)
    }

    fn set_topic_to_deleted(&mut self, id: u64) -> Result<(), Error> {
        self.store.set_topic_to_deleted(&mut self.kv, id)
    }

    fn detach(&mut self, name: &str) -> Result<(), Error> {
        self.store.detach(&mut self.kv, name)
    }

    fn set_push_config(&mut self, name: &str, config: Option<PushConfig>) -> Result<(), Error> {
        self.store.set_push_config(&mut self.kv, name, config)
    }
}

// -- topics

#[test]
fn topic_create_then_get_round_trip() {
    let mut ts = topics();
    let created = ts
        .create("projects/p/topics/top1", labels(), None, None, false, false)
        .unwrap();
    assert_eq!(created.name, "projects/p/topics/top1");
    assert_eq!(created.id, 1);
    assert_eq!(created.message_retention_secs, 0);
    assert_eq!(created.kms_key_name, None);

    let fetched = ts.get("projects/p/topics/top1").unwrap();
    assert_eq!(fetched, created);
}

#[test]
fn topic_duplicate_create_errs_already_exists() {
    let mut ts = topics();
    ts.create("projects/p/topics/top1", labels(), None, None, false, false)
        .unwrap();
    let err = ts
        .create("projects/p/topics/top1", labels(), None, None, false, false)
        .unwrap_err();
    assert!(matches!(err, Error::AlreadyExists { .. }));
}

#[test]
fn topic_get_missing_errs_not_found() {
    let mut ts = topics();
    let err = ts.get("projects/p/topics/missing").unwrap_err();
    assert!(matches!(err, Error::NotFound { .. }));
}

#[test]
fn create_invalid_name_errs_invalid_argument() {
    let mut ts = topics();
    let err = ts
        .create("not-a-valid-name", labels(), None, None, false, false)
        .unwrap_err();
    assert!(matches!(err, Error::InvalidArgument { .. }));
}

#[test]
fn create_rejects_schema_settings() {
    let mut ts = topics();
    let err = ts
        .create("projects/p/topics/top1", labels(), None, None, true, false)
        .unwrap_err();
    match err {
        Error::InvalidArgument { field, message } => {
            assert_eq!(field, "schema_settings");
            assert!(message.contains("not supported by this server"));
        }
        other => panic!("expected InvalidArgument, got {other:?}"),
    }
}

#[test]
fn create_rejects_ingestion_settings() {
    let mut ts = topics();
    let err = ts
        .create("projects/p/topics/top1", labels(), None, None, false, true)
        .unwrap_err();
    match err {
        Error::InvalidArgument { field, message } => {
            assert_eq!(field, "ingestion_data_source_settings");
            assert!(message.contains("not supported by this server"));
        }
        other => panic!("expected InvalidArgument, got {other:?}"),
    }
}

#[test]
fn create_retention_out_of_range_rejected() {
    let mut ts = topics();
    let err = ts
        .create(
            "projects/p/topics/top1",
            labels(),
            Some(1), // below MIN_TOPIC_RETENTION_SECS
            None,
            false,
            false,
        )
        .unwrap_err();
    assert!(matches!(err, Error::InvalidArgument { .. }));
}

#[test]
fn list_paginates_across_all_results_without_gaps_or_duplicates() {
    let mut ts = topics();
    for i in 0..5 {
        ts.create(
            &format!("projects/p/topics/top{i}"),
            labels(),
            None,
            None,
            false,
            false,
        )
        .unwrap();
    }

    let mut seen: Vec<String> = Vec::new();
    let mut token: Option<String> = None;
    loop {
        let (page, next) = ts.list("p", 2, token.as_deref()).unwrap();
        assert!(page.len() <= 2);
        for r in &page {
            seen.push(r.name.clone());
        }
        match next {
            Some(t) => token = Some(t),
            None => break,
        }
    }

    seen.sort();
    seen.dedup();
    assert_eq!(seen.len(), 5);
    let expected: Vec<String> = (0..5)
        .map(|i| format!("projects/p/topics/top{i}"))
        .collect();
    assert_eq!(seen, expected);
}

#[test]
fn update_labels_only_leaves_retention_unchanged() {
    let mut ts = topics();
    ts.create(
        "projects/p/topics/top1",
        labels(),
        Some(700),
        None,
        false,
        false,
    )
    .unwrap();

    let mut new_labels = StringMap::new();
    new_labels.insert("env".to_string(), "prod".to_string());
    let updated = ts
        .update(
            "projects/p/topics/top1",
            Some(new_labels.clone()),
            None,
            None,
        )
        .unwrap();
    assert_eq!(updated.labels, new_labels);
    assert_eq!(updated.message_retention_secs, 700);
}

#[test]
fn update_retention_only_leaves_labels_unchanged() {
    let mut ts = topics();
    let mut initial_labels = StringMap::new();
    initial_labels.insert("env".to_string(), "dev".to_string());
    ts.create(
        "projects/p/topics/top1",
        initial_labels.clone(),
        None,
        None,
        false,
        false,
    )
    .unwrap();

    let updated = ts
        .update("projects/p/topics/top1", None, Some(Some(900)), None)
        .unwrap();
    assert_eq!(updated.labels, initial_labels);
    assert_eq!(updated.message_retention_secs, 900);
}

#[test]
fn topic_delete_then_get_errs_not_found() {
    let mut ts = topics();
    ts.create("projects/p/topics/top1", labels(), None, None, false, false)
        .unwrap();
    ts.delete("projects/p/topics/top1").unwrap();
    let err = ts.get("projects/p/topics/top1").unwrap_err();
    assert!(matches!(err, Error::NotFound { .. }));
}

#[test]
fn append_assigns_monotonically_increasing_seq_in_order() {
    let mut ts = topics();
    let created = ts
        .create("projects/p/topics/top1", labels(), None, None, false, false)
        .unwrap();

    let messages = vec![
        (b"a".to_vec(), StringMap::new(), String::new()),
        (b"b".to_vec(), StringMap::new(), String::new()),
        (b"c".to_vec(), StringMap::new(), String::new()),
    ];
    let seqs = ts.append(created.id, messages, 1_000, 600).unwrap();
    assert_eq!(seqs.len(), 3);
    assert!(seqs[0] < seqs[1]);
    assert!(seqs[1] < seqs[2]);

    // A second batch continues from where the first left off.
    let more = vec![(b"d".to_vec(), StringMap::new(), String::new())];
    let more_seqs = ts.append(created.id, more, 2_000, 600).unwrap();
    assert!(more_seqs[0] > seqs[2]);
}

#[test]
fn append_validates_batch_size_limit() {
    let mut ts = topics();
    let created = ts
        .create("projects/p/topics/top1", labels(), None, None, false, false)
        .unwrap();

    let messages: Vec<(Vec<u8>, StringMap, String)> = (0
        ..=MAX_PUBLISH_BATCH_MESSAGES)
        .map(|_| (Vec::new(), StringMap::new(), String::new()))
        .collect();
    let err = ts.append(created.id, messages, 0, 600).unwrap_err();
    assert!(matches!(err, Error::InvalidArgument { .. }));
}

#[test]
fn append_validates_oversized_single_message() {
    let mut ts = topics();
    let created = ts
        .create("projects/p/topics/top1", labels(), None, None, false, false)
        .unwrap();

    let oversized = vec![(
        vec![0u8; MAX_MESSAGE_BYTES + 1],
        StringMap::new(),
        String::new(),
    )];
    let err = ts.append(created.id, oversized, 0, 600).unwrap_err();
    assert!(matches!(err, Error::InvalidArgument { .. }));
}

// -- snapshots

fn cursor() -> CursorRecord {
    CursorRecord {
        attach_seq: 0,
        acked_floor: 3,
        acked_above_floor: Default::default(),
    }
}

#[test]
fn snapshot_create_then_get_round_trip() {
    let mut s = snapshots();
    let created = s
        .create(
            "projects/p/snapshots/snap-a",
            "projects/p/topics/topic-a",
            1,
            StringMap::new(),
            cursor(),
            1_000_000,
        )
        .unwrap();
    let fetched = s.get("projects/p/snapshots/snap-a").unwrap();
    assert_eq!(created, fetched);
    assert_eq!(fetched.cursor.acked_floor, 3);
}

#[test]
fn snapshot_duplicate_create_errs_already_exists() {
    let mut s = snapshots();
    s.create(
        "projects/p/snapshots/snap-a",
        "projects/p/topics/topic-a",
        1,
        StringMap::new(),
        cursor(),
        1_000_000,
    )
    .unwrap();
    let err = s
        .create(
            "projects/p/snapshots/snap-a",
            "projects/p/topics/topic-a",
            1,
            StringMap::new(),
            cursor(),
            1_000_000,
        )
        .unwrap_err();
    assert!(matches!(err, Error::AlreadyExists { .. }));
}

#[test]
fn snapshot_get_missing_errs_not_found() {
    let mut s = snapshots();
    let err = s.get("projects/p/snapshots/nope").unwrap_err();
    assert!(matches!(err, Error::NotFound { .. }));
}

#[test]
fn snapshot_delete_then_get_errs_not_found() {
    let mut s = snapshots();
    s.create(
        "projects/p/snapshots/snap-a",
        "projects/p/topics/topic-a",
        1,
        StringMap::new(),
        cursor(),
        1_000_000,
    )
    .unwrap();
    s.delete("projects/p/snapshots/snap-a").unwrap();
    assert!(s.get("projects/p/snapshots/snap-a").is_err());
}

#[test]
fn update_labels_changes_only_labels() {
    let mut s = snapshots();
    s.create(
        "projects/p/snapshots/snap-a",
        "projects/p/topics/topic-a",
        1,
        StringMap::new(),
        cursor(),
        1_000_000,
    )
    .unwrap();
    let mut labels = StringMap::new();
    labels.insert("env".to_string(), "prod".to_string());
    let updated = s
        .update_labels("projects/p/snapshots/snap-a", labels.clone())
        .unwrap();
    assert_eq!(updated.labels, labels);
    assert_eq!(updated.cursor.acked_floor, 3);
}

#[test]
fn snapshot_list_paginates_within_project_and_excludes_others() {
    let mut s = snapshots();
    for i in 0..3 {
        s.create(
            &format!("projects/p/snapshots/snap-{i}"),
            "projects/p/topics/topic-a",
            1,
            StringMap::new(),
            cursor(),
            1_000_000,
        )
        .unwrap();
    }
    s.create(
        "projects/other/snapshots/snap-x",
        "projects/other/topics/topic-a",
        2,
        StringMap::new(),
        cursor(),
        1_000_000,
    )
    .unwrap();

    let (page1, token1) = s.list("p", 2, None).unwrap();
    assert_eq!(page1.len(), 2);
    assert!(token1.is_some());
    let (page2, token2) = s.list("p", 2, token1.as_deref()).unwrap();
    assert_eq!(page2.len(), 1);
    assert!(token2.is_none());
}

#[test]
fn sweep_expired_deletes_only_past_expiry() {
    let mut s = snapshots();
    s.create(
        "projects/p/snapshots/expired",
        "projects/p/topics/topic-a",
        1,
        StringMap::new(),
        cursor(),
        1_000,
    )
    .unwrap();
    s.create(
        "projects/p/snapshots/alive",
        "projects/p/topics/topic-a",
        1,
        StringMap::new(),
        cursor(),
        9_999_999,
    )
    .unwrap();

    let removed = s.sweep_expired("p", 5_000).unwrap();
    assert_eq!(removed, 1);
    assert!(s.get("projects/p/snapshots/expired").is_err());
    assert!(s.get("projects/p/snapshots/alive").is_ok());
}

// -- compute_expire_at_ms ----------------------------------------

#[test]
fn no_oldest_unacked_gets_the_maximum_lifetime() {
    let expire = compute_expire_at_ms(1_000_000, None).unwrap();
    assert_eq!(
        expire,
        1_000_000 + MAX_SNAPSHOT_LIFETIME_SECS * 1000
    );
}

#[test]
fn oldest_unacked_age_shortens_the_lifetime() {
    let now_ms = 10 * 24 * 3600 * 1000; // day 10
    let oldest = now_ms - 2 * 24 * 3600 * 1000; // 2 days old
    let expire = compute_expire_at_ms(now_ms, Some(oldest)).unwrap();
    // 7d max minus 2d age = 5d remaining from now.
    assert_eq!(expire, now_ms + 5 * 24 * 3600 * 1000);
}

#[test]
fn remaining_lifetime_under_one_hour_is_failed_precondition() {
    let now_ms = 10 * 24 * 3600 * 1000;
    // Oldest unacked message is (7d - 30min) old -> 30min remaining.
    let oldest = now_ms - (7 * 24 * 3600 - 1800) * 1000;
    let err = compute_expire_at_ms(now_ms, Some(oldest)).unwrap_err();
    assert!(matches!(err, Error::FailedPrecondition { .. }));
}

#[test]
fn remaining_lifetime_of_exactly_one_hour_is_ok() {
    let now_ms = 10 * 24 * 3600 * 1000;
    let oldest = now_ms - (7 * 24 * 3600 - 3600) * 1000;
    assert!(compute_expire_at_ms(now_ms, Some(oldest)).is_ok());
}

// -- subscriptions

#[test]
fn create_and_get_round_trip_with_initial_cursor() {
    let mut store = subscriptions();

    let record = store
        .create(
            "projects/p/subscriptions/sub-a",
            "projects/p/topics/topic-a",
            1,
            42,
            1_000,
            CreateSubscriptionOptions::default(),
        )
        .expect("create should succeed");

    assert_eq!(record.name, "projects/p/subscriptions/sub-a");
    assert_eq!(record.topic, "projects/p/topics/topic-a");
    assert_eq!(record.topic_id, 1);
    assert_eq!(record.ack_deadline_secs, 10);
    assert_eq!(record.message_retention_secs, 604_800);
    assert_eq!(record.expiration_ttl_secs, Some(31 * 24 * 3600));
    assert_eq!(record.max_delivery_attempts, 0);
    assert_eq!(record.min_retry_backoff_secs, 10);
    assert_eq!(record.max_retry_backoff_secs, 600);
    assert!(!record.detached);

    let fetched = store
        .get("projects/p/subscriptions/sub-a")
        .expect("get should succeed");
    assert_eq!(fetched.id, record.id);
    assert_eq!(fetched.name, record.name);

    let cursor = match store.kv.get("sub", &cursor_key(record.id)) {
        Some(KvValue::Cursor(cursor)) => cursor,
        _ => panic!("cursor record should be present"),
    };
    assert_eq!(cursor.attach_seq, 42);
    assert_eq!(cursor.acked_floor, 42);
    assert!(cursor.acked_above_floor.is_empty());
}

#[test]
fn duplicate_create_is_already_exists() {
    let mut store = subscriptions();
    store
        .create(
            "projects/p/subscriptions/dup",
            "projects/p/topics/top",
            1,
            0,
            1_000,
            CreateSubscriptionOptions::default(),
        )
        .expect("first create should succeed");

    let err = store
        .create(
            "projects/p/subscriptions/dup",
            "projects/p/topics/top",
            1,
            0,
            1_000,
            CreateSubscriptionOptions::default(),
        )
        .expect_err("duplicate create should fail");
    assert!(matches!(err, Error::AlreadyExists { .. }));
}

#[test]
fn invalid_ack_deadline_is_rejected() {
    let mut store = subscriptions();
    let opts = CreateSubscriptionOptions {
        ack_deadline_secs: Some(5),
        ..Default::default()
    };
    let err = store
        .create(
            "projects/p/subscriptions/sub",
            "projects/p/topics/top",
            1,
            0,
            1_000,
            opts,
        )
        .expect_err("should be rejected");
    assert!(matches!(err, Error::InvalidArgument { .. }));
}

#[test]
fn bigquery_config_is_rejected() {
    let mut store = subscriptions();
    let opts = CreateSubscriptionOptions {
        has_bigquery_config: true,
        ..Default::default()
    };
    let err = store
        .create(
            "projects/p/subscriptions/sub",
            "projects/p/topics/top",
            1,
            0,
            1_000,
            opts,
        )
        .expect_err("should be rejected");
    assert!(matches!(err, Error::InvalidArgument { .. }));
}

#[test]
fn cloud_storage_config_is_rejected() {
    let mut store = subscriptions();
    let opts = CreateSubscriptionOptions {
        has_cloud_storage_config: true,
        ..Default::default()
    };
    let err = store
        .create(
            "projects/p/subscriptions/sub",
            "projects/p/topics/top",
            1,
            0,
            1_000,
            opts,
        )
        .expect_err("should be rejected");
    assert!(matches!(err, Error::InvalidArgument { .. }));
}

#[test]
fn filter_too_long_is_rejected() {
    let mut store = subscriptions();
    let opts = CreateSubscriptionOptions {
        filter: "a".repeat(MAX_FILTER_CHARS + 1),
        ..Default::default()
    };
    let err = store
        .create(
            "projects/p/subscriptions/sub",
            "projects/p/topics/top",
            1,
            0,
            1_000,
            opts,
        )
        .expect_err("should be rejected");
    assert!(matches!(err, Error::InvalidArgument { .. }));
}

#[test]
fn dead_letter_zero_max_attempts_substitutes_default() {
    let mut store = subscriptions();
    let opts = CreateSubscriptionOptions {
        dead_letter_topic: Some("projects/p/topics/dlq".to_string()),
        max_delivery_attempts: Some(0),
        ..Default::default()
    };
    let record = store
        .create(
            "projects/p/subscriptions/sub",
            "projects/p/topics/top",
            1,
            0,
            1_000,
            opts,
        )
        .expect("create should succeed");
    assert_eq!(record.max_delivery_attempts, 5);
}

#[test]
fn list_by_topic_id_scopes_to_topic() {
    let mut store = subscriptions();
    let a = store
        .create(
            "projects/p/subscriptions/sub-a",
            "projects/p/topics/top1",
            1,
            0,
            1_000,
            CreateSubscriptionOptions::default(),
        )
        .expect("create a");
    let b = store
        .create(
            "projects/p/subscriptions/sub-b",
            "projects/p/topics/top1",
            1,
            0,
            1_000,
            CreateSubscriptionOptions::default(),
        )
        .expect("create b");
    let c = store
        .create(
            "projects/p/subscriptions/sub-c",
            "projects/p/topics/top2",
            2,
            0,
            1_000,
            CreateSubscriptionOptions::default(),
        )
        .expect("create c");

    let mut ids_for_topic_1 = store.list_by_topic_id(1).expect("list should succeed");
    ids_for_topic_1.sort_unstable();
    let mut expected = vec![a.id, b.id];
    expected.sort_unstable();
    assert_eq!(ids_for_topic_1, expected);

    let ids_for_topic_2 = store.list_by_topic_id(2).expect("list should succeed");
    assert_eq!(ids_for_topic_2, vec![c.id]);
}

#[test]
fn delete_then_get_is_not_found() {
    let mut store = subscriptions();
    store
        .create(
            "projects/p/subscriptions/sub",
            "projects/p/topics/top",
            1,
            0,
            1_000,
            CreateSubscriptionOptions::default(),
        )
        .expect("create should succeed");
    store
        .delete("projects/p/subscriptions/sub")
        .expect("delete should succeed");
    let err = store
        .get("projects/p/subscriptions/sub")
        .expect_err("should be not found");
    assert!(matches!(err, Error::NotFound { .. }));
}

#[test]
fn set_topic_to_deleted_updates_topic_field() {
    let mut store = subscriptions();
    let record = store
        .create(
            "projects/p/subscriptions/sub",
            "projects/p/topics/top",
            1,
            0,
            1_000,
            CreateSubscriptionOptions::default(),
        )
        .expect("create should succeed");
    store
        .set_topic_to_deleted(record.id)
        .expect("set_topic_to_deleted should succeed");
    let fetched = store
        .get("projects/p/subscriptions/sub")
        .expect("get should succeed");
    assert_eq!(fetched.topic, DELETED_TOPIC);
}

#[test]
fn detach_sets_detached_true() {
    let mut store = subscriptions();
    store
        .create(
            "projects/p/subscriptions/sub",
            "projects/p/topics/top",
            1,
            0,
            1_000,
            CreateSubscriptionOptions::default(),
        )
        .expect("create should succeed");
    store
        .detach("projects/p/subscriptions/sub")
        .expect("detach should succeed");
    let fetched = store
        .get("projects/p/subscriptions/sub")
        .expect("get should succeed");
    assert!(fetched.detached);
}

#[test]
fn set_push_config_updates_and_clears() {
    let mut store = subscriptions();
    store
        .create(
            "projects/p/subscriptions/sub",
            "projects/p/topics/top",
            1,
            0,
            1_000,
            CreateSubscriptionOptions::default(),
        )
        .expect("create should succeed");

    store
        .set_push_config(
            "projects/p/subscriptions/sub",
            Some(PushConfig {
                endpoint: "https://example.com/push".to_string(),
                no_wrapper: false,
                write_metadata: false,
            }),
        )
        .expect("set_push_config should succeed");
    let fetched = store
        .get("projects/p/subscriptions/sub")
        .expect("get should succeed");
    assert_eq!(
        fetched.push_config.map(|c| c.endpoint),
        Some("https://example.com/push".to_string())
    );

    store
        .set_push_config("projects/p/subscriptions/sub", None)
        .expect("clearing push config should succeed");
    let fetched = store
        .get("projects/p/subscriptions/sub")
        .expect("get should succeed");
    assert_eq!(fetched.push_config, None);
}

#[test]
fn update_applies_mutable_fields_and_revalidates() {
    let mut store = subscriptions();
    store
        .create(
            "projects/p/subscriptions/sub",
            "projects/p/topics/top",
            1,
            0,
            1_000,
            CreateSubscriptionOptions::default(),
        )
        .expect("create should succeed");

    let patch = SubscriptionUpdatePatch {
        ack_deadline_secs: Some(30),
        retain_acked_messages: Some(true),
        ..Default::default()
    };
    let updated = store
        .update("projects/p/subscriptions/sub", patch)
        .expect("update should succeed");
    assert_eq!(updated.ack_deadline_secs, 30);
    assert!(updated.retain_acked_messages);

    let bad_patch = SubscriptionUpdatePatch {
        ack_deadline_secs: Some(1),
        ..Default::default()
    };
    let err = store
        .update("projects/p/subscriptions/sub", bad_patch)
        .expect_err("invalid ack_deadline_secs should be rejected");
    assert!(matches!(err, Error::InvalidArgument { .. }));
}

#[test]
fn subscription_list_paginates_within_project_and_excludes_others() {
    let mut store = subscriptions();
    for i in 0..3 {
        store
            .create(
                &format!("projects/p/subscriptions/sub{i}"),
                "projects/p/topics/top",
                1,
                0,
                1_000,
                CreateSubscriptionOptions::default(),
            )
            .expect("create should succeed");
    }
    store
        .create(
            "projects/other/subscriptions/sub0",
            "projects/other/topics/top",
            1,
            0,
            1_000,
            CreateSubscriptionOptions::default(),
        )
        .expect("create should succeed");

    let (page1, token1) = store.list("p", 2, None).expect("list should succeed");
    assert_eq!(page1.len(), 2);
    assert!(token1.is_some());

    let (page2, token2) = store
        .list("p", 2, token1.as_deref())
        .expect("list should succeed");
    assert_eq!(page2.len(), 1);
    assert!(token2.is_none());

    let all_names: Vec<&str> = page1
        .iter()
        .chain(page2.iter())
        .map(|r| r.name.as_str())
        .collect();
    assert!(all_names
        .iter()
        .all(|n| n.starts_with("projects/p/subscriptions/")));
}

// -- retention

fn put_message(kv: &mut MemKv, topic_id: u64, seq: u64, expire_at_ms: i64) {
    let record = MessageRecord {
        publish_ts_ms: 0,
        ordering_key: String::new(),
        attributes: Default::default(),
        payload: b"x".to_vec(),
        expire_at_ms,
    };
    kv.put("msg", msg_key(topic_id, seq), KvValue::Message(record))
        .unwrap();
}

#[test]
fn expired_message_is_deleted_and_counted() {
    let mut kv = MemKv::new();
    put_message(&mut kv, 1, 1, 1_000);
    let subs = SubscriptionStore::new();

    let stats = sweep_expired_messages(&mut kv, &subs, 1_000);
    assert_eq!(stats.messages_expired, 1);
    assert_eq!(kv.get("msg", &msg_key(1, 1)), None);
}

#[test]
fn not_yet_expired_message_survives() {
    let mut kv = MemKv::new();
    put_message(&mut kv, 1, 1, 5_000);
    let subs = SubscriptionStore::new();

    let stats = sweep_expired_messages(&mut kv, &subs, 1_000);
    assert_eq!(stats.messages_expired, 0);
    assert!(kv.get("msg", &msg_key(1, 1)).is_some());
}

#[test]
fn acked_message_with_retain_acked_messages_survives_until_expiry() {
    let mut kv = MemKv::new();
    put_message(&mut kv, 1, 1, 5_000);
    let subs = SubscriptionStore::new();
    subs.create(
        &mut kv,
        "projects/p/subscriptions/sub-a",
        "projects/p/topics/topic-a",
        1,
        0,
        0,
        CreateSubscriptionOptions {
            retain_acked_messages: true,
            ..Default::default()
        },
    )
    .unwrap();

    let stats = sweep_expired_messages(&mut kv, &subs, 1_000);
    assert_eq!(stats.messages_expired, 0);
    assert!(kv.get("msg", &msg_key(1, 1)).is_some());
}

#[test]
fn expiring_a_message_cleans_up_its_dlv_row() {
    let mut kv = MemKv::new();
    let subs = SubscriptionStore::new();
    let sub = subs
        .create(
            &mut kv,
            "projects/p/subscriptions/sub-a",
            "projects/p/topics/topic-a",
            1,
            0,
            0,
            CreateSubscriptionOptions::default(),
        )
        .unwrap();
    put_message(&mut kv, 1, 1, 1_000);
    kv.put(
        "dlv",
        delivery_key(sub.id, 1),
        KvValue::Bytes(b"leftover-lease".to_vec()),
    )
    .unwrap();

    let stats = sweep_expired_messages(&mut kv, &subs, 1_000);
    assert_eq!(stats.messages_expired, 1);
    assert_eq!(kv.get("dlv", &delivery_key(sub.id, 1)), None);
}

fn undecoded() -> KvValue {
    KvValue::Undecoded(vec![255], "unexpected end of input".to_string())
}

fn message<T: std::fmt::Debug>(r: Result<T, Error>) -> String {
    match r {
        Err(Error::Internal { message }) => message,
        other => panic!("expected an internal error, got {other:?}"),
    }
}

#[test]
fn records_that_do_not_decode_are_named_with_the_reason() {
    let mut t = topics();
    let topic = t
        .create("projects/p/topics/topic-a", labels(), None, None, false, false)
        .unwrap();
    t.kv.put("meta", topic_key(topic.id), undecoded()).unwrap();
    assert_eq!(
        message(t.get("projects/p/topics/topic-a")),
        "failed to decode topic record for id 1: unexpected end of input"
    );

    let mut s = snapshots();
    let snap = s
        .create(
            "projects/p/snapshots/snap-a",
            "projects/p/topics/topic-a",
            1,
            StringMap::new(),
            cursor(),
            1_000_000,
        )
        .unwrap();
    s.kv.put("meta", snapshot_key(snap.id), undecoded()).unwrap();
    assert_eq!(
        message(s.get("projects/p/snapshots/snap-a")),
        "failed to decode snapshot record for id 1: unexpected end of input"
    );

    let mut kv = MemKv::new();
    kv.put("meta", sub_key(3), undecoded()).unwrap();
    assert_eq!(
        message(SubscriptionStore::new().get_by_id(&kv, 3)),
        "failed to decode subscription record: unexpected end of input"
    );
}

#[test]
fn a_second_sweep_of_snapshots_removes_none() {
    let mut s = snapshots();
    for (name, expire_at_ms) in [("snap-a", 1_000), ("snap-b", 1_001), ("snap-c", 5_000)] {
        s.create(
            &format!("projects/p/snapshots/{name}"),
            "projects/p/topics/topic-a",
            1,
            StringMap::new(),
            cursor(),
            expire_at_ms,
        )
        .unwrap();
    }
    let sweep = |s: &mut Snapshots| s.store.sweep_expired(&mut s.kv, "p", 1_001).unwrap();
    assert_eq!(sweep(&mut s), 2);
    assert_eq!(sweep(&mut s), 0);
    assert!(matches!(s.get("projects/p/snapshots/snap-a"), Err(Error::NotFound { .. })));
    assert!(matches!(s.get("projects/p/snapshots/snap-b"), Err(Error::NotFound { .. })));
    assert_eq!(s.get("projects/p/snapshots/snap-c").unwrap().expire_at_ms, 5_000);
}

#[test]
fn the_topic_index_follows_the_subscriptions() {
    let mut kv = MemKv::new();
    let subs = SubscriptionStore::new();
    let create = |kv: &mut MemKv, name: &str, topic_id: u64| {
        subs.create(
            kv,
            name,
            "projects/p/topics/topic-a",
            topic_id,
            0,
            1_000,
            CreateSubscriptionOptions::default(),
        )
        .unwrap()
        .id
    };
    let a = create(&mut kv, "projects/p/subscriptions/sub-a", 1);
    let b = create(&mut kv, "projects/p/subscriptions/sub-b", 1);
    let c = create(&mut kv, "projects/p/subscriptions/sub-c", 2);
    assert_eq!(subs.list_by_topic_id(&kv, 1).unwrap(), vec![a, b]);
    subs.detach(&mut kv, "projects/p/subscriptions/sub-a").unwrap();
    subs.touch(&mut kv, b, 2_000).unwrap();
    subs.set_topic_to_deleted(&mut kv, c).unwrap();
    assert_eq!(subs.list_by_topic_id(&kv, 1).unwrap(), vec![a, b]);
    assert_eq!(subs.list_by_topic_id(&kv, 2).unwrap(), vec![c]);
    subs.delete(&mut kv, "projects/p/subscriptions/sub-a").unwrap();
    assert_eq!(subs.list_by_topic_id(&kv, 1).unwrap(), vec![b]);
}

#[test]
fn the_boundary_of_a_time_does_not_fall_into_gaps() {
    let mut t = topics();
    for now_ms in [1_000, 2_000, 3_000] {
        t.append(1, vec![(b"x".to_vec(), labels(), String::new())], now_ms, 600).unwrap();
    }
    let at = |t: &Topics, ms: i64| t.store.seq_boundary_for_time(&t.kv, 1, ms);
    assert_eq!((at(&t, 0), at(&t, 1_000), at(&t, 1_001)), (1, 1, 2));
    assert_eq!((at(&t, 3_000), at(&t, 3_001)), (3, 4));
    // A message in the middle is gone.
    t.kv.delete("msg", &msg_key(1, 2)).unwrap();
    assert_eq!((at(&t, 500), at(&t, 1_500), at(&t, 3_001)), (1, 3, 4));
    assert_eq!(t.store.seq_boundary_for_time(&t.kv, 9, 0), 1);
}
