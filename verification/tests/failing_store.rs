use open_pubusb::clock::MockClock;
use open_pubusb::error::Error;
use open_pubusb::service::{PubSubService, PublishMessage};
use open_pubusb::store::kv::{KvStore, KvValue, MemKv};
use open_pubusb::string_map::StringMap;
use open_pubusb::subscription::CreateSubscriptionOptions;

const TOPIC: &str = "projects/proj/topics/top1";
const SUB: &str = "projects/proj/subscriptions/sub1";

/// A store whose writes fail once `left` of them were made.
struct FailingKv {
    kv: MemKv,
    left: Option<usize>,
}

impl FailingKv {
    fn take(&mut self) -> Result<(), Error> {
        match self.left {
            None => Ok(()),
            Some(0) => Err(Error::ResourceExhausted { message: "no space left".to_string() }),
            Some(n) => {
                self.left = Some(n - 1);
                Ok(())
            },
        }
    }
}

impl KvStore for FailingKv {
    fn get(&self, keyspace: &str, key: &[u8]) -> Option<KvValue> {
        self.kv.get(keyspace, key)
    }

    fn put(&mut self, keyspace: &str, key: Vec<u8>, value: KvValue) -> Result<(), Error> {
        self.take()?;
        self.kv.put(keyspace, key, value)
    }

    fn delete(&mut self, keyspace: &str, key: &[u8]) -> Result<(), Error> {
        self.take()?;
        self.kv.delete(keyspace, key)
    }

    fn scan_prefix(&self, keyspace: &str, prefix: &[u8]) -> Vec<(Vec<u8>, KvValue)> {
        self.kv.scan_prefix(keyspace, prefix)
    }

    fn approx_disk_bytes(&self) -> u64 {
        0
    }
}

fn ready() -> PubSubService<FailingKv, MockClock> {
    let kv = FailingKv { kv: MemKv::new(), left: None };
    let mut svc = PubSubService::new(kv, MockClock::new(1_000_000));
    svc.create_topic(TOPIC, StringMap::new()).unwrap();
    svc.create_subscription(SUB, TOPIC, CreateSubscriptionOptions::default()).unwrap();
    svc
}

fn two() -> Vec<PublishMessage> {
    vec![
        PublishMessage { data: b"a".to_vec(), ..Default::default() },
        PublishMessage { data: b"b".to_vec(), ..Default::default() },
    ]
}

fn assert_no_space<T: std::fmt::Debug>(r: Result<T, Error>) {
    match r.unwrap_err() {
        Error::ResourceExhausted { message } => assert_eq!(message, "no space left"),
        e => panic!("unexpected error {e:?}"),
    }
}

#[test]
fn publish_fails_with_the_error_of_any_write() {
    for made in 0..4 {
        let mut svc = ready();
        svc.kv.left = Some(made);
        assert_no_space(svc.publish(TOPIC, two()));
        assert_eq!(svc.kv.scan_prefix("msg", &[]).len(), made / 2);
    }
    let mut svc = ready();
    svc.kv.left = Some(4);
    assert_eq!(svc.publish(TOPIC, two()).unwrap(), vec!["1".to_string(), "2".to_string()]);
    assert_eq!(svc.kv.scan_prefix("msg", &[]).len(), 2);
}

#[test]
fn create_and_delete_fail_with_the_error_of_any_write() {
    for made in 0..5 {
        let mut svc = ready();
        svc.kv.left = Some(made);
        let other = "projects/proj/subscriptions/sub2";
        assert_no_space(svc.create_subscription(other, TOPIC, CreateSubscriptionOptions::default()));
    }
    for made in 0..4 {
        let mut svc = ready();
        svc.kv.left = Some(made);
        assert_no_space(svc.delete_topic(TOPIC));
        let mut svc = ready();
        svc.kv.left = Some(made);
        assert_no_space(svc.delete_subscription(SUB));
    }
    let mut svc = ready();
    svc.kv.left = Some(4);
    svc.delete_topic(TOPIC).unwrap();
    assert!(matches!(svc.get_topic(TOPIC).unwrap_err(), Error::NotFound { .. }));
}

#[test]
fn acknowledge_fails_with_the_error_of_a_write_that_it_needs() {
    let mut svc = ready();
    svc.publish(TOPIC, two()).unwrap();
    let pulled = svc.pull(SUB, 1).unwrap();
    svc.kv.left = Some(1);
    assert_no_space(svc.acknowledge(SUB, vec![pulled[0].ack_id.clone()]));
}

#[test]
fn a_use_that_cannot_be_noted_is_no_failure() {
    let mut svc = ready();
    svc.publish(TOPIC, two()).unwrap();
    let before = svc.get_subscription(SUB).unwrap().last_activity_ts_ms;
    svc.clock.advance(5_000);
    svc.kv.left = Some(4);
    let pulled = svc.pull(SUB, 10).unwrap();
    assert_eq!(pulled.len(), 2);
    assert_eq!(svc.get_subscription(SUB).unwrap().last_activity_ts_ms, before);
    svc.kv.left = Some(2);
    svc.modify_ack_deadline(
        SUB,
        vec![pulled[0].ack_id.clone(), pulled[1].ack_id.clone()],
        60,
    )
    .unwrap();
    assert_eq!(svc.get_subscription(SUB).unwrap().last_activity_ts_ms, before);
    svc.kv.left = Some(3);
    svc.acknowledge(SUB, vec![pulled[0].ack_id.clone(), pulled[1].ack_id.clone()]).unwrap();
    assert_eq!(svc.get_subscription(SUB).unwrap().last_activity_ts_ms, before);
    svc.kv.left = None;
    svc.clock.advance(700_000);
    assert!(svc.pull(SUB, 10).unwrap().is_empty());
    assert_eq!(svc.get_subscription(SUB).unwrap().last_activity_ts_ms, before + 705_000);
}

#[test]
fn seek_fails_with_the_error_of_a_removal() {
    let mut svc = ready();
    svc.publish(TOPIC, two()).unwrap();
    svc.pull(SUB, 10).unwrap();
    svc.kv.left = Some(0);
    assert_no_space(svc.seek_to_time(SUB, 2_000_000));
}
