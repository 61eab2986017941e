use open_pubusb::error::Error;
use open_pubusb::names::{ProjectId, SnapshotName, SubscriptionName, TopicName, DELETED_TOPIC};
use std::collections::HashSet;

#[test]
fn topic_name_valid() {
    let n = TopicName::parse("projects/my-proj/topics/my-topic").unwrap();
    assert_eq!(n.as_str(), "projects/my-proj/topics/my-topic");
    assert_eq!(n.project_id(), "my-proj");
    assert_eq!(n.resource_id(), "my-topic");
    assert!(!n.is_deleted_sentinel());
}

#[test]
fn topic_name_deleted_sentinel() {
    let n = TopicName::parse(DELETED_TOPIC).unwrap();
    assert_eq!(n.as_str(), DELETED_TOPIC);
    assert!(n.is_deleted_sentinel());
    assert_eq!(n.resource_id(), DELETED_TOPIC);
    assert_eq!(n.project_id(), "");
}

#[test]
fn subscription_name_valid() {
    let n = SubscriptionName::parse("projects/p/subscriptions/sub.1-2_3~4+5%36").unwrap();
    assert_eq!(n.project_id(), "p");
    assert_eq!(n.resource_id(), "sub.1-2_3~4+5%36");
}

#[test]
fn snapshot_name_valid() {
    let n = SnapshotName::parse("projects/p/snapshots/snap-abc").unwrap();
    assert_eq!(n.project_id(), "p");
    assert_eq!(n.resource_id(), "snap-abc");
}

#[test]
fn project_id_valid() {
    let p = ProjectId::parse("projects/my-proj").unwrap();
    assert_eq!(p.as_str(), "projects/my-proj");
    assert_eq!(p.project_id(), "my-proj");
    assert_eq!(p.resource_id(), "my-proj");
}

#[test]
fn project_id_empty_rejected() {
    assert!(ProjectId::parse("projects/").is_err());
    assert!(ProjectId::parse("projects").is_err());
    assert!(ProjectId::parse("not-projects/p").is_err());
}

#[test]
fn rejects_wrong_kind_segment() {
    assert!(TopicName::parse("projects/p/subscriptions/t").is_err());
    assert!(SubscriptionName::parse("projects/p/topics/s").is_err());
    assert!(SnapshotName::parse("projects/p/topics/s").is_err());
}

#[test]
fn rejects_missing_or_extra_segments() {
    assert!(TopicName::parse("projects/p/topics").is_err());
    assert!(TopicName::parse("topics/t").is_err());
    assert!(TopicName::parse("projects/p/topics/a/b").is_err());
    assert!(TopicName::parse("projects//topics/t").is_err());
}

#[test]
fn rejects_id_too_short() {
    assert!(TopicName::parse("projects/p/topics/ab").is_err());
}

#[test]
fn rejects_id_too_long() {
    let id: String = std::iter::once('a')
        .chain(std::iter::repeat('b').take(255))
        .collect();
    assert_eq!(id.len(), 256);
    let full = format!("projects/p/topics/{id}");
    assert!(TopicName::parse(&full).is_err());
}

#[test]
fn accepts_id_at_length_bounds() {
    let min_id = "abc"; // 3 chars
    assert!(TopicName::parse(&format!("projects/p/topics/{min_id}")).is_ok());

    let max_id: String = std::iter::once('a')
        .chain(std::iter::repeat('b').take(254))
        .collect();
    assert_eq!(max_id.len(), 255);
    assert!(TopicName::parse(&format!("projects/p/topics/{max_id}")).is_ok());
}

#[test]
fn rejects_id_not_starting_with_letter() {
    assert!(TopicName::parse("projects/p/topics/1abc").is_err());
    assert!(TopicName::parse("projects/p/topics/-abc").is_err());
    assert!(TopicName::parse("projects/p/topics/_abc").is_err());
}

#[test]
fn rejects_invalid_characters() {
    assert!(TopicName::parse("projects/p/topics/abc def").is_err());
    assert!(TopicName::parse("projects/p/topics/abc/def").is_err());
    assert!(TopicName::parse("projects/p/topics/abc$def").is_err());
    assert!(TopicName::parse("projects/p/topics/abc*def").is_err());
}

#[test]
fn rejects_goog_prefix_case_sensitive() {
    assert!(TopicName::parse("projects/p/topics/googtopic").is_err());
    // Case-sensitive: "Goog..." is not the forbidden literal prefix.
    assert!(TopicName::parse("projects/p/topics/Googtopic").is_ok());
}

#[test]
fn accepts_full_valid_charset() {
    let id = "abc-DEF_123.4~5+6%37";
    let full = format!("projects/p/topics/{id}");
    let n = TopicName::parse(&full).unwrap();
    assert_eq!(n.resource_id(), id);
}

#[test]
fn display_matches_as_str() {
    let n = TopicName::parse("projects/p/topics/abc").unwrap();
    assert_eq!(n.to_string(), n.as_str());
}

#[test]
fn equality_and_hash() {
    let a = TopicName::parse("projects/p/topics/abc").unwrap();
    let b = TopicName::parse("projects/p/topics/abc").unwrap();
    assert_eq!(a, b);
    let mut set = HashSet::new();
    set.insert(a);
    assert!(set.contains(&b));
}

fn valid_ids() -> Vec<String> {
    let alphabet = "-_.~+%abcxyzABCXYZ0189";
    let chars: Vec<char> = alphabet.chars().collect();
    let mut ids = Vec::new();
    for (i, first) in "abcdefhijklmnopqrstuvwxyzABCDEFHIJKLMNOPQRSTUVWXYZ".chars().enumerate() {
        for len in [3, 4, 17, 120, 255] {
            let mut id = String::new();
            id.push(first);
            for k in 1..len {
                id.push(chars[(i * 7 + k * 5) % chars.len()]);
            }
            ids.push(id);
        }
    }
    ids
}

#[test]
fn topic_name_roundtrips() {
    for id in valid_ids() {
        assert!(id.chars().count() >= 3 && id.chars().count() <= 255);
        let full = format!("projects/proj-1/topics/{id}");
        let parsed = TopicName::parse(&full).unwrap();
        assert_eq!(parsed.as_str(), full.as_str());
        assert_eq!(parsed.project_id(), "proj-1");
        assert_eq!(parsed.resource_id(), id.as_str());
    }
}

#[test]
fn subscription_name_roundtrips() {
    for id in valid_ids() {
        let full = format!("projects/proj-1/subscriptions/{id}");
        let parsed = SubscriptionName::parse(&full).unwrap();
        assert_eq!(parsed.as_str(), full.as_str());
        assert_eq!(parsed.project_id(), "proj-1");
        assert_eq!(parsed.resource_id(), id.as_str());
    }
}

#[test]
fn snapshot_name_roundtrips() {
    for id in valid_ids() {
        let full = format!("projects/proj-1/snapshots/{id}");
        let parsed = SnapshotName::parse(&full).unwrap();
        assert_eq!(parsed.as_str(), full.as_str());
        assert_eq!(parsed.project_id(), "proj-1");
        assert_eq!(parsed.resource_id(), id.as_str());
    }
}

#[test]
fn errors_show_the_bad_name() {
    match TopicName::parse("projects/p/tops/abc") {
        Err(Error::InvalidArgument { field, message }) => {
            assert_eq!(field, "name");
            assert_eq!(
                message,
                "name must match projects/{project}/topics/{id}, got \"projects/p/tops/abc\""
            );
        }
        _ => panic!("accepted a name with a wrong segment"),
    }
}
