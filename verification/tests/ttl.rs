use aocbot::time::Timestamp;
use aocbot::ttl::{minutes_between, CacheTtlRule, TtlPolicy};
use chrono::{DateTime, Utc};

fn at(text: &str) -> Timestamp {
    let instant = text.parse::<DateTime<Utc>>().unwrap();
    Timestamp::from_parts(instant.timestamp(), instant.timestamp_subsec_nanos()).unwrap()
}

fn rule(minutes_after_unlock: i64, ttl: u64) -> CacheTtlRule {
    CacheTtlRule { minutes_after_unlock, ttl }
}

#[test]
fn ttl_by_minutes_since_the_unlock() {
    let policy = TtlPolicy::new(3600, vec![rule(30, 60), rule(180, 300)]);
    assert_eq!(policy.ttl_after_minutes(10), 60);
    assert_eq!(policy.ttl_after_minutes(30), 300);
    assert_eq!(policy.ttl_after_minutes(200), 3600);
    assert_eq!(policy.ttl_after_minutes(29), 60);
    assert_eq!(policy.ttl_after_minutes(179), 300);
    assert_eq!(policy.ttl_after_minutes(180), 3600);
    assert_eq!(policy.ttl_after_minutes(-5), 60);
    assert_eq!(policy.ttl_after_minutes(i64::MIN), 60);
    assert_eq!(policy.ttl_after_minutes(i64::MAX), 3600);
    assert_eq!(policy.get_default_ttl(), 3600);
}

#[test]
fn rules_in_any_order_and_with_repeated_thresholds() {
    let policy = TtlPolicy::new(7, vec![rule(180, 300), rule(30, 1), rule(-10, 5), rule(30, 60)]);
    assert_eq!(policy.ttl_after_minutes(-11), 5);
    assert_eq!(policy.ttl_after_minutes(-10), 60);
    assert_eq!(policy.ttl_after_minutes(10), 60);
    assert_eq!(policy.ttl_after_minutes(30), 300);
    assert_eq!(policy.ttl_after_minutes(180), 7);
    let bare = TtlPolicy::new(42, vec![]);
    assert_eq!(bare.ttl_after_minutes(0), 42);
    let top = TtlPolicy::new(1, vec![rule(i64::MAX, 2)]);
    assert_eq!(top.ttl_after_minutes(i64::MAX - 1), 2);
    assert_eq!(top.ttl_after_minutes(i64::MAX), 1);
}

#[test]
fn ttl_at_an_instant() {
    let policy = TtlPolicy::new(3600, vec![rule(30, 60), rule(180, 300)]);
    assert_eq!(policy.resolve(at("2024-07-17T13:37:42+01:00")), 3600);
    assert_eq!(policy.resolve(at("2024-12-01T05:59:59+01:00")), 3600);
    assert_eq!(policy.resolve(at("2024-12-01T06:00:00+01:00")), 60);
    assert_eq!(policy.resolve(at("2024-12-01T06:10:00+01:00")), 60);
    assert_eq!(policy.resolve(at("2024-12-01T06:29:59.999999999+01:00")), 60);
    assert_eq!(policy.resolve(at("2024-12-01T06:30:00+01:00")), 300);
    assert_eq!(policy.resolve(at("2024-12-01T08:59:59+01:00")), 300);
    assert_eq!(policy.resolve(at("2024-12-01T09:00:00+01:00")), 3600);
    assert_eq!(policy.resolve(at("2024-12-02T05:59:59+01:00")), 3600);
    assert_eq!(policy.resolve(at("2024-12-02T06:00:00+01:00")), 60);
    assert_eq!(policy.resolve(at("2024-12-25T06:00:00+01:00")), 60);
    assert_eq!(policy.resolve(at("2024-12-26T06:00:00+01:00")), 3600);
}

#[test]
fn whole_minutes_between_instants() {
    let t = |secs, nanos| Timestamp::from_parts(secs, nanos).unwrap();
    assert_eq!(minutes_between(t(0, 0), t(0, 0)), 0);
    assert_eq!(minutes_between(t(0, 0), t(59, 999_999_999)), 0);
    assert_eq!(minutes_between(t(0, 0), t(60, 0)), 1);
    assert_eq!(minutes_between(t(0, 1), t(60, 0)), 0);
    assert_eq!(minutes_between(t(60, 0), t(0, 0)), -1);
    assert_eq!(minutes_between(t(60, 0), t(0, 1)), 0);
    assert_eq!(minutes_between(t(119, 0), t(0, 0)), -1);
    assert_eq!(minutes_between(t(0, 0), t(600, 0)), 10);
    let from = "2024-12-01T05:00:00Z".parse::<DateTime<Utc>>().unwrap();
    let to = "2024-12-03T07:45:30.5Z".parse::<DateTime<Utc>>().unwrap();
    assert_eq!(
        minutes_between(at("2024-12-01T05:00:00Z"), at("2024-12-03T07:45:30.5Z")),
        (to - from).num_minutes()
    );
    assert_eq!(
        minutes_between(at("2024-12-03T07:45:30.5Z"), at("2024-12-01T05:00:00Z")),
        (from - to).num_minutes()
    );
}
