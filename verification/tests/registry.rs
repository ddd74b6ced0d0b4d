use jikji::exporter::{content_type, export, export_registry};
use jikji::registry::{MetricKind, MetricValue, Registry, RegistryError};

fn text(bytes: Vec<u8>) -> String {
    String::from_utf8(bytes).unwrap()
}

#[test]
fn new_registry_is_empty() {
    let r = Registry::new();
    assert_eq!(r.len(), 0);
    assert_eq!(r.get("a"), None);
    assert_eq!(text(export_registry(&r)), "");
}

#[test]
fn register_creates_an_unpopulated_entry() {
    let mut r = Registry::new();
    assert_eq!(r.register("jobs.delayed", MetricKind::Counter), Ok(()));
    assert_eq!(
        r.get("jobs.delayed"),
        Some(MetricValue {
            kind: MetricKind::Counter,
            value: 0,
            populated: false,
            updated_at: 0,
            last_attempt_failed: false,
        })
    );
}

#[test]
fn register_twice_same_kind_leaves_one_entry() {
    let mut r = Registry::new();
    assert_eq!(r.register("a", MetricKind::Gauge), Ok(()));
    assert_eq!(r.update("a", 5, 10), Ok(()));
    assert_eq!(r.register("a", MetricKind::Gauge), Ok(()));
    assert_eq!(r.len(), 1);
    assert_eq!(r.get("a").unwrap().value, 5);
    assert!(r.get("a").unwrap().populated);
}

#[test]
fn register_twice_other_kind_fails() {
    let mut r = Registry::new();
    assert_eq!(r.register("a", MetricKind::Gauge), Ok(()));
    assert_eq!(r.register("a", MetricKind::Counter), Err(RegistryError::DuplicateMetricName));
    assert_eq!(r.len(), 1);
    assert_eq!(r.get("a").unwrap().kind, MetricKind::Gauge);
}

#[test]
fn update_overwrites_value_time_and_health() {
    let mut r = Registry::new();
    r.register("a", MetricKind::Gauge).unwrap();
    r.register("b", MetricKind::Counter).unwrap();
    assert_eq!(r.update("a", -3, 100), Ok(()));
    assert_eq!(r.record_failure("a"), Ok(()));
    assert_eq!(r.update("a", 9, 200), Ok(()));
    assert_eq!(
        r.get("a"),
        Some(MetricValue {
            kind: MetricKind::Gauge,
            value: 9,
            populated: true,
            updated_at: 200,
            last_attempt_failed: false,
        })
    );
    assert!(!r.get("b").unwrap().populated);
}

#[test]
fn failure_keeps_the_last_good_value() {
    let mut r = Registry::new();
    r.register("a", MetricKind::Gauge).unwrap();
    r.update("a", 7, 100).unwrap();
    assert_eq!(r.record_failure("a"), Ok(()));
    assert_eq!(
        r.get("a"),
        Some(MetricValue {
            kind: MetricKind::Gauge,
            value: 7,
            populated: true,
            updated_at: 100,
            last_attempt_failed: true,
        })
    );
}

#[test]
fn unknown_names_are_refused() {
    let mut r = Registry::new();
    r.register("a", MetricKind::Gauge).unwrap();
    assert_eq!(r.update("b", 1, 1), Err(RegistryError::UnknownMetric));
    assert_eq!(r.record_failure("b"), Err(RegistryError::UnknownMetric));
    assert_eq!(r.get("b"), None);
    assert_eq!(r.len(), 1);
}

#[test]
fn snapshot_is_a_copy() {
    let mut r = Registry::new();
    r.register("a", MetricKind::Gauge).unwrap();
    r.update("a", 1, 1).unwrap();
    let s = r.snapshot();
    r.update("a", 2, 2).unwrap();
    r.register("b", MetricKind::Gauge).unwrap();
    assert_eq!(s.entries.len(), 1);
    assert_eq!(s.entries[0].name, "a");
    assert_eq!(s.entries[0].value.value, 1);
    assert_eq!(text(export(&s)), "# TYPE a gauge\na 1\n");
    assert_eq!(r.snapshot().entries.len(), 2);
}

#[test]
fn export_writes_type_and_value_lines() {
    let mut r = Registry::new();
    r.register("jobs.delayed", MetricKind::Counter).unwrap();
    r.register("queue.depth", MetricKind::Gauge).unwrap();
    r.register("latency", MetricKind::Histogram).unwrap();
    r.update("jobs.delayed", 42, 1).unwrap();
    r.update("queue.depth", -17, 1).unwrap();
    r.update("latency", 0, 1).unwrap();
    assert_eq!(
        text(export_registry(&r)),
        "# TYPE jobs.delayed counter\njobs.delayed 42\n# TYPE queue.depth gauge\nqueue.depth -17\n# TYPE latency histogram\nlatency 0\n"
    );
}

#[test]
fn export_writes_extreme_values() {
    let mut r = Registry::new();
    r.register("lo", MetricKind::Gauge).unwrap();
    r.register("hi", MetricKind::Gauge).unwrap();
    r.register("ten", MetricKind::Gauge).unwrap();
    r.update("lo", i64::MIN, 1).unwrap();
    r.update("hi", i64::MAX, 1).unwrap();
    r.update("ten", 10, 1).unwrap();
    assert_eq!(
        text(export_registry(&r)),
        "# TYPE lo gauge\nlo -9223372036854775808\n# TYPE hi gauge\nhi 9223372036854775807\n# TYPE ten gauge\nten 10\n"
    );
}

#[test]
fn export_keeps_names_that_are_not_ascii() {
    let mut r = Registry::new();
    r.register("caf\u{e9}", MetricKind::Gauge).unwrap();
    r.update("caf\u{e9}", 1, 1).unwrap();
    assert_eq!(text(export_registry(&r)), "# TYPE caf\u{e9} gauge\ncaf\u{e9} 1\n");
}

#[test]
fn registered_but_never_collected_is_not_exported() {
    let mut r = Registry::new();
    r.register("good", MetricKind::Gauge).unwrap();
    r.update("good", 3, 1).unwrap();
    let before = export_registry(&r);
    r.register("fresh", MetricKind::Counter).unwrap();
    let after = export_registry(&r);
    assert_eq!(before, after);
    assert_eq!(text(after), "# TYPE good gauge\ngood 3\n");
}

#[test]
fn failure_does_not_change_the_export() {
    let mut r = Registry::new();
    r.register("good", MetricKind::Gauge).unwrap();
    r.register("never", MetricKind::Gauge).unwrap();
    r.update("good", 3, 1).unwrap();
    let before = export_registry(&r);
    r.record_failure("good").unwrap();
    r.record_failure("never").unwrap();
    assert_eq!(export_registry(&r), before);
}

#[test]
fn content_type_is_plain_text() {
    assert_eq!(content_type(), "text/plain; version=0.0.4");
    assert_eq!(content_type(), prometheus::TEXT_FORMAT);
}
