use courses::faults::{Fault, FaultTable};
use courses::health::Dependency;

#[test]
fn a_new_table_breaks_nothing() {
    let table = FaultTable::new();
    assert!(!table.is_active(Dependency::Dynamo, 0));
    assert!(!table.is_active(Dependency::Content, u64::MAX));
    assert_eq!(FaultTable::default(), table);
}

#[test]
fn an_outage_lasts_until_its_deadline() {
    let mut table = FaultTable::new();
    table.inject(Dependency::Dynamo, 1_000, Some(60_000));
    assert!(table.is_active(Dependency::Dynamo, 1_000));
    assert!(table.is_active(Dependency::Dynamo, 60_999));
    assert!(!table.is_active(Dependency::Dynamo, 61_000));
    assert!(!table.is_active(Dependency::Content, 1_000));
}

#[test]
fn an_outage_without_duration_lasts_until_cleared() {
    let mut table = FaultTable::new();
    table.inject(Dependency::Content, 5, None);
    assert!(table.is_active(Dependency::Content, u64::MAX));
    assert!(!table.expire(Dependency::Content, u64::MAX));
    table.clear(Dependency::Content);
    assert!(!table.is_active(Dependency::Content, 6));
}

#[test]
fn a_later_injection_replaces_the_first() {
    let mut table = FaultTable::new();
    table.inject(Dependency::Dynamo, 0, Some(100));
    table.inject(Dependency::Dynamo, 50, Some(1_000));
    assert!(table.is_active(Dependency::Dynamo, 500));
    let mut shorter = FaultTable::new();
    shorter.inject(Dependency::Dynamo, 0, None);
    shorter.inject(Dependency::Dynamo, 10, Some(5));
    assert!(!shorter.is_active(Dependency::Dynamo, 20));
}

#[test]
fn a_stale_timer_leaves_a_later_outage_alone() {
    let mut table = FaultTable::new();
    table.inject(Dependency::Dynamo, 0, Some(100));
    table.inject(Dependency::Dynamo, 80, Some(100));
    // The first outage's timer wakes at its own deadline.
    assert!(!table.expire(Dependency::Dynamo, 100));
    assert!(table.is_active(Dependency::Dynamo, 100));
    assert!(table.expire(Dependency::Dynamo, 180));
    assert!(!table.is_active(Dependency::Dynamo, 180));
    assert!(!table.expire(Dependency::Dynamo, 181));
}

#[test]
fn expiring_a_healthy_dependency_does_nothing() {
    let mut table = FaultTable::new();
    table.inject(Dependency::Content, 0, Some(10));
    assert!(!table.expire(Dependency::Dynamo, 1_000));
    assert!(table.expire(Dependency::Content, 10));
}

#[test]
fn a_fault_is_active_strictly_before_its_deadline() {
    assert!(Fault { until: None }.is_active(u64::MAX));
    assert!(Fault { until: Some(10) }.is_active(9));
    assert!(!Fault { until: Some(10) }.is_active(10));
}
