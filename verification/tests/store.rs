//! The local store: ordering, atomic batches, sync marking, purge.

use edge_gateway::database::{Database, StoreError};
use edge_gateway::edge_processor::process_reading_at;
use edge_gateway::models::{
    MetricValue, ProcessedSensorData, SensorDataInput, SensorHeader, SensorMetric,
};

fn record(device: &str, id: u128, ts: i64) -> ProcessedSensorData {
    let input = SensorDataInput {
        header: SensorHeader {
            user_uuid: None,
            device_id: device.to_string(),
            location: "lab".to_string(),
            topic: "sensors/t/data".to_string(),
            should_requeue: false,
        },
        metrics: vec![SensorMetric {
            measurement: "flow".to_string(),
            value: MetricValue::Finite(1_000),
        }],
    };
    process_reading_at(input, id, ts)
}

#[test]
fn pending_reads_oldest_first_whatever_the_insert_order() {
    let mut db = Database::new();
    db.insert_reading(record("a", 1, 3_000)).unwrap();
    db.insert_reading(record("a", 2, 1_000)).unwrap();
    db.insert_reading(record("a", 3, 2_000)).unwrap();
    let pending = db.get_pending_sync(10);
    let ids: Vec<u128> = pending.iter().map(|r| r.id).collect();
    assert_eq!(ids, vec![2, 3, 1]);
    assert_eq!(db.count_pending_sync(), 3);
}

#[test]
fn equal_timestamps_keep_insertion_order() {
    let mut db = Database::new();
    db.insert_reading(record("a", 1, 1_000)).unwrap();
    db.insert_reading(record("a", 2, 1_000)).unwrap();
    db.insert_reading(record("a", 3, 1_000)).unwrap();
    let ids: Vec<u128> = db.get_pending_sync(10).iter().map(|r| r.id).collect();
    assert_eq!(ids, vec![1, 2, 3]);
}

#[test]
fn pending_respects_the_limit() {
    let mut db = Database::new();
    for i in 0..7u128 {
        db.insert_reading(record("a", i + 1, 1_000 + i as i64)).unwrap();
    }
    assert_eq!(db.get_pending_sync(3).len(), 3);
    assert_eq!(db.get_pending_sync(0).len(), 0);
    assert_eq!(db.get_pending_sync(100).len(), 7);
}

#[test]
fn duplicate_identifier_is_refused_and_nothing_changes() {
    let mut db = Database::new();
    db.insert_reading(record("a", 9, 1_000)).unwrap();
    let r = db.insert_reading(record("a", 9, 2_000));
    assert_eq!(r, Err(StoreError::DuplicateId));
    assert_eq!(db.count_pending_sync(), 1);
}

#[test]
fn batch_append_is_atomic_on_an_internal_duplicate() {
    let mut db = Database::new();
    let batch = vec![record("a", 1, 1_000), record("a", 2, 2_000), record("a", 1, 3_000)];
    let r = db.insert_batch(batch);
    assert_eq!(r, Err(StoreError::DuplicateId));
    // none of the batch is visible in pending
    assert_eq!(db.count_pending_sync(), 0);
    assert!(db.get_pending_sync(10).is_empty());
}

#[test]
fn batch_append_is_atomic_on_a_stored_duplicate() {
    let mut db = Database::new();
    db.insert_reading(record("a", 2, 500)).unwrap();
    let r = db.insert_batch(vec![record("a", 3, 1_000), record("a", 2, 2_000)]);
    assert_eq!(r, Err(StoreError::DuplicateId));
    let ids: Vec<u128> = db.get_pending_sync(10).iter().map(|r| r.id).collect();
    assert_eq!(ids, vec![2]);
}

#[test]
fn batch_append_commits_fully_when_fresh() {
    let mut db = Database::new();
    db.insert_batch(vec![record("a", 1, 2_000), record("b", 2, 1_000)]).unwrap();
    let ids: Vec<u128> = db.get_pending_sync(10).iter().map(|r| r.id).collect();
    assert_eq!(ids, vec![2, 1]);
}

#[test]
fn pending_never_returns_a_synced_record() {
    let mut db = Database::new();
    for i in 0..4u128 {
        db.insert_reading(record("a", i + 1, 1_000 + i as i64)).unwrap();
    }
    db.mark_as_synced(&vec![1, 3]);
    let pending = db.get_pending_sync(10);
    let ids: Vec<u128> = pending.iter().map(|r| r.id).collect();
    assert_eq!(ids, vec![2, 4]);
    assert_eq!(db.count_pending_sync(), 2);
}

#[test]
fn mark_synced_is_idempotent_and_tolerates_unknown_ids() {
    let mut db = Database::new();
    for i in 0..3u128 {
        db.insert_reading(record("a", i + 1, 1_000 + i as i64)).unwrap();
    }
    db.mark_as_synced(&vec![2, 77]);
    let first: Vec<u128> = db.get_pending_sync(10).iter().map(|r| r.id).collect();
    let count_first = db.count_pending_sync();
    db.mark_as_synced(&vec![2, 77]);
    let second: Vec<u128> = db.get_pending_sync(10).iter().map(|r| r.id).collect();
    assert_eq!(first, second);
    assert_eq!(count_first, db.count_pending_sync());
    assert_eq!(first, vec![1, 3]);
}

#[test]
fn a_synced_record_never_reappears_as_pending() {
    let mut db = Database::new();
    db.insert_reading(record("a", 1, 1_000)).unwrap();
    db.mark_as_synced(&vec![1]);
    assert!(db.get_pending_sync(10).is_empty());
    db.insert_reading(record("a", 2, 2_000)).unwrap();
    let ids: Vec<u128> = db.get_pending_sync(10).iter().map(|r| r.id).collect();
    assert_eq!(ids, vec![2]);
}

#[test]
fn purge_deletes_only_synced_records_strictly_older_than_the_cutoff() {
    let day = 86_400_000i64;
    let now = 10 * day;
    let mut db = Database::new();
    db.insert_reading(record("a", 1, 1 * day)).unwrap(); // old, stays pending
    db.insert_reading(record("a", 2, 2 * day)).unwrap(); // old, will be synced
    db.insert_reading(record("a", 3, 3 * day)).unwrap(); // exactly at cutoff, synced
    db.insert_reading(record("a", 4, 9 * day)).unwrap(); // recent, synced
    db.mark_as_synced(&vec![2, 3, 4]);
    // keep 7 days: cutoff is 3 * day
    let removed = db.cleanup_old_synced(7, now);
    assert_eq!(removed, 1);
    // the pending record survives regardless of age
    let pending: Vec<u128> = db.get_pending_sync(10).iter().map(|r| r.id).collect();
    assert_eq!(pending, vec![1]);
    // the synced record at the cutoff is not strictly older: it stays
    let recent: Vec<u128> = db.get_recent_readings(&"a".to_string(), 10).iter().map(|r| r.id).collect();
    assert_eq!(recent, vec![4, 3, 1]);
}

#[test]
fn purge_of_ancient_pending_records_is_a_no_op() {
    let mut db = Database::new();
    db.insert_reading(record("a", 1, 0)).unwrap();
    let removed = db.cleanup_old_synced(0, 1_000_000_000);
    assert_eq!(removed, 0);
    assert_eq!(db.count_pending_sync(), 1);
}

#[test]
fn recent_filters_by_device_newest_first() {
    let mut db = Database::new();
    db.insert_reading(record("a", 1, 1_000)).unwrap();
    db.insert_reading(record("b", 2, 2_000)).unwrap();
    db.insert_reading(record("a", 3, 3_000)).unwrap();
    db.insert_reading(record("a", 4, 4_000)).unwrap();
    let recent: Vec<u128> =
        db.get_recent_readings(&"a".to_string(), 2).iter().map(|r| r.id).collect();
    assert_eq!(recent, vec![4, 3]);
    let all_a: Vec<u128> =
        db.get_recent_readings(&"a".to_string(), 10).iter().map(|r| r.id).collect();
    assert_eq!(all_a, vec![4, 3, 1]);
    assert!(db.get_recent_readings(&"c".to_string(), 10).is_empty());
}

#[test]
fn queried_records_carry_the_stored_content() {
    let mut db = Database::new();
    db.insert_reading(record("dev-7", 42, 1_234)).unwrap();
    let got = db.get_pending_sync(1);
    assert_eq!(got.len(), 1);
    assert_eq!(got[0].id, 42);
    assert_eq!(got[0].gateway_timestamp, 1_234);
    assert_eq!(got[0].header.device_id, "dev-7");
    assert_eq!(got[0].metrics.len(), 1);
    assert_eq!(got[0].metrics[0].measurement, "flow");
}

#[test]
fn a_snapshot_carries_every_row_with_its_sync_state() {
    let mut db = Database::new();
    db.insert_reading(record("a", 1, 1_000)).unwrap();
    db.insert_reading(record("b", 2, 2_000)).unwrap();
    db.mark_as_synced(&vec![1]);
    let rows = db.snapshot_rows();
    assert_eq!(rows.len(), 2);
    assert_eq!(rows[0].0.id, 1);
    assert!(rows[0].1);
    assert_eq!(rows[1].0.id, 2);
    assert!(!rows[1].1);
    assert_eq!(rows[1].0.header.device_id, "b");
}
