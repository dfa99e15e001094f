//! The synchronizer: partial success, payload building, the trigger.

use edge_gateway::cloud_sync::{
    apply_sync_results, build_cloud_payload, should_trigger_sync,
};
use edge_gateway::database::Database;
use edge_gateway::edge_processor::process_reading_at;
use edge_gateway::models::{
    MetricValue, ProcessedSensorData, SensorDataInput, SensorHeader, SensorMetric,
};

fn record(id: u128, ts: i64) -> ProcessedSensorData {
    let input = SensorDataInput {
        header: SensorHeader {
            user_uuid: None,
            device_id: "dev-1".to_string(),
            location: "lab".to_string(),
            topic: "sensors/dev-1/data".to_string(),
            should_requeue: true,
        },
        metrics: vec![
            SensorMetric { measurement: "temperature".to_string(), value: MetricValue::Finite(21_000) },
            SensorMetric { measurement: "humidity".to_string(), value: MetricValue::Finite(45_000) },
        ],
    };
    process_reading_at(input, id, ts)
}

#[test]
fn partial_success_marks_exactly_the_delivered_records() {
    // ten queued pending records, batch size five, message three fails
    let mut db = Database::new();
    for i in 0..10u128 {
        db.insert_reading(record(i + 1, 1_000 + i as i64)).unwrap();
    }
    let batch = db.get_pending_sync(5);
    assert_eq!(batch.len(), 5);
    let outcomes = vec![true, true, false, true, true];
    let report = apply_sync_results(&mut db, &batch, &outcomes);
    assert_eq!(report.attempted, 5);
    assert_eq!(report.sent, 4);
    assert_eq!(report.failed, 1);
    assert!(!report.is_success());
    // exactly four of the five fetched ids became synced
    assert_eq!(db.count_pending_sync(), 6);
    let still_pending: Vec<u128> = db.get_pending_sync(100).iter().map(|r| r.id).collect();
    assert_eq!(still_pending, vec![3, 6, 7, 8, 9, 10]);
}

#[test]
fn a_fully_delivered_cycle_reports_success() {
    let mut db = Database::new();
    for i in 0..3u128 {
        db.insert_reading(record(i + 1, 1_000 + i as i64)).unwrap();
    }
    let batch = db.get_pending_sync(5);
    let report = apply_sync_results(&mut db, &batch, &vec![true, true, true]);
    assert!(report.is_success());
    assert_eq!(report.sent, 3);
    assert_eq!(db.count_pending_sync(), 0);
}

#[test]
fn a_fully_failed_cycle_marks_nothing() {
    let mut db = Database::new();
    for i in 0..3u128 {
        db.insert_reading(record(i + 1, 1_000 + i as i64)).unwrap();
    }
    let batch = db.get_pending_sync(5);
    let report = apply_sync_results(&mut db, &batch, &vec![false, false, false]);
    assert!(!report.is_success());
    assert_eq!(report.sent, 0);
    assert_eq!(db.count_pending_sync(), 3);
}

#[test]
fn an_empty_cycle_is_a_no_op_success() {
    let mut db = Database::new();
    let batch = db.get_pending_sync(5);
    assert!(batch.is_empty());
    let report = apply_sync_results(&mut db, &batch, &vec![]);
    assert!(report.is_success());
    assert_eq!(report.attempted, 0);
}

#[test]
fn retrying_after_a_failure_can_deliver_the_rest() {
    let mut db = Database::new();
    for i in 0..2u128 {
        db.insert_reading(record(i + 1, 1_000 + i as i64)).unwrap();
    }
    let batch = db.get_pending_sync(5);
    apply_sync_results(&mut db, &batch, &vec![false, true]);
    // the next cycle re-reads the still-pending record
    let batch = db.get_pending_sync(5);
    let ids: Vec<u128> = batch.iter().map(|r| r.id).collect();
    assert_eq!(ids, vec![1]);
    let report = apply_sync_results(&mut db, &batch, &vec![true]);
    assert!(report.is_success());
    assert_eq!(db.count_pending_sync(), 0);
}

#[test]
fn payload_carries_the_gateway_identity_and_flattened_metrics() {
    let rec = record(1, 55_000);
    let user = "user-uuid-1".to_string();
    let gw = "gateway-9".to_string();
    let payload = build_cloud_payload(&rec, &user, &gw, 66_000);
    assert_eq!(payload.header.user_uuid, "user-uuid-1");
    assert_eq!(payload.header.gateway_id, "gateway-9");
    assert_eq!(payload.header.device_id, "dev-1");
    assert_eq!(payload.header.location, "lab");
    assert!(payload.header.should_requeue);
    assert_eq!(payload.sent_at, 66_000);
    // two original metrics, three derived ones, and the quality score
    assert_eq!(payload.metrics.len(), 6);
    assert_eq!(payload.metrics[0].measurement, "temperature");
    assert_eq!(payload.metrics[1].measurement, "humidity");
    assert_eq!(payload.metrics[2].measurement, "HeatIndex");
    assert_eq!(payload.metrics[2].value, MetricValue::Finite(21_000));
    assert_eq!(payload.metrics[3].measurement, "DewPoint");
    assert_eq!(payload.metrics[4].measurement, "ComfortLevel");
    assert_eq!(payload.metrics[5].measurement, "QualityScore");
    assert_eq!(payload.metrics[5].value, MetricValue::Finite(100_000));
    assert_eq!(payload.quality.score, 100);
}

#[test]
fn payload_omits_derived_metrics_that_were_not_computed() {
    let input = SensorDataInput {
        header: SensorHeader {
            user_uuid: None,
            device_id: "d".to_string(),
            location: "l".to_string(),
            topic: "t".to_string(),
            should_requeue: false,
        },
        metrics: vec![SensorMetric {
            measurement: "voltage".to_string(),
            value: MetricValue::Finite(12_000),
        }],
    };
    let rec = process_reading_at(input, 2, 0);
    let payload = build_cloud_payload(&rec, &"u".to_string(), &"g".to_string(), 0);
    // just the original metric and the quality score
    assert_eq!(payload.metrics.len(), 2);
    assert_eq!(payload.metrics[1].measurement, "QualityScore");
}

#[test]
fn the_threshold_trigger_fires_at_the_batch_size() {
    assert!(!should_trigger_sync(0, 5));
    assert!(!should_trigger_sync(4, 5));
    assert!(should_trigger_sync(5, 5));
    assert!(should_trigger_sync(6, 5));
    assert!(should_trigger_sync(0, 0));
}
