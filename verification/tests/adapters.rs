//! The two ingestion adapters: validation, the shared pipeline, topics.

use edge_gateway::database::Database;
use edge_gateway::edge_processor::EdgeProcessor;
use edge_gateway::ingest::{
    ingest_batch, ingest_batch_at, ingest_reading, ingest_reading_at, validate_reading,
    IngestError, ValidationError,
};
use edge_gateway::models::{
    MetricValue, SensorDataBatch, SensorDataInput, SensorHeader, SensorMetric,
};
use std::sync::Arc;
use edge_gateway::mqtt_handler::{
    handle_broker_batch_at, handle_broker_reading_at, parse_topic, response_topic, TopicKind,
};
use edge_gateway::query::default_limit;

fn finite(name: &str, milli: i64) -> SensorMetric {
    SensorMetric { measurement: name.to_string(), value: MetricValue::Finite(milli) }
}

fn reading(device: &str, location: &str, metrics: Vec<SensorMetric>) -> SensorDataInput {
    SensorDataInput {
        header: SensorHeader {
            user_uuid: None,
            device_id: device.to_string(),
            location: location.to_string(),
            topic: "sensors/x/data".to_string(),
            should_requeue: false,
        },
        metrics,
    }
}

#[test]
fn validation_rejects_each_structural_fault() {
    let ok = reading("dev", "lab", vec![finite("t", 1)]);
    assert_eq!(validate_reading(&ok), Ok(()));

    let blank_dev = reading("  ", "lab", vec![finite("t", 1)]);
    assert_eq!(validate_reading(&blank_dev), Err(ValidationError::BlankDeviceId));
    let empty_dev = reading("", "lab", vec![finite("t", 1)]);
    assert_eq!(validate_reading(&empty_dev), Err(ValidationError::BlankDeviceId));

    let long_dev = reading(&"d".repeat(51), "lab", vec![finite("t", 1)]);
    assert_eq!(validate_reading(&long_dev), Err(ValidationError::DeviceIdTooLong));

    let blank_loc = reading("dev", " \t ", vec![finite("t", 1)]);
    assert_eq!(validate_reading(&blank_loc), Err(ValidationError::BlankLocation));

    let long_loc = reading("dev", &"l".repeat(201), vec![finite("t", 1)]);
    assert_eq!(validate_reading(&long_loc), Err(ValidationError::LocationTooLong));

    let no_metrics = reading("dev", "lab", vec![]);
    assert_eq!(validate_reading(&no_metrics), Err(ValidationError::NoMetrics));

    let blank_name = reading("dev", "lab", vec![finite("", 1)]);
    assert_eq!(validate_reading(&blank_name), Err(ValidationError::BlankMeasurement));

    let long_name = reading("dev", "lab", vec![finite(&"m".repeat(101), 1)]);
    assert_eq!(validate_reading(&long_name), Err(ValidationError::MeasurementTooLong));
}

#[test]
fn a_rejected_reading_never_reaches_the_store() {
    let mut db = Database::new();
    let r = ingest_reading_at(&mut db, reading("", "lab", vec![finite("t", 1)]), 1, 0, 5);
    assert_eq!(r.unwrap_err(), IngestError::Validation(ValidationError::BlankDeviceId));
    assert_eq!(db.count_pending_sync(), 0);
}

#[test]
fn an_accepted_reading_is_stored_pending() {
    let mut db = Database::new();
    let out = ingest_reading_at(
        &mut db,
        reading("dev", "lab", vec![finite("temperature", 21_000)]),
        1,
        500,
        5,
    )
    .unwrap();
    assert_eq!(out.record.id, 1);
    assert_eq!(out.pending_count, 1);
    assert!(!out.trigger_sync);
    assert_eq!(db.count_pending_sync(), 1);
    assert_eq!(db.get_pending_sync(10)[0].id, 1);
}

#[test]
fn a_nan_reading_is_accepted_with_a_degraded_score() {
    // a malformed numeric value is captured, not rejected
    let mut db = Database::new();
    let input = reading(
        "dev",
        "lab",
        vec![SensorMetric { measurement: "flow".to_string(), value: MetricValue::NotANumber }],
    );
    let out = ingest_reading_at(&mut db, input, 1, 0, 5).unwrap();
    assert!(out.record.quality.score <= 70);
    assert!(out.record.quality.issues.iter().any(
        |i| i.kind == edge_gateway::models::IssueKind::NanValue,
    ));
    // the record persisted all the same
    assert_eq!(db.count_pending_sync(), 1);
}

#[test]
fn the_trigger_fires_as_soon_as_the_backlog_reaches_the_batch_size() {
    let mut db = Database::new();
    let out =
        ingest_reading_at(&mut db, reading("d", "l", vec![finite("t", 1)]), 1, 100, 2).unwrap();
    assert_eq!(out.pending_count, 1);
    assert!(!out.trigger_sync);
    let out =
        ingest_reading_at(&mut db, reading("d", "l", vec![finite("t", 2)]), 2, 200, 2).unwrap();
    assert_eq!(out.pending_count, 2);
    assert!(out.trigger_sync);
}

#[test]
fn a_duplicate_identifier_leaves_the_store_unchanged() {
    let mut db = Database::new();
    ingest_reading_at(&mut db, reading("d", "l", vec![finite("t", 1)]), 1, 100, 5).unwrap();
    let r = ingest_reading_at(&mut db, reading("d", "l", vec![finite("t", 2)]), 1, 200, 5);
    assert!(matches!(r, Err(IngestError::Store(_))));
    assert_eq!(db.count_pending_sync(), 1);
}

#[test]
fn batch_ingestion_validates_its_size() {
    let mut db = Database::new();
    let r = ingest_batch_at(&mut db, vec![], &vec![], 0, 5);
    assert_eq!(r.unwrap_err(), IngestError::Validation(ValidationError::EmptyBatch));

    let readings: Vec<SensorDataInput> =
        (0..101).map(|_| reading("d", "l", vec![finite("t", 1)])).collect();
    let ids: Vec<u128> = (0..101).collect();
    let r = ingest_batch_at(&mut db, readings, &ids, 0, 5);
    assert_eq!(r.unwrap_err(), IngestError::Validation(ValidationError::BatchTooLarge));
    assert_eq!(db.count_pending_sync(), 0);
}

#[test]
fn batch_ingestion_reports_statistics_and_commits_atomically() {
    let mut db = Database::new();
    let readings = vec![
        reading("d", "l", vec![finite("temperature", 21_000), finite("humidity", 45_000)]),
        reading("d", "l", vec![finite("temperature", 99_000)]),
    ];
    let out = ingest_batch_at(&mut db, readings, &vec![1, 2], 1_000, 5).unwrap();
    assert_eq!(out.records.len(), 2);
    assert_eq!(out.anomalies_detected, 1);
    // scores: 100 and 75 (anomaly deduction)
    assert_eq!(out.total_quality, 175);
    assert_eq!(out.average_quality_milli, 87_500);
    assert_eq!(out.pending_count, 2);
    assert!(!out.trigger_sync);
}

#[test]
fn a_batch_with_one_bad_reading_is_rejected_whole() {
    let mut db = Database::new();
    let readings = vec![
        reading("d", "l", vec![finite("t", 1)]),
        reading("", "l", vec![finite("t", 1)]),
    ];
    let r = ingest_batch_at(&mut db, readings, &vec![1, 2], 0, 5);
    assert_eq!(r.unwrap_err(), IngestError::Validation(ValidationError::BlankDeviceId));
    assert_eq!(db.count_pending_sync(), 0);
}

#[test]
fn a_batch_with_a_duplicate_identifier_commits_nothing() {
    let mut db = Database::new();
    let readings = vec![
        reading("d", "l", vec![finite("t", 1)]),
        reading("d", "l", vec![finite("t", 2)]),
    ];
    let r = ingest_batch_at(&mut db, readings, &vec![7, 7], 0, 5);
    assert!(matches!(r, Err(IngestError::Store(_))));
    assert_eq!(db.count_pending_sync(), 0);
}

#[test]
fn topics_parse_into_device_and_kind() {
    let p = parse_topic("sensors/dev-42/data").unwrap();
    assert_eq!(p.device_id, "dev-42");
    assert_eq!(p.kind, TopicKind::Data);

    let p = parse_topic("sensors/esp32/batch").unwrap();
    assert_eq!(p.device_id, "esp32");
    assert_eq!(p.kind, TopicKind::Batch);

    let p = parse_topic("a/b/c").unwrap();
    assert_eq!(p.device_id, "b");
    assert_eq!(p.kind, TopicKind::Other);

    // a fourth segment does not change the kind segment
    let p = parse_topic("sensors/d/data/extra").unwrap();
    assert_eq!(p.device_id, "d");
    assert_eq!(p.kind, TopicKind::Data);

    assert!(parse_topic("no-separators").is_none());
    assert!(parse_topic("one/two").is_none());
    assert!(parse_topic("").is_none());
}

#[test]
fn acknowledgment_topics_are_derived_from_the_device() {
    assert_eq!(response_topic("dev-1", false), "sensors/dev-1/processed");
    assert_eq!(response_topic("dev-1", true), "sensors/dev-1/batch_processed");
}

#[test]
fn the_broker_path_overrides_the_claimed_device() {
    let mut db = Database::new();
    // the payload claims another device; the topic wins
    let input = reading("claimed", "lab", vec![finite("temperature", 21_000)]);
    let out =
        handle_broker_reading_at(&mut db, "from-topic".to_string(), input, 1, 500, 5).unwrap();
    assert_eq!(out.record.header.device_id, "from-topic");
    let stored = db.get_pending_sync(10);
    assert_eq!(stored[0].header.device_id, "from-topic");
}

#[test]
fn the_broker_batch_path_overrides_every_device_and_reports_stats() {
    let mut db = Database::new();
    let dev = "roof-7".to_string();
    let readings = vec![
        reading("x", "l", vec![finite("temperature", 21_000), finite("humidity", 45_000)]),
        reading("y", "l", vec![finite("voltage", 60_000)]),
    ];
    let out = handle_broker_batch_at(&mut db, &dev, readings, &vec![1, 2], 100, 2).unwrap();
    assert_eq!(out.records.len(), 2);
    assert!(out.records.iter().all(|r| r.header.device_id == "roof-7"));
    assert_eq!(out.anomalies_detected, 1);
    assert_eq!(out.pending_count, 2);
    assert!(out.trigger_sync);
    let stored = db.get_recent_readings(&dev, 10);
    assert_eq!(stored.len(), 2);
}

#[test]
fn a_broker_batch_with_a_duplicate_identifier_commits_nothing() {
    let mut db = Database::new();
    let dev = "roof-7".to_string();
    let readings = vec![
        reading("x", "l", vec![finite("t", 1)]),
        reading("y", "l", vec![finite("t", 2)]),
    ];
    let r = handle_broker_batch_at(&mut db, &dev, readings, &vec![5, 5], 100, 2);
    assert!(r.is_err());
    assert_eq!(db.count_pending_sync(), 0);
}

#[test]
fn the_broker_path_skips_structural_validation() {
    // a blank location would fail the request adapter; the broker path
    // stores it and lets the quality score carry the fault
    let mut db = Database::new();
    let input = reading("claimed", "   ", vec![finite("t", 1)]);
    let out = handle_broker_reading_at(&mut db, "dev".to_string(), input, 1, 0, 5).unwrap();
    assert_eq!(out.record.quality.score, 90);
    assert_eq!(db.count_pending_sync(), 1);
}

#[test]
fn the_default_query_limit_is_twenty() {
    assert_eq!(default_limit(), 20);
}

#[test]
fn the_request_adapter_path_uses_the_shared_pipeline() {
    let config = edge_gateway::config::Config {
        gateway_id: "gateway-1".to_string(),
        user_uuid: "user-1".to_string(),
        database_url: "local".to_string(),
        cloud_service_url: "http://cloud.example".to_string(),
        cloud_api_key: "key".to_string(),
        cloud_sync_batch_size: 1,
        cloud_sync_interval_secs: 300,
        data_retention_days: 7,
        mqtt_broker_host: "localhost".to_string(),
        mqtt_broker_port: 1883,
        mqtt_client_id: "gw".to_string(),
        mqtt_username: None,
        mqtt_password: None,
        http_port: None,
        cloud_mqtt_broker_host: "cloud-broker".to_string(),
        cloud_mqtt_broker_port: 1883,
        cloud_mqtt_client_id: "gw-cloud".to_string(),
        cloud_mqtt_username: None,
        cloud_mqtt_password: None,
        cloud_mqtt_topic: "device/messages".to_string(),
    };
    let processor = EdgeProcessor::new(Arc::new(config));
    let mut db = Database::new();
    let out = ingest_reading(
        &mut db,
        &processor,
        reading("dev", "lab", vec![finite("temperature", 21_000)]),
        1,
    )
    .unwrap();
    // batch size one: the very first ingest crosses the threshold
    assert!(out.trigger_sync);
    assert_eq!(db.count_pending_sync(), 1);
    let r = ingest_reading(&mut db, &processor, reading("", "lab", vec![finite("t", 1)]), 1);
    assert!(matches!(r, Err(IngestError::Validation(_))));
    assert_eq!(db.count_pending_sync(), 1);
}

#[test]
fn random_identifier_batches_commit_like_deterministic_ones() {
    let mut db = Database::new();
    let batch = SensorDataBatch {
        readings: vec![
            reading("d", "l", vec![finite("temperature", 21_000)]),
            reading("d", "l", vec![finite("temperature", 22_000)]),
        ],
    };
    let out = ingest_batch(&mut db, batch, 5).unwrap();
    assert_eq!(out.records.len(), 2);
    assert_eq!(out.pending_count, 2);
    assert_eq!(db.count_pending_sync(), 2);
}
