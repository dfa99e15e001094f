//! The enrichment pipeline: derived metrics, anomaly rules, quality.

use edge_gateway::edge_processor::{
    comfort_level_milli, detect_anomaly, dew_point_milli, find_humidity, find_temperature,
    heat_index_milli, process_reading_at,
};
use edge_gateway::edge_processor::EdgeProcessor;
use edge_gateway::models::{
    IssueKind, MetricValue, SensorDataInput, SensorHeader, SensorMetric,
};
use std::sync::Arc;

fn metric(name: &str, value: MetricValue) -> SensorMetric {
    SensorMetric { measurement: name.to_string(), value }
}

fn finite(name: &str, milli: i64) -> SensorMetric {
    metric(name, MetricValue::Finite(milli))
}

fn reading(metrics: Vec<SensorMetric>) -> SensorDataInput {
    SensorDataInput {
        header: SensorHeader {
            user_uuid: None,
            device_id: "dev-1".to_string(),
            location: "lab".to_string(),
            topic: "sensors/dev-1/data".to_string(),
            should_requeue: false,
        },
        metrics,
    }
}

#[test]
fn heat_stress_reading_is_enriched_cleanly() {
    // temperature 35 C with 70 % humidity: heat index well above the
    // temperature, no anomaly, full quality score
    let input = reading(vec![finite("temperature", 35_000), finite("humidity", 70_000)]);
    let rec = process_reading_at(input, 7, 1_700_000_000_000);
    let hi = rec.computed.heat_index.expect("heat index expected");
    assert!(hi > 35_000);
    assert!(!rec.computed.is_anomaly);
    assert_eq!(rec.quality.score, 100);
    assert!(rec.quality.issues.is_empty());
    assert!(!rec.quality.corrected);
    assert_eq!(rec.id, 7);
    assert_eq!(rec.gateway_timestamp, 1_700_000_000_000);
    assert_eq!(rec.metadata.metrics_count, 2);
    assert_eq!(rec.metadata.measurement_types, vec!["temperature", "humidity"]);
}

#[test]
fn heat_index_below_threshold_is_the_temperature() {
    // 26.666 C is below 80 F, so the regression does not apply
    assert_eq!(heat_index_milli(26_666, 50_000), 26_666);
    assert_eq!(heat_index_milli(20_000, 90_000), 20_000);
    assert_eq!(heat_index_milli(-5_000, 40_000), -5_000);
}

#[test]
fn heat_index_above_threshold_differs_from_the_temperature() {
    // 26.667 C is at the 80 F threshold: the polynomial takes over
    assert_ne!(heat_index_milli(26_667, 50_000), 26_667);
    assert_ne!(heat_index_milli(35_000, 70_000), 35_000);
    let hi = heat_index_milli(32_000, 80_000);
    // muggy 32 C feels far hotter
    assert!(hi > 38_000);
}

#[test]
fn dew_point_stays_below_temperature_and_meets_it_at_saturation() {
    let dp = dew_point_milli(20_000, 50_000).expect("below saturation");
    // Magnus gives about 9.25 C at 20 C and 50 %
    assert!(dp > 9_100 && dp < 9_400, "dew point {dp}");
    assert!(dp <= 20_000);
    assert_eq!(dew_point_milli(20_000, 100_000), Some(20_000));
    assert_eq!(dew_point_milli(-5_000, 100_000), Some(-5_000));
    // a few spot checks of the ordering over the domain
    for &(t, rh) in
        &[(30_000i64, 99_999i64), (0, 50_000), (-10_000, 80_000), (45_000, 10_000), (1_000, 1)]
    {
        let dp = dew_point_milli(t, rh).expect("below saturation");
        assert!(dp <= t, "dew point above temperature for {t} {rh}");
    }
}

#[test]
fn supersaturated_air_has_a_dew_point_above_the_temperature() {
    // 20 C at 150 % humidity: Magnus gives about 26.7 C
    let dp = dew_point_milli(20_000, 150_000).expect("supersaturated but computable");
    assert!(dp > 20_000);
    assert!(dp > 26_400 && dp < 27_000, "dew point {dp}");
    // the whole record carries it too
    let input = reading(vec![finite("temperature", 20_000), finite("humidity", 150_000)]);
    let rec = process_reading_at(input, 9, 0);
    assert_eq!(rec.computed.dew_point, Some(dp));
    assert!(rec.computed.heat_index.is_some());
    assert!(rec.computed.comfort_level.is_some());
}

#[test]
fn the_dew_point_is_absent_only_past_the_pole_of_the_inversion() {
    // a physically absurd pair past the pole of the inversion: very hot
    // and a thousandfold supersaturated
    assert_eq!(dew_point_milli(100_000_000, 100_000_000), None);
    // warm supersaturated air stays well within the domain
    assert!(dew_point_milli(35_000, 100_000_000).is_some());
}

#[test]
fn comfort_level_is_scored_and_clamped() {
    // ideal band
    assert_eq!(comfort_level_milli(22_000, 50_000), 100_000);
    // 35 C at 70 %: temperature sub-score -15, humidity sub-score 60
    assert_eq!(comfort_level_milli(35_000, 70_000), 15_000);
    // extreme values clamp to the scale, never outside [0, 100]
    for &(t, h) in &[
        (1_000_000_000_000i64, 50_000i64),
        (-1_000_000_000_000, 50_000),
        (22_000, 1_000_000_000_000),
        (22_000, -1_000_000_000_000),
        (25_000, 65_000),
    ] {
        let c = comfort_level_milli(t, h);
        assert!((0..=100_000).contains(&c), "comfort {c} out of scale for {t} {h}");
    }
}

#[test]
fn derived_metrics_absent_without_both_readings() {
    let only_temp = reading(vec![finite("temperature", 21_000)]);
    let rec = process_reading_at(only_temp, 1, 0);
    assert!(rec.computed.heat_index.is_none());
    assert!(rec.computed.dew_point.is_none());
    assert!(rec.computed.comfort_level.is_none());

    let unrelated = reading(vec![finite("voltage", 12_000)]);
    let rec = process_reading_at(unrelated, 2, 0);
    assert!(rec.computed.heat_index.is_none());
    assert!(rec.computed.comfort_level.is_none());
}

#[test]
fn metric_names_match_ignoring_ascii_case() {
    let input = vec![finite("Temperature", 19_000), finite("HUMIDITY", 55_000)];
    assert_eq!(find_temperature(&input), Some(0));
    assert_eq!(find_humidity(&input), Some(1));
    let es = vec![finite("Humedad", 55_000)];
    assert_eq!(find_humidity(&es), Some(0));
    assert_eq!(find_temperature(&es), None);
}

#[test]
fn threshold_rules_flag_anomalies() {
    // temperature outside [-10, 50]
    assert!(detect_anomaly(&vec![finite("temperature", 55_000)]));
    assert!(detect_anomaly(&vec![finite("temperature", -11_000)]));
    // humidity outside [10, 95]
    assert!(detect_anomaly(&vec![finite("humidity", 5_000)]));
    assert!(detect_anomaly(&vec![finite("humidity", 96_000)]));
    // per-kind ranges
    assert!(detect_anomaly(&vec![finite("distance", -1)]));
    assert!(detect_anomaly(&vec![finite("distancia", 10_000_001)]));
    assert!(detect_anomaly(&vec![finite("voltage", 50_001)]));
    assert!(detect_anomaly(&vec![finite("voltaje", -1)]));
    // any unclassified metric beyond 10000 units
    assert!(detect_anomaly(&vec![finite("pressure", 10_000_001)]));
    assert!(detect_anomaly(&vec![finite("pressure", -10_000_001)]));
    // non-finite values
    assert!(detect_anomaly(&vec![metric("pressure", MetricValue::NotANumber)]));
    assert!(detect_anomaly(&vec![metric("pressure", MetricValue::PosInfinite)]));
    // a calm reading
    assert!(!detect_anomaly(&vec![
        finite("temperature", 21_000),
        finite("humidity", 45_000),
        finite("voltage", 12_000),
        finite("distance", 2_000_000),
        finite("pressure", 9_999_999),
    ]));
}

#[test]
fn quality_deducts_for_each_condition() {
    // empty metric set: -50 and an issue
    let rec = process_reading_at(reading(vec![]), 1, 0);
    assert_eq!(rec.quality.score, 50);
    assert_eq!(rec.quality.issues.len(), 1);
    assert_eq!(rec.quality.issues[0].kind, IssueKind::NoMetrics);

    // a NaN metric: anomalous (-25) plus the NaN deduction (-30)
    let rec = process_reading_at(reading(vec![metric("flow", MetricValue::NotANumber)]), 2, 0);
    assert_eq!(rec.quality.score, 45);
    assert!(rec.quality.issues.iter().any(|i| i.kind == IssueKind::AnomalousReading));
    assert!(
        rec.quality.issues.iter().any(
            |i| i.kind == IssueKind::NanValue && i.measurement.as_deref() == Some("flow"),
        )
    );

    // an infinite metric counts like a NaN one
    let rec = process_reading_at(reading(vec![metric("flow", MetricValue::NegInfinite)]), 3, 0);
    assert_eq!(rec.quality.score, 45);
    assert!(rec.quality.issues.iter().any(|i| i.kind == IssueKind::InfiniteValue));

    // a blank location costs 10 more
    let mut input = reading(vec![metric("flow", MetricValue::NotANumber)]);
    input.header.location = "   ".to_string();
    let rec = process_reading_at(input, 4, 0);
    assert_eq!(rec.quality.score, 35);
    assert!(rec.quality.issues.iter().any(|i| i.kind == IssueKind::BlankLocation));
}

#[test]
fn quality_never_drops_below_zero() {
    // many NaN metrics would deduct far more than 100
    let metrics: Vec<SensorMetric> =
        (0..10).map(|i| metric(&format!("m{i}"), MetricValue::NotANumber)).collect();
    let rec = process_reading_at(reading(metrics), 1, 0);
    assert_eq!(rec.quality.score, 0);
}

#[test]
fn quality_is_monotone_in_the_conditions() {
    let clean = process_reading_at(reading(vec![finite("flow", 1_000)]), 1, 0);
    let one_nan = process_reading_at(
        reading(vec![finite("flow", 1_000), metric("aux", MetricValue::NotANumber)]),
        2,
        0,
    );
    let two_nan = process_reading_at(
        reading(vec![
            finite("flow", 1_000),
            metric("aux", MetricValue::NotANumber),
            metric("aux2", MetricValue::NotANumber),
        ]),
        3,
        0,
    );
    assert!(clean.quality.score >= one_nan.quality.score);
    assert!(one_nan.quality.score >= two_nan.quality.score);
}

#[test]
fn measurement_types_list_distinct_names_once() {
    let rec = process_reading_at(
        reading(vec![finite("flow", 1), finite("flow", 2), finite("pressure", 3)]),
        1,
        0,
    );
    // every metric counts, each distinct name appears once
    assert_eq!(rec.metadata.metrics_count, 3);
    assert_eq!(rec.metadata.measurement_types, vec!["flow", "pressure"]);
    // names differing in case are distinct names
    let rec = process_reading_at(
        reading(vec![finite("Flow", 1), finite("flow", 2)]),
        2,
        0,
    );
    assert_eq!(rec.metadata.measurement_types, vec!["Flow", "flow"]);
}

#[test]
fn stats_snapshot_names_every_metric() {
    let rec =
        process_reading_at(reading(vec![finite("temperature", 21_000), finite("flow", 5)]), 1, 0);
    assert_eq!(rec.computed.stats.len(), 2);
    assert_eq!(rec.computed.stats[0].measurement, "temperature_current");
    assert_eq!(rec.computed.stats[0].value, MetricValue::Finite(21_000));
    assert_eq!(rec.computed.stats[1].measurement, "flow_current");
}

fn test_config() -> edge_gateway::config::Config {
    edge_gateway::config::Config {
        gateway_id: "gateway-1".to_string(),
        user_uuid: "user-1".to_string(),
        database_url: "local".to_string(),
        cloud_service_url: "http://cloud.example".to_string(),
        cloud_api_key: "key".to_string(),
        cloud_sync_batch_size: 50,
        cloud_sync_interval_secs: 300,
        data_retention_days: 7,
        mqtt_broker_host: "localhost".to_string(),
        mqtt_broker_port: 1883,
        mqtt_client_id: "gw".to_string(),
        mqtt_username: None,
        mqtt_password: None,
        http_port: Some(3000),
        cloud_mqtt_broker_host: "cloud-broker".to_string(),
        cloud_mqtt_broker_port: 1883,
        cloud_mqtt_client_id: "gw-cloud".to_string(),
        cloud_mqtt_username: None,
        cloud_mqtt_password: None,
        cloud_mqtt_topic: "device/messages".to_string(),
    }
}

#[test]
fn the_processor_assigns_identifiers_and_keeps_batch_order() {
    let processor = EdgeProcessor::new(Arc::new(test_config()));
    let one = processor.process_reading(reading(vec![finite("temperature", 21_000)]));
    let two = processor.process_reading(reading(vec![finite("temperature", 22_000)]));
    assert_ne!(one.id, two.id);
    let batch = processor.process_batch(vec![
        reading(vec![finite("temperature", 21_000)]),
        reading(vec![finite("voltage", 60_000)]),
    ]);
    assert_eq!(batch.len(), 2);
    assert!(!batch[0].computed.is_anomaly);
    assert!(batch[1].computed.is_anomaly);
}
