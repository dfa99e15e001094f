//! Core of an edge gateway for sensor telemetry.
//!
//! Raw readings arrive as a header plus a list of named metrics. The
//! enrichment pipeline derives heat index, dew point and a comfort level,
//! flags anomalous readings and scores data quality; enriched records are
//! buffered in a local queue tagged pending or synced, and a synchronizer
//! decides when and how batches leave for the remote collector.
//!
//! Metric values are fixed-point: a finite value is stored in thousandths
//! of its unit (milli-units), and the non-finite shapes a sensor can send
//! are explicit variants.

pub mod cloud_sync;
pub mod config;
pub mod database;
pub mod edge_processor;
pub mod ingest;
pub mod math;
pub mod models;
pub mod mqtt_handler;
pub mod query;
pub mod runtime;
pub mod text;
