//! Gateway configuration, held as plain values.

use vstd::prelude::*;

verus! {

/// Configuration of the gateway process. The adapters load it at start
/// and share one instance for the life of the process.
#[derive(Debug)]
pub struct Config {
    /// Unique identifier of this edge gateway.
    pub gateway_id: String,
    /// User identity used toward the remote collector.
    pub user_uuid: String,
    /// Where the local store lives.
    pub database_url: String,
    /// Base address of the remote collector.
    pub cloud_service_url: String,
    /// Credential toward the remote collector.
    pub cloud_api_key: String,
    /// How many pending records trigger and bound one sync cycle.
    pub cloud_sync_batch_size: u32,
    /// Period of the sync timer, in seconds.
    pub cloud_sync_interval_secs: u64,
    /// How many days synced records are kept locally.
    pub data_retention_days: i64,
    /// Host of the local broker the sensors publish to.
    pub mqtt_broker_host: String,
    /// Port of the local broker.
    pub mqtt_broker_port: u16,
    /// Client identity on the local broker.
    pub mqtt_client_id: String,
    /// Credentials on the local broker, when required.
    pub mqtt_username: Option<String>,
    /// Password on the local broker, when required.
    pub mqtt_password: Option<String>,
    /// Port of the request listener.
    pub http_port: Option<u16>,
    /// Host of the remote broker the gateway uploads to.
    pub cloud_mqtt_broker_host: String,
    /// Port of the remote broker.
    pub cloud_mqtt_broker_port: u16,
    /// Client identity on the remote broker.
    pub cloud_mqtt_client_id: String,
    /// Credentials on the remote broker, when required.
    pub cloud_mqtt_username: Option<String>,
    /// Password on the remote broker, when required.
    pub cloud_mqtt_password: Option<String>,
    /// Topic the outbound payloads are published under.
    pub cloud_mqtt_topic: String,
}

} // verus!
