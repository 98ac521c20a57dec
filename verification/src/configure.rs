//! Settings of the services, and the defaults of those that may be left out.

use vstd::prelude::*;
use crate::text::owned;

verus! {

/// Topic names.
#[derive(Debug)]
pub struct KafkaTopics {
    pub orders: String,
    pub trades: String,
    pub balance_ops: Option<String>,
}

/// Message broker settings.
#[derive(Debug)]
pub struct KafkaConfig {
    pub broker: String,
    pub topics: KafkaTopics,
    pub group_id: String,
    pub linger_ms: String,
    pub fetch_wait_max_ms: String,
    pub session_timeout_ms: String,
    pub heartbeat_interval_ms: String,
    pub max_poll_interval_ms: String,
    pub socket_keepalive_enable: String,
}

/// Push-notification server settings.
#[derive(Debug)]
pub struct CentrifugoConfig {
    pub url: String,
    pub channel: String,
}

/// Socket ports of the message queues.
#[derive(Debug)]
pub struct ZmqConfig {
    pub settlement_port: u16,
    pub market_data_port: u16,
}

/// Database cluster settings.
#[derive(Debug, Clone)]
pub struct ScyllaDbConfig {
    pub hosts: Vec<String>,
    pub keyspace: String,
    pub replication_factor: u32,
    pub connection_timeout_ms: u64,
    pub request_timeout_ms: u64,
}

/// Settings of a service.
#[derive(Debug)]
pub struct AppConfig {
    pub log_file: String,
    pub log_level: String,
    pub log_to_file: bool,
    pub centrifugo: CentrifugoConfig,
    pub kafka: KafkaConfig,
    pub enable_local_wal: bool,
    pub zeromq: Option<ZmqConfig>,
    pub scylladb: Option<ScyllaDbConfig>,
    pub data_dir: String,
    pub backup_csv_file: String,
    pub failed_trades_file: String,
}

/// Database connection timeout when none is set: five seconds.
pub fn default_connection_timeout() -> (res: u64)
    ensures
        res == 5000,
{
    5000
}

/// Database request timeout when none is set: three seconds.
pub fn default_request_timeout() -> (res: u64)
    ensures
        res == 3000,
{
    3000
}

/// Log level when none is set.
pub fn default_log_level() -> (res: String)
    ensures
        res@ == "info"@,
{
    owned("info")
}

/// Logs go to a file unless told otherwise.
pub fn default_log_to_file() -> (res: bool)
    ensures
        res,
{
    true
}

/// Data directory when none is set.
pub fn default_data_dir() -> (res: String)
    ensures
        res@ == "./data"@,
{
    owned("./data")
}

} // verus!
