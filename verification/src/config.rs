//! Configuration of a benchmark sweep, one section per transport.
//!
//! Where the values come from — a file, arguments — is the driver's
//! business; the engine only consumes them.

use crate::schedule::ScheduleConfig;
use vstd::prelude::*;

verus! {

/// The whole configuration: one section per transport the harness knows.
#[derive(Debug, Clone)]
pub struct Config {
    /// The MQTT section.
    pub mqtt: MqttConfig,
    /// The WebSocket section.
    pub websocket: WebsocketConfig,
    /// The raw TCP section.
    pub tcp: TcpConfig,
    /// The OPC UA section.
    pub opcua: OpcuaConfig,
}

/// What an MQTT sweep needs: the broker, the ramp, the payload size and
/// the two topics the echo runs over.
#[derive(Debug, Clone)]
pub struct MqttConfig {
    /// The broker's address.
    pub address: String,
    /// The ramp the sweep drives.
    pub schedule: ScheduleConfig,
    /// The size, in bytes, of each payload.
    pub message_size: usize,
    /// The topic messages go out on.
    pub topic_send: String,
    /// The topic echoes come back on.
    pub topic_recv: String,
}

/// What a WebSocket sweep needs.
#[derive(Debug, Clone)]
pub struct WebsocketConfig {
    /// The echo server's address.
    pub address: String,
    /// The ramp the sweep drives.
    pub schedule: ScheduleConfig,
    /// The size, in bytes, of each payload.
    pub message_size: usize,
}

/// What a raw TCP sweep needs.
#[derive(Debug, Clone)]
pub struct TcpConfig {
    /// The echo server's address.
    pub address: String,
    /// The ramp the sweep drives.
    pub schedule: ScheduleConfig,
    /// The size, in bytes, of each payload.
    pub message_size: usize,
}

/// What an OPC UA sweep needs.
#[derive(Debug, Clone)]
pub struct OpcuaConfig {
    /// The server's address.
    pub address: String,
    /// The ramp the sweep drives.
    pub schedule: ScheduleConfig,
    /// The size, in bytes, of each payload.
    pub message_size: usize,
}

} // verus!
