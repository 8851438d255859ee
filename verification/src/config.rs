//! Startup configuration carried by the bridge.
//!
//! These records hold the plain values the routing engine needs: the broker
//! address, the base topic under which chat traffic is published, and the
//! chat channel identifiers the handlers notify.  Loading them from disk or
//! from the environment is the embedding application's business.

use vstd::prelude::*;

verus! {

/// Broker port used when the configuration names none.
pub const DEFAULT_MQTT_PORT: u16 = 1883;

/// The port a broker connection uses when the configuration leaves it out.
pub fn default_mqtt_port() -> (port: u16)
    ensures
        port == DEFAULT_MQTT_PORT,
{
    DEFAULT_MQTT_PORT
}

/// Connection settings for the message broker.
#[derive(Debug, Clone)]
pub struct MqttConfig {
    /// Base topic under which chat-originated traffic is published and
    /// chat-bound relay topics are consumed.
    pub base_route: String,
    pub broker_host: String,
    pub broker_port: u16,
    pub client_id: String,
}

/// Credentials for the chat platform.
#[derive(Debug, Clone)]
pub struct DiscordConfig {
    pub token: String,
}

/// Chat destinations for the home-automation notifications.
#[derive(Debug, Clone)]
pub struct HomeSettings {
    pub notification_discord_channel: u64,
    pub spam_channel_id: u64,
}

/// The whole startup configuration.
#[derive(Debug, Clone)]
pub struct AppConfig {
    pub mqtt: MqttConfig,
    pub discord: DiscordConfig,
    pub home: HomeSettings,
}

} // verus!
