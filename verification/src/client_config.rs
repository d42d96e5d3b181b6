//! What a client is set up with.

use vstd::prelude::*;

verus! {

/// The timing of a client. All durations are in milliseconds.
#[derive(Clone, Copy, Debug)]
pub struct ClientConfig {
    /// How long to wait for any packet from the server before the connection
    /// counts as lost.
    pub disconnection_timeout_duration: u64,
    /// How long to stay silent before sending a heartbeat.
    pub heartbeat_interval: u64,
    /// The interval at which to ping the server.
    pub ping_interval: u64,
    /// The number of round-trip samples that the average is taken over.
    pub ping_sample_size: u8,
    /// How long to wait for the server's answer before sending a handshake
    /// packet again.
    pub send_handshake_interval: u64,
}

impl Default for ClientConfig {
    /// Ten seconds until disconnection, a heartbeat after four seconds of
    /// silence, a ping every second over twenty samples, a handshake packet
    /// every second.
    fn default() -> (config: Self)
        ensures
            config == (ClientConfig {
                disconnection_timeout_duration: 10_000,
                heartbeat_interval: 4_000,
                ping_interval: 1_000,
                ping_sample_size: 20,
                send_handshake_interval: 1_000,
            }),
    {
        ClientConfig {
            disconnection_timeout_duration: 10_000,
            heartbeat_interval: 4_000,
            ping_interval: 1_000,
            ping_sample_size: 20,
            send_handshake_interval: 1_000,
        }
    }
}

/// What client and server must agree on.
#[derive(Clone, Copy, Debug)]
pub struct SharedConfig {
    /// The length of a tick in milliseconds. It is also the time over which
    /// an entity is shown to reach a new state.
    pub tick_interval: u64,
}

impl SharedConfig {
    pub fn new(tick_interval: u64) -> (config: Self)
        ensures
            config == (SharedConfig { tick_interval }),
    {
        SharedConfig { tick_interval }
    }
}

} // verus!
