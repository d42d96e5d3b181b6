//! Timing parameters of a connection.

use vstd::prelude::*;

verus! {

/// Contains the properties that a server or a client uses to run a
/// connection. All durations are in milliseconds.
#[derive(Clone, Copy, Debug)]
pub struct ConnectionConfig {
    /// How long to wait for any packet from the remote host before the
    /// connection counts as lost.
    pub disconnection_timeout_duration: u64,
    /// How long to stay silent before sending a heartbeat, so that the remote
    /// host does not give the connection up.
    pub heartbeat_interval: u64,
    /// The interval at which to ping the remote host to measure the round
    /// trip.
    pub ping_interval: u64,
    /// The number of round-trip samples that the average and the jitter are
    /// taken over.
    pub ping_sample_size: u8,
}

impl ConnectionConfig {
    /// Creates a new ConnectionConfig, used to initialize a connection.
    pub fn new(
        disconnection_timeout_duration: u64,
        heartbeat_interval: u64,
        ping_interval: u64,
        ping_sample_size: u8,
    ) -> (config: Self)
        ensures
            config == (ConnectionConfig {
                disconnection_timeout_duration,
                heartbeat_interval,
                ping_interval,
                ping_sample_size,
            }),
    {
        ConnectionConfig {
            disconnection_timeout_duration,
            heartbeat_interval,
            ping_interval,
            ping_sample_size,
        }
    }
}

impl Default for ConnectionConfig {
    /// Ten seconds until disconnection, a heartbeat after four seconds of
    /// silence, a ping every second, twenty samples.
    fn default() -> (config: Self)
        ensures
            config == (ConnectionConfig {
                disconnection_timeout_duration: 10_000,
                heartbeat_interval: 4_000,
                ping_interval: 1_000,
                ping_sample_size: 20,
            }),
    {
        ConnectionConfig {
            disconnection_timeout_duration: 10_000,
            heartbeat_interval: 4_000,
            ping_interval: 1_000,
            ping_sample_size: 20,
        }
    }
}

} // verus!
