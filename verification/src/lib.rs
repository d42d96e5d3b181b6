//! A client/server networking runtime for real-time applications that
//! replicate state over an unreliable datagram channel.
//!
//! The crate holds the protocol logic of both hosts: framing, the account of
//! packets sent and acknowledged, the queues of events, the handshake, and
//! the entities that a server puts in the scope of its clients. Sockets and
//! clocks stay with the caller, who hands in datagrams and the current time
//! and sends the packets that come back.

pub mod ack_manager;
pub mod client_config;
pub mod client_connection;
pub mod client_tick_manager;
pub mod connection;
pub mod connection_config;
pub mod delivery;
pub mod entities;
pub mod events;
pub mod example;
pub mod handshake;
pub mod interpolation_manager;
pub mod manifest;
pub mod naia_client;
pub mod packet_reader;
pub mod packet_type;
pub mod packet_writer;
pub mod ping_manager;
pub mod sequence;
pub mod server_connection;
pub mod server_handshake;
pub mod standard_header;
pub mod timer;
pub mod wire;
