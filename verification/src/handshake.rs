//! The packets of the handshake, as bytes.
//!
//! A handshake packet is the byte of its type and a body:
//!
//! * challenge request: the client's timestamp, eight bytes;
//! * challenge response: the server's tick, two bytes; the timestamp; a
//!   digest of 32 bytes;
//! * connect request: the timestamp; the digest; then, if the client has
//!   one, the wire id of its authentication event and the event's bytes;
//! * connect response: nothing.

use crate::packet_type::PacketType;
use crate::standard_header::{spec_connectionless_bytes, write_connectionless_payload};
use crate::wire::{
    extend, lemma_u16_round_trip, lemma_u64_round_trip, read_u16_at, read_u64_at, spec_read_u16,
    spec_read_u64, u16_bytes, u64_bytes, write_u16, write_u64,
};
use vstd::prelude::*;
use vstd::slice::slice_subrange;
use vstd::slice::slice_to_vec;

verus! {

/// The number of bytes of a digest.
pub const DIGEST_BYTES: usize = 32;

/// What a challenge response says.
pub struct ChallengeResponse {
    pub server_tick: u16,
    pub timestamp: u64,
    pub digest: Seq<u8>,
}

/// What a connect request says.
pub struct ConnectRequest {
    pub timestamp: u64,
    pub digest: Seq<u8>,
    /// The wire id and bytes of the authentication event; empty for none.
    pub auth: Seq<u8>,
}

/// The bytes of a challenge request.
pub open spec fn spec_challenge_request(timestamp: u64) -> Seq<u8> {
    spec_connectionless_bytes(PacketType::ClientChallengeRequest, u64_bytes(timestamp))
}

/// The bytes of a challenge response.
pub open spec fn spec_challenge_response(response: ChallengeResponse) -> Seq<u8> {
    spec_connectionless_bytes(
        PacketType::ServerChallengeResponse,
        u16_bytes(response.server_tick) + u64_bytes(response.timestamp) + response.digest,
    )
}

/// The bytes of a connect request.
pub open spec fn spec_connect_request(request: ConnectRequest) -> Seq<u8> {
    spec_connectionless_bytes(
        PacketType::ClientConnectRequest,
        u64_bytes(request.timestamp) + request.digest + request.auth,
    )
}

/// The bytes of a connect response.
pub open spec fn spec_connect_response() -> Seq<u8> {
    spec_connectionless_bytes(PacketType::ServerConnectResponse, Seq::empty())
}

/// The timestamp of the challenge request `packet`; nothing where `packet`
/// is not of that type or too short.
pub open spec fn spec_parse_challenge_request(packet: Seq<u8>) -> Option<u64> {
    if packet.len() >= 9 && packet[0] == PacketType::ClientChallengeRequest.spec_to_u8() {
        spec_read_u64(packet, 1)
    } else {
        None
    }
}

/// What the challenge response `packet` says; nothing where `packet` is not
/// of that type or too short.
pub open spec fn spec_parse_challenge_response(packet: Seq<u8>) -> Option<ChallengeResponse> {
    if packet.len() >= 43 && packet[0] == PacketType::ServerChallengeResponse.spec_to_u8() {
        Some(
            ChallengeResponse {
                server_tick: spec_read_u16(packet, 1).unwrap(),
                timestamp: spec_read_u64(packet, 3).unwrap(),
                digest: packet.subrange(11, 43),
            },
        )
    } else {
        None
    }
}

/// What the connect request `packet` says; nothing where `packet` is not of
/// that type or too short.
pub open spec fn spec_parse_connect_request(packet: Seq<u8>) -> Option<ConnectRequest> {
    if packet.len() >= 41 && packet[0] == PacketType::ClientConnectRequest.spec_to_u8() {
        Some(
            ConnectRequest {
                timestamp: spec_read_u64(packet, 1).unwrap(),
                digest: packet.subrange(9, 41),
                auth: packet.skip(41),
            },
        )
    } else {
        None
    }
}

/// The challenge request with the timestamp `timestamp`.
pub fn write_challenge_request(timestamp: u64) -> (packet: Vec<u8>)
    ensures
        packet@ == spec_challenge_request(timestamp),
{
    let mut body: Vec<u8> = Vec::new();
    write_u64(&mut body, timestamp);
    assert(body@ =~= u64_bytes(timestamp));
    write_connectionless_payload(PacketType::ClientChallengeRequest, body.as_slice())
}

/// The challenge response with the given contents.
pub fn write_challenge_response(server_tick: u16, timestamp: u64, digest: &[u8]) -> (packet: Vec<
    u8,
>)
    ensures
        packet@ == spec_challenge_response(
            ChallengeResponse { server_tick, timestamp, digest: digest@ },
        ),
{
    let mut body: Vec<u8> = Vec::new();
    write_u16(&mut body, server_tick);
    write_u64(&mut body, timestamp);
    extend(&mut body, digest);
    assert(body@ =~= u16_bytes(server_tick) + u64_bytes(timestamp) + digest@);
    write_connectionless_payload(PacketType::ServerChallengeResponse, body.as_slice())
}

/// The connect request with the given contents.
pub fn write_connect_request(timestamp: u64, digest: &[u8], auth: &[u8]) -> (packet: Vec<u8>)
    ensures
        packet@ == spec_connect_request(
            ConnectRequest { timestamp, digest: digest@, auth: auth@ },
        ),
{
    let mut body: Vec<u8> = Vec::new();
    write_u64(&mut body, timestamp);
    extend(&mut body, digest);
    extend(&mut body, auth);
    assert(body@ =~= u64_bytes(timestamp) + digest@ + auth@);
    write_connectionless_payload(PacketType::ClientConnectRequest, body.as_slice())
}

/// The connect response.
pub fn write_connect_response() -> (packet: Vec<u8>)
    ensures
        packet@ == spec_connect_response(),
{
    let body: Vec<u8> = Vec::new();
    assert(body@ =~= Seq::<u8>::empty());
    write_connectionless_payload(PacketType::ServerConnectResponse, body.as_slice())
}

/// Reads a challenge request.
pub fn read_challenge_request(packet: &[u8]) -> (timestamp: Option<u64>)
    ensures
        timestamp == spec_parse_challenge_request(packet@),
{
    if packet.len() >= 9 && packet[0] == PacketType::ClientChallengeRequest.to_u8() {
        read_u64_at(packet, 1)
    } else {
        None
    }
}

/// Reads a challenge response: the server's tick, the timestamp and the
/// digest.
pub fn read_challenge_response(packet: &[u8]) -> (response: Option<(u16, u64, Vec<u8>)>)
    ensures
        match response {
            Some((server_tick, timestamp, digest)) => spec_parse_challenge_response(packet@)
                == Some(ChallengeResponse { server_tick, timestamp, digest: digest@ }),
            None => spec_parse_challenge_response(packet@).is_none(),
        },
{
    if packet.len() >= 43 && packet[0] == PacketType::ServerChallengeResponse.to_u8() {
        let server_tick = read_u16_at(packet, 1).unwrap();
        let timestamp = read_u64_at(packet, 3).unwrap();
        let digest = slice_to_vec(slice_subrange(packet, 11, 43));
        Some((server_tick, timestamp, digest))
    } else {
        None
    }
}

/// Reads a connect request: the timestamp, the digest, and what follows
/// them.
pub fn read_connect_request(packet: &[u8]) -> (request: Option<(u64, Vec<u8>, Vec<u8>)>)
    ensures
        match request {
            Some((timestamp, digest, auth)) => spec_parse_connect_request(packet@) == Some(
                ConnectRequest { timestamp, digest: digest@, auth: auth@ },
            ),
            None => spec_parse_connect_request(packet@).is_none(),
        },
{
    if packet.len() >= 41 && packet[0] == PacketType::ClientConnectRequest.to_u8() {
        let timestamp = read_u64_at(packet, 1).unwrap();
        let digest = slice_to_vec(slice_subrange(packet, 9, 41));
        let auth = slice_to_vec(slice_subrange(packet, 41, packet.len()));
        assert(auth@ =~= packet@.skip(41));
        Some((timestamp, digest, auth))
    } else {
        None
    }
}

/// A challenge request is read back as written.
pub proof fn lemma_challenge_request_round_trip(timestamp: u64)
    ensures
        spec_parse_challenge_request(spec_challenge_request(timestamp)) == Some(timestamp),
{
    let packet = spec_challenge_request(timestamp);
    assert(packet.subrange(1, 9) =~= u64_bytes(timestamp));
    lemma_u64_round_trip(packet, 1, timestamp);
}

/// A challenge response with a digest of 32 bytes is read back as written.
pub proof fn lemma_challenge_response_round_trip(response: ChallengeResponse)
    requires
        response.digest.len() == 32,
    ensures
        spec_parse_challenge_response(spec_challenge_response(response)) == Some(response),
{
    let packet = spec_challenge_response(response);
    assert(packet.subrange(1, 3) =~= u16_bytes(response.server_tick));
    lemma_u16_round_trip(packet, 1, response.server_tick);
    assert(packet.subrange(3, 11) =~= u64_bytes(response.timestamp));
    lemma_u64_round_trip(packet, 3, response.timestamp);
    assert(packet.subrange(11, 43) =~= response.digest);
}

/// A connect request with a digest of 32 bytes is read back as written.
pub proof fn lemma_connect_request_round_trip(request: ConnectRequest)
    requires
        request.digest.len() == 32,
    ensures
        spec_parse_connect_request(spec_connect_request(request)) == Some(request),
{
    let packet = spec_connect_request(request);
    assert(packet.subrange(1, 9) =~= u64_bytes(request.timestamp));
    lemma_u64_round_trip(packet, 1, request.timestamp);
    assert(packet.subrange(9, 41) =~= request.digest);
    assert(packet.skip(41) =~= request.auth);
}

} // verus!
