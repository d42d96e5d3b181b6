//! The server's side of the handshake: it signs the client's timestamp and
//! admits only a client that returns the signature.

use crate::entities::entity_type::EntityType;
use crate::events::event_type::{event_record, EventRecord, EventType};
use crate::handshake::{
    lemma_connect_request_round_trip, read_challenge_request, read_connect_request,
    spec_challenge_response, spec_connect_request, spec_connect_response,
    spec_parse_challenge_request, spec_parse_connect_request, write_challenge_response,
    write_connect_response, ChallengeResponse, ConnectRequest,
};
use crate::manifest::Manifest;
use crate::packet_type::PacketType;
use crate::standard_header::{peek_packet_type, spec_peek_packet_type};
use crate::wire::{
    bytes_equal, extend, lemma_u16_round_trip, read_u16_at, spec_read_u16, u16_bytes, u64_bytes,
    write_u64,
};
use vstd::slice::slice_subrange;
use hmac::{Hmac, Mac};
use sha2::Sha256;
use vstd::prelude::*;

verus! {

/// The HMAC-SHA256 code of `message` under `key`, as the `hmac` and `sha2`
/// crates compute it.
pub uninterp spec fn hmac_sha256(key: Seq<u8>, message: Seq<u8>) -> Seq<u8>;

/// Calls `Hmac::<Sha256>::new_from_slice`, `Mac::update` and
/// `Mac::finalize` of the `hmac` crate. Trusted: the result is the code of
/// `message` under `key`, a function of the two alone, and has the 32 bytes
/// of a SHA-256 output. The key may have any length.
#[verifier::external_body]
fn sign(key: &[u8], message: &[u8]) -> (digest: Vec<u8>)
    ensures
        digest@ == hmac_sha256(key@, message@),
        digest@.len() == 32,
{
    let mut mac = Hmac::<Sha256>::new_from_slice(key).expect("a key of any size is accepted");
    mac.update(message);
    mac.finalize().into_bytes().to_vec()
}

/// Why the server turns a client away.
#[derive(Clone, Copy, Debug, PartialEq, Eq, Structural)]
pub enum HandshakeError {
    /// The packet is not what its type promises.
    Malformed,
    /// The digest is not the one the server gave for this address and
    /// timestamp.
    AuthFailed,
}

/// What the server signs: the client's timestamp and address.
pub open spec fn spec_challenge_message(timestamp: u64, address: Seq<u8>) -> Seq<u8> {
    u64_bytes(timestamp) + address
}

/// The digest that proves a client at `address` was given `timestamp` back
/// by the holder of `secret`.
pub open spec fn spec_digest(secret: Seq<u8>, timestamp: u64, address: Seq<u8>) -> Seq<u8> {
    hmac_sha256(secret, spec_challenge_message(timestamp, address))
}

/// The server's verdict on a connect request of a client at `address`: the
/// bytes of the client's authentication event where the digest is the
/// server's own for that address and timestamp.
pub open spec fn spec_connect_verdict(secret: Seq<u8>, address: Seq<u8>, packet: Seq<u8>) -> Result<
    Seq<u8>,
    HandshakeError,
> {
    match spec_parse_connect_request(packet) {
        Some(request) => if request.digest == spec_digest(secret, request.timestamp, address) {
            Ok(request.auth)
        } else {
            Err(HandshakeError::AuthFailed)
        },
        None => Err(HandshakeError::Malformed),
    }
}

/// What the server does about a packet of a sender that it has no
/// connection with.
pub enum HandshakeAction {
    /// Nothing: the packet is no handshake packet of a client, or it does
    /// not pass.
    Ignore,
    /// Send these bytes back.
    Reply(Vec<u8>),
    /// Take the sender on as a client, unless the application objects to its
    /// authentication event, whose bytes are `auth`; and send `reply` back.
    Admit { reply: Vec<u8>, auth: Vec<u8> },
}

/// What the action says, as mathematics.
pub enum HandshakeVerdict {
    Ignore,
    Reply(Seq<u8>),
    Admit { reply: Seq<u8>, auth: Seq<u8> },
}

impl View for HandshakeAction {
    type V = HandshakeVerdict;

    open spec fn view(&self) -> HandshakeVerdict {
        match self {
            HandshakeAction::Ignore => HandshakeVerdict::Ignore,
            HandshakeAction::Reply(reply) => HandshakeVerdict::Reply(reply@),
            HandshakeAction::Admit { reply, auth } => HandshakeVerdict::Admit {
                reply: reply@,
                auth: auth@,
            },
        }
    }
}

/// What a server with the secret `secret` and the tick `server_tick` does
/// about `packet` from a sender at `address` that it has no connection
/// with. A challenge request is answered with the digest of its timestamp
/// and the address. A connect request that returns the digest admits the
/// sender. Everything else is ignored: a packet that is no handshake packet
/// of a client, one that is cut short, and a connect request with another
/// digest than the server's own.
pub open spec fn spec_handshake_verdict(
    secret: Seq<u8>,
    address: Seq<u8>,
    server_tick: u16,
    packet: Seq<u8>,
) -> HandshakeVerdict {
    match spec_peek_packet_type(packet) {
        Some(PacketType::ClientChallengeRequest) => match spec_parse_challenge_request(packet) {
            Some(timestamp) => HandshakeVerdict::Reply(
                spec_challenge_response(
                    ChallengeResponse {
                        server_tick,
                        timestamp,
                        digest: spec_digest(secret, timestamp, address),
                    },
                ),
            ),
            None => HandshakeVerdict::Ignore,
        },
        Some(PacketType::ClientConnectRequest) => match spec_connect_verdict(
            secret,
            address,
            packet,
        ) {
            Ok(auth) => HandshakeVerdict::Admit { reply: spec_connect_response(), auth },
            Err(_) => HandshakeVerdict::Ignore,
        },
        _ => HandshakeVerdict::Ignore,
    }
}

/// What can be told of the authentication event that the bytes `auth` of a
/// connect request stand for: two bytes of wire id, then the event's bytes.
/// Nothing where there are no such bytes or the manifest builds no event
/// from them.
pub open spec fn spec_auth_event<T: EventType, U: EntityType>(
    manifest: &Manifest<T, U>,
    auth: Seq<u8>,
) -> Option<EventRecord> {
    match spec_read_u16(auth, 0) {
        Some(naia_id) => manifest.spec_create_event(naia_id, auth.skip(2)),
        None => None,
    }
}

/// Builds the authentication event of a connect request from its bytes, for
/// the application to judge.
pub fn read_auth_event<T: EventType, U: EntityType>(
    manifest: &Manifest<T, U>,
    auth: &[u8],
) -> (event: Option<T>)
    ensures
        match event {
            Some(built) => spec_auth_event(manifest, auth@) == Some(event_record(built)),
            None => spec_auth_event(manifest, auth@).is_none(),
        },
{
    match read_u16_at(auth, 0) {
        Some(naia_id) => {
            let payload = slice_subrange(auth, 2, auth.len());
            assert(payload@ =~= auth@.skip(2));
            manifest.create_event(naia_id, payload)
        },
        None => None,
    }
}

/// Holds the server's secret. The server keeps nothing about a client until
/// the client has proved, by returning a digest, that it receives what is
/// sent to its address.
pub struct HandshakeValidator {
    secret: Vec<u8>,
}

impl HandshakeValidator {
    /// The server's secret.
    pub closed spec fn secret(&self) -> Seq<u8> {
        self.secret@
    }

    /// A validator with the given secret, which should be random and live no
    /// longer than the server.
    pub fn new(secret: Vec<u8>) -> (validator: Self)
        ensures
            validator.secret() == secret@,
    {
        HandshakeValidator { secret }
    }

    /// The digest for a client at `address` that sent `timestamp`.
    pub fn digest(&self, timestamp: u64, address: &[u8]) -> (digest: Vec<u8>)
        ensures
            digest@ == spec_digest(self.secret(), timestamp, address@),
            digest@.len() == 32,
    {
        let mut message: Vec<u8> = Vec::new();
        write_u64(&mut message, timestamp);
        extend(&mut message, address);
        assert(message@ =~= spec_challenge_message(timestamp, address@));
        sign(self.secret.as_slice(), message.as_slice())
    }

    /// Answers the challenge request `packet` of a client at `address`: the
    /// server's tick, the client's timestamp, and the digest of timestamp
    /// and address. No answer to a packet that is no challenge request.
    pub fn process_challenge_request(
        &self,
        packet: &[u8],
        address: &[u8],
        server_tick: u16,
    ) -> (response: Option<Vec<u8>>)
        ensures
            match spec_parse_challenge_request(packet@) {
                Some(timestamp) => response matches Some(bytes) && bytes@
                    == spec_challenge_response(
                    ChallengeResponse {
                        server_tick,
                        timestamp,
                        digest: spec_digest(self.secret(), timestamp, address@),
                    },
                ),
                None => response.is_none(),
            },
    {
        match read_challenge_request(packet) {
            Some(timestamp) => {
                let digest = self.digest(timestamp, address);
                Some(write_challenge_response(server_tick, timestamp, digest.as_slice()))
            },
            None => None,
        }
    }

    /// Decides what to do about `packet` from a sender at `address` that the
    /// server has no connection with.
    pub fn process_packet(
        &self,
        packet: &[u8],
        address: &[u8],
        server_tick: u16,
    ) -> (action: HandshakeAction)
        ensures
            action@ == spec_handshake_verdict(self.secret(), address@, server_tick, packet@),
    {
        match peek_packet_type(packet) {
            Some(PacketType::ClientChallengeRequest) => {
                match self.process_challenge_request(packet, address, server_tick) {
                    Some(reply) => HandshakeAction::Reply(reply),
                    None => HandshakeAction::Ignore,
                }
            },
            Some(PacketType::ClientConnectRequest) => {
                match self.process_connect_request(packet, address) {
                    Ok(auth) => HandshakeAction::Admit { reply: write_connect_response(), auth },
                    Err(_) => HandshakeAction::Ignore,
                }
            },
            _ => HandshakeAction::Ignore,
        }
    }

    /// Judges the connect request `packet` of a client at `address`. The
    /// client is admitted only if the digest in the request is the one this
    /// server gives for that address and the timestamp in the request;
    /// admitted, the bytes of its authentication event are returned for the
    /// application to judge.
    pub fn process_connect_request(&self, packet: &[u8], address: &[u8]) -> (verdict: Result<
        Vec<u8>,
        HandshakeError,
    >)
        ensures
            match verdict {
                Ok(auth) => spec_connect_verdict(self.secret(), address@, packet@) == Ok::<
                    Seq<u8>,
                    HandshakeError,
                >(auth@),
                Err(error) => spec_connect_verdict(self.secret(), address@, packet@) == Err::<
                    Seq<u8>,
                    HandshakeError,
                >(error),
            },
    {
        match read_connect_request(packet) {
            Some((timestamp, digest, auth)) => {
                let expected = self.digest(timestamp, address);
                if bytes_equal(digest.as_slice(), expected.as_slice()) {
                    Ok(auth)
                } else {
                    Err(HandshakeError::AuthFailed)
                }
            },
            None => Err(HandshakeError::Malformed),
        }
    }
}

/// A connect request whose digest is not the one that the holder of
/// `secret` gives for the client's address and the request's timestamp is
/// never admitted.
pub proof fn lemma_wrong_digest_is_refused(secret: Seq<u8>, address: Seq<u8>, packet: Seq<u8>)
    requires
        spec_parse_connect_request(packet) matches Some(request) ==> request.digest != spec_digest(
            secret,
            request.timestamp,
            address,
        ),
    ensures
        spec_connect_verdict(secret, address, packet).is_err(),
{
}

/// The server takes on no sender whose packet does not return the digest
/// that the server gives for the sender's address and the timestamp in the
/// packet.
pub proof fn lemma_no_admission_without_the_digest(
    secret: Seq<u8>,
    address: Seq<u8>,
    server_tick: u16,
    packet: Seq<u8>,
)
    ensures
        spec_handshake_verdict(secret, address, server_tick, packet) is Admit ==> {
            &&& spec_parse_connect_request(packet) matches Some(request)
            &&& request.digest == spec_digest(secret, request.timestamp, address)
        },
{
}

/// The authentication event that a client writes into its connect request is
/// the one that the server reads from it: of the same kind, as guaranteed,
/// and with the same bytes.
pub proof fn lemma_auth_event_round_trip<T: EventType, U: EntityType>(
    manifest: &Manifest<T, U>,
    event: T,
)
    requires
        manifest.wf(),
        manifest.spec_event_naia_id(event.spec_type_id()).is_some(),
    ensures
        spec_auth_event(
            manifest,
            u16_bytes(manifest.spec_event_naia_id(event.spec_type_id()).unwrap())
                + event.spec_payload(),
        ) == Some(event_record(event)),
{
    let naia_id = manifest.spec_event_naia_id(event.spec_type_id()).unwrap();
    let auth = u16_bytes(naia_id) + event.spec_payload();
    assert(auth.subrange(0, 2) =~= u16_bytes(naia_id));
    lemma_u16_round_trip(auth, 0, naia_id);
    assert(auth.skip(2) =~= event.spec_payload());
    let types = manifest.event_types();
    let place = types.index_of(event.spec_type_id());
    assert(types.contains(event.spec_type_id()));
    assert(0 <= place < types.len() && types[place] == event.spec_type_id());
    event.lemma_build_inverts_write();
}

/// A client that returns what the server sent it is admitted: the connect
/// request built from the digest of the server's challenge response passes,
/// the digest being, as every digest is, 32 bytes long.
pub proof fn lemma_honest_client_is_admitted(
    secret: Seq<u8>,
    address: Seq<u8>,
    timestamp: u64,
    auth: Seq<u8>,
)
    ensures
        spec_digest(secret, timestamp, address).len() == 32 ==> spec_connect_verdict(
            secret,
            address,
            spec_connect_request(
                ConnectRequest {
                    timestamp,
                    digest: spec_digest(secret, timestamp, address),
                    auth,
                },
            ),
        ) == Ok::<Seq<u8>, HandshakeError>(auth),
{
    if spec_digest(secret, timestamp, address).len() == 32 {
        lemma_connect_request_round_trip(
            ConnectRequest {
                timestamp,
                digest: spec_digest(secret, timestamp, address),
                auth,
            },
        );
    }
}

} // verus!
