//! The client: it runs the handshake, keeps the connection alive, and hands
//! the application what the server sends.
//!
//! The client holds no socket and no clock. The caller asks it with `update`
//! what to send and whether there is news, sends the packets, and hands each
//! datagram that arrives to `process_packet`.

use crate::client_config::{ClientConfig, SharedConfig};
use crate::client_tick_manager::{ClientTickManager, TickView};
use crate::connection::{packets_view, ConnectionView, MAX_PACKETS_PER_UPDATE};
use crate::connection_config::ConnectionConfig;
use crate::entities::client_entity_manager::ClientScope;
use crate::entities::client_entity_message::ClientEntityMessage;
use crate::entities::entity_type::{entity_record, EntityType};
use crate::events::event_manager::EventManagerView;
use crate::events::event_type::EventType;
use crate::handshake::{
    read_challenge_response, spec_challenge_request, spec_connect_request,
    spec_parse_challenge_response, write_challenge_request, write_connect_request,
    ConnectRequest,
};
use crate::manifest::Manifest;
use crate::packet_type::PacketType;
use crate::server_connection::{spec_new_connection, ServerConnection, ServerConnectionView};
use crate::standard_header::{
    peek_packet_type, spec_header_bytes, spec_peek_packet_type, spec_read_header, StandardHeader,
};
use crate::timer::{spec_fire_time, Timer};
use crate::wire::{u16_bytes, write_u16};
use std::rc::Rc;
use vstd::prelude::*;

verus! {

/// Where the client stands in the handshake.
#[derive(Clone, Copy, Debug, PartialEq, Eq, Structural)]
pub enum ClientConnectionState {
    /// The client sends its timestamp and waits for the server's digest.
    AwaitingChallengeResponse,
    /// The client returns the digest and waits to be admitted.
    AwaitingConnectResponse,
    /// The server has admitted the client.
    Connected,
}

/// What the client has to tell the application.
pub enum ClientEvent<T> {
    /// The server has admitted the client.
    Connection,
    /// The connection to the server is lost.
    Disconnection,
    /// The server sent an event.
    Event(T),
    /// An entity came into scope under this key.
    CreateEntity(u16),
    /// The entity under this key changed.
    UpdateEntity(u16),
    /// The entity under this key left the scope.
    DeleteEntity(u16),
}

/// What `update` hands back: the packets to send, in order, and the news for
/// the application if there is any. Without news, the caller goes on to
/// read the socket.
pub struct ClientUpdate<T> {
    pub packets: Vec<Vec<u8>>,
    pub event: Option<ClientEvent<T>>,
}

/// What goes behind timestamp and digest in a connect request: the wire id
/// of the authentication event and the event's bytes. Nothing where there is
/// no such event, or the manifest does not know its kind.
pub open spec fn spec_auth_bytes<T: EventType, U: EntityType>(
    manifest: &Manifest<T, U>,
    auth: Option<T>,
) -> Seq<u8> {
    match auth {
        Some(event) => match manifest.spec_event_naia_id(event.spec_type_id()) {
            Some(naia_id) => u16_bytes(naia_id) + event.spec_payload(),
            None => Seq::empty(),
        },
        None => Seq::empty(),
    }
}

/// The connection and the packet after a heartbeat went out, if one is due
/// at the time `now`.
pub open spec fn spec_heartbeat<T: EventType>(connection: ServerConnectionView<T>, now: u64) -> (
    ServerConnectionView<T>,
    Seq<Seq<u8>>,
) {
    if connection.connection.should_send_heartbeat(now) {
        (
            ServerConnectionView {
                connection: ConnectionView {
                    ack: connection.connection.ack.mark_sent(PacketType::Heartbeat),
                    ..connection.connection
                },
                ..connection
            }.mark_sent(now),
            seq![
                spec_header_bytes(connection.connection.ack.outgoing_header(PacketType::Heartbeat)),
            ],
        )
    } else {
        (connection, Seq::empty())
    }
}

/// The connection and the data packets after at most `fuel` of them were
/// taken from the connection at the time `now`, one after the other until
/// there is nothing to send.
pub open spec fn spec_flush<T: EventType, U: EntityType>(
    connection: ServerConnectionView<T>,
    manifest: &Manifest<T, U>,
    now: u64,
    fuel: nat,
) -> (ServerConnectionView<T>, Seq<Seq<u8>>)
    decreases fuel,
{
    if fuel == 0 {
        (connection, Seq::empty())
    } else {
        match connection.outgoing_packet(manifest, now) {
            Some(packet) => {
                let rest = spec_flush(
                    connection.after_outgoing_packet(manifest, now).mark_sent(now),
                    manifest,
                    now,
                    (fuel - 1) as nat,
                );
                (rest.0, seq![packet] + rest.1)
            },
            None => (connection.after_outgoing_packet(manifest, now), Seq::empty()),
        }
    }
}

/// The news that the connection holds for the application, and the
/// connection without it: the oldest event received, or else the oldest
/// change of the scope.
pub open spec fn spec_next_event<T: EventType>(connection: ServerConnectionView<T>) -> (
    ServerConnectionView<T>,
    Option<ClientEvent<T>>,
) {
    if connection.connection.events.incoming.len() != 0 {
        (
            ServerConnectionView {
                connection: ConnectionView {
                    events: EventManagerView {
                        incoming: connection.connection.events.incoming.drop_first(),
                        ..connection.connection.events
                    },
                    ..connection.connection
                },
                ..connection
            },
            Some(ClientEvent::Event(connection.connection.events.incoming[0])),
        )
    } else if connection.scope.messages.len() != 0 {
        (
            ServerConnectionView {
                scope: ClientScope {
                    messages: connection.scope.messages.drop_first(),
                    ..connection.scope
                },
                ..connection
            },
            Some(
                match connection.scope.messages[0] {
                    ClientEntityMessage::Create(key) => ClientEvent::CreateEntity(key),
                    ClientEntityMessage::Update(key) => ClientEvent::UpdateEntity(key),
                    ClientEntityMessage::Delete(key) => ClientEvent::DeleteEntity(key),
                },
            ),
        )
    } else {
        (connection, None)
    }
}

/// What a `NaiaClient` holds, as mathematics.
pub struct NaiaClientView<T> {
    pub connection_config: ConnectionConfig,
    /// The connection, once the server has admitted the client.
    pub connection: Option<ServerConnectionView<T>>,
    /// The timestamp that the client opened the handshake with.
    pub timestamp: Option<u64>,
    /// The digest that the server answered with.
    pub digest: Option<Seq<u8>>,
    /// Rings when a handshake packet is due.
    pub handshake_timer: Timer,
    pub state: ClientConnectionState,
    /// The event that the client proves itself with, if any.
    pub auth: Option<T>,
    pub tick: TickView,
}

impl<T: EventType> NaiaClientView<T> {
    /// The client has a connection just when it counts as connected, the
    /// connection is in order, and a client that asks for the connection has
    /// the timestamp and the digest to ask with.
    pub open spec fn wf(self) -> bool {
        &&& self.state is Connected <==> self.connection.is_some()
        &&& self.connection matches Some(connection) ==> connection.wf()
        &&& self.state is AwaitingConnectResponse ==> self.timestamp.is_some()
            && self.digest.is_some()
    }

    /// The client after it lost its connection: the handshake starts over.
    pub open spec fn disconnected(self) -> Self {
        NaiaClientView {
            connection: None,
            timestamp: None,
            digest: None,
            state: ClientConnectionState::AwaitingChallengeResponse,
            ..self
        }
    }

    /// The timestamp of the handshake: the one taken before, or else `now`.
    pub open spec fn challenge_timestamp(self, now: u64) -> u64 {
        match self.timestamp {
            Some(timestamp) => timestamp,
            None => now,
        }
    }

    /// The handshake packet that is due at the time `now`, if any: the
    /// packet of the current state, each time the handshake timer rings.
    pub open spec fn handshake_packet<U: EntityType>(
        self,
        manifest: &Manifest<T, U>,
        now: u64,
    ) -> Option<Seq<u8>> {
        if !self.handshake_timer.spec_ringing(now) {
            None
        } else {
            match self.state {
                ClientConnectionState::AwaitingChallengeResponse => Some(
                    spec_challenge_request(self.challenge_timestamp(now)),
                ),
                ClientConnectionState::AwaitingConnectResponse => Some(
                    spec_connect_request(
                        ConnectRequest {
                            timestamp: self.timestamp.unwrap(),
                            digest: self.digest.unwrap(),
                            auth: spec_auth_bytes(manifest, self.auth),
                        },
                    ),
                ),
                ClientConnectionState::Connected => None,
            }
        }
    }

    /// The client after the handshake had its turn at the time `now`.
    pub open spec fn after_handshake_turn(self, now: u64) -> Self {
        if !self.handshake_timer.spec_ringing(now) {
            self
        } else {
            NaiaClientView {
                timestamp: if self.state is AwaitingChallengeResponse {
                    Some(self.challenge_timestamp(now))
                } else {
                    self.timestamp
                },
                handshake_timer: Timer {
                    interval: self.handshake_timer.interval,
                    next_fire: spec_fire_time(now, self.handshake_timer.interval),
                },
                ..self
            }
        }
    }

    /// What `update` does at the time `now`: the client afterwards, the
    /// packets to send, and the news.
    ///
    /// The tick moves on. A client without a connection sends the handshake
    /// packet that is due. A client whose server has been silent for too
    /// long gives the connection up and reports that. Otherwise a heartbeat
    /// goes out if one is due, then the data packets, and the oldest news of
    /// the connection is reported.
    pub open spec fn update<U: EntityType>(self, manifest: &Manifest<T, U>, now: u64) -> (
        Self,
        Seq<Seq<u8>>,
        Option<ClientEvent<T>>,
    ) {
        let ticked = NaiaClientView { tick: self.tick.update_frame(now), ..self };
        match self.connection {
            Some(connection) => if connection.connection.should_drop(now) {
                (ticked.disconnected(), Seq::empty(), Some(ClientEvent::Disconnection))
            } else {
                let beat = spec_heartbeat(connection, now);
                let flushed = spec_flush(beat.0, manifest, now, MAX_PACKETS_PER_UPDATE as nat);
                let next = spec_next_event(flushed.0);
                (
                    NaiaClientView { connection: Some(next.0), ..ticked },
                    beat.1 + flushed.1,
                    next.1,
                )
            },
            None => (
                ticked.after_handshake_turn(now),
                match ticked.handshake_packet(manifest, now) {
                    Some(packet) => seq![packet],
                    None => Seq::empty(),
                },
                None,
            ),
        }
    }

    /// What a packet does to a client without a connection, and the news it
    /// brings.
    ///
    /// A challenge response counts only while the client waits for one, and
    /// only if it returns the client's own timestamp: then the client keeps
    /// the digest, takes over the server's tick, and goes on to ask for the
    /// connection. A connect response counts only while the client waits for
    /// one: then the connection stands. Every other packet is passed over.
    pub open spec fn after_handshake_packet(self, packet: Seq<u8>, now: u64) -> (
        Self,
        Option<ClientEvent<T>>,
    ) {
        match spec_peek_packet_type(packet) {
            Some(PacketType::ServerChallengeResponse) => {
                if self.state is AwaitingChallengeResponse && self.timestamp.is_some() {
                    match spec_parse_challenge_response(packet) {
                        Some(response) => if response.timestamp == self.timestamp.unwrap() {
                            (
                                NaiaClientView {
                                    digest: Some(response.digest),
                                    tick: TickView { tick: response.server_tick, ..self.tick },
                                    state: ClientConnectionState::AwaitingConnectResponse,
                                    ..self
                                },
                                None,
                            )
                        } else {
                            (self, None)
                        },
                        None => (self, None),
                    }
                } else {
                    (self, None)
                }
            },
            Some(PacketType::ServerConnectResponse) => {
                if self.state is AwaitingConnectResponse {
                    (
                        NaiaClientView {
                            connection: Some(spec_new_connection(self.connection_config, now)),
                            state: ClientConnectionState::Connected,
                            ..self
                        },
                        Some(ClientEvent::Connection),
                    )
                } else {
                    (self, None)
                }
            },
            _ => (self, None),
        }
    }

    /// Whether `after` and `event` are what a packet that came in at the
    /// time `now` makes of a client with the connection `before`.
    ///
    /// The server counts as heard, whatever the packet. A handshake packet
    /// is passed over. A packet without a readable header ends the
    /// connection. Otherwise the header is taken in, and the body of a data
    /// packet goes to the managers.
    pub open spec fn connected_packet_outcome<U: EntityType>(
        self,
        before: ServerConnectionView<T>,
        after: Self,
        event: Option<ClientEvent<T>>,
        manifest: &Manifest<T, U>,
        packet: Seq<u8>,
        now: u64,
    ) -> bool {
        let heard = before.mark_heard(now);
        let connectionless = match spec_peek_packet_type(packet) {
            Some(packet_type) => packet_type.spec_is_connectionless(),
            None => false,
        };
        if connectionless {
            &&& after == (NaiaClientView { connection: Some(heard), ..self })
            &&& event.is_none()
        } else {
            match spec_read_header(packet) {
                None => {
                    &&& after == self.disconnected()
                    &&& event == Some(ClientEvent::<T>::Disconnection)
                },
                Some(header) => {
                    let processed = ServerConnectionView {
                        connection: heard.connection.process_incoming_header(header),
                        ..heard
                    };
                    &&& event.is_none()
                    &&& after.connection.is_some()
                    &&& after == (NaiaClientView { connection: after.connection, ..self })
                    &&& if header.p_type is Data {
                        processed.data_processed(
                            after.connection.unwrap(),
                            manifest,
                            packet.skip(9),
                            now,
                        )
                    } else {
                        after.connection.unwrap() == processed
                    }
                },
            }
        }
    }
}

/// Takes data packets from the connection until there is nothing to send or
/// the limit of one update is reached.
fn flush<T: EventType, U: EntityType>(
    connection: &mut ServerConnection<T, U>,
    manifest: &Manifest<T, U>,
    now: u64,
) -> (packets: Vec<Vec<u8>>)
    requires
        manifest.wf(),
        old(connection)@.wf(),
    ensures
        final(connection)@.wf(),
        (final(connection)@, packets_view(packets@)) == spec_flush(
            old(connection)@,
            manifest,
            now,
            MAX_PACKETS_PER_UPDATE as nat,
        ),
{
    let ghost target = spec_flush(connection@, manifest, now, MAX_PACKETS_PER_UPDATE as nat);
    let mut packets: Vec<Vec<u8>> = Vec::new();
    let mut count: usize = 0;
    let mut done = false;
    assert(packets_view(packets@) + target.1 =~= target.1);
    while count < MAX_PACKETS_PER_UPDATE && !done
        invariant
            manifest.wf(),
            connection@.wf(),
            count <= MAX_PACKETS_PER_UPDATE,
            done ==> target == (connection@, packets_view(packets@)),
            !done ==> target == ({
                let rest = spec_flush(
                    connection@,
                    manifest,
                    now,
                    (MAX_PACKETS_PER_UPDATE - count) as nat,
                );
                (rest.0, packets_view(packets@) + rest.1)
            }),
        decreases MAX_PACKETS_PER_UPDATE - count, (if done { 0int } else { 1int }),
    {
        let ghost before = packets_view(packets@);
        let ghost rest = spec_flush(
            connection@,
            manifest,
            now,
            (MAX_PACKETS_PER_UPDATE - count) as nat,
        );
        match connection.get_outgoing_packet(manifest, now) {
            Some(payload) => {
                connection.mark_sent(now);
                packets.push(payload);
                count += 1;
                proof {
                    let next = spec_flush(
                        connection@,
                        manifest,
                        now,
                        (MAX_PACKETS_PER_UPDATE - count) as nat,
                    );
                    assert(packets_view(packets@) =~= before.push(payload@));
                    assert(before + (seq![payload@] + next.1) =~= before.push(payload@) + next.1);
                }
            },
            None => {
                done = true;
                assert(before + Seq::<Seq<u8>>::empty() =~= before);
            },
        }
    }
    proof {
        if !done {
            assert(packets_view(packets@) + Seq::<Seq<u8>>::empty() =~= packets_view(packets@));
        }
    }
    packets
}

/// A client of a server. It can send and receive events, and holds the
/// entities that the server has put in its scope.
pub struct NaiaClient<T: EventType, U: EntityType> {
    manifest: Manifest<T, U>,
    connection_config: ConnectionConfig,
    server_connection: Option<ServerConnection<T, U>>,
    pre_connection_timestamp: Option<u64>,
    pre_connection_digest: Option<Vec<u8>>,
    handshake_timer: Timer,
    connection_state: ClientConnectionState,
    auth_event: Option<T>,
    tick_manager: ClientTickManager,
}

impl<T: EventType, U: EntityType> View for NaiaClient<T, U> {
    type V = NaiaClientView<T>;

    closed spec fn view(&self) -> NaiaClientView<T> {
        NaiaClientView {
            connection_config: self.connection_config,
            connection: match self.server_connection {
                Some(connection) => Some(connection@),
                None => None,
            },
            timestamp: self.pre_connection_timestamp,
            digest: match self.pre_connection_digest {
                Some(digest) => Some(digest@),
                None => None,
            },
            handshake_timer: self.handshake_timer,
            state: self.connection_state,
            auth: self.auth_event,
            tick: self.tick_manager@,
        }
    }
}

impl<T: EventType, U: EntityType> NaiaClient<T, U> {
    /// The manifest that the client reads and writes events and entities by.
    pub closed spec fn manifest(&self) -> Manifest<T, U> {
        self.manifest
    }

    /// The client is in order: its manifest is, and so is what it holds.
    pub open spec fn wf(&self) -> bool {
        self.manifest().wf() && self@.wf()
    }

    /// Creates a client at the time `now`, given a manifest that it shares
    /// with the server, its configuration, and the event that it proves
    /// itself to the server with, if any. The client starts without a
    /// connection, and its first handshake packet is due at once.
    pub fn new(
        manifest: Manifest<T, U>,
        client_config: Option<ClientConfig>,
        shared_config: SharedConfig,
        auth: Option<T>,
        now: u64,
    ) -> (client: Self)
        requires
            manifest.wf(),
        ensures
            client.wf(),
            client.manifest() == manifest,
            client@ == ({
                let config = match client_config {
                    Some(config) => config,
                    None => ClientConfig {
                        disconnection_timeout_duration: 10_000,
                        heartbeat_interval: 4_000,
                        ping_interval: 1_000,
                        ping_sample_size: 20,
                        send_handshake_interval: 1_000,
                    },
                };
                NaiaClientView {
                    connection_config: ConnectionConfig {
                        disconnection_timeout_duration: config.disconnection_timeout_duration,
                        heartbeat_interval: config.heartbeat_interval,
                        ping_interval: config.ping_interval,
                        ping_sample_size: config.ping_sample_size,
                    },
                    connection: None,
                    timestamp: None,
                    digest: None,
                    handshake_timer: Timer {
                        interval: config.send_handshake_interval,
                        next_fire: 0,
                    },
                    state: ClientConnectionState::AwaitingChallengeResponse,
                    auth,
                    tick: TickView {
                        tick_interval: shared_config.tick_interval,
                        tick: 0,
                        last_boundary: now,
                    },
                }
            }),
    {
        let client_config = match client_config {
            Some(config) => config,
            None => ClientConfig::default(),
        };
        let connection_config = ConnectionConfig::new(
            client_config.disconnection_timeout_duration,
            client_config.heartbeat_interval,
            client_config.ping_interval,
            client_config.ping_sample_size,
        );
        let mut handshake_timer = Timer::new(client_config.send_handshake_interval, now);
        handshake_timer.ring_manual();
        NaiaClient {
            manifest,
            connection_config,
            server_connection: None,
            pre_connection_timestamp: None,
            pre_connection_digest: None,
            handshake_timer,
            connection_state: ClientConnectionState::AwaitingChallengeResponse,
            auth_event: auth,
            tick_manager: ClientTickManager::new(shared_config.tick_interval, now),
        }
    }

    /// Forgets the connection and starts the handshake over.
    fn reset_connection(&mut self)
        ensures
            final(self)@ == old(self)@.disconnected(),
            final(self).manifest() == old(self).manifest(),
    {
        self.server_connection = None;
        self.pre_connection_timestamp = None;
        self.pre_connection_digest = None;
        self.connection_state = ClientConnectionState::AwaitingChallengeResponse;
    }

    /// The bytes of the authentication event for the connect request.
    fn auth_bytes(&self) -> (bytes: Vec<u8>)
        requires
            self.manifest().wf(),
        ensures
            bytes@ == spec_auth_bytes(&self.manifest(), self@.auth),
    {
        let mut bytes: Vec<u8> = Vec::new();
        match &self.auth_event {
            Some(auth_event) => {
                match self.manifest.get_event_naia_id(auth_event.get_type_id()) {
                    Some(naia_id) => {
                        write_u16(&mut bytes, naia_id);
                        auth_event.write(&mut bytes);
                        assert(bytes@ =~= u16_bytes(naia_id) + auth_event.spec_payload());
                    },
                    None => {},
                }
            },
            None => {},
        }
        bytes
    }

    /// The handshake's turn at the time `now`.
    fn handshake_turn(&mut self, now: u64) -> (packet: Option<Vec<u8>>)
        requires
            old(self).wf(),
            old(self)@.connection.is_none(),
        ensures
            final(self).wf(),
            final(self).manifest() == old(self).manifest(),
            final(self)@ == old(self)@.after_handshake_turn(now),
            match packet {
                Some(bytes) => old(self)@.handshake_packet(&old(self).manifest(), now) == Some(
                    bytes@,
                ),
                None => old(self)@.handshake_packet(&old(self).manifest(), now).is_none(),
            },
    {
        if !self.handshake_timer.ringing(now) {
            return None;
        }
        let packet = match self.connection_state {
            ClientConnectionState::AwaitingChallengeResponse => {
                let timestamp = match self.pre_connection_timestamp {
                    Some(timestamp) => timestamp,
                    None => now,
                };
                self.pre_connection_timestamp = Some(timestamp);
                Some(write_challenge_request(timestamp))
            },
            ClientConnectionState::AwaitingConnectResponse => {
                let auth = self.auth_bytes();
                let timestamp = match self.pre_connection_timestamp {
                    Some(timestamp) => timestamp,
                    None => now,
                };
                let packet = match &self.pre_connection_digest {
                    Some(digest) => write_connect_request(
                        timestamp,
                        digest.as_slice(),
                        auth.as_slice(),
                    ),
                    None => Vec::new(),
                };
                Some(packet)
            },
            ClientConnectionState::Connected => None,
        };
        self.handshake_timer.reset(now);
        packet
    }

    /// The first half of a step, to be called regularly: says at the time
    /// `now` which packets to send and whether there is news for the
    /// application. Where there is none, the caller reads the socket and
    /// hands what it finds to `process_packet`.
    pub fn update(&mut self, now: u64) -> (step: ClientUpdate<T>)
        requires
            old(self).wf(),
        ensures
            final(self).wf(),
            final(self).manifest() == old(self).manifest(),
            final(self)@ == old(self)@.update(&old(self).manifest(), now).0,
            packets_view(step.packets@) == old(self)@.update(&old(self).manifest(), now).1,
            step.event == old(self)@.update(&old(self).manifest(), now).2,
    {
        self.tick_manager.update_frame(now);
        match self.server_connection.take() {
            Some(mut connection) => {
                if connection.should_drop(now) {
                    self.reset_connection();
                    let packets: Vec<Vec<u8>> = Vec::new();
                    assert(packets_view(packets@) =~= Seq::<Seq<u8>>::empty());
                    return ClientUpdate { packets, event: Some(ClientEvent::Disconnection) };
                }
                let mut packets: Vec<Vec<u8>> = Vec::new();
                if connection.should_send_heartbeat(now) {
                    let nothing: Vec<u8> = Vec::new();
                    let heartbeat = connection.process_outgoing_header(
                        PacketType::Heartbeat,
                        nothing.as_slice(),
                    );
                    connection.mark_sent(now);
                    assert(heartbeat@ =~= spec_header_bytes(
                        old(self)@.connection.unwrap().connection.ack.outgoing_header(
                            PacketType::Heartbeat,
                        ),
                    ));
                    packets.push(heartbeat);
                    assert(packets_view(packets@) =~= seq![heartbeat@]);
                } else {
                    assert(packets_view(packets@) =~= Seq::<Seq<u8>>::empty());
                }
                let ghost first = packets_view(packets@);
                let mut data_packets = flush(&mut connection, &self.manifest, now);
                let ghost second = packets_view(data_packets@);
                packets.append(&mut data_packets);
                assert(packets_view(packets@) =~= first + second);
                let event = match connection.get_incoming_event() {
                    Some(event) => Some(ClientEvent::Event(event)),
                    None => match connection.get_incoming_entity_message() {
                        Some(ClientEntityMessage::Create(key)) => Some(
                            ClientEvent::CreateEntity(key),
                        ),
                        Some(ClientEntityMessage::Update(key)) => Some(
                            ClientEvent::UpdateEntity(key),
                        ),
                        Some(ClientEntityMessage::Delete(key)) => Some(
                            ClientEvent::DeleteEntity(key),
                        ),
                        None => None,
                    },
                };
                self.server_connection = Some(connection);
                ClientUpdate { packets, event }
            },
            None => {
                let mut packets: Vec<Vec<u8>> = Vec::new();
                match self.handshake_turn(now) {
                    Some(packet) => {
                        packets.push(packet);
                        assert(packets_view(packets@) =~= seq![packet@]);
                    },
                    None => {
                        assert(packets_view(packets@) =~= Seq::<Seq<u8>>::empty());
                    },
                }
                ClientUpdate { packets, event: None }
            },
        }
    }

    /// The second half of a step: takes in a datagram that arrived at the
    /// time `now`. Returns the news that the datagram brings at once, if
    /// any: that the connection stands, or that it is lost. What a data
    /// packet brings waits for the next `update`.
    pub fn process_packet(&mut self, now: u64, packet: &[u8]) -> (event: Option<ClientEvent<T>>)
        requires
            old(self).wf(),
        ensures
            final(self).wf(),
            final(self).manifest() == old(self).manifest(),
            old(self)@.connection.is_none() ==> (final(self)@, event) == old(
                self,
            )@.after_handshake_packet(packet@, now),
            old(self)@.connection matches Some(before) ==> old(self)@.connected_packet_outcome(
                before,
                final(self)@,
                event,
                &old(self).manifest(),
                packet@,
                now,
            ),
    {
        match self.server_connection.take() {
            Some(mut connection) => {
                connection.mark_heard(now);
                let connectionless = match peek_packet_type(packet) {
                    Some(packet_type) => packet_type.is_connectionless(),
                    None => false,
                };
                if connectionless {
                    self.server_connection = Some(connection);
                    return None;
                }
                match StandardHeader::read(packet) {
                    Some((header, payload)) => {
                        connection.process_incoming_header(&header);
                        match header.packet_type() {
                            PacketType::Data => {
                                connection.process_incoming_data(
                                    &self.manifest,
                                    payload.as_slice(),
                                    now,
                                );
                            },
                            _ => {},
                        }
                        self.server_connection = Some(connection);
                        None
                    },
                    None => {
                        self.reset_connection();
                        Some(ClientEvent::Disconnection)
                    },
                }
            },
            None => {
                match peek_packet_type(packet) {
                    Some(PacketType::ServerChallengeResponse) => {
                        match (self.connection_state, self.pre_connection_timestamp) {
                            (
                                ClientConnectionState::AwaitingChallengeResponse,
                                Some(my_timestamp),
                            ) => {
                                match read_challenge_response(packet) {
                                    Some((server_tick, payload_timestamp, digest)) => {
                                        if my_timestamp == payload_timestamp {
                                            self.pre_connection_digest = Some(digest);
                                            self.tick_manager.set_tick(server_tick);
                                            self.connection_state =
                                                ClientConnectionState::AwaitingConnectResponse;
                                        }
                                    },
                                    None => {},
                                }
                            },
                            _ => {},
                        }
                        None
                    },
                    Some(PacketType::ServerConnectResponse) => {
                        match self.connection_state {
                            ClientConnectionState::AwaitingConnectResponse => {
                                self.server_connection = Some(
                                    ServerConnection::new(&self.connection_config, now),
                                );
                                self.connection_state = ClientConnectionState::Connected;
                                Some(ClientEvent::Connection)
                            },
                            _ => None,
                        }
                    },
                    _ => None,
                }
            },
        }
    }

    /// Queues an event for the server. Says whether it did: without a
    /// connection there is nowhere to queue it.
    pub fn send_event(&mut self, event: T) -> (queued: bool)
        requires
            old(self).wf(),
        ensures
            final(self).wf(),
            final(self).manifest() == old(self).manifest(),
            queued == old(self)@.connection.is_some(),
            final(self)@ == (NaiaClientView {
                connection: match old(self)@.connection {
                    Some(connection) => Some(
                        ServerConnectionView {
                            connection: ConnectionView {
                                events: connection.connection.events.queue_outgoing(Rc::new(event)),
                                ..connection.connection
                            },
                            ..connection
                        },
                    ),
                    None => None,
                },
                ..old(self)@
            }),
    {
        match self.server_connection.take() {
            Some(mut connection) => {
                connection.queue_event(event);
                self.server_connection = Some(connection);
                true
            },
            None => false,
        }
    }

    /// The entity in scope under `key`; none without a connection.
    pub fn get_entity(&self, key: u16) -> (entity: Option<&U>)
        ensures
            match entity {
                Some(found) => self@.connection matches Some(connection)
                    && connection.scope.entities.contains_key(key)
                    && connection.scope.entities[key] == entity_record(*found),
                None => self@.connection matches Some(connection)
                    ==> !connection.scope.entities.contains_key(key),
            },
    {
        match &self.server_connection {
            Some(connection) => connection.get_local_entity(key),
            None => None,
        }
    }

    /// Where the client stands in the handshake.
    pub fn get_connection_state(&self) -> (state: ClientConnectionState)
        ensures
            state == self@.state,
    {
        self.connection_state
    }

    /// The current tick.
    pub fn get_tick(&self) -> (tick: u16)
        ensures
            tick == self@.tick.tick,
    {
        self.tick_manager.get_tick()
    }
}

/// The loss of the connection is reported once: the update that reports it
/// leaves the client without a connection, and a client without a
/// connection has no news until a packet of the server brings some.
pub proof fn lemma_disconnection_is_reported_once<T: EventType, U: EntityType>(
    client: NaiaClientView<T>,
    manifest: &Manifest<T, U>,
    now: u64,
)
    ensures
        client.update(manifest, now).2 == Some(ClientEvent::<T>::Disconnection) ==> client.update(
            manifest,
            now,
        ).0.connection.is_none(),
        client.connection.is_none() ==> client.update(manifest, now).2.is_none(),
{
    match client.connection {
        Some(connection) => {
            if !connection.connection.should_drop(now) {
                let beat = spec_heartbeat(connection, now);
                let flushed = spec_flush(beat.0, manifest, now, MAX_PACKETS_PER_UPDATE as nat);
                let next = spec_next_event(flushed.0);
                assert(next.1 != Some(ClientEvent::<T>::Disconnection));
            }
        },
        None => {},
    }
}

/// Without the server's own answer to its timestamp, the client does not
/// go on: a packet moves a client that waits for the challenge response
/// only if it is a challenge response that returns the client's timestamp.
pub proof fn lemma_only_the_own_challenge_counts<T: EventType>(
    client: NaiaClientView<T>,
    packet: Seq<u8>,
    now: u64,
)
    requires
        client.state is AwaitingChallengeResponse,
    ensures
        client.after_handshake_packet(packet, now).0 != client ==> {
            &&& client.timestamp.is_some()
            &&& spec_parse_challenge_response(packet) matches Some(response)
                && response.timestamp == client.timestamp.unwrap()
            &&& client.after_handshake_packet(packet, now).0.state is AwaitingConnectResponse
        },
        !(client.after_handshake_packet(packet, now).0.state is Connected),
{
}

} // verus!
