//! The client's end of the connection to its server.

use crate::ack_manager::AckManagerView;
use crate::connection::{Connection, ConnectionView};
use crate::connection_config::ConnectionConfig;
use crate::entities::client_entity_manager::{
    lemma_parse_entity_actions_advances, spec_apply_entity_actions, spec_parse_entity_block,
    ClientEntityManager, ClientScope,
};
use crate::entities::client_entity_message::ClientEntityMessage;
use crate::entities::entity_type::{entity_record, EntityType};
use crate::events::event_manager::{
    lemma_holds_one_more_event, lemma_parse_events_advances, lemma_unpop_undoes_pop,
    spec_created_events, spec_event_bytes, spec_holds_events, spec_parse_event_block,
    spec_wire_event, EventManagerView, WireEvent,
};
use crate::events::event_type::{event_records, EventRecord, EventType};
use crate::manifest::Manifest;
use crate::packet_reader::PacketReader;
use crate::packet_type::{ManagerType, PacketType};
use crate::packet_writer::{PacketWriter, PacketWriterView};
use crate::ping_manager::{spec_parse_ping, PingManager, PingManagerView};
use crate::sequence::spec_sequence_greater_than;
use crate::standard_header::{spec_header_bytes, StandardHeader};
use crate::timer::{spec_fire_time, Timer};
use std::rc::Rc;
use vstd::prelude::*;

verus! {

/// What a `ServerConnection` holds, as mathematics.
pub struct ServerConnectionView<T> {
    pub connection: ConnectionView<T>,
    pub scope: ClientScope,
    pub ping: PingManagerView,
}

/// The part of a connection that incoming data changes, as far as the
/// runtime can tell: the events received, the entities in scope, the pings.
pub struct Received {
    pub incoming: Seq<EventRecord>,
    pub scope: ClientScope,
    pub ping: PingManagerView,
}

/// The events and the writer after events were moved from the head of the
/// outgoing queue into the packet `packet_index` for as long as the next one
/// fits.
pub open spec fn spec_drain<T: EventType, U: EntityType>(
    manifest: &Manifest<T, U>,
    events: EventManagerView<T>,
    writer: PacketWriterView,
    packet_index: u16,
) -> (EventManagerView<T>, PacketWriterView)
    decreases events.outgoing.len(),
{
    if events.outgoing.len() == 0 {
        (events, writer)
    } else if writer.event_fits(manifest, *events.outgoing[0]) {
        spec_drain(
            manifest,
            events.pop_outgoing(packet_index),
            writer.with_event(manifest, *events.outgoing[0]),
            packet_index,
        )
    } else {
        (events, writer)
    }
}

/// What the body of a data packet does to the receiving side: block after
/// block goes to the manager that its first byte names. A block that its
/// manager cannot read, or a first byte that names no manager, ends the
/// reading; what was read before it stands.
pub open spec fn spec_process_blocks<T: EventType, U: EntityType>(
    manifest: &Manifest<T, U>,
    state: Received,
    bytes: Seq<u8>,
    position: int,
    now: u64,
) -> Received
    decreases bytes.len() - position,
{
    if position < 0 || position >= bytes.len() {
        state
    } else {
        match ManagerType::spec_from_u8(bytes[position]) {
            Some(ManagerType::Event) => match spec_parse_event_block(bytes, position + 1) {
                Some((events, end)) => if end > position {
                    spec_process_blocks(
                        manifest,
                        Received {
                            incoming: state.incoming + spec_created_events(manifest, events),
                            ..state
                        },
                        bytes,
                        end,
                        now,
                    )
                } else {
                    state
                },
                None => state,
            },
            Some(ManagerType::Entity) => match spec_parse_entity_block(bytes, position + 1) {
                Some((actions, end)) => if end > position {
                    spec_process_blocks(
                        manifest,
                        Received {
                            scope: spec_apply_entity_actions(manifest, state.scope, actions),
                            ..state
                        },
                        bytes,
                        end,
                        now,
                    )
                } else {
                    state
                },
                None => state,
            },
            Some(ManagerType::Ping) => match spec_parse_ping(bytes, position + 1) {
                Some((kind, timestamp)) => spec_process_blocks(
                    manifest,
                    Received { ping: state.ping.after_block(kind, timestamp, now), ..state },
                    bytes,
                    position + 10,
                    now,
                ),
                None => state,
            },
            None => state,
        }
    }
}

/// The connection that `ServerConnection::new` makes at the time `now`.
pub open spec fn spec_new_connection<T: EventType>(
    connection_config: ConnectionConfig,
    now: u64,
) -> ServerConnectionView<T> {
    ServerConnectionView {
        connection: ConnectionView {
            ack: AckManagerView {
                next_outgoing: 0,
                heard_any: false,
                last_remote: 0xffff,
                ack_bitfield: 0,
                sent: Seq::empty(),
            },
            events: EventManagerView {
                outgoing: Seq::empty(),
                incoming: Seq::empty(),
                sent: Map::empty(),
            },
            heartbeat_timer: Timer {
                interval: connection_config.heartbeat_interval,
                next_fire: spec_fire_time(now, connection_config.heartbeat_interval),
            },
            drop_timer: Timer {
                interval: connection_config.disconnection_timeout_duration,
                next_fire: spec_fire_time(now, connection_config.disconnection_timeout_duration),
            },
        },
        scope: ClientScope { entities: Map::empty(), pawns: Map::empty(), messages: Seq::empty() },
        ping: PingManagerView {
            ping_timer: Timer {
                interval: connection_config.ping_interval,
                next_fire: spec_fire_time(now, connection_config.ping_interval),
            },
            sample_size: connection_config.ping_sample_size,
            in_flight: None,
            pending_pong: None,
            samples: Seq::empty(),
        },
    }
}

impl<T: EventType> ServerConnectionView<T> {
    /// The connection after a packet went out at the time `now`.
    pub open spec fn mark_sent(self, now: u64) -> Self {
        ServerConnectionView { connection: self.connection.mark_sent(now), ..self }
    }

    /// The connection after a packet came in at the time `now`.
    pub open spec fn mark_heard(self, now: u64) -> Self {
        ServerConnectionView { connection: self.connection.mark_heard(now), ..self }
    }

    /// Whether `after` is this connection after the body `data` of a data
    /// packet came in at the time `now`: the receiving side is what the
    /// blocks of `data` make of it, the events received before are still
    /// first in their queue, and nothing else has changed.
    pub open spec fn data_processed<U: EntityType>(
        self,
        after: Self,
        manifest: &Manifest<T, U>,
        data: Seq<u8>,
        now: u64,
    ) -> bool {
        &&& after.received() == spec_process_blocks(manifest, self.received(), data, 0, now)
        &&& self.connection.events.incoming.is_prefix_of(after.connection.events.incoming)
        &&& after.connection.ack == self.connection.ack
        &&& after.connection.heartbeat_timer == self.connection.heartbeat_timer
        &&& after.connection.drop_timer == self.connection.drop_timer
        &&& after.connection.events.outgoing == self.connection.events.outgoing
        &&& after.connection.events.sent == self.connection.events.sent
    }

    /// Each part of the connection is in order.
    pub open spec fn wf(self) -> bool {
        self.connection.wf() && self.ping.wf()
    }

    /// What incoming data can change of this connection.
    pub open spec fn received(self) -> Received {
        Received {
            incoming: event_records(self.connection.events.incoming),
            scope: self.scope,
            ping: self.ping,
        }
    }

    /// Whether there is anything to send at the time `now`: an event waits,
    /// or a ping is due.
    pub open spec fn has_outgoing(self, now: u64) -> bool {
        self.connection.events.outgoing.len() != 0 || self.ping.should_write(now)
    }

    /// The writer of the next packet after the ping manager had its turn.
    pub open spec fn writer_after_ping(self, now: u64) -> PacketWriterView {
        if self.ping.should_write(now) {
            self.ping.writer_after(PacketWriterView::empty(), now)
        } else {
            PacketWriterView::empty()
        }
    }

    /// The ping manager after it had its turn at the next packet.
    pub open spec fn ping_after(self, now: u64) -> PingManagerView {
        if self.ping.should_write(now) {
            self.ping.after_write(PacketWriterView::empty(), now)
        } else {
            self.ping
        }
    }

    /// The body of the next data packet at the time `now`: what the ping
    /// manager writes, then the events from the head of the queue that fit.
    pub open spec fn outgoing_body<U: EntityType>(
        self,
        manifest: &Manifest<T, U>,
        now: u64,
    ) -> PacketWriterView {
        spec_drain(
            manifest,
            self.connection.events,
            self.writer_after_ping(now),
            self.connection.ack.next_outgoing,
        ).1
    }

    /// The next data packet at the time `now`, if there is anything to send.
    pub open spec fn outgoing_packet<U: EntityType>(
        self,
        manifest: &Manifest<T, U>,
        now: u64,
    ) -> Option<Seq<u8>> {
        if self.outgoing_body(manifest, now).has_bytes() {
            Some(
                spec_header_bytes(self.connection.ack.outgoing_header(PacketType::Data))
                    + self.outgoing_body(manifest, now).body(),
            )
        } else {
            None
        }
    }

    /// The connection after the next data packet was taken from it.
    pub open spec fn after_outgoing_packet<U: EntityType>(
        self,
        manifest: &Manifest<T, U>,
        now: u64,
    ) -> Self {
        ServerConnectionView {
            connection: ConnectionView {
                ack: if self.outgoing_body(manifest, now).has_bytes() {
                    self.connection.ack.mark_sent(PacketType::Data)
                } else {
                    self.connection.ack
                },
                events: spec_drain(
                    manifest,
                    self.connection.events,
                    self.writer_after_ping(now),
                    self.connection.ack.next_outgoing,
                ).0,
                ..self.connection
            },
            scope: self.scope,
            ping: self.ping_after(now),
        }
    }
}

/// The connection of a client to its server: the common connection state,
/// the entities in the client's scope and the pings.
pub struct ServerConnection<T: EventType, U: EntityType> {
    connection: Connection<T>,
    entity_manager: ClientEntityManager<U>,
    ping_manager: PingManager,
}

impl<T: EventType, U: EntityType> View for ServerConnection<T, U> {
    type V = ServerConnectionView<T>;

    closed spec fn view(&self) -> ServerConnectionView<T> {
        ServerConnectionView {
            connection: self.connection@,
            scope: self.entity_manager@,
            ping: self.ping_manager@,
        }
    }
}

impl<T: EventType, U: EntityType> ServerConnection<T, U> {
    /// A connection on which nothing was sent or heard yet, made at the time
    /// `now`.
    pub fn new(connection_config: &ConnectionConfig, now: u64) -> (connection: Self)
        ensures
            connection@.wf(),
            connection@ == spec_new_connection::<T>(*connection_config, now),
    {
        ServerConnection {
            connection: Connection::new(connection_config, now),
            entity_manager: ClientEntityManager::new(),
            ping_manager: PingManager::new(
                connection_config.ping_interval,
                connection_config.ping_sample_size,
                now,
            ),
        }
    }

    /// Makes the next data packet, if there is anything to send at the time
    /// `now`: what the ping manager has to say, then as many of the waiting
    /// events as fit, first in the queue first. The packet is recorded as
    /// sent under the next sequence number, and the guaranteed events in it
    /// are on record for that number.
    pub fn get_outgoing_packet(&mut self, manifest: &Manifest<T, U>, now: u64) -> (packet: Option<
        Vec<u8>,
    >)
        requires
            manifest.wf(),
            old(self)@.wf(),
        ensures
            final(self)@.wf(),
            final(self)@ == old(self)@.after_outgoing_packet(manifest, now),
            match packet {
                Some(bytes) => old(self)@.outgoing_packet(manifest, now) == Some(bytes@),
                None => old(self)@.outgoing_packet(manifest, now).is_none(),
            },
    {
        if self.connection.has_outgoing_events() || self.ping_manager.should_write(now) {
            let mut writer = PacketWriter::new();
            let next_packet_index: u16 = self.get_next_packet_index();
            if self.ping_manager.should_write(now) {
                self.ping_manager.write_data(&mut writer, now);
            }
            let ghost target = spec_drain(
                manifest,
                self.connection@.events,
                writer@,
                next_packet_index,
            );
            loop
                invariant_except_break
                    spec_drain(manifest, self.connection@.events, writer@, next_packet_index)
                        == target,
                invariant
                    manifest.wf(),
                    writer@.wf(),
                    self.connection@.wf(),
                    self.ping_manager@ == old(self)@.ping_after(now),
                    self.entity_manager@ == old(self)@.scope,
                    self.connection@.ack == old(self)@.connection.ack,
                    self.connection@.heartbeat_timer == old(self)@.connection.heartbeat_timer,
                    self.connection@.drop_timer == old(self)@.connection.drop_timer,
                    next_packet_index == old(self)@.connection.ack.next_outgoing,
                    target == spec_drain(
                        manifest,
                        old(self)@.connection.events,
                        old(self)@.writer_after_ping(now),
                        next_packet_index,
                    ),
                    old(self)@.ping.wf(),
                ensures
                    self.connection@.events == target.0,
                    writer@ == target.1,
                decreases self.connection@.events.outgoing.len(),
            {
                let ghost before = self.connection@.events;
                match self.connection.pop_outgoing_event(next_packet_index) {
                    Some(popped_event) => {
                        if !writer.write_event(manifest, &popped_event) {
                            self.connection.unpop_outgoing_event(next_packet_index, &popped_event);
                            proof {
                                lemma_unpop_undoes_pop(before, next_packet_index);
                            }
                            break ;
                        }
                    },
                    None => {
                        break ;
                    },
                }
            }
            if writer.has_bytes() {
                let out_bytes = writer.get_bytes();
                let payload = self.process_outgoing_header(PacketType::Data, out_bytes.as_slice());
                return Some(payload);
            }
        }
        None
    }

    /// Takes the oldest change of the scope that the application has not
    /// been told of.
    pub fn get_incoming_entity_message(&mut self) -> (message: Option<ClientEntityMessage>)
        ensures
            message == (if old(self)@.scope.messages.len() == 0 {
                None
            } else {
                Some(old(self)@.scope.messages[0])
            }),
            final(self)@ == (ServerConnectionView {
                scope: ClientScope {
                    messages: if old(self)@.scope.messages.len() == 0 {
                        old(self)@.scope.messages
                    } else {
                        old(self)@.scope.messages.drop_first()
                    },
                    ..old(self)@.scope
                },
                ..old(self)@
            }),
    {
        self.entity_manager.pop_incoming_message()
    }

    /// Reads the body of a data packet that came in at the time `now`:
    /// block after block goes to the manager that its first byte names. A
    /// block that cannot be read ends the reading without a trace of its own;
    /// the blocks before it stand.
    pub fn process_incoming_data(&mut self, manifest: &Manifest<T, U>, data: &[u8], now: u64)
        ensures
            old(self)@.data_processed(final(self)@, manifest, data@, now),
            old(self)@.wf() ==> final(self)@.wf(),
    {
        let mut reader = PacketReader::new(data);
        while reader.has_more()
            invariant
                reader.bytes() == data@,
                0 <= reader.position(),
                spec_process_blocks(manifest, self@.received(), data@, reader.position(), now)
                    == spec_process_blocks(manifest, old(self)@.received(), data@, 0, now),
                old(self)@.connection.events.incoming.is_prefix_of(
                    self@.connection.events.incoming,
                ),
                self@.connection.ack == old(self)@.connection.ack,
                self@.connection.heartbeat_timer == old(self)@.connection.heartbeat_timer,
                self@.connection.drop_timer == old(self)@.connection.drop_timer,
                self@.connection.events.outgoing == old(self)@.connection.events.outgoing,
                self@.connection.events.sent == old(self)@.connection.events.sent,
                old(self)@.wf() ==> self@.wf(),
            decreases data@.len() - reader.position(),
        {
            let ghost position = reader.position();
            let ghost state = self@.received();
            let ghost queue = self@.connection.events.incoming;
            let tag = reader.read_u8().unwrap();
            match ManagerType::from_u8(tag) {
                Some(ManagerType::Event) => {
                    proof {
                        match spec_parse_event_block(data@, position + 1) {
                            Some((events, end)) => {
                                lemma_parse_events_advances(
                                    data@,
                                    position + 2,
                                    data@[position + 1] as nat,
                                );
                            },
                            None => {},
                        }
                    }
                    self.connection.process_event_data(&mut reader, manifest);
                    proof {
                        let after = self@.connection.events.incoming;
                        assert(event_records(after) =~= event_records(queue) + event_records(
                            after.skip(queue.len() as int),
                        ));
                    }
                },
                Some(ManagerType::Entity) => {
                    proof {
                        match spec_parse_entity_block(data@, position + 1) {
                            Some((actions, end)) => {
                                lemma_parse_entity_actions_advances(
                                    data@,
                                    position + 2,
                                    data@[position + 1] as nat,
                                );
                            },
                            None => {},
                        }
                    }
                    self.entity_manager.process_data(&mut reader, manifest);
                },
                Some(ManagerType::Ping) => {
                    self.ping_manager.read_data(&mut reader, now);
                },
                None => {
                    reader.skip_to_end();
                },
            }
        }
    }

    /// The entity in scope under `key`.
    pub fn get_local_entity(&self, key: u16) -> (entity: Option<&U>)
        ensures
            match entity {
                Some(found) => self@.scope.entities.contains_key(key) && self@.scope.entities[key]
                    == entity_record(*found),
                None => !self@.scope.entities.contains_key(key),
            },
    {
        self.entity_manager.get_local_entity(key)
    }

    /// Notes that a packet went out at the time `now`.
    pub fn mark_sent(&mut self, now: u64)
        ensures
            final(self)@ == old(self)@.mark_sent(now),
            old(self)@.wf() ==> final(self)@.wf(),
    {
        self.connection.mark_sent(now);
    }

    /// Whether a heartbeat is due at the time `now`.
    pub fn should_send_heartbeat(&self, now: u64) -> (due: bool)
        ensures
            due == self@.connection.should_send_heartbeat(now),
    {
        self.connection.should_send_heartbeat(now)
    }

    /// Notes that a packet came in at the time `now`.
    pub fn mark_heard(&mut self, now: u64)
        ensures
            final(self)@ == old(self)@.mark_heard(now),
            old(self)@.wf() ==> final(self)@.wf(),
    {
        self.connection.mark_heard(now);
    }

    /// Whether the server counts as lost at the time `now`.
    pub fn should_drop(&self, now: u64) -> (lost: bool)
        ensures
            lost == self@.connection.should_drop(now),
    {
        self.connection.should_drop(now)
    }

    /// Takes in the header of a packet from the server.
    pub fn process_incoming_header(&mut self, header: &StandardHeader)
        ensures
            final(self)@ == (ServerConnectionView {
                connection: old(self)@.connection.process_incoming_header(*header),
                ..old(self)@
            }),
            old(self)@.wf() ==> final(self)@.wf(),
    {
        let _ = self.connection.process_incoming_header(header);
    }

    /// Puts the header of the next outgoing packet in front of `payload` and
    /// records the packet as sent.
    pub fn process_outgoing_header(&mut self, packet_type: PacketType, payload: &[u8]) -> (packet:
        Vec<u8>)
        ensures
            packet@ == spec_header_bytes(old(self)@.connection.ack.outgoing_header(packet_type))
                + payload@,
            final(self)@ == (ServerConnectionView {
                connection: ConnectionView {
                    ack: old(self)@.connection.ack.mark_sent(packet_type),
                    ..old(self)@.connection
                },
                ..old(self)@
            }),
            spec_sequence_greater_than(
                final(self)@.connection.ack.next_outgoing,
                old(self)@.connection.ack.next_outgoing,
            ),
            old(self)@.wf() ==> final(self)@.wf(),
    {
        self.connection.process_outgoing_header(packet_type, payload)
    }

    /// The sequence number that the next outgoing packet gets.
    pub fn get_next_packet_index(&self) -> (index: u16)
        ensures
            index == self@.connection.ack.next_outgoing,
    {
        self.connection.get_next_packet_index()
    }

    /// Queues an event for the server.
    pub fn queue_event(&mut self, event: T)
        ensures
            final(self)@ == (ServerConnectionView {
                connection: ConnectionView {
                    events: old(self)@.connection.events.queue_outgoing(Rc::new(event)),
                    ..old(self)@.connection
                },
                ..old(self)@
            }),
            old(self)@.wf() ==> final(self)@.wf(),
    {
        self.connection.queue_event(event);
    }

    /// Takes the oldest event received from the server.
    pub fn get_incoming_event(&mut self) -> (event: Option<T>)
        ensures
            event == (if old(self)@.connection.events.incoming.len() == 0 {
                None
            } else {
                Some(old(self)@.connection.events.incoming[0])
            }),
            final(self)@ == (ServerConnectionView {
                connection: ConnectionView {
                    events: EventManagerView {
                        incoming: if old(self)@.connection.events.incoming.len() == 0 {
                            old(self)@.connection.events.incoming
                        } else {
                            old(self)@.connection.events.incoming.drop_first()
                        },
                        ..old(self)@.connection.events
                    },
                    ..old(self)@.connection
                },
                ..old(self)@
            }),
            old(self)@.wf() ==> final(self)@.wf(),
    {
        self.connection.get_incoming_event()
    }

    /// The mean round trip time to the server, in milliseconds.
    pub fn get_rtt(&self) -> (rtt: u64)
        ensures
            rtt == crate::ping_manager::spec_mean(self@.ping.samples),
    {
        self.ping_manager.get_rtt()
    }
}

/// The events that `spec_drain` moves into the packet: those that have
/// left the head of the queue.
pub open spec fn spec_drained<T: EventType, U: EntityType>(
    manifest: &Manifest<T, U>,
    events: EventManagerView<T>,
    writer: PacketWriterView,
    packet_index: u16,
) -> Seq<Rc<T>> {
    events.outgoing.subrange(
        0,
        events.outgoing.len() - spec_drain(
            manifest,
            events,
            writer,
            packet_index,
        ).0.outgoing.len(),
    )
}

/// The event that `shared` points to.
pub open spec fn spec_inner<T>(shared: Rc<T>) -> T {
    *shared
}

/// The events as they stand in a packet.
pub open spec fn spec_wire_events<T: EventType, U: EntityType>(
    manifest: &Manifest<T, U>,
    events: Seq<Rc<T>>,
) -> Seq<WireEvent> {
    events.map_values(|event: Rc<T>| spec_wire_event(manifest, *event))
}

/// Draining takes events off the head of the queue, in order, and writes
/// each of them behind the events that the writer holds already; it touches
/// nothing else of the writer.
pub proof fn lemma_drain_holds_events<T: EventType, U: EntityType>(
    manifest: &Manifest<T, U>,
    events: EventManagerView<T>,
    writer: PacketWriterView,
    packet_index: u16,
    held: Seq<WireEvent>,
)
    requires
        manifest.wf(),
        spec_holds_events(writer.event_bytes, held),
        held.len() == writer.event_count,
    ensures
        ({
            let after = spec_drain(manifest, events, writer, packet_index);
            let moved = spec_drained(manifest, events, writer, packet_index);
            &&& after.0.outgoing.len() <= events.outgoing.len()
            &&& after.0.outgoing == events.outgoing.skip(moved.len() as int)
            &&& after.0.incoming == events.incoming
            &&& spec_holds_events(after.1.event_bytes, held + spec_wire_events(manifest, moved))
            &&& after.1.event_count == held.len() + moved.len()
            &&& after.1.ping_bytes == writer.ping_bytes
            &&& after.1.entity_count == writer.entity_count
            &&& after.1.entity_bytes == writer.entity_bytes
            &&& forall|i: int|
                0 <= i < moved.len() ==> spec_event_bytes(manifest, *(#[trigger] moved[i])).is_some()
        }),
    decreases events.outgoing.len(),
{
    let after = spec_drain(manifest, events, writer, packet_index);
    let moved = spec_drained(manifest, events, writer, packet_index);
    if events.outgoing.len() != 0 && writer.event_fits(manifest, spec_inner(events.outgoing[0])) {
        let first = events.outgoing[0];
        let next_events = events.pop_outgoing(packet_index);
        let next_writer = writer.with_event(manifest, spec_inner(first));
        let next_held = held.push(spec_wire_event(manifest, spec_inner(first)));
        lemma_holds_one_more_event(manifest, writer.event_bytes, held, spec_inner(first));
        lemma_drain_holds_events(manifest, next_events, next_writer, packet_index, next_held);
        let rest = spec_drained(manifest, next_events, next_writer, packet_index);
        assert(next_events.outgoing =~= events.outgoing.skip(1));
        assert(moved =~= seq![first] + rest);
        assert(held + spec_wire_events(manifest, moved) =~= next_held + spec_wire_events(
            manifest,
            rest,
        ));
        assert(after.0.outgoing =~= events.outgoing.skip(moved.len() as int));
        assert forall|i: int| 0 <= i < moved.len() implies spec_event_bytes(
            manifest,
            *(#[trigger] moved[i]),
        ).is_some() by {
            if i > 0 {
                assert(moved[i] == rest[i - 1]);
            }
        }
    } else {
        assert(moved =~= Seq::empty());
        assert(held + spec_wire_events(manifest, moved) =~= held);
        assert(after.0.outgoing =~= events.outgoing.skip(0));
    }
}

} // verus!
