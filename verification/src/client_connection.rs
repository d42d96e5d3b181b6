//! The server's end of the connection to one of its clients.

use crate::ack_manager::{spec_notices, PacketNotice};
use crate::connection::{packets_view, Connection, ConnectionView, MAX_PACKETS_PER_UPDATE};
use crate::connection_config::ConnectionConfig;
use crate::entities::entity_type::{entity_record, EntityType};
use crate::entities::server_entity_manager::{ServerEntityManager, ServerScope};
use crate::events::event_manager::{
    lemma_parse_events_advances, spec_created_events, spec_parse_event_block, EventManagerView,
};
use crate::events::event_type::{event_records, EventRecord, EventType};
use crate::manifest::Manifest;
use crate::packet_reader::PacketReader;
use crate::packet_type::{ManagerType, PacketType};
use crate::packet_writer::{PacketWriter, PacketWriterView};
use crate::ping_manager::{spec_parse_ping, PingManager, PingManagerView};
use crate::server_connection::{spec_drain, spec_new_connection};
use crate::standard_header::{
    peek_packet_type, spec_header_bytes, spec_peek_packet_type, spec_read_header, StandardHeader,
};
use std::rc::Rc;
use vstd::prelude::*;

verus! {

/// What `update` hands back.
pub struct ConnectionUpdate<T> {
    /// Whether the client has been silent for too long. The server should
    /// then let the connection go.
    pub lost: bool,
    /// The packets to send to the client, in order.
    pub packets: Vec<Vec<u8>>,
    /// The events received from the client, oldest first.
    pub events: Vec<T>,
}

/// What a `ClientConnection` holds, as mathematics.
pub struct ClientConnectionView<T> {
    pub connection: ConnectionView<T>,
    pub scope: ServerScope,
    pub ping: PingManagerView,
}

/// The part of the connection that data from the client changes, as far as
/// the runtime can tell: the events received and the pings.
pub struct ReceivedFromClient {
    pub incoming: Seq<EventRecord>,
    pub ping: PingManagerView,
}

/// The entity manager after it was told of each of `notices` in turn.
pub open spec fn spec_apply_entity_notices(
    scope: ServerScope,
    notices: Seq<PacketNotice>,
) -> ServerScope
    decreases notices.len(),
{
    if notices.len() == 0 {
        scope
    } else {
        let before = spec_apply_entity_notices(scope, notices.drop_last());
        match notices.last() {
            PacketNotice::Delivered(index) => before.packet_delivered(index),
            PacketNotice::Dropped(index) => before.packet_dropped(index),
        }
    }
}

/// Being told of packets keeps the entity manager in order.
pub proof fn lemma_apply_entity_notices_wf(scope: ServerScope, notices: Seq<PacketNotice>)
    requires
        scope.wf(),
    ensures
        spec_apply_entity_notices(scope, notices).wf(),
        spec_apply_entity_notices(scope, notices).entities == scope.entities,
    decreases notices.len(),
{
    if notices.len() > 0 {
        lemma_apply_entity_notices_wf(scope, notices.drop_last());
    }
}

/// What the body of a data packet from a client does to the receiving side.
/// Blocks of events and pings go to their managers. A client has no say
/// about entities: a block of entity messages ends the reading, as does a
/// block that cannot be read or a first byte that names no manager.
pub open spec fn spec_process_client_blocks<T: EventType, U: EntityType>(
    manifest: &Manifest<T, U>,
    state: ReceivedFromClient,
    bytes: Seq<u8>,
    position: int,
    now: u64,
) -> ReceivedFromClient
    decreases bytes.len() - position,
{
    if position < 0 || position >= bytes.len() {
        state
    } else {
        match ManagerType::spec_from_u8(bytes[position]) {
            Some(ManagerType::Event) => match spec_parse_event_block(bytes, position + 1) {
                Some((events, end)) => if end > position {
                    spec_process_client_blocks(
                        manifest,
                        ReceivedFromClient {
                            incoming: state.incoming + spec_created_events(manifest, events),
                            ..state
                        },
                        bytes,
                        end,
                        now,
                    )
                } else {
                    state
                },
                None => state,
            },
            Some(ManagerType::Ping) => match spec_parse_ping(bytes, position + 1) {
                Some((kind, timestamp)) => spec_process_client_blocks(
                    manifest,
                    ReceivedFromClient {
                        ping: state.ping.after_block(kind, timestamp, now),
                        ..state
                    },
                    bytes,
                    position + 10,
                    now,
                ),
                None => state,
            },
            _ => state,
        }
    }
}

impl<T: EventType> ClientConnectionView<T> {
    /// Each part of the connection is in order.
    pub open spec fn wf(self) -> bool {
        self.connection.wf() && self.scope.wf() && self.ping.wf()
    }

    /// What data from the client can change of this connection.
    pub open spec fn received(self) -> ReceivedFromClient {
        ReceivedFromClient {
            incoming: event_records(self.connection.events.incoming),
            ping: self.ping,
        }
    }

    /// The writer of the next packet after the ping manager had its turn.
    pub open spec fn writer_after_ping(self, now: u64) -> PacketWriterView {
        if self.ping.should_write(now) {
            self.ping.writer_after(PacketWriterView::empty(), now)
        } else {
            PacketWriterView::empty()
        }
    }

    /// The ping manager after it had its turn at the next packet.
    pub open spec fn ping_after(self, now: u64) -> PingManagerView {
        if self.ping.should_write(now) {
            self.ping.after_write(PacketWriterView::empty(), now)
        } else {
            self.ping
        }
    }

    /// The writer of the next packet after the events had their turn.
    pub open spec fn writer_after_events<U: EntityType>(
        self,
        manifest: &Manifest<T, U>,
        now: u64,
    ) -> PacketWriterView {
        spec_drain(
            manifest,
            self.connection.events,
            self.writer_after_ping(now),
            self.connection.ack.next_outgoing,
        ).1
    }

    /// The body of the next data packet at the time `now`: what the ping
    /// manager writes, the events from the head of the queue that fit, and
    /// the entity messages that fit after them.
    pub open spec fn outgoing_body<U: EntityType>(
        self,
        manifest: &Manifest<T, U>,
        now: u64,
    ) -> PacketWriterView {
        self.scope.write_messages::<U>(
            self.writer_after_events(manifest, now),
            self.connection.ack.next_outgoing,
        ).1
    }

    /// The next data packet at the time `now`, if there is anything to send.
    pub open spec fn outgoing_packet<U: EntityType>(
        self,
        manifest: &Manifest<T, U>,
        now: u64,
    ) -> Option<Seq<u8>> {
        if self.outgoing_body(manifest, now).has_bytes() {
            Some(
                spec_header_bytes(self.connection.ack.outgoing_header(PacketType::Data))
                    + self.outgoing_body(manifest, now).body(),
            )
        } else {
            None
        }
    }

    /// The connection after the next data packet was taken from it.
    pub open spec fn after_outgoing_packet<U: EntityType>(
        self,
        manifest: &Manifest<T, U>,
        now: u64,
    ) -> Self {
        ClientConnectionView {
            connection: ConnectionView {
                ack: if self.outgoing_body(manifest, now).has_bytes() {
                    self.connection.ack.mark_sent(PacketType::Data)
                } else {
                    self.connection.ack
                },
                events: spec_drain(
                    manifest,
                    self.connection.events,
                    self.writer_after_ping(now),
                    self.connection.ack.next_outgoing,
                ).0,
                ..self.connection
            },
            scope: self.scope.write_messages::<U>(
                self.writer_after_events(manifest, now),
                self.connection.ack.next_outgoing,
            ).0,
            ping: self.ping_after(now),
        }
    }

    /// The connection after the header of a packet from the client was
    /// taken in.
    pub open spec fn process_incoming_header(self, header: StandardHeader) -> Self {
        ClientConnectionView {
            connection: self.connection.process_incoming_header(header),
            scope: spec_apply_entity_notices(
                self.scope,
                spec_notices(
                    self.connection.ack.sent,
                    header.last_remote_packet_index,
                    header.ack_field,
                ),
            ),
            ping: self.ping,
        }
    }

    /// Whether `after` and `readable` are what a packet that came in at the
    /// time `now` makes of this connection.
    ///
    /// The client counts as heard, whatever the packet. A handshake packet
    /// is passed over. A packet without a readable header is passed over
    /// and reported as unreadable. Otherwise the header is taken in, and the
    /// body of a data packet goes to the managers.
    pub open spec fn packet_outcome<U: EntityType>(
        self,
        after: Self,
        readable: bool,
        manifest: &Manifest<T, U>,
        packet: Seq<u8>,
        now: u64,
    ) -> bool {
        let heard = ClientConnectionView {
            connection: self.connection.mark_heard(now),
            ..self
        };
        let connectionless = match spec_peek_packet_type(packet) {
            Some(packet_type) => packet_type.spec_is_connectionless(),
            None => false,
        };
        if connectionless {
            after == heard && readable
        } else {
            match spec_read_header(packet) {
                None => after == heard && !readable,
                Some(header) => {
                    &&& readable
                    &&& if header.p_type is Data {
                        heard.process_incoming_header(header).data_processed(
                            after,
                            manifest,
                            packet.skip(9),
                            now,
                        )
                    } else {
                        after == heard.process_incoming_header(header)
                    }
                },
            }
        }
    }

    /// The connection after a packet went out at the time `now`.
    pub open spec fn mark_sent(self, now: u64) -> Self {
        ClientConnectionView { connection: self.connection.mark_sent(now), ..self }
    }

    /// The connection and the packet after a heartbeat went out, if one is
    /// due at the time `now`.
    pub open spec fn heartbeat(self, now: u64) -> (Self, Seq<Seq<u8>>) {
        if self.connection.should_send_heartbeat(now) {
            (
                ClientConnectionView {
                    connection: ConnectionView {
                        ack: self.connection.ack.mark_sent(PacketType::Heartbeat),
                        ..self.connection
                    },
                    ..self
                }.mark_sent(now),
                seq![
                    spec_header_bytes(self.connection.ack.outgoing_header(PacketType::Heartbeat)),
                ],
            )
        } else {
            (self, Seq::empty())
        }
    }

    /// The connection and the data packets after at most `fuel` of them were
    /// taken from the connection at the time `now`, one after the other
    /// until there is nothing to send.
    pub open spec fn flush<U: EntityType>(self, manifest: &Manifest<T, U>, now: u64, fuel: nat) -> (
        Self,
        Seq<Seq<u8>>,
    )
        decreases fuel,
    {
        if fuel == 0 {
            (self, Seq::empty())
        } else {
            match self.outgoing_packet(manifest, now) {
                Some(packet) => {
                    let rest = self.after_outgoing_packet(manifest, now).mark_sent(now).flush(
                        manifest,
                        now,
                        (fuel - 1) as nat,
                    );
                    (rest.0, seq![packet] + rest.1)
                },
                None => (self.after_outgoing_packet(manifest, now), Seq::empty()),
            }
        }
    }

    /// The connection without the events received.
    pub open spec fn without_incoming(self) -> Self {
        ClientConnectionView {
            connection: ConnectionView {
                events: EventManagerView {
                    incoming: Seq::empty(),
                    ..self.connection.events
                },
                ..self.connection
            },
            ..self
        }
    }

    /// What `update` does at the time `now`: the connection afterwards, the
    /// packets to send, the events received, and whether the client is lost.
    ///
    /// A client that has been silent for too long is reported lost, and
    /// nothing else happens. Otherwise the events received are handed out, a
    /// heartbeat goes out if one is due, and then the data packets.
    pub open spec fn update<U: EntityType>(self, manifest: &Manifest<T, U>, now: u64) -> (
        Self,
        Seq<Seq<u8>>,
        Seq<T>,
        bool,
    ) {
        if self.connection.should_drop(now) {
            (self, Seq::empty(), Seq::empty(), true)
        } else {
            let beat = self.without_incoming().heartbeat(now);
            let flushed = beat.0.flush(manifest, now, MAX_PACKETS_PER_UPDATE as nat);
            (flushed.0, beat.1 + flushed.1, self.connection.events.incoming, false)
        }
    }

    /// Whether `after` is this connection after the body `data` of a data
    /// packet came in at the time `now`.
    pub open spec fn data_processed<U: EntityType>(
        self,
        after: Self,
        manifest: &Manifest<T, U>,
        data: Seq<u8>,
        now: u64,
    ) -> bool {
        &&& after.received() == spec_process_client_blocks(manifest, self.received(), data, 0, now)
        &&& self.connection.events.incoming.is_prefix_of(after.connection.events.incoming)
        &&& after.scope == self.scope
        &&& after.connection.ack == self.connection.ack
        &&& after.connection.heartbeat_timer == self.connection.heartbeat_timer
        &&& after.connection.drop_timer == self.connection.drop_timer
        &&& after.connection.events.outgoing == self.connection.events.outgoing
        &&& after.connection.events.sent == self.connection.events.sent
    }
}

/// The connection of a server to one client: the common connection state,
/// the entities in that client's scope and the pings.
pub struct ClientConnection<T: EventType, U: EntityType> {
    connection: Connection<T>,
    entity_manager: ServerEntityManager<U>,
    ping_manager: PingManager,
}

impl<T: EventType, U: EntityType> View for ClientConnection<T, U> {
    type V = ClientConnectionView<T>;

    closed spec fn view(&self) -> ClientConnectionView<T> {
        ClientConnectionView {
            connection: self.connection@,
            scope: self.entity_manager@,
            ping: self.ping_manager@,
        }
    }
}

impl<T: EventType, U: EntityType> ClientConnection<T, U> {
    /// A connection on which nothing was sent or heard yet, made at the time
    /// `now`.
    pub fn new(connection_config: &ConnectionConfig, now: u64) -> (connection: Self)
        ensures
            connection@.wf(),
            connection@ == (ClientConnectionView::<T> {
                connection: spec_new_connection::<T>(*connection_config, now).connection,
                scope: ServerScope {
                    next_key: 0,
                    entities: Map::empty(),
                    pending: Seq::empty(),
                    sent: Map::empty(),
                },
                ping: spec_new_connection::<T>(*connection_config, now).ping,
            }),
    {
        ClientConnection {
            connection: Connection::new(connection_config, now),
            entity_manager: ServerEntityManager::new(),
            ping_manager: PingManager::new(
                connection_config.ping_interval,
                connection_config.ping_sample_size,
                now,
            ),
        }
    }

    /// Makes the next data packet, if there is anything to send at the time
    /// `now`: what the ping manager has to say, then as many of the waiting
    /// events as fit, then as many of the waiting entity messages as fit.
    /// The packet is recorded as sent under the next sequence number, and
    /// what is guaranteed in it is on record for that number.
    pub fn get_outgoing_packet(&mut self, manifest: &Manifest<T, U>, now: u64) -> (packet: Option<
        Vec<u8>,
    >)
        requires
            manifest.wf(),
            old(self)@.wf(),
        ensures
            final(self)@.wf(),
            final(self)@ == old(self)@.after_outgoing_packet(manifest, now),
            match packet {
                Some(bytes) => old(self)@.outgoing_packet(manifest, now) == Some(bytes@),
                None => old(self)@.outgoing_packet(manifest, now).is_none(),
            },
    {
        if self.connection.has_outgoing_events() || self.entity_manager.has_outgoing_messages()
            || self.ping_manager.should_write(now) {
            let mut writer = PacketWriter::new();
            let next_packet_index: u16 = self.connection.get_next_packet_index();
            if self.ping_manager.should_write(now) {
                self.ping_manager.write_data(&mut writer, now);
            }
            let ghost target = spec_drain(
                manifest,
                self.connection@.events,
                writer@,
                next_packet_index,
            );
            loop
                invariant_except_break
                    spec_drain(manifest, self.connection@.events, writer@, next_packet_index)
                        == target,
                invariant
                    manifest.wf(),
                    writer@.wf(),
                    self.connection@.wf(),
                    self.ping_manager@ == old(self)@.ping_after(now),
                    self.entity_manager@ == old(self)@.scope,
                    self.connection@.ack == old(self)@.connection.ack,
                    self.connection@.heartbeat_timer == old(self)@.connection.heartbeat_timer,
                    self.connection@.drop_timer == old(self)@.connection.drop_timer,
                    next_packet_index == old(self)@.connection.ack.next_outgoing,
                    target == spec_drain(
                        manifest,
                        old(self)@.connection.events,
                        old(self)@.writer_after_ping(now),
                        next_packet_index,
                    ),
                    old(self)@.wf(),
                ensures
                    self.connection@.events == target.0,
                    writer@ == target.1,
                decreases self.connection@.events.outgoing.len(),
            {
                let ghost before = self.connection@.events;
                match self.connection.pop_outgoing_event(next_packet_index) {
                    Some(popped_event) => {
                        if !writer.write_event(manifest, &popped_event) {
                            self.connection.unpop_outgoing_event(next_packet_index, &popped_event);
                            proof {
                                crate::events::event_manager::lemma_unpop_undoes_pop(
                                    before,
                                    next_packet_index,
                                );
                            }
                            break ;
                        }
                    },
                    None => {
                        break ;
                    },
                }
            }
            self.entity_manager.write_data(&mut writer, next_packet_index);
            if writer.has_bytes() {
                let out_bytes = writer.get_bytes();
                let payload = self.connection.process_outgoing_header(
                    PacketType::Data,
                    out_bytes.as_slice(),
                );
                return Some(payload);
            }
        }
        None
    }

    /// Reads the body of a data packet that came in from the client at the
    /// time `now`.
    pub fn process_incoming_data(&mut self, manifest: &Manifest<T, U>, data: &[u8], now: u64)
        ensures
            old(self)@.data_processed(final(self)@, manifest, data@, now),
            old(self)@.wf() ==> final(self)@.wf(),
    {
        let mut reader = PacketReader::new(data);
        while reader.has_more()
            invariant
                reader.bytes() == data@,
                0 <= reader.position(),
                spec_process_client_blocks(
                    manifest,
                    self@.received(),
                    data@,
                    reader.position(),
                    now,
                ) == spec_process_client_blocks(manifest, old(self)@.received(), data@, 0, now),
                old(self)@.connection.events.incoming.is_prefix_of(
                    self@.connection.events.incoming,
                ),
                self@.scope == old(self)@.scope,
                self@.connection.ack == old(self)@.connection.ack,
                self@.connection.heartbeat_timer == old(self)@.connection.heartbeat_timer,
                self@.connection.drop_timer == old(self)@.connection.drop_timer,
                self@.connection.events.outgoing == old(self)@.connection.events.outgoing,
                self@.connection.events.sent == old(self)@.connection.events.sent,
                old(self)@.wf() ==> self@.wf(),
            decreases data@.len() - reader.position(),
        {
            let ghost position = reader.position();
            let ghost queue = self@.connection.events.incoming;
            let tag = reader.read_u8().unwrap();
            match ManagerType::from_u8(tag) {
                Some(ManagerType::Event) => {
                    proof {
                        lemma_parse_events_advances(
                            data@,
                            position + 2,
                            data@[position + 1] as nat,
                        );
                    }
                    self.connection.process_event_data(&mut reader, manifest);
                    proof {
                        let after = self@.connection.events.incoming;
                        assert(event_records(after) =~= event_records(queue) + event_records(
                            after.skip(queue.len() as int),
                        ));
                    }
                },
                Some(ManagerType::Ping) => {
                    self.ping_manager.read_data(&mut reader, now);
                },
                _ => {
                    reader.skip_to_end();
                },
            }
        }
    }

    /// Takes data packets from the connection until there is nothing to
    /// send or the limit of one update is reached.
    fn flush(&mut self, manifest: &Manifest<T, U>, now: u64) -> (packets: Vec<Vec<u8>>)
        requires
            manifest.wf(),
            old(self)@.wf(),
        ensures
            final(self)@.wf(),
            (final(self)@, packets_view(packets@)) == old(self)@.flush(
                manifest,
                now,
                MAX_PACKETS_PER_UPDATE as nat,
            ),
    {
        let ghost target = self@.flush(manifest, now, MAX_PACKETS_PER_UPDATE as nat);
        let mut packets: Vec<Vec<u8>> = Vec::new();
        let mut count: usize = 0;
        let mut done = false;
        assert(packets_view(packets@) + target.1 =~= target.1);
        while count < MAX_PACKETS_PER_UPDATE && !done
            invariant
                manifest.wf(),
                self@.wf(),
                count <= MAX_PACKETS_PER_UPDATE,
                done ==> target == (self@, packets_view(packets@)),
                !done ==> target == ({
                    let rest = self@.flush(
                        manifest,
                        now,
                        (MAX_PACKETS_PER_UPDATE - count) as nat,
                    );
                    (rest.0, packets_view(packets@) + rest.1)
                }),
            decreases MAX_PACKETS_PER_UPDATE - count, (if done { 0int } else { 1int }),
        {
            let ghost before = packets_view(packets@);
            match self.get_outgoing_packet(manifest, now) {
                Some(payload) => {
                    self.mark_sent(now);
                    packets.push(payload);
                    count += 1;
                    proof {
                        let next = self@.flush(
                            manifest,
                            now,
                            (MAX_PACKETS_PER_UPDATE - count) as nat,
                        );
                        assert(packets_view(packets@) =~= before.push(payload@));
                        assert(before + (seq![payload@] + next.1) =~= before.push(payload@)
                            + next.1);
                    }
                },
                None => {
                    done = true;
                    assert(before + Seq::<Seq<u8>>::empty() =~= before);
                },
            }
        }
        proof {
            if !done {
                assert(packets_view(packets@) + Seq::<Seq<u8>>::empty() =~= packets_view(
                    packets@,
                ));
            }
        }
        packets
    }

    /// To be called regularly: says at the time `now` whether the client is
    /// lost, and if it is not, which events it has sent and which packets to
    /// send to it.
    pub fn update(&mut self, manifest: &Manifest<T, U>, now: u64) -> (step: ConnectionUpdate<T>)
        requires
            manifest.wf(),
            old(self)@.wf(),
        ensures
            final(self)@.wf(),
            final(self)@ == old(self)@.update(manifest, now).0,
            packets_view(step.packets@) == old(self)@.update(manifest, now).1,
            step.events@ == old(self)@.update(manifest, now).2,
            step.lost == old(self)@.update(manifest, now).3,
    {
        if self.should_drop(now) {
            let packets: Vec<Vec<u8>> = Vec::new();
            assert(packets_view(packets@) =~= Seq::<Seq<u8>>::empty());
            return ConnectionUpdate { lost: true, packets, events: Vec::new() };
        }
        let mut events: Vec<T> = Vec::new();
        let ghost queue = self@.connection.events.incoming;
        loop
            invariant_except_break
                events@ + self@.connection.events.incoming == queue,
            invariant
                queue == old(self)@.connection.events.incoming,
                self@.wf(),
                self@.connection.events.outgoing == old(self)@.connection.events.outgoing,
                self@.connection.events.sent == old(self)@.connection.events.sent,
                self@.connection.ack == old(self)@.connection.ack,
                self@.connection.heartbeat_timer == old(self)@.connection.heartbeat_timer,
                self@.connection.drop_timer == old(self)@.connection.drop_timer,
                self@.scope == old(self)@.scope,
                self@.ping == old(self)@.ping,
            ensures
                events@ == queue,
                self@.connection.events.incoming.len() == 0,
            decreases self@.connection.events.incoming.len(),
        {
            let ghost waiting = self@.connection.events.incoming;
            match self.get_incoming_event() {
                Some(event) => {
                    events.push(event);
                    assert(events@ + self@.connection.events.incoming =~= queue) by {
                        assert(waiting =~= seq![waiting[0]] + waiting.drop_first());
                    }
                },
                None => {
                    assert(events@ + self@.connection.events.incoming =~= events@);
                    break ;
                },
            }
        }
        assert(self@.connection.events.incoming =~= Seq::<T>::empty());
        assert(self@ == old(self)@.without_incoming());
        let mut packets: Vec<Vec<u8>> = Vec::new();
        if self.should_send_heartbeat(now) {
            let nothing: Vec<u8> = Vec::new();
            let heartbeat = self.process_outgoing_header(PacketType::Heartbeat, nothing.as_slice());
            self.mark_sent(now);
            assert(heartbeat@ =~= spec_header_bytes(
                old(self)@.connection.ack.outgoing_header(PacketType::Heartbeat),
            ));
            packets.push(heartbeat);
            assert(packets_view(packets@) =~= seq![heartbeat@]);
        } else {
            assert(packets_view(packets@) =~= Seq::<Seq<u8>>::empty());
        }
        let ghost first = packets_view(packets@);
        let mut data_packets = self.flush(manifest, now);
        let ghost second = packets_view(data_packets@);
        packets.append(&mut data_packets);
        assert(packets_view(packets@) =~= first + second);
        ConnectionUpdate { lost: false, packets, events }
    }

    /// Takes in a packet that came in from the client at the time `now`,
    /// and says whether it could be read.
    pub fn process_packet(
        &mut self,
        manifest: &Manifest<T, U>,
        packet: &[u8],
        now: u64,
    ) -> (readable: bool)
        ensures
            old(self)@.packet_outcome(final(self)@, readable, manifest, packet@, now),
            old(self)@.wf() ==> final(self)@.wf(),
    {
        self.mark_heard(now);
        let connectionless = match peek_packet_type(packet) {
            Some(packet_type) => packet_type.is_connectionless(),
            None => false,
        };
        if connectionless {
            return true;
        }
        match StandardHeader::read(packet) {
            Some((header, payload)) => {
                self.process_incoming_header(&header);
                match header.packet_type() {
                    PacketType::Data => {
                        self.process_incoming_data(manifest, payload.as_slice(), now);
                    },
                    _ => {},
                }
                true
            },
            None => false,
        }
    }

    /// Takes in the header of a packet from the client, and tells the event
    /// manager and the entity manager which of our packets it reports
    /// delivered and which lost.
    pub fn process_incoming_header(&mut self, header: &StandardHeader)
        ensures
            final(self)@ == old(self)@.process_incoming_header(*header),
            old(self)@.wf() ==> final(self)@.wf(),
    {
        let notices = self.connection.process_incoming_header(header);
        let ghost start = self.entity_manager@;
        let mut i: usize = 0;
        while i < notices.len()
            invariant
                i <= notices.len(),
                self.connection@ == old(self)@.connection.process_incoming_header(*header),
                self.ping_manager@ == old(self)@.ping,
                start == old(self)@.scope,
                self.entity_manager@ == spec_apply_entity_notices(
                    start,
                    notices@.subrange(0, i as int),
                ),
                old(self)@.wf() ==> self.connection@.wf(),
            decreases notices.len() - i,
        {
            assert(notices@.subrange(0, i + 1).drop_last() =~= notices@.subrange(0, i as int));
            match notices[i] {
                PacketNotice::Delivered(index) => {
                    self.entity_manager.notify_packet_delivered(index);
                },
                PacketNotice::Dropped(index) => {
                    self.entity_manager.notify_packet_dropped(index);
                },
            }
            i += 1;
        }
        assert(notices@.subrange(0, i as int) =~= notices@);
        proof {
            if old(self)@.wf() {
                lemma_apply_entity_notices_wf(start, notices@);
            }
        }
    }

    /// Puts the header of the next outgoing packet in front of `payload` and
    /// records the packet as sent.
    pub fn process_outgoing_header(&mut self, packet_type: PacketType, payload: &[u8]) -> (packet:
        Vec<u8>)
        ensures
            packet@ == spec_header_bytes(old(self)@.connection.ack.outgoing_header(packet_type))
                + payload@,
            final(self)@ == (ClientConnectionView {
                connection: ConnectionView {
                    ack: old(self)@.connection.ack.mark_sent(packet_type),
                    ..old(self)@.connection
                },
                ..old(self)@
            }),
            old(self)@.wf() ==> final(self)@.wf(),
    {
        self.connection.process_outgoing_header(packet_type, payload)
    }

    /// Notes that a packet went out at the time `now`.
    pub fn mark_sent(&mut self, now: u64)
        ensures
            final(self)@ == old(self)@.mark_sent(now),
            old(self)@.wf() ==> final(self)@.wf(),
    {
        self.connection.mark_sent(now);
    }

    /// Whether a heartbeat is due at the time `now`.
    pub fn should_send_heartbeat(&self, now: u64) -> (due: bool)
        ensures
            due == self@.connection.should_send_heartbeat(now),
    {
        self.connection.should_send_heartbeat(now)
    }

    /// Notes that a packet came in at the time `now`.
    pub fn mark_heard(&mut self, now: u64)
        ensures
            final(self)@ == (ClientConnectionView {
                connection: old(self)@.connection.mark_heard(now),
                ..old(self)@
            }),
            old(self)@.wf() ==> final(self)@.wf(),
    {
        self.connection.mark_heard(now);
    }

    /// Whether the client counts as lost at the time `now`.
    pub fn should_drop(&self, now: u64) -> (lost: bool)
        ensures
            lost == self@.connection.should_drop(now),
    {
        self.connection.should_drop(now)
    }

    /// The sequence number that the next outgoing packet gets.
    pub fn get_next_packet_index(&self) -> (index: u16)
        ensures
            index == self@.connection.ack.next_outgoing,
    {
        self.connection.get_next_packet_index()
    }

    /// Queues an event for the client.
    pub fn queue_event(&mut self, event: T)
        ensures
            final(self)@ == (ClientConnectionView {
                connection: ConnectionView {
                    events: old(self)@.connection.events.queue_outgoing(Rc::new(event)),
                    ..old(self)@.connection
                },
                ..old(self)@
            }),
            old(self)@.wf() ==> final(self)@.wf(),
    {
        self.connection.queue_event(event);
    }

    /// Takes the oldest event received from the client.
    pub fn get_incoming_event(&mut self) -> (event: Option<T>)
        ensures
            event == (if old(self)@.connection.events.incoming.len() == 0 {
                None
            } else {
                Some(old(self)@.connection.events.incoming[0])
            }),
            final(self)@ == (ClientConnectionView {
                connection: ConnectionView {
                    events: EventManagerView {
                        incoming: if old(self)@.connection.events.incoming.len() == 0 {
                            old(self)@.connection.events.incoming
                        } else {
                            old(self)@.connection.events.incoming.drop_first()
                        },
                        ..old(self)@.connection.events
                    },
                    ..old(self)@.connection
                },
                ..old(self)@
            }),
            old(self)@.wf() ==> final(self)@.wf(),
    {
        self.connection.get_incoming_event()
    }

    /// Puts `entity` into the client's scope. Returns its key.
    pub fn add_entity(&mut self, manifest: &Manifest<T, U>, entity: &U) -> (key: Option<u16>)
        requires
            manifest.wf(),
        ensures
            key == (if manifest.spec_entity_naia_id(entity.spec_type_id()).is_some() {
                old(self)@.scope.free_key()
            } else {
                None
            }),
            final(self)@ == (ClientConnectionView {
                scope: match key {
                    Some(key) => old(self)@.scope.with_entity(
                        key,
                        manifest.spec_entity_naia_id(entity.spec_type_id()).unwrap(),
                        entity_record(*entity),
                    ),
                    None => old(self)@.scope,
                },
                ..old(self)@
            }),
            old(self)@.wf() ==> final(self)@.wf(),
    {
        self.entity_manager.add_entity(manifest, entity)
    }

    /// Takes the entity under `key` out of the client's scope.
    pub fn remove_entity(&mut self, key: u16) -> (removed: bool)
        ensures
            removed == old(self)@.scope.entities.contains_key(key),
            final(self)@ == (ClientConnectionView {
                scope: old(self)@.scope.without_entity(key),
                ..old(self)@
            }),
            old(self)@.wf() ==> final(self)@.wf(),
    {
        self.entity_manager.remove_entity(key)
    }

    /// Notes that the entity under `key` is now as `entity` is.
    pub fn update_entity(&mut self, key: u16, entity: &U) -> (updated: bool)
        ensures
            updated == old(self)@.scope.accepts_update(key, entity_record(*entity)),
            final(self)@ == (ClientConnectionView {
                scope: old(self)@.scope.with_update(key, entity_record(*entity)),
                ..old(self)@
            }),
            old(self)@.wf() ==> final(self)@.wf(),
    {
        self.entity_manager.update_entity(key, entity)
    }

    /// The mean round trip time to the client, in milliseconds.
    pub fn get_rtt(&self) -> (rtt: u64)
        ensures
            rtt == crate::ping_manager::spec_mean(self@.ping.samples),
    {
        self.ping_manager.get_rtt()
    }
}

} // verus!
