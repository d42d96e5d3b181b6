//! What one side sends, the other receives: the laws that tie the writing of
//! a data packet on one host to the reading of it on the other.

use crate::client_connection::{
    spec_process_client_blocks, ClientConnectionView, ReceivedFromClient,
};
use crate::entities::client_entity_manager::{
    lemma_entity_block_round_trip, spec_apply_entity_actions, spec_parse_entity_block,
};
use crate::entities::entity_type::EntityType;
use crate::entities::server_entity_manager::lemma_write_messages_holds_actions;
use crate::events::event_manager::{
    lemma_event_block_round_trip, lemma_written_events_are_created, spec_created_events,
    spec_event_bytes, spec_parse_event_block, spec_wire_event,
};
use crate::events::event_type::{event_records, EventType};
use crate::manifest::Manifest;
use crate::packet_type::{ManagerType, PacketType};
use crate::packet_writer::{spec_counted_block, spec_ping_block, PacketWriterView};
use crate::ping_manager::PingManagerView;
use crate::server_connection::{
    lemma_drain_holds_events, spec_drain, spec_drained, spec_inner, spec_process_blocks,
    spec_wire_events, Received, ServerConnectionView,
};
use crate::standard_header::{lemma_header_round_trip, spec_header_bytes, spec_read_header};
use crate::wire::spec_read_u64;
use std::rc::Rc;
use vstd::prelude::*;

verus! {

/// The events that `shared` points to.
pub open spec fn spec_inner_events<T>(shared: Seq<Rc<T>>) -> Seq<T> {
    shared.map_values(|event: Rc<T>| spec_inner(event))
}

/// A ping block in the body of a packet is read, and the reading goes on
/// behind it.
proof fn lemma_ping_block_is_passed<T: EventType, U: EntityType>(
    manifest: &Manifest<T, U>,
    state: ReceivedFromClient,
    bytes: Seq<u8>,
    position: int,
    now: u64,
)
    requires
        0 <= position,
        position + 10 <= bytes.len(),
        bytes[position] == 2,
        bytes[position + 1] <= 1,
    ensures
        spec_process_client_blocks(manifest, state, bytes, position, now)
            == spec_process_client_blocks(
            manifest,
            ReceivedFromClient {
                ping: state.ping.after_block(
                    bytes[position + 1],
                    spec_read_u64(bytes, position + 2).unwrap(),
                    now,
                ),
                ..state
            },
            bytes,
            position + 10,
            now,
        ),
{
}

/// What a client sends, the server receives. The events that a client's
/// connection writes into a data packet are, when the packet arrives,
/// added to the events that the server has received from that client: all
/// of them, in the order in which they were queued, and none else.
pub proof fn lemma_client_packet_delivers_events<T: EventType, U: EntityType>(
    sender: ServerConnectionView<T>,
    manifest: &Manifest<T, U>,
    now: u64,
    receiver: ReceivedFromClient,
    arrival: u64,
)
    requires
        manifest.wf(),
    ensures
        sender.outgoing_packet(manifest, now) matches Some(packet) ==> {
            &&& spec_read_header(packet) == Some(
                sender.connection.ack.outgoing_header(PacketType::Data),
            )
            &&& spec_process_client_blocks(
                manifest,
                receiver,
                packet.skip(9),
                0,
                arrival,
            ).incoming == receiver.incoming + event_records(
                spec_inner_events(
                    spec_drained(
                        manifest,
                        sender.connection.events,
                        sender.writer_after_ping(now),
                        sender.connection.ack.next_outgoing,
                    ),
                ),
            )
        },
{
    let packet_index = sender.connection.ack.next_outgoing;
    let first = sender.writer_after_ping(now);
    let drained = spec_drain(manifest, sender.connection.events, first, packet_index);
    let moved = spec_drained(manifest, sender.connection.events, first, packet_index);
    let writer = drained.1;
    if writer.has_bytes() {
        let header = sender.connection.ack.outgoing_header(PacketType::Data);
        let body = writer.body();
        lemma_header_round_trip(header, body);
        lemma_drain_holds_events(
            manifest,
            sender.connection.events,
            first,
            packet_index,
            Seq::empty(),
        );
        let wires = spec_wire_events(manifest, moved);
        assert(Seq::<(u16, Seq<u8>)>::empty() + wires =~= wires);
        let pings = writer.ping_bytes;
        let count = writer.event_count;
        assert(spec_counted_block(1, writer.entity_count, writer.entity_bytes) =~= Seq::empty());
        // The reading passes the ping blocks.
        let after_pings = if !sender.ping.should_write(now) {
            assert(pings =~= Seq::empty());
            receiver
        } else if sender.ping.pending_pong.is_some() {
            let echoed = sender.ping.pending_pong.unwrap();
            assert(pings =~= spec_ping_block(1, echoed) + spec_ping_block(0, now));
            assert(body[0] == 2 && body[1] == 1);
            assert(body[10] == 2 && body[11] == 0);
            lemma_ping_block_is_passed(manifest, receiver, body, 0, arrival);
            let between = ReceivedFromClient {
                ping: receiver.ping.after_block(
                    body[1],
                    spec_read_u64(body, 2).unwrap(),
                    arrival,
                ),
                ..receiver
            };
            lemma_ping_block_is_passed(manifest, between, body, 10, arrival);
            ReceivedFromClient {
                ping: between.ping.after_block(
                    body[11],
                    spec_read_u64(body, 12).unwrap(),
                    arrival,
                ),
                ..between
            }
        } else {
            assert(pings =~= spec_ping_block(0, now));
            assert(body[0] == 2 && body[1] == 0);
            lemma_ping_block_is_passed(manifest, receiver, body, 0, arrival);
            ReceivedFromClient {
                ping: receiver.ping.after_block(
                    body[1],
                    spec_read_u64(body, 2).unwrap(),
                    arrival,
                ),
                ..receiver
            }
        };
        let position = pings.len() as int;
        assert(spec_process_client_blocks(manifest, receiver, body, 0, arrival)
            == spec_process_client_blocks(manifest, after_pings, body, position, arrival));
        assert(after_pings.incoming == receiver.incoming);
        // Then it reads the block of events, and is at the end.
        let events = spec_inner_events(moved);
        if count == 0 {
            assert(body =~= pings);
            assert(moved.len() == 0);
            assert(event_records(events) =~= Seq::empty());
            assert(receiver.incoming + event_records(events) =~= receiver.incoming);
            assert(spec_process_client_blocks(manifest, after_pings, body, position, arrival)
                == after_pings);
        } else {
            assert(body =~= (pings + seq![0u8]) + seq![count] + writer.event_bytes + Seq::<
                u8,
            >::empty());
            lemma_event_block_round_trip(
                count,
                writer.event_bytes,
                wires,
                pings + seq![0u8],
                Seq::empty(),
            );
            assert(body[position] == 0);
            assert(spec_parse_event_block(body, position + 1) == Some(
                (wires, body.len() as int),
            ));
            assert forall|i: int| 0 <= i < events.len() implies spec_event_bytes(
                manifest,
                #[trigger] events[i],
            ).is_some() by {
                assert(events[i] == spec_inner(moved[i]));
            }
            lemma_written_events_are_created(manifest, events);
            assert(events.map_values(|event: T| spec_wire_event(manifest, event)) =~= wires);
            let fed = ReceivedFromClient {
                incoming: after_pings.incoming + spec_created_events(manifest, wires),
                ..after_pings
            };
            assert(ManagerType::spec_from_u8(body[position]) == Some(ManagerType::Event));
            assert(spec_process_client_blocks(manifest, after_pings, body, position, arrival)
                == spec_process_client_blocks(manifest, fed, body, body.len() as int, arrival));
            assert(spec_process_client_blocks(manifest, fed, body, body.len() as int, arrival)
                == fed);
        }
        assert(sender.outgoing_packet(manifest, now) == Some(spec_header_bytes(header) + body));
    }
}

/// A ping block in the body of a packet from the server is read, and the
/// reading goes on behind it.
proof fn lemma_server_ping_block_is_passed<T: EventType, U: EntityType>(
    manifest: &Manifest<T, U>,
    state: Received,
    bytes: Seq<u8>,
    position: int,
    now: u64,
)
    requires
        0 <= position,
        position + 10 <= bytes.len(),
        bytes[position] == 2,
        bytes[position + 1] <= 1,
    ensures
        spec_process_blocks(manifest, state, bytes, position, now) == spec_process_blocks(
            manifest,
            Received {
                ping: state.ping.after_block(
                    bytes[position + 1],
                    spec_read_u64(bytes, position + 2).unwrap(),
                    now,
                ),
                ..state
            },
            bytes,
            position + 10,
            now,
        ),
{
}

/// The ping blocks that a ping manager writes at the head of a packet: none
/// where no ping is due, else the answer that it owes, if any, and a ping.
proof fn lemma_ping_bytes(ping: PingManagerView, now: u64)
    ensures
        ({
            let writer = if ping.should_write(now) {
                ping.writer_after(PacketWriterView::empty(), now)
            } else {
                PacketWriterView::empty()
            };
            &&& writer.event_count == 0
            &&& writer.event_bytes == Seq::<u8>::empty()
            &&& writer.entity_count == 0
            &&& writer.entity_bytes == Seq::<u8>::empty()
            &&& writer.ping_bytes == (if !ping.should_write(now) {
                Seq::<u8>::empty()
            } else if ping.pending_pong.is_some() {
                spec_ping_block(1, ping.pending_pong.unwrap()) + spec_ping_block(0, now)
            } else {
                spec_ping_block(0, now)
            })
        }),
{
    if ping.should_write(now) {
        let writer = ping.writer_after(PacketWriterView::empty(), now);
        if ping.pending_pong.is_some() {
            assert(writer.ping_bytes =~= spec_ping_block(1, ping.pending_pong.unwrap())
                + spec_ping_block(0, now));
        } else {
            assert(writer.ping_bytes =~= spec_ping_block(0, now));
        }
    }
}

/// A body that ends in a block of events and a block of entity messages is
/// read to its end from where the two begin: the events that the manifest
/// builds are added to those received, and the entity messages are applied
/// to the scope.
proof fn lemma_blocks_are_read<T: EventType, U: EntityType>(
    manifest: &Manifest<T, U>,
    state: Received,
    before: Seq<u8>,
    event_count: u8,
    event_bytes: Seq<u8>,
    wires: Seq<(u16, Seq<u8>)>,
    entity_count: u8,
    entity_bytes: Seq<u8>,
    actions: Seq<crate::entities::client_entity_manager::EntityAction>,
    arrival: u64,
)
    requires
        crate::events::event_manager::spec_holds_events(event_bytes, wires),
        wires.len() == event_count,
        crate::entities::client_entity_manager::spec_holds_actions(entity_bytes, actions),
        actions.len() == entity_count,
    ensures
        spec_process_blocks(
            manifest,
            state,
            before + spec_counted_block(0, event_count, event_bytes) + spec_counted_block(
                1,
                entity_count,
                entity_bytes,
            ),
            before.len() as int,
            arrival,
        ) == (Received {
            incoming: state.incoming + spec_created_events(manifest, wires),
            scope: spec_apply_entity_actions(manifest, state.scope, actions),
            ping: state.ping,
        }),
{
    let event_block = spec_counted_block(0, event_count, event_bytes);
    let entity_block = spec_counted_block(1, entity_count, entity_bytes);
    let body = before + event_block + entity_block;
    let position = before.len() as int;
    let middle = position + event_block.len();
    let after_events = Received {
        incoming: state.incoming + spec_created_events(manifest, wires),
        ..state
    };
    if event_count == 0 {
        assert(wires =~= Seq::empty());
        assert(state.incoming + spec_created_events(manifest, wires) =~= state.incoming);
        assert(after_events == state);
    } else {
        assert(body =~= (before + seq![0u8]) + seq![event_count] + event_bytes + entity_block);
        lemma_event_block_round_trip(
            event_count,
            event_bytes,
            wires,
            before + seq![0u8],
            entity_block,
        );
        assert(body[position] == 0);
        assert(spec_parse_event_block(body, position + 1) == Some((wires, middle)));
        assert(ManagerType::spec_from_u8(body[position]) == Some(ManagerType::Event));
    }
    assert(spec_process_blocks(manifest, state, body, position, arrival) == spec_process_blocks(
        manifest,
        after_events,
        body,
        middle,
        arrival,
    ));
    let after_entities = Received {
        scope: spec_apply_entity_actions(manifest, state.scope, actions),
        ..after_events
    };
    if entity_count == 0 {
        assert(actions =~= Seq::empty());
        assert(middle == body.len());
        assert(after_entities == after_events);
    } else {
        assert(body =~= (before + event_block + seq![1u8]) + seq![entity_count] + entity_bytes
            + Seq::<u8>::empty());
        lemma_entity_block_round_trip(
            entity_count,
            entity_bytes,
            actions,
            before + event_block + seq![1u8],
            Seq::empty(),
        );
        assert(body[middle] == 1);
        assert(spec_parse_entity_block(body, middle + 1) == Some(
            (actions, body.len() as int),
        ));
        assert(ManagerType::spec_from_u8(body[middle]) == Some(ManagerType::Entity));
        assert(spec_process_blocks(manifest, after_events, body, middle, arrival)
            == spec_process_blocks(
            manifest,
            after_entities,
            body,
            body.len() as int,
            arrival,
        ));
    }
    assert(spec_process_blocks(manifest, after_entities, body, body.len() as int, arrival)
        == after_entities);
}

/// The reading of a body passes the ping blocks at its head and leaves the
/// events received and the scope as they are.
proof fn lemma_pings_are_passed<T: EventType, U: EntityType>(
    manifest: &Manifest<T, U>,
    receiver: Received,
    ping: PingManagerView,
    now: u64,
    rest: Seq<u8>,
    arrival: u64,
) -> (after: Received)
    ensures
        after.incoming == receiver.incoming,
        after.scope == receiver.scope,
        ({
            let pings = if !ping.should_write(now) {
                Seq::<u8>::empty()
            } else if ping.pending_pong.is_some() {
                spec_ping_block(1, ping.pending_pong.unwrap()) + spec_ping_block(0, now)
            } else {
                spec_ping_block(0, now)
            };
            spec_process_blocks(manifest, receiver, pings + rest, 0, arrival)
                == spec_process_blocks(manifest, after, pings + rest, pings.len() as int, arrival)
        }),
{
    if !ping.should_write(now) {
        receiver
    } else if ping.pending_pong.is_some() {
        let body = spec_ping_block(1, ping.pending_pong.unwrap()) + spec_ping_block(0, now) + rest;
        assert(body[0] == 2 && body[1] == 1);
        assert(body[10] == 2 && body[11] == 0);
        lemma_server_ping_block_is_passed(manifest, receiver, body, 0, arrival);
        let between = Received {
            ping: receiver.ping.after_block(body[1], spec_read_u64(body, 2).unwrap(), arrival),
            ..receiver
        };
        lemma_server_ping_block_is_passed(manifest, between, body, 10, arrival);
        Received {
            ping: between.ping.after_block(body[11], spec_read_u64(body, 12).unwrap(), arrival),
            ..between
        }
    } else {
        let body = spec_ping_block(0, now) + rest;
        assert(body[0] == 2 && body[1] == 0);
        lemma_server_ping_block_is_passed(manifest, receiver, body, 0, arrival);
        Received {
            ping: receiver.ping.after_block(body[1], spec_read_u64(body, 2).unwrap(), arrival),
            ..receiver
        }
    }
}

/// What a server sends, the client receives. The events that the server's
/// connection to a client writes into a data packet are, when the packet
/// arrives, added to the events that the client has received, in the order
/// in which they were queued; and the client's scope is what the entity
/// messages in the packet make of it, in the order in which they were
/// written.
pub proof fn lemma_server_packet_delivers<T: EventType, U: EntityType>(
    sender: ClientConnectionView<T>,
    manifest: &Manifest<T, U>,
    now: u64,
    receiver: Received,
    arrival: u64,
)
    requires
        manifest.wf(),
    ensures
        sender.outgoing_packet(manifest, now) matches Some(packet) ==> {
            let received = spec_process_blocks(manifest, receiver, packet.skip(9), 0, arrival);
            &&& spec_read_header(packet) == Some(
                sender.connection.ack.outgoing_header(PacketType::Data),
            )
            &&& received.incoming == receiver.incoming + event_records(
                spec_inner_events(
                    spec_drained(
                        manifest,
                        sender.connection.events,
                        sender.writer_after_ping(now),
                        sender.connection.ack.next_outgoing,
                    ),
                ),
            )
            &&& received.scope == spec_apply_entity_actions(
                manifest,
                receiver.scope,
                sender.scope.written_actions::<U>(
                    sender.writer_after_events(manifest, now),
                    sender.connection.ack.next_outgoing,
                ),
            )
        },
{
    let packet_index = sender.connection.ack.next_outgoing;
    let first = sender.writer_after_ping(now);
    let drained = spec_drain(manifest, sender.connection.events, first, packet_index);
    let moved = spec_drained(manifest, sender.connection.events, first, packet_index);
    let second = drained.1;
    let writer = sender.scope.write_messages::<U>(second, packet_index).1;
    let actions = sender.scope.written_actions::<U>(second, packet_index);
    if writer.has_bytes() {
        let header = sender.connection.ack.outgoing_header(PacketType::Data);
        let body = writer.body();
        lemma_header_round_trip(header, body);
        lemma_ping_bytes(sender.ping, now);
        lemma_drain_holds_events(
            manifest,
            sender.connection.events,
            first,
            packet_index,
            Seq::empty(),
        );
        let wires = spec_wire_events(manifest, moved);
        assert(Seq::<(u16, Seq<u8>)>::empty() + wires =~= wires);
        lemma_write_messages_holds_actions::<U>(sender.scope, second, packet_index, Seq::empty());
        assert(Seq::empty() + actions =~= actions);
        let pings = writer.ping_bytes;
        let rest = spec_counted_block(0, writer.event_count, writer.event_bytes)
            + spec_counted_block(1, writer.entity_count, writer.entity_bytes);
        assert(body =~= pings + rest);
        let after_pings = lemma_pings_are_passed(
            manifest,
            receiver,
            sender.ping,
            now,
            rest,
            arrival,
        );
        lemma_blocks_are_read(
            manifest,
            after_pings,
            pings,
            writer.event_count,
            writer.event_bytes,
            wires,
            writer.entity_count,
            writer.entity_bytes,
            actions,
            arrival,
        );
        let events = spec_inner_events(moved);
        assert forall|i: int| 0 <= i < events.len() implies spec_event_bytes(
            manifest,
            #[trigger] events[i],
        ).is_some() by {
            assert(events[i] == spec_inner(moved[i]));
        }
        lemma_written_events_are_created(manifest, events);
        assert(events.map_values(|event: T| spec_wire_event(manifest, event)) =~= wires);
        assert(sender.outgoing_packet(manifest, now) == Some(spec_header_bytes(header) + body));
    }
}

} // verus!
