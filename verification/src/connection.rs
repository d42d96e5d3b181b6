//! What both hosts keep for a peer: acknowledgements, events and the two
//! timers that watch over the silence in each direction.

use crate::ack_manager::{spec_notices, AckManager, AckManagerView, PacketNotice};
use crate::connection_config::ConnectionConfig;
use crate::entities::entity_type::EntityType;
use crate::events::event_manager::{
    spec_created_events, spec_parse_event_block, EventManager, EventManagerView,
};
use crate::events::event_type::{event_records, EventType};
use crate::manifest::Manifest;
use crate::packet_reader::PacketReader;
use crate::packet_type::PacketType;
use crate::sequence::spec_sequence_greater_than;
use crate::standard_header::{spec_header_bytes, StandardHeader};
use crate::timer::{spec_fire_time, Timer};
use std::rc::Rc;
use vstd::prelude::*;

verus! {

/// The most data packets that a connection hands out in one go. What waits
/// beyond that goes out the next time.
pub const MAX_PACKETS_PER_UPDATE: usize = 64;

/// The bytes of each packet.
pub open spec fn packets_view(packets: Seq<Vec<u8>>) -> Seq<Seq<u8>> {
    packets.map_values(|packet: Vec<u8>| packet@)
}

/// The event manager after it was told of each of `notices` in turn.
pub open spec fn spec_apply_notices<T: EventType>(
    events: EventManagerView<T>,
    notices: Seq<PacketNotice>,
) -> EventManagerView<T>
    decreases notices.len(),
{
    if notices.len() == 0 {
        events
    } else {
        let before = spec_apply_notices(events, notices.drop_last());
        match notices.last() {
            PacketNotice::Delivered(index) => before.packet_delivered(index),
            PacketNotice::Dropped(index) => before.packet_dropped(index),
        }
    }
}

/// What a `Connection` holds, as mathematics.
pub struct ConnectionView<T> {
    pub ack: AckManagerView,
    pub events: EventManagerView<T>,
    /// Rings when nothing was sent for the heartbeat interval.
    pub heartbeat_timer: Timer,
    /// Rings when nothing was heard for the disconnection timeout.
    pub drop_timer: Timer,
}

impl<T: EventType> ConnectionView<T> {
    /// Each part of the connection is in order.
    pub open spec fn wf(self) -> bool {
        self.ack.wf() && self.events.wf()
    }

    /// Whether a heartbeat is due at the time `now`: nothing was sent for
    /// the heartbeat interval, and no event waits that would break the
    /// silence anyway.
    pub open spec fn should_send_heartbeat(self, now: u64) -> bool {
        self.heartbeat_timer.spec_ringing(now) && self.events.outgoing.len() == 0
    }

    /// Whether the peer counts as lost at the time `now`.
    pub open spec fn should_drop(self, now: u64) -> bool {
        self.drop_timer.spec_ringing(now)
    }

    /// The connection after a packet went out at the time `now`: the silence
    /// that the heartbeat timer measures starts anew.
    pub open spec fn mark_sent(self, now: u64) -> Self {
        ConnectionView {
            heartbeat_timer: Timer {
                interval: self.heartbeat_timer.interval,
                next_fire: spec_fire_time(now, self.heartbeat_timer.interval),
            },
            ..self
        }
    }

    /// The connection after a packet came in at the time `now`: the silence
    /// that the drop timer measures starts anew.
    pub open spec fn mark_heard(self, now: u64) -> Self {
        ConnectionView {
            drop_timer: Timer {
                interval: self.drop_timer.interval,
                next_fire: spec_fire_time(now, self.drop_timer.interval),
            },
            ..self
        }
    }

    /// The connection after a header came in: the ack manager takes it in,
    /// and the event manager is told what the header says of our packets.
    pub open spec fn process_incoming_header(self, header: StandardHeader) -> Self {
        ConnectionView {
            ack: self.ack.process_incoming(header),
            events: spec_apply_notices(
                self.events,
                spec_notices(self.ack.sent, header.last_remote_packet_index, header.ack_field),
            ),
            ..self
        }
    }
}

/// Being told of packets keeps the event manager in order.
pub proof fn lemma_apply_notices_wf<T: EventType>(
    events: EventManagerView<T>,
    notices: Seq<PacketNotice>,
)
    requires
        events.wf(),
    ensures
        spec_apply_notices(events, notices).wf(),
        spec_apply_notices(events, notices).incoming == events.incoming,
    decreases notices.len(),
{
    if notices.len() > 0 {
        lemma_apply_notices_wf(events, notices.drop_last());
    }
}

/// The state of the connection to one peer.
pub struct Connection<T: EventType> {
    heartbeat_timer: Timer,
    drop_timer: Timer,
    ack_manager: AckManager,
    event_manager: EventManager<T>,
}

impl<T: EventType> View for Connection<T> {
    type V = ConnectionView<T>;

    closed spec fn view(&self) -> ConnectionView<T> {
        ConnectionView {
            ack: self.ack_manager@,
            events: self.event_manager@,
            heartbeat_timer: self.heartbeat_timer,
            drop_timer: self.drop_timer,
        }
    }
}

impl<T: EventType> Connection<T> {
    /// A connection on which nothing was sent or heard yet, made at the time
    /// `now`.
    pub fn new(connection_config: &ConnectionConfig, now: u64) -> (connection: Self)
        ensures
            connection@.wf(),
            connection@ == (ConnectionView::<T> {
                ack: AckManagerView {
                    next_outgoing: 0,
                    heard_any: false,
                    last_remote: 0xffff,
                    ack_bitfield: 0,
                    sent: Seq::empty(),
                },
                events: EventManagerView {
                    outgoing: Seq::empty(),
                    incoming: Seq::empty(),
                    sent: Map::empty(),
                },
                heartbeat_timer: Timer {
                    interval: connection_config.heartbeat_interval,
                    next_fire: spec_fire_time(now, connection_config.heartbeat_interval),
                },
                drop_timer: Timer {
                    interval: connection_config.disconnection_timeout_duration,
                    next_fire: spec_fire_time(now, connection_config.disconnection_timeout_duration),
                },
            }),
    {
        Connection {
            heartbeat_timer: Timer::new(connection_config.heartbeat_interval, now),
            drop_timer: Timer::new(connection_config.disconnection_timeout_duration, now),
            ack_manager: AckManager::new(),
            event_manager: EventManager::new(),
        }
    }

    /// Notes that a packet went out at the time `now`: the silence that the
    /// heartbeat timer measures starts anew.
    pub fn mark_sent(&mut self, now: u64)
        ensures
            final(self)@ == old(self)@.mark_sent(now),
    {
        self.heartbeat_timer.reset(now);
    }

    /// Whether a heartbeat is due at the time `now`.
    pub fn should_send_heartbeat(&self, now: u64) -> (due: bool)
        ensures
            due == self@.should_send_heartbeat(now),
    {
        self.heartbeat_timer.ringing(now) && !self.event_manager.has_outgoing_events()
    }

    /// Notes that a packet came in at the time `now`: the silence that the
    /// drop timer measures starts anew.
    pub fn mark_heard(&mut self, now: u64)
        ensures
            final(self)@ == old(self)@.mark_heard(now),
    {
        self.drop_timer.reset(now);
    }

    /// Whether the peer counts as lost at the time `now`.
    pub fn should_drop(&self, now: u64) -> (lost: bool)
        ensures
            lost == self@.should_drop(now),
    {
        self.drop_timer.ringing(now)
    }

    /// Takes in the header of a packet from the peer, and tells the event
    /// manager which of our packets it reports delivered and which lost, in
    /// the order of the notices. Returns the notices, for whoever else keeps
    /// track of what went out in which packet.
    pub fn process_incoming_header(&mut self, header: &StandardHeader) -> (notices: Vec<
        PacketNotice,
    >)
        ensures
            final(self)@ == old(self)@.process_incoming_header(*header),
            notices@ == spec_notices(
                old(self)@.ack.sent,
                header.last_remote_packet_index,
                header.ack_field,
            ),
            old(self)@.wf() ==> final(self)@.wf(),
    {
        let notices = self.ack_manager.process_incoming(header);
        let ghost start = self.event_manager@;
        let mut i: usize = 0;
        while i < notices.len()
            invariant
                i <= notices.len(),
                self.ack_manager@ == old(self).ack_manager@.process_incoming(*header),
                old(self)@.wf() ==> self.ack_manager@.wf(),
                self.heartbeat_timer == old(self).heartbeat_timer,
                self.drop_timer == old(self).drop_timer,
                start == old(self).event_manager@,
                self.event_manager@ == spec_apply_notices(start, notices@.subrange(0, i as int)),
            decreases notices.len() - i,
        {
            assert(notices@.subrange(0, i + 1).drop_last() =~= notices@.subrange(0, i as int));
            match notices[i] {
                PacketNotice::Delivered(index) => {
                    self.event_manager.notify_packet_delivered(index);
                },
                PacketNotice::Dropped(index) => {
                    self.event_manager.notify_packet_dropped(index);
                },
            }
            i += 1;
        }
        assert(notices@.subrange(0, i as int) =~= notices@);
        proof {
            if old(self)@.wf() {
                lemma_apply_notices_wf(start, notices@);
            }
        }
        notices
    }

    /// Puts the header of the next outgoing packet in front of `payload` and
    /// records the packet as sent. Each packet gets a sequence number newer
    /// than the one before.
    pub fn process_outgoing_header(&mut self, packet_type: PacketType, payload: &[u8]) -> (packet:
        Vec<u8>)
        ensures
            packet@ == spec_header_bytes(old(self)@.ack.outgoing_header(packet_type)) + payload@,
            final(self)@ == (ConnectionView {
                ack: old(self)@.ack.mark_sent(packet_type),
                ..old(self)@
            }),
            spec_sequence_greater_than(final(self)@.ack.next_outgoing, old(self)@.ack.next_outgoing),
            old(self)@.wf() ==> final(self)@.wf(),
    {
        self.ack_manager.process_outgoing(packet_type, payload)
    }

    /// The sequence number that the next outgoing packet gets.
    pub fn get_next_packet_index(&self) -> (index: u16)
        ensures
            index == self@.ack.next_outgoing,
    {
        self.ack_manager.get_next_packet_index()
    }

    /// Queues an event for the peer.
    pub fn queue_event(&mut self, event: T)
        ensures
            final(self)@ == (ConnectionView {
                events: old(self)@.events.queue_outgoing(Rc::new(event)),
                ..old(self)@
            }),
            old(self)@.wf() ==> final(self)@.wf(),
    {
        self.event_manager.queue_outgoing_event(event);
    }

    /// Whether any event waits to be sent.
    pub fn has_outgoing_events(&self) -> (waiting: bool)
        ensures
            waiting == (self@.events.outgoing.len() != 0),
    {
        self.event_manager.has_outgoing_events()
    }

    /// Takes the next event to send, for the packet `next_packet_index`.
    pub fn pop_outgoing_event(&mut self, next_packet_index: u16) -> (popped: Option<Rc<T>>)
        ensures
            final(self)@ == (ConnectionView {
                events: old(self)@.events.pop_outgoing(next_packet_index),
                ..old(self)@
            }),
            popped == (if old(self)@.events.outgoing.len() == 0 {
                None
            } else {
                Some(old(self)@.events.outgoing[0])
            }),
            old(self)@.wf() ==> final(self)@.wf(),
    {
        self.event_manager.pop_outgoing_event(next_packet_index)
    }

    /// Puts back an event that did not fit into the packet
    /// `next_packet_index`.
    pub fn unpop_outgoing_event(&mut self, next_packet_index: u16, event: &Rc<T>)
        ensures
            final(self)@ == (ConnectionView {
                events: old(self)@.events.unpop_outgoing(next_packet_index, *event),
                ..old(self)@
            }),
            old(self)@.wf() ==> final(self)@.wf(),
    {
        self.event_manager.unpop_outgoing_event(next_packet_index, event);
    }

    /// Reads the block of events at the reader's cursor into the queue of
    /// received events.
    pub fn process_event_data<U: EntityType>(
        &mut self,
        reader: &mut PacketReader,
        manifest: &Manifest<T, U>,
    )
        ensures
            final(reader).bytes() == old(reader).bytes(),
            final(self)@.ack == old(self)@.ack,
            final(self)@.heartbeat_timer == old(self)@.heartbeat_timer,
            final(self)@.drop_timer == old(self)@.drop_timer,
            final(self)@.events.outgoing == old(self)@.events.outgoing,
            final(self)@.events.sent == old(self)@.events.sent,
            old(self)@.events.incoming.is_prefix_of(final(self)@.events.incoming),
            match spec_parse_event_block(old(reader).bytes(), old(reader).position()) {
                Some((events, end)) => {
                    &&& final(reader).position() == end
                    &&& event_records(
                        final(self)@.events.incoming.skip(old(self)@.events.incoming.len() as int),
                    ) == spec_created_events(manifest, events)
                },
                None => {
                    &&& final(reader).position() == old(reader).bytes().len()
                    &&& final(self)@.events.incoming == old(self)@.events.incoming
                },
            },
            old(self)@.wf() ==> final(self)@.wf(),
    {
        self.event_manager.process_data(reader, manifest);
    }

    /// Takes the oldest received event.
    pub fn get_incoming_event(&mut self) -> (event: Option<T>)
        ensures
            event == (if old(self)@.events.incoming.len() == 0 {
                None
            } else {
                Some(old(self)@.events.incoming[0])
            }),
            final(self)@ == (ConnectionView {
                events: EventManagerView {
                    incoming: if old(self)@.events.incoming.len() == 0 {
                        old(self)@.events.incoming
                    } else {
                        old(self)@.events.incoming.drop_first()
                    },
                    ..old(self)@.events
                },
                ..old(self)@
            }),
            old(self)@.wf() ==> final(self)@.wf(),
    {
        self.event_manager.pop_incoming_event()
    }
}

} // verus!
