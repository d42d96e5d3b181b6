//! Queues of events going out and coming in, and the record of which
//! guaranteed events travel in which packet.

use crate::entities::entity_type::EntityType;
use crate::events::event_type::{event_record, event_records, EventRecord, EventType};
use crate::manifest::Manifest;
use crate::packet_reader::PacketReader;
use crate::wire::{
    in_bounds, lemma_u16_round_trip, spec_read_u16, spec_read_u8, u16_bytes, write_u16, write_u8,
};
use std::collections::HashMap;
use std::collections::VecDeque;
use std::rc::Rc;
use vstd::prelude::*;

verus! {

broadcast use vstd::std_specs::hash::group_hash_axioms;

/// What an `EventManager` holds, as mathematics.
pub struct EventManagerView<T> {
    /// Events waiting to be written into a packet, next one first.
    pub outgoing: Seq<Rc<T>>,
    /// Events received and not yet handed to the application, oldest first.
    pub incoming: Seq<T>,
    /// For each packet in flight, the guaranteed events written into it, in
    /// the order of writing.
    pub sent: Map<u16, Seq<Rc<T>>>,
}

impl<T: EventType> EventManagerView<T> {
    /// Every packet on record carries at least one event, and only guaranteed
    /// events are on record.
    pub open spec fn wf(self) -> bool {
        forall|packet_index: u16| #[trigger]
            self.sent.contains_key(packet_index) ==> {
                &&& self.sent[packet_index].len() > 0
                &&& forall|i: int|
                    0 <= i < self.sent[packet_index].len() ==> (
                    #[trigger] self.sent[packet_index][i]).spec_is_guaranteed()
            }
    }

    /// The events on record for `packet_index`; none where there is no record.
    pub open spec fn bucket(self, packet_index: u16) -> Seq<Rc<T>> {
        if self.sent.contains_key(packet_index) {
            self.sent[packet_index]
        } else {
            Seq::empty()
        }
    }

    /// The state after `event` joined the end of the outgoing queue.
    pub open spec fn queue_outgoing(self, event: Rc<T>) -> Self {
        EventManagerView { outgoing: self.outgoing.push(event), ..self }
    }

    /// The state after the head of the outgoing queue was taken for the packet
    /// `packet_index`: a guaranteed event goes on that packet's record.
    pub open spec fn pop_outgoing(self, packet_index: u16) -> Self {
        if self.outgoing.len() == 0 {
            self
        } else {
            let event = self.outgoing[0];
            EventManagerView {
                outgoing: self.outgoing.drop_first(),
                incoming: self.incoming,
                sent: if event.spec_is_guaranteed() {
                    self.sent.insert(packet_index, self.bucket(packet_index).push(event))
                } else {
                    self.sent
                },
            }
        }
    }

    /// The state after `event`, taken for the packet `packet_index` but not
    /// written, went back to the head of the queue: a guaranteed event leaves
    /// the end of that packet's record, and an emptied record goes.
    pub open spec fn unpop_outgoing(self, packet_index: u16, event: Rc<T>) -> Self {
        EventManagerView {
            outgoing: seq![event] + self.outgoing,
            incoming: self.incoming,
            sent: if event.spec_is_guaranteed() && self.sent.contains_key(packet_index) {
                if self.sent[packet_index].len() <= 1 {
                    self.sent.remove(packet_index)
                } else {
                    self.sent.insert(packet_index, self.sent[packet_index].drop_last())
                }
            } else {
                self.sent
            },
        }
    }

    /// Whether the manager still looks after `event`: it waits in the
    /// outgoing queue, or is on record for a packet in flight.
    pub open spec fn keeps(self, event: Rc<T>) -> bool {
        self.outgoing.contains(event) || exists|packet_index: u16|
            self.sent.contains_key(packet_index) && (#[trigger] self.sent[packet_index]).contains(
                event,
            )
    }

    /// The state after the packet `packet_index` was reported delivered.
    pub open spec fn packet_delivered(self, packet_index: u16) -> Self {
        EventManagerView { sent: self.sent.remove(packet_index), ..self }
    }

    /// The state after the packet `packet_index` was reported lost: its
    /// events wait at the end of the outgoing queue again.
    pub open spec fn packet_dropped(self, packet_index: u16) -> Self {
        EventManagerView {
            outgoing: self.outgoing + self.bucket(packet_index),
            incoming: self.incoming,
            sent: self.sent.remove(packet_index),
        }
    }
}

/// An event as it stands in a packet: its wire id and its payload.
pub type WireEvent = (u16, Seq<u8>);

/// The event that starts at `position` of `bytes`, and where it ends: two
/// bytes of wire id, one byte of length, then that many bytes of payload.
pub open spec fn spec_parse_event(bytes: Seq<u8>, position: int) -> Option<(WireEvent, int)> {
    match (spec_read_u16(bytes, position), spec_read_u8(bytes, position + 2)) {
        (Some(naia_id), Some(length)) => if in_bounds(bytes, position + 3, length as nat) {
            Some(
                (
                    (naia_id, bytes.subrange(position + 3, position + 3 + length)),
                    position + 3 + length,
                ),
            )
        } else {
            None
        },
        _ => None,
    }
}

/// The `count` events that follow each other from `start` on, and where the
/// last one ends; nothing if the bytes run out before that.
pub open spec fn spec_parse_events(bytes: Seq<u8>, start: int, count: nat) -> Option<
    (Seq<WireEvent>, int),
>
    decreases count,
{
    if count == 0 {
        Some((Seq::empty(), start))
    } else {
        match spec_parse_events(bytes, start, (count - 1) as nat) {
            Some((events, position)) => match spec_parse_event(bytes, position) {
                Some((event, end)) => Some((events.push(event), end)),
                None => None,
            },
            None => None,
        }
    }
}

/// The block of events at `position`: one byte that counts them, then the
/// events.
pub open spec fn spec_parse_event_block(bytes: Seq<u8>, position: int) -> Option<
    (Seq<WireEvent>, int),
> {
    match spec_read_u8(bytes, position) {
        Some(count) => spec_parse_events(bytes, position + 1, count as nat),
        None => None,
    }
}

/// What can be told of the events that the manifest builds from `events`, in
/// order. An event whose wire id or bytes the manifest does not accept is
/// passed over.
pub open spec fn spec_created_events<T: EventType, U: EntityType>(
    manifest: &Manifest<T, U>,
    events: Seq<WireEvent>,
) -> Seq<EventRecord>
    decreases events.len(),
{
    if events.len() == 0 {
        Seq::empty()
    } else {
        let before = spec_created_events(manifest, events.drop_last());
        match manifest.spec_create_event(events.last().0, events.last().1) {
            Some(record) => before.push(record),
            None => before,
        }
    }
}

/// The bytes that stand for `event` in a packet: wire id, length of the
/// payload, payload. An event of a kind that the manifest does not know, or
/// with a payload of more than 255 bytes, has no such bytes.
pub open spec fn spec_event_bytes<T: EventType, U: EntityType>(
    manifest: &Manifest<T, U>,
    event: T,
) -> Option<Seq<u8>> {
    match manifest.spec_event_naia_id(event.spec_type_id()) {
        Some(naia_id) => if event.spec_payload().len() <= 255 {
            Some(
                u16_bytes(naia_id) + seq![event.spec_payload().len() as u8]
                    + event.spec_payload(),
            )
        } else {
            None
        },
        None => None,
    }
}

/// Calls `Rc::clone`. Trusted: the new pointer shares the allocation of the
/// old one, so both hold the same value.
#[verifier::external_body]
fn share<T>(event: &Rc<T>) -> (shared: Rc<T>)
    ensures
        shared == *event,
{
    Rc::clone(event)
}

/// Handles incoming and outgoing events, and tracks which guaranteed events
/// went out in which packet so that they can be sent again when it is lost.
pub struct EventManager<T: EventType> {
    queued_outgoing_events: VecDeque<Rc<T>>,
    queued_incoming_events: VecDeque<T>,
    sent_events: HashMap<u16, Vec<Rc<T>>>,
}

impl<T: EventType> View for EventManager<T> {
    type V = EventManagerView<T>;

    closed spec fn view(&self) -> EventManagerView<T> {
        EventManagerView {
            outgoing: self.queued_outgoing_events@,
            incoming: self.queued_incoming_events@,
            sent: Map::new(
                |packet_index: u16| self.sent_events@.contains_key(packet_index),
                |packet_index: u16| self.sent_events@[packet_index]@,
            ),
        }
    }
}

impl<T: EventType> EventManager<T> {
    /// Creates an event manager with empty queues and nothing in flight.
    pub fn new() -> (manager: Self)
        ensures
            manager@.wf(),
            manager@.outgoing == Seq::<Rc<T>>::empty(),
            manager@.incoming == Seq::<T>::empty(),
            manager@.sent == Map::<u16, Seq<Rc<T>>>::empty(),
    {
        let manager = EventManager {
            queued_outgoing_events: VecDeque::new(),
            queued_incoming_events: VecDeque::new(),
            sent_events: HashMap::new(),
        };
        assert(manager@.sent =~= Map::<u16, Seq<Rc<T>>>::empty());
        manager
    }

    /// The packet `packet_index` has arrived: its events need no more
    /// tracking.
    pub fn notify_packet_delivered(&mut self, packet_index: u16)
        ensures
            final(self)@ == old(self)@.packet_delivered(packet_index),
            old(self)@.wf() ==> final(self)@.wf(),
    {
        self.sent_events.remove(&packet_index);
        assert(self@.sent =~= old(self)@.sent.remove(packet_index));
    }

    /// The packet `packet_index` was lost: the guaranteed events that went
    /// out in it are queued for another transmission.
    pub fn notify_packet_dropped(&mut self, packet_index: u16)
        ensures
            final(self)@ == old(self)@.packet_dropped(packet_index),
            old(self)@.wf() ==> final(self)@.wf(),
    {
        match self.sent_events.remove(&packet_index) {
            Some(dropped_events_list) => {
                let mut i: usize = 0;
                while i < dropped_events_list.len()
                    invariant
                        i <= dropped_events_list.len(),
                        self.queued_incoming_events == old(self).queued_incoming_events,
                        self.sent_events@ == old(self).sent_events@.remove(packet_index),
                        self.queued_outgoing_events@ == old(self).queued_outgoing_events@
                            + dropped_events_list@.subrange(0, i as int),
                    decreases dropped_events_list.len() - i,
                {
                    let again = share(&dropped_events_list[i]);
                    self.queued_outgoing_events.push_back(again);
                    assert(dropped_events_list@.subrange(0, i + 1)
                        =~= dropped_events_list@.subrange(0, i as int).push(
                        dropped_events_list@[i as int],
                    ));
                    i += 1;
                }
                assert(dropped_events_list@.subrange(0, i as int) =~= dropped_events_list@);
                assert(self@.sent =~= old(self)@.sent.remove(packet_index));
            },
            None => {
                assert(self@.sent =~= old(self)@.sent.remove(packet_index));
                assert(self@.outgoing =~= old(self)@.outgoing + old(self)@.bucket(packet_index));
            },
        }
    }

    /// Whether any event waits to be sent.
    pub fn has_outgoing_events(&self) -> (waiting: bool)
        ensures
            waiting == (self@.outgoing.len() != 0),
    {
        self.queued_outgoing_events.len() != 0
    }

    /// Takes the next event to send, for the packet `packet_index`. A
    /// guaranteed event goes on the record of that packet.
    pub fn pop_outgoing_event(&mut self, packet_index: u16) -> (popped: Option<Rc<T>>)
        ensures
            final(self)@ == old(self)@.pop_outgoing(packet_index),
            popped == (if old(self)@.outgoing.len() == 0 {
                None
            } else {
                Some(old(self)@.outgoing[0])
            }),
            old(self)@.wf() ==> final(self)@.wf(),
    {
        match self.queued_outgoing_events.pop_front() {
            Some(event) => {
                assert(self@.outgoing =~= old(self)@.outgoing.drop_first());
                if event.is_guaranteed() {
                    let mut sent_events_list = match self.sent_events.remove(&packet_index) {
                        Some(list) => list,
                        None => Vec::new(),
                    };
                    assert(sent_events_list@ =~= old(self)@.bucket(packet_index));
                    sent_events_list.push(share(&event));
                    self.sent_events.insert(packet_index, sent_events_list);
                    assert(self@.sent =~= old(self)@.sent.insert(
                        packet_index,
                        old(self)@.bucket(packet_index).push(event),
                    ));
                } else {
                    assert(self@.sent =~= old(self)@.sent);
                }
                Some(event)
            },
            None => {
                assert(self@.sent =~= old(self)@.sent);
                None
            },
        }
    }

    /// Puts back an event that `pop_outgoing_event` gave for the packet
    /// `packet_index` and that did not fit into it: the event is first in the
    /// queue again, and off that packet's record.
    pub fn unpop_outgoing_event(&mut self, packet_index: u16, event: &Rc<T>)
        ensures
            final(self)@ == old(self)@.unpop_outgoing(packet_index, *event),
            old(self)@.wf() ==> final(self)@.wf(),
    {
        let cloned_event = share(event);
        if event.is_guaranteed() {
            match self.sent_events.remove(&packet_index) {
                Some(mut sent_events_list) => {
                    sent_events_list.pop();
                    if sent_events_list.len() != 0 {
                        self.sent_events.insert(packet_index, sent_events_list);
                        assert(self@.sent =~= old(self)@.sent.insert(
                            packet_index,
                            old(self)@.sent[packet_index].drop_last(),
                        ));
                    } else {
                        assert(self@.sent =~= old(self)@.sent.remove(packet_index));
                    }
                },
                None => {
                    assert(self@.sent =~= old(self)@.sent);
                },
            }
        } else {
            assert(self@.sent =~= old(self)@.sent);
        }
        self.queued_outgoing_events.push_front(cloned_event);
    }

    /// Queues an event for transmission to the remote host.
    pub fn queue_outgoing_event(&mut self, event: T)
        ensures
            final(self)@ == old(self)@.queue_outgoing(Rc::new(event)),
            old(self)@.wf() ==> final(self)@.wf(),
    {
        self.queued_outgoing_events.push_back(Rc::new(event));
        assert(self@.sent =~= old(self)@.sent);
    }

    /// Whether any received event waits for the application.
    pub fn has_incoming_events(&self) -> (waiting: bool)
        ensures
            waiting == (self@.incoming.len() != 0),
    {
        self.queued_incoming_events.len() != 0
    }

    /// Reads the block of events at the reader's cursor and queues, in
    /// order, each event that the manifest can build. A block that runs past
    /// the end of the packet is dropped whole: nothing is queued, and the
    /// reader is left at the end of the packet.
    pub fn process_data<U: EntityType>(
        &mut self,
        reader: &mut PacketReader,
        manifest: &Manifest<T, U>,
    )
        ensures
            final(reader).bytes() == old(reader).bytes(),
            final(self)@.outgoing == old(self)@.outgoing,
            final(self)@.sent == old(self)@.sent,
            old(self)@.incoming.is_prefix_of(final(self)@.incoming),
            match spec_parse_event_block(old(reader).bytes(), old(reader).position()) {
                Some((events, end)) => {
                    &&& final(reader).position() == end
                    &&& event_records(final(self)@.incoming.skip(old(self)@.incoming.len() as int))
                        == spec_created_events(manifest, events)
                },
                None => {
                    &&& final(reader).position() == old(reader).bytes().len()
                    &&& final(self)@.incoming == old(self)@.incoming
                },
            },
    {
        let ghost bytes = reader.bytes();
        let ghost start = reader.position() + 1;
        let event_count = match reader.read_u8() {
            Some(count) => count,
            None => {
                reader.skip_to_end();
                assert(self@.incoming.skip(self@.incoming.len() as int) =~= Seq::<T>::empty());
                return ;
            },
        };
        let mut parsed: Vec<(u16, Vec<u8>)> = Vec::new();
        let mut x: u8 = 0;
        while x < event_count
            invariant
                x <= event_count,
                reader.bytes() == bytes,
                bytes == old(reader).bytes(),
                start == old(reader).position() + 1,
                spec_read_u8(bytes, start - 1) == Some(event_count),
                self.queued_outgoing_events == old(self).queued_outgoing_events,
                self.queued_incoming_events == old(self).queued_incoming_events,
                self.sent_events == old(self).sent_events,
                parsed@.len() == x,
                spec_parse_events(bytes, start, x as nat) == Some(
                    (
                        parsed@.map_values(|event: (u16, Vec<u8>)| (event.0, event.1@)),
                        reader.position(),
                    ),
                ),
            decreases event_count - x,
        {
            let ghost position = reader.position();
            let naia_id = reader.read_u16();
            let payload_length = if naia_id.is_some() {
                reader.read_u8()
            } else {
                None
            };
            let event_payload = match payload_length {
                Some(length) => reader.read_bytes(length as usize),
                None => None,
            };
            match (naia_id, event_payload) {
                (Some(naia_id), Some(event_payload)) => {
                    let ghost before = parsed@.map_values(
                        |event: (u16, Vec<u8>)| (event.0, event.1@),
                    );
                    parsed.push((naia_id, event_payload));
                    assert(parsed@.map_values(|event: (u16, Vec<u8>)| (event.0, event.1@))
                        =~= before.push((naia_id, event_payload@)));
                },
                _ => {
                    assert(spec_parse_event(bytes, position).is_none());
                    proof {
                        lemma_parse_events_fails_on(bytes, start, x as nat, event_count as nat);
                    }
                    reader.skip_to_end();
                    return ;
                },
            }
            x += 1;
        }
        let ghost events = parsed@.map_values(|event: (u16, Vec<u8>)| (event.0, event.1@));
        let ghost base = self@.incoming;
        let mut i: usize = 0;
        while i < parsed.len()
            invariant
                i <= parsed.len(),
                events == parsed@.map_values(|event: (u16, Vec<u8>)| (event.0, event.1@)),
                self.queued_outgoing_events == old(self).queued_outgoing_events,
                self.sent_events == old(self).sent_events,
                base == old(self)@.incoming,
                base.is_prefix_of(self.queued_incoming_events@),
                event_records(self.queued_incoming_events@.skip(base.len() as int))
                    == spec_created_events(manifest, events.subrange(0, i as int)),
            decreases parsed.len() - i,
        {
            let ghost before = self.queued_incoming_events@;
            assert(events.subrange(0, i + 1).drop_last() =~= events.subrange(0, i as int));
            assert(events.subrange(0, i + 1).last() == events[i as int]);
            match manifest.create_event(parsed[i].0, parsed[i].1.as_slice()) {
                Some(new_event) => {
                    self.queued_incoming_events.push_back(new_event);
                    assert(self.queued_incoming_events@.skip(base.len() as int) =~= before.skip(
                        base.len() as int,
                    ).push(new_event));
                    assert(event_records(before.skip(base.len() as int).push(new_event))
                        =~= event_records(before.skip(base.len() as int)).push(
                        event_record(new_event),
                    ));
                },
                None => {},
            }
            i += 1;
        }
        assert(events.subrange(0, i as int) =~= events);
    }

    /// The bytes that stand for `event` in a packet, where it has any.
    pub fn write_data<U: EntityType>(manifest: &Manifest<T, U>, event: &T) -> (event_total_bytes:
        Option<Vec<u8>>)
        requires
            manifest.wf(),
        ensures
            match event_total_bytes {
                Some(bytes) => spec_event_bytes(manifest, *event) == Some(bytes@),
                None => spec_event_bytes(manifest, *event).is_none(),
            },
    {
        let mut event_payload_bytes = Vec::<u8>::new();
        event.write(&mut event_payload_bytes);
        assert(event_payload_bytes@ =~= event.spec_payload());
        if event_payload_bytes.len() > 255 {
            return None;
        }
        let type_id = event.get_type_id();
        match manifest.get_event_naia_id(type_id) {
            Some(naia_id) => {
                let mut event_total_bytes = Vec::<u8>::new();
                write_u16(&mut event_total_bytes, naia_id);
                write_u8(&mut event_total_bytes, event_payload_bytes.len() as u8);
                event_total_bytes.append(&mut event_payload_bytes);
                assert(event_total_bytes@ =~= u16_bytes(naia_id)
                    + seq![event.spec_payload().len() as u8] + event.spec_payload());
                Some(event_total_bytes)
            },
            None => None,
        }
    }

    /// Takes the oldest received event.
    pub fn pop_incoming_event(&mut self) -> (popped: Option<T>)
        ensures
            popped == (if old(self)@.incoming.len() == 0 {
                None
            } else {
                Some(old(self)@.incoming[0])
            }),
            final(self)@ == (EventManagerView {
                incoming: if old(self)@.incoming.len() == 0 {
                    old(self)@.incoming
                } else {
                    old(self)@.incoming.drop_first()
                },
                ..old(self)@
            }),
            old(self)@.wf() ==> final(self)@.wf(),
    {
        let popped = self.queued_incoming_events.pop_front();
        assert(self@.sent =~= old(self)@.sent);
        assert(popped.is_some() ==> self@.incoming =~= old(self)@.incoming.drop_first());
        popped
    }
}

/// Where fewer events can be read than a count, no greater count can be
/// read either.
proof fn lemma_parse_events_fails_on(bytes: Seq<u8>, start: int, read: nat, count: nat)
    requires
        read < count,
        spec_parse_events(bytes, start, read) matches Some((_, position)) && spec_parse_event(
            bytes,
            position,
        ).is_none(),
    ensures
        spec_parse_events(bytes, start, count).is_none(),
    decreases count,
{
    if count > read + 1 {
        lemma_parse_events_fails_on(bytes, start, read, (count - 1) as nat);
    }
}

/// Taking the next event for a packet and putting it back leaves the
/// manager as it was before the event was taken.
pub proof fn lemma_unpop_undoes_pop<T: EventType>(state: EventManagerView<T>, packet_index: u16)
    requires
        state.wf(),
        state.outgoing.len() > 0,
    ensures
        state.pop_outgoing(packet_index).unpop_outgoing(packet_index, state.outgoing[0]) == state,
{
    let event = state.outgoing[0];
    let popped = state.pop_outgoing(packet_index);
    let restored = popped.unpop_outgoing(packet_index, event);
    assert(restored.outgoing =~= state.outgoing);
    if event.spec_is_guaranteed() {
        assert(popped.sent[packet_index] == state.bucket(packet_index).push(event));
        if state.sent.contains_key(packet_index) {
            assert(state.sent[packet_index].push(event).drop_last() =~= state.sent[packet_index]);
        }
    }
    assert(restored.sent =~= state.sent);
}

/// A guaranteed event that went out in a packet waits in the outgoing queue
/// again once that packet is reported lost, and is no longer on record for it.
pub proof fn lemma_dropped_packet_requeues<T: EventType>(
    state: EventManagerView<T>,
    packet_index: u16,
)
    requires
        state.outgoing.len() > 0,
        state.outgoing[0].spec_is_guaranteed(),
    ensures
        state.pop_outgoing(packet_index).packet_dropped(packet_index).outgoing.contains(
            state.outgoing[0],
        ),
        !state.pop_outgoing(packet_index).packet_dropped(packet_index).sent.contains_key(
            packet_index,
        ),
{
    let popped = state.pop_outgoing(packet_index);
    let bucket = popped.bucket(packet_index);
    let requeued = popped.packet_dropped(packet_index).outgoing;
    assert(bucket.last() == state.outgoing[0]);
    assert(requeued[requeued.len() - 1] == state.outgoing[0]);
}

/// A guaranteed event is not lost on the way. Once queued, the manager
/// looks after it through whatever happens: other events are queued, events
/// are taken for packets and put back, packets are reported lost. Only the
/// report that a packet has arrived which the event was written into ends
/// the care.
pub proof fn lemma_guaranteed_event_is_kept<T: EventType>(
    state: EventManagerView<T>,
    event: Rc<T>,
    other: Rc<T>,
    packet_index: u16,
)
    requires
        event.spec_is_guaranteed(),
        state.keeps(event),
    ensures
        state.queue_outgoing(other).keeps(event),
        state.pop_outgoing(packet_index).keeps(event),
        state.packet_dropped(packet_index).keeps(event),
        !state.bucket(packet_index).contains(event) ==> state.packet_delivered(
            packet_index,
        ).keeps(event),
        other.spec_is_guaranteed() ==> state.bucket(packet_index).len() > 0 && state.bucket(
            packet_index,
        ).last() == other ==> state.unpop_outgoing(packet_index, other).keeps(event),
        !other.spec_is_guaranteed() ==> state.unpop_outgoing(packet_index, other).keeps(event),
{
    let queue = state.outgoing;
    if queue.contains(event) {
        let place = choose|i: int| 0 <= i < queue.len() && queue[i] == event;
        // queued behind it
        assert(state.queue_outgoing(other).outgoing[place] == event);
        // taken for a packet
        let popped = state.pop_outgoing(packet_index);
        if place == 0 {
            let bucket = popped.sent[packet_index];
            assert(bucket[bucket.len() - 1] == event);
            assert(popped.sent.contains_key(packet_index) && popped.sent[packet_index].contains(
                event,
            ));
        } else {
            assert(popped.outgoing[place - 1] == event);
        }
        // its packet or another reported lost or arrived
        assert(state.packet_dropped(packet_index).outgoing[place] == event);
        assert(state.packet_delivered(packet_index).outgoing[place] == event);
        // another event put back
        assert(state.unpop_outgoing(packet_index, other).outgoing[place + 1] == event);
    } else {
        let held = choose|held: u16|
            state.sent.contains_key(held) && (#[trigger] state.sent[held]).contains(event);
        let bucket = state.sent[held];
        let place = choose|i: int| 0 <= i < bucket.len() && bucket[i] == event;
        assert(state.queue_outgoing(other).sent[held].contains(event));
        // another event taken for a packet
        let popped = state.pop_outgoing(packet_index);
        if queue.len() > 0 && queue[0].spec_is_guaranteed() && held == packet_index {
            assert(popped.sent[held][place] == event);
        }
        assert(popped.sent.contains_key(held) && popped.sent[held].contains(event));
        // a packet reported lost
        let dropped = state.packet_dropped(packet_index);
        if held == packet_index {
            assert(dropped.outgoing[queue.len() + place] == event);
        } else {
            assert(dropped.sent.contains_key(held) && dropped.sent[held].contains(event));
        }
        // a packet reported arrived
        if !state.bucket(packet_index).contains(event) {
            let delivered = state.packet_delivered(packet_index);
            assert(held != packet_index);
            assert(delivered.sent.contains_key(held) && delivered.sent[held].contains(event));
        }
        // an event put back
        let restored = state.unpop_outgoing(packet_index, other);
        if other.spec_is_guaranteed() && held == packet_index {
            if bucket.len() > 0 && bucket.last() == other {
                if place == bucket.len() - 1 {
                    assert(restored.outgoing[0] == event);
                } else {
                    assert(restored.sent[held][place] == event);
                    assert(restored.sent.contains_key(held) && restored.sent[held].contains(
                        event,
                    ));
                }
            }
        } else {
            assert(restored.sent.contains_key(held) && restored.sent[held].contains(event));
        }
    }
}

/// An event that is not guaranteed leaves no record: whatever is reported of
/// the packet it went out in, it is not queued again.
pub proof fn lemma_unguaranteed_event_is_forgotten<T: EventType>(
    state: EventManagerView<T>,
    packet_index: u16,
)
    requires
        state.outgoing.len() > 0,
        !state.outgoing[0].spec_is_guaranteed(),
    ensures
        state.pop_outgoing(packet_index).sent == state.sent,
        state.pop_outgoing(packet_index).outgoing == state.outgoing.drop_first(),
{
}

/// An event written into a packet is read back as written: parsing the bytes
/// of `event`, wherever they stand in a packet, gives its wire id and payload,
/// and the manifest builds from them an event that cannot be told from
/// `event`.
pub proof fn lemma_event_round_trip<T: EventType, U: EntityType>(
    manifest: &Manifest<T, U>,
    event: T,
    before: Seq<u8>,
    after: Seq<u8>,
)
    requires
        manifest.wf(),
        spec_event_bytes(manifest, event).is_some(),
    ensures
        ({
            let written = spec_event_bytes(manifest, event).unwrap();
            let bytes = before + written + after;
            &&& spec_parse_event(bytes, before.len() as int) matches Some((wire, end))
            &&& end == before.len() + written.len()
            &&& Some(wire.0) == manifest.spec_event_naia_id(event.spec_type_id())
            &&& wire.1 == event.spec_payload()
            &&& manifest.spec_create_event(wire.0, wire.1) == Some(event_record(event))
        }),
{
    let written = spec_event_bytes(manifest, event).unwrap();
    let bytes = before + written + after;
    let position = before.len() as int;
    let types = manifest.event_types();
    let type_id = event.spec_type_id();
    let naia_id = manifest.spec_event_naia_id(type_id).unwrap();
    let payload = event.spec_payload();
    assert(types.contains(type_id));
    let place = types.index_of(type_id);
    assert(0 <= place < types.len() && types[place] == type_id);
    assert(bytes.subrange(position, position + 2) =~= u16_bytes(naia_id));
    lemma_u16_round_trip(bytes, position, naia_id);
    assert(bytes[position + 2] == payload.len() as u8);
    assert(bytes.subrange(position + 3, position + 3 + payload.len()) =~= payload);
    event.lemma_build_inverts_write();
}

/// A row of events ends behind where it starts.
pub proof fn lemma_parse_events_advances(bytes: Seq<u8>, start: int, count: nat)
    ensures
        spec_parse_events(bytes, start, count) matches Some((_, end)) ==> end >= start,
    decreases count,
{
    if count > 0 {
        lemma_parse_events_advances(bytes, start, (count - 1) as nat);
    }
}

/// Whether `bytes` is just the events `events`, one after the other.
pub open spec fn spec_holds_events(bytes: Seq<u8>, events: Seq<WireEvent>) -> bool {
    spec_parse_events(bytes, 0, events.len()) == Some((events, bytes.len() as int))
}

/// An event as it stands in a packet.
pub open spec fn spec_wire_event<T: EventType, U: EntityType>(
    manifest: &Manifest<T, U>,
    event: T,
) -> WireEvent {
    (manifest.spec_event_naia_id(event.spec_type_id()).unwrap(), event.spec_payload())
}

/// An event is read the same whatever stands before it and behind it.
pub proof fn lemma_parse_event_is_local(
    bytes: Seq<u8>,
    position: int,
    before: Seq<u8>,
    after: Seq<u8>,
)
    requires
        spec_parse_event(bytes, position).is_some(),
    ensures
        spec_parse_event(before + bytes + after, before.len() + position) == Some(
            (
                spec_parse_event(bytes, position).unwrap().0,
                before.len() + spec_parse_event(bytes, position).unwrap().1,
            ),
        ),
{
    reveal_with_fuel(crate::wire::be_value, 3);
    let all = before + bytes + after;
    let shifted = before.len() + position;
    let length = spec_read_u8(bytes, position + 2).unwrap();
    assert(all[shifted] == bytes[position]);
    assert(all[shifted + 1] == bytes[position + 1]);
    assert(all[shifted + 2] == bytes[position + 2]);
    assert(all.subrange(shifted + 3, shifted + 3 + length) =~= bytes.subrange(
        position + 3,
        position + 3 + length,
    ));
}

/// A row of events is read the same whatever stands before it and behind
/// it.
pub proof fn lemma_parse_events_is_local(
    bytes: Seq<u8>,
    start: int,
    count: nat,
    before: Seq<u8>,
    after: Seq<u8>,
)
    requires
        spec_parse_events(bytes, start, count).is_some(),
    ensures
        spec_parse_events(before + bytes + after, before.len() + start, count) == Some(
            (
                spec_parse_events(bytes, start, count).unwrap().0,
                before.len() + spec_parse_events(bytes, start, count).unwrap().1,
            ),
        ),
    decreases count,
{
    if count > 0 {
        lemma_parse_events_is_local(bytes, start, (count - 1) as nat, before, after);
        let position = spec_parse_events(bytes, start, (count - 1) as nat).unwrap().1;
        lemma_parse_event_is_local(bytes, position, before, after);
    }
}

/// A row of events with the bytes of one more event behind it is the row
/// with that event added.
pub proof fn lemma_holds_one_more_event<T: EventType, U: EntityType>(
    manifest: &Manifest<T, U>,
    bytes: Seq<u8>,
    events: Seq<WireEvent>,
    event: T,
)
    requires
        manifest.wf(),
        spec_holds_events(bytes, events),
        spec_event_bytes(manifest, event).is_some(),
    ensures
        spec_holds_events(
            bytes + spec_event_bytes(manifest, event).unwrap(),
            events.push(spec_wire_event(manifest, event)),
        ),
{
    let written = spec_event_bytes(manifest, event).unwrap();
    let all = bytes + written;
    let count = events.len();
    let more = events.push(spec_wire_event(manifest, event));
    assert(Seq::<u8>::empty() + bytes + written =~= all);
    lemma_parse_events_is_local(bytes, 0, count, Seq::empty(), written);
    assert(spec_parse_events(all, 0, count) == Some((events, bytes.len() as int)));
    assert(bytes + written + Seq::<u8>::empty() =~= all);
    lemma_event_round_trip(manifest, event, bytes, Seq::empty());
    assert(spec_parse_event(all, bytes.len() as int) == Some(
        (spec_wire_event(manifest, event), all.len() as int),
    ));
    assert(more.len() == count + 1);
    assert(spec_parse_events(all, 0, (more.len() - 1) as nat) == Some(
        (events, bytes.len() as int),
    ));
}

/// What is written as a block of events is read as that block: a count and
/// a row of so many events, with whatever before and behind, parse from the
/// count on to just these events.
pub proof fn lemma_event_block_round_trip(
    count: u8,
    bytes: Seq<u8>,
    events: Seq<WireEvent>,
    before: Seq<u8>,
    after: Seq<u8>,
)
    requires
        spec_holds_events(bytes, events),
        events.len() == count,
    ensures
        spec_parse_event_block(before + seq![count] + bytes + after, before.len() as int) == Some(
            (events, (before.len() + 1 + bytes.len()) as int),
        ),
{
    let all = before + seq![count] + bytes + after;
    lemma_parse_events_is_local(bytes, 0, events.len(), before + seq![count], after);
    assert(all[before.len() as int] == count);
}

/// The events that the manifest builds from events as they were written
/// cannot be told from the events written.
pub proof fn lemma_written_events_are_created<T: EventType, U: EntityType>(
    manifest: &Manifest<T, U>,
    events: Seq<T>,
)
    requires
        manifest.wf(),
        forall|i: int| 0 <= i < events.len() ==> spec_event_bytes(manifest, #[trigger] events[i]).is_some(),
    ensures
        spec_created_events(
            manifest,
            events.map_values(|event: T| spec_wire_event(manifest, event)),
        ) == event_records(events),
    decreases events.len(),
{
    let wires = events.map_values(|event: T| spec_wire_event(manifest, event));
    if events.len() > 0 {
        let init = events.drop_last();
        assert forall|i: int| 0 <= i < init.len() implies spec_event_bytes(
            manifest,
            #[trigger] init[i],
        ).is_some() by {
            assert(init[i] == events[i]);
        }
        lemma_written_events_are_created(manifest, init);
        assert(wires.drop_last() =~= init.map_values(
            |event: T| spec_wire_event(manifest, event),
        ));
        assert(spec_event_bytes(manifest, events[events.len() - 1]).is_some());
        lemma_event_round_trip(manifest, events.last(), Seq::empty(), Seq::empty());
        assert(wires.last() == spec_wire_event(manifest, events.last()));
        assert(manifest.spec_create_event(wires.last().0, wires.last().1) == Some(
            event_record(events.last()),
        ));
        assert(event_records(events) =~= event_records(init).push(event_record(events.last())));
    } else {
        assert(event_records(events) =~= Seq::empty());
    }
}

} // verus!
