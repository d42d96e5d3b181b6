//! What the runtime asks of the application's events.

use vstd::prelude::*;

verus! {

/// All that the runtime can tell of an event: its kind, whether it must
/// reach the peer, and the bytes that stand for it on the wire.
pub struct EventRecord {
    pub type_id: u16,
    pub guaranteed: bool,
    pub payload: Seq<u8>,
}

/// The application's events: one type, usually an enum, that covers every
/// kind of event the two hosts exchange.
///
/// The runtime never looks inside an event. The spec functions name what it
/// can observe of one, and the executable methods compute just that.
pub trait EventType: Sized {
    /// The kind of this event, as the manifest registers it.
    spec fn spec_type_id(&self) -> u16;

    /// Whether this event is sent again until the peer has it.
    spec fn spec_is_guaranteed(&self) -> bool;

    /// The bytes that stand for this event on the wire.
    spec fn spec_payload(&self) -> Seq<u8>;

    /// What can be told of the event of kind `type_id` that `payload` stands
    /// for; nothing where the bytes stand for no such event.
    spec fn spec_build(type_id: u16, payload: Seq<u8>) -> Option<EventRecord>;

    fn get_type_id(&self) -> (type_id: u16)
        ensures
            type_id == self.spec_type_id(),
    ;

    fn is_guaranteed(&self) -> (guaranteed: bool)
        ensures
            guaranteed == self.spec_is_guaranteed(),
    ;

    /// Appends the event's payload to `out_bytes`.
    fn write(&self, out_bytes: &mut Vec<u8>)
        ensures
            final(out_bytes)@ == old(out_bytes)@ + self.spec_payload(),
    ;

    /// Decodes an event of kind `type_id` from `payload`.
    fn build(type_id: u16, payload: &[u8]) -> (event: Option<Self>)
        ensures
            match event {
                Some(built) => Self::spec_build(type_id, payload@) == Some(
                    EventRecord {
                        type_id: built.spec_type_id(),
                        guaranteed: built.spec_is_guaranteed(),
                        payload: built.spec_payload(),
                    },
                ),
                None => Self::spec_build(type_id, payload@).is_none(),
            },
    ;

    /// Decoding what an event wrote gives an event that the runtime cannot
    /// tell from it.
    proof fn lemma_build_inverts_write(&self)
        ensures
            Self::spec_build(self.spec_type_id(), self.spec_payload()) == Some(
                EventRecord {
                    type_id: self.spec_type_id(),
                    guaranteed: self.spec_is_guaranteed(),
                    payload: self.spec_payload(),
                },
            ),
    ;
}

/// What the runtime can tell of `event`.
pub open spec fn event_record<T: EventType>(event: T) -> EventRecord {
    EventRecord {
        type_id: event.spec_type_id(),
        guaranteed: event.spec_is_guaranteed(),
        payload: event.spec_payload(),
    }
}

/// What the runtime can tell of each of `events`, in order.
pub open spec fn event_records<T: EventType>(events: Seq<T>) -> Seq<EventRecord> {
    events.map_values(|event: T| event_record(event))
}

} // verus!
