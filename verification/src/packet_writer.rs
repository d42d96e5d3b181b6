//! Collects the blocks of one outgoing data packet.

use crate::entities::entity_type::EntityType;
use crate::events::event_manager::{spec_event_bytes, EventManager};
use crate::events::event_type::EventType;
use crate::manifest::Manifest;
use crate::wire::{extend, u64_bytes, write_u64, write_u8};
use vstd::prelude::*;

verus! {

/// The number of bytes that the body of a packet may take: what is sure to
/// pass any link unfragmented, less the header.
pub const MTU_SIZE: usize = 499;

/// The number of bytes that one ping block takes.
pub const PING_BLOCK_BYTES: usize = 10;

/// What a `PacketWriter` holds, as mathematics.
pub struct PacketWriterView {
    /// The ping blocks written so far, each complete with its tag.
    pub ping_bytes: Seq<u8>,
    /// The number of events written so far.
    pub event_count: u8,
    /// The events written so far, one after the other.
    pub event_bytes: Seq<u8>,
    /// The number of entity messages written so far.
    pub entity_count: u8,
    /// The entity messages written so far, one after the other.
    pub entity_bytes: Seq<u8>,
}

/// A ping block: the tag of the ping manager, the kind of the block (0 asks,
/// 1 answers), and a timestamp.
pub open spec fn spec_ping_block(kind: u8, timestamp: u64) -> Seq<u8> {
    seq![2u8, kind] + u64_bytes(timestamp)
}

/// A block of `count` items for the manager of the tag `tag`: the tag, the
/// count, the items. No block where there is no item.
pub open spec fn spec_counted_block(tag: u8, count: u8, items: Seq<u8>) -> Seq<u8> {
    if count == 0 {
        Seq::empty()
    } else {
        seq![tag, count] + items
    }
}

impl PacketWriterView {
    /// The body of the packet: the ping blocks, the block of events, the
    /// block of entity messages.
    pub open spec fn body(self) -> Seq<u8> {
        self.ping_bytes + spec_counted_block(0, self.event_count, self.event_bytes)
            + spec_counted_block(1, self.entity_count, self.entity_bytes)
    }

    /// Whether anything was written.
    pub open spec fn has_bytes(self) -> bool {
        self.ping_bytes.len() != 0 || self.event_count != 0 || self.entity_count != 0
    }

    /// The writer after `event` was added.
    pub open spec fn with_event<T: EventType, U: EntityType>(
        self,
        manifest: &Manifest<T, U>,
        event: T,
    ) -> Self {
        PacketWriterView {
            event_count: (self.event_count + 1) as u8,
            event_bytes: self.event_bytes + spec_event_bytes(manifest, event).unwrap(),
            ..self
        }
    }

    /// Whether `event` can be added: it has bytes to stand for it, the count
    /// of events has room for one more, and the body with it stays within
    /// the budget.
    pub open spec fn event_fits<T: EventType, U: EntityType>(
        self,
        manifest: &Manifest<T, U>,
        event: T,
    ) -> bool {
        &&& spec_event_bytes(manifest, event).is_some()
        &&& self.event_count < 255
        &&& self.with_event(manifest, event).body().len() <= MTU_SIZE
    }

    /// The writer after a ping block was added.
    pub open spec fn with_ping(self, kind: u8, timestamp: u64) -> Self {
        PacketWriterView { ping_bytes: self.ping_bytes + spec_ping_block(kind, timestamp), ..self }
    }

    /// Whether one more ping block can be added within the budget.
    pub open spec fn ping_fits(self) -> bool {
        self.body().len() + PING_BLOCK_BYTES <= MTU_SIZE
    }

    /// The writer after the entity message `message` was added.
    pub open spec fn with_entity_message(self, message: Seq<u8>) -> Self {
        PacketWriterView {
            entity_count: (self.entity_count + 1) as u8,
            entity_bytes: self.entity_bytes + message,
            ..self
        }
    }

    /// Whether the entity message `message` can be added: the count has room
    /// for one more, and the body with it stays within the budget.
    pub open spec fn entity_message_fits(self, message: Seq<u8>) -> bool {
        &&& self.entity_count < 255
        &&& self.with_entity_message(message).body().len() <= MTU_SIZE
    }

    /// The body is within the budget, and where no item is counted there is
    /// none.
    pub open spec fn wf(self) -> bool {
        &&& self.body().len() <= MTU_SIZE
        &&& self.event_count == 0 ==> self.event_bytes.len() == 0
        &&& self.entity_count == 0 ==> self.entity_bytes.len() == 0
    }

    /// A writer with nothing written.
    pub open spec fn empty() -> Self {
        PacketWriterView {
            ping_bytes: Seq::empty(),
            event_count: 0,
            event_bytes: Seq::empty(),
            entity_count: 0,
            entity_bytes: Seq::empty(),
        }
    }
}

/// Builds up the body of a data packet block by block, and refuses what
/// would make the packet too large.
pub struct PacketWriter {
    ping_working_bytes: Vec<u8>,
    event_working_bytes: Vec<u8>,
    event_count: u8,
    entity_working_bytes: Vec<u8>,
    entity_message_count: u8,
}

impl View for PacketWriter {
    type V = PacketWriterView;

    closed spec fn view(&self) -> PacketWriterView {
        PacketWriterView {
            ping_bytes: self.ping_working_bytes@,
            event_count: self.event_count,
            event_bytes: self.event_working_bytes@,
            entity_count: self.entity_message_count,
            entity_bytes: self.entity_working_bytes@,
        }
    }
}

impl PacketWriter {
    /// A writer with nothing written.
    pub fn new() -> (writer: Self)
        ensures
            writer@ == PacketWriterView::empty(),
            writer@.wf(),
    {
        PacketWriter {
            ping_working_bytes: Vec::new(),
            event_working_bytes: Vec::new(),
            event_count: 0,
            entity_working_bytes: Vec::new(),
            entity_message_count: 0,
        }
    }

    /// Whether anything was written.
    pub fn has_bytes(&self) -> (any: bool)
        ensures
            any == self@.has_bytes(),
    {
        self.ping_working_bytes.len() != 0 || self.event_count != 0 || self.entity_message_count
            != 0
    }

    /// The number of bytes that the body takes so far.
    pub fn bytes_number(&self) -> (number: usize)
        requires
            self@.wf(),
        ensures
            number == self@.body().len(),
    {
        let events = if self.event_count == 0 {
            0
        } else {
            2 + self.event_working_bytes.len()
        };
        let entities = if self.entity_message_count == 0 {
            0
        } else {
            2 + self.entity_working_bytes.len()
        };
        self.ping_working_bytes.len() + events + entities
    }

    /// The body of the packet. The writer is empty afterwards.
    pub fn get_bytes(&mut self) -> (out_bytes: Vec<u8>)
        ensures
            out_bytes@ == old(self)@.body(),
            final(self)@ == PacketWriterView::empty(),
    {
        let mut out_bytes: Vec<u8> = Vec::new();
        out_bytes.append(&mut self.ping_working_bytes);
        if self.event_count != 0 {
            write_u8(&mut out_bytes, 0);
            write_u8(&mut out_bytes, self.event_count);
            out_bytes.append(&mut self.event_working_bytes);
            self.event_count = 0;
        } else {
            self.event_working_bytes = Vec::new();
        }
        if self.entity_message_count != 0 {
            write_u8(&mut out_bytes, 1);
            write_u8(&mut out_bytes, self.entity_message_count);
            out_bytes.append(&mut self.entity_working_bytes);
            self.entity_message_count = 0;
        } else {
            self.entity_working_bytes = Vec::new();
        }
        assert(out_bytes@ =~= old(self)@.body());
        out_bytes
    }

    /// Adds `event` to the packet if it fits, and says whether it did. An
    /// event that does not fit leaves the writer as it was.
    pub fn write_event<T: EventType, U: EntityType>(
        &mut self,
        manifest: &Manifest<T, U>,
        event: &T,
    ) -> (written: bool)
        requires
            manifest.wf(),
            old(self)@.wf(),
        ensures
            written == old(self)@.event_fits(manifest, *event),
            written ==> final(self)@ == old(self)@.with_event(manifest, *event),
            !written ==> final(self)@ == old(self)@,
            final(self)@.wf(),
    {
        let mut event_total_bytes = match EventManager::<T>::write_data(manifest, event) {
            Some(bytes) => bytes,
            None => {
                return false;
            },
        };
        let header: usize = if self.event_count == 0 {
            2
        } else {
            0
        };
        let used = self.bytes_number() + header;
        if self.event_count < 255 && used <= MTU_SIZE && event_total_bytes.len() <= MTU_SIZE
            - used {
            self.event_count = self.event_count + 1;
            self.event_working_bytes.append(&mut event_total_bytes);
            true
        } else {
            false
        }
    }

    /// Adds a ping block to the packet if it fits, and says whether it did.
    pub fn write_ping(&mut self, kind: u8, timestamp: u64) -> (written: bool)
        requires
            old(self)@.wf(),
        ensures
            written == old(self)@.ping_fits(),
            written ==> final(self)@ == old(self)@.with_ping(kind, timestamp),
            !written ==> final(self)@ == old(self)@,
            final(self)@.wf(),
    {
        let used = self.bytes_number();
        if PING_BLOCK_BYTES <= MTU_SIZE - used {
            write_u8(&mut self.ping_working_bytes, 2);
            write_u8(&mut self.ping_working_bytes, kind);
            write_u64(&mut self.ping_working_bytes, timestamp);
            assert(self.ping_working_bytes@ =~= old(self).ping_working_bytes@ + spec_ping_block(
                kind,
                timestamp,
            ));
            true
        } else {
            false
        }
    }

    /// Adds an entity message to the packet if it fits, and says whether it
    /// did.
    pub fn write_entity_message(&mut self, message: &[u8]) -> (written: bool)
        requires
            old(self)@.wf(),
        ensures
            written == old(self)@.entity_message_fits(message@),
            written ==> final(self)@ == old(self)@.with_entity_message(message@),
            !written ==> final(self)@ == old(self)@,
            final(self)@.wf(),
    {
        let header: usize = if self.entity_message_count == 0 {
            2
        } else {
            0
        };
        let used = self.bytes_number() + header;
        if self.entity_message_count < 255 && used <= MTU_SIZE && message.len() <= MTU_SIZE
            - used {
            self.entity_message_count = self.entity_message_count + 1;
            extend(&mut self.entity_working_bytes, message);
            true
        } else {
            false
        }
    }
}

} // verus!
