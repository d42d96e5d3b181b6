//! The server's account of what one client knows of its entities.

use crate::entities::client_entity_manager::{
    lemma_parse_entity_actions_is_local, spec_holds_actions, spec_parse_entity_action,
    spec_parse_entity_actions, EntityAction,
};
use crate::entities::entity_type::{entity_record, EntityRecord, EntityType};
use crate::events::event_type::EventType;
use crate::manifest::Manifest;
use crate::packet_writer::{PacketWriter, PacketWriterView};
use crate::wire::{extend, lemma_u16_round_trip, u16_bytes, write_u16, write_u8};
use std::collections::HashMap;
use std::collections::VecDeque;
use vstd::prelude::*;

verus! {

broadcast use vstd::std_specs::hash::group_hash_axioms;

/// A message that waits to be sent to the client. What it says is made up
/// when it is written into a packet, from the entity as it is then.
#[derive(Clone, Copy, Debug, PartialEq, Eq, Structural)]
pub enum ServerEntityMessage {
    /// The entity under this key comes into the client's scope.
    Create(u16),
    /// The entity under this key has changed.
    Update(u16),
    /// The entity under this key leaves the client's scope.
    Delete(u16),
}

impl ServerEntityMessage {
    /// Whether the message is sent again when its packet is lost. Creates
    /// and deletes are; an update is not, the next one makes up for it.
    pub open spec fn spec_is_guaranteed(self) -> bool {
        !(self is Update)
    }

    pub fn is_guaranteed(&self) -> (guaranteed: bool)
        ensures
            guaranteed == self.spec_is_guaranteed(),
    {
        match self {
            ServerEntityMessage::Update(_) => false,
            _ => true,
        }
    }
}

/// What the server holds of an entity in a client's scope, as far as the
/// runtime can tell.
pub struct ScopedRecord {
    /// The wire id of the entity's kind.
    pub naia_id: u16,
    /// The entity as the client was last told of it.
    pub sent: EntityRecord,
    /// The entity as it is now.
    pub latest: EntityRecord,
}

/// What a `ServerEntityManager` holds, as mathematics.
pub struct ServerScope {
    /// Where the search for the next free key begins.
    pub next_key: u16,
    /// The entities in the client's scope, by key.
    pub entities: Map<u16, ScopedRecord>,
    /// The messages that wait to be sent, next one first.
    pub pending: Seq<ServerEntityMessage>,
    /// For each packet in flight, the guaranteed messages written into it.
    pub sent: Map<u16, Seq<ServerEntityMessage>>,
}

/// The key `steps` after `key`, around the circle of keys.
pub open spec fn spec_key_after(key: u16, steps: int) -> u16 {
    ((key + steps) % 0x1_0000) as u16
}

/// The first key from `start` on, going up and around, that is not in
/// `taken`; none where the first `tries` keys are all taken.
pub open spec fn spec_free_key(taken: Set<u16>, start: u16, tries: nat) -> Option<u16>
    decreases tries,
{
    if tries == 0 {
        None
    } else if !taken.contains(start) {
        Some(start)
    } else {
        spec_free_key(taken, spec_key_after(start, 1), (tries - 1) as nat)
    }
}

/// The bytes of an entity message: one byte of kind, two of key, then for a
/// create the wire id and the state, for an update the partial update; state
/// and update each with their length in one byte in front.
pub open spec fn spec_action_bytes(action: EntityAction) -> Seq<u8> {
    match action {
        EntityAction::Create { key, naia_id, state } => seq![0u8] + u16_bytes(key) + u16_bytes(
            naia_id,
        ) + seq![state.len() as u8] + state,
        EntityAction::Update { key, diff } => seq![1u8] + u16_bytes(key) + seq![diff.len() as u8]
            + diff,
        EntityAction::Delete { key } => seq![2u8] + u16_bytes(key),
    }
}

/// What `message` says when it is written now: a create brings the entity
/// as it is, an update what has changed since the client was last told.
/// Nothing where the entity has left the scope meanwhile, nothing has
/// changed, or state or update are longer than 255 bytes.
pub open spec fn spec_message_action<U: EntityType>(
    entities: Map<u16, ScopedRecord>,
    message: ServerEntityMessage,
) -> Option<EntityAction> {
    match message {
        ServerEntityMessage::Create(key) => if entities.contains_key(key)
            && entities[key].latest.state.len() <= 255 {
            Some(
                EntityAction::Create {
                    key,
                    naia_id: entities[key].naia_id,
                    state: entities[key].latest.state,
                },
            )
        } else {
            None
        },
        ServerEntityMessage::Update(key) => if entities.contains_key(key) {
            match U::spec_diff(
                entities[key].latest.type_id,
                entities[key].sent.state,
                entities[key].latest.state,
            ) {
                Some(diff) => if diff.len() <= 255 {
                    Some(EntityAction::Update { key, diff })
                } else {
                    None
                },
                None => None,
            }
        } else {
            None
        },
        ServerEntityMessage::Delete(key) => Some(EntityAction::Delete { key }),
    }
}

impl ServerScope {
    /// Every entity in scope is of one kind then and now.
    pub open spec fn wf(self) -> bool {
        forall|key: u16| #[trigger]
            self.entities.contains_key(key) ==> self.entities[key].sent.type_id
                == self.entities[key].latest.type_id
    }

    /// The messages on record for `packet_index`.
    pub open spec fn bucket(self, packet_index: u16) -> Seq<ServerEntityMessage> {
        if self.sent.contains_key(packet_index) {
            self.sent[packet_index]
        } else {
            Seq::empty()
        }
    }

    /// The key that the next entity gets, if one is free.
    pub open spec fn free_key(self) -> Option<u16> {
        spec_free_key(self.entities.dom(), self.next_key, 0x1_0000)
    }

    /// The scope after an entity with the given record came in under `key`.
    pub open spec fn with_entity(self, key: u16, naia_id: u16, record: EntityRecord) -> Self {
        ServerScope {
            next_key: spec_key_after(key, 1),
            entities: self.entities.insert(
                key,
                ScopedRecord { naia_id, sent: record, latest: record },
            ),
            pending: self.pending.push(ServerEntityMessage::Create(key)),
            sent: self.sent,
        }
    }

    /// The scope after the entity under `key` left it.
    pub open spec fn without_entity(self, key: u16) -> Self {
        if self.entities.contains_key(key) {
            ServerScope {
                entities: self.entities.remove(key),
                pending: self.pending.push(ServerEntityMessage::Delete(key)),
                ..self
            }
        } else {
            self
        }
    }

    /// Whether the entity under `key` can take on the state of an entity
    /// with the record `record`: it is in scope and of the same kind.
    pub open spec fn accepts_update(self, key: u16, record: EntityRecord) -> bool {
        self.entities.contains_key(key) && self.entities[key].latest.type_id == record.type_id
    }

    /// The scope after the entity under `key` took on a new state. An update
    /// is queued unless one waits already.
    pub open spec fn with_update(self, key: u16, record: EntityRecord) -> Self {
        if self.accepts_update(key, record) {
            ServerScope {
                entities: self.entities.insert(
                    key,
                    ScopedRecord { latest: record, ..self.entities[key] },
                ),
                pending: if self.pending.contains(ServerEntityMessage::Update(key)) {
                    self.pending
                } else {
                    self.pending.push(ServerEntityMessage::Update(key))
                },
                ..self
            }
        } else {
            self
        }
    }

    /// The scope after `message`, first in the queue, was written into the
    /// packet `packet_index`: the client is told of the entity as it is now,
    /// and a guaranteed message goes on the record of the packet.
    pub open spec fn committed(self, message: ServerEntityMessage, packet_index: u16) -> Self {
        ServerScope {
            next_key: self.next_key,
            entities: match message {
                ServerEntityMessage::Delete(_) => self.entities,
                ServerEntityMessage::Create(key) => self.entities.insert(
                    key,
                    ScopedRecord { sent: self.entities[key].latest, ..self.entities[key] },
                ),
                ServerEntityMessage::Update(key) => self.entities.insert(
                    key,
                    ScopedRecord { sent: self.entities[key].latest, ..self.entities[key] },
                ),
            },
            pending: self.pending.drop_first(),
            sent: if message.spec_is_guaranteed() {
                self.sent.insert(packet_index, self.bucket(packet_index).push(message))
            } else {
                self.sent
            },
        }
    }

    /// The scope and the writer after the waiting messages were written into
    /// the packet `packet_index` for as long as the next one fits. A message
    /// that has nothing to say is passed over.
    pub open spec fn write_messages<U: EntityType>(
        self,
        writer: PacketWriterView,
        packet_index: u16,
    ) -> (Self, PacketWriterView)
        decreases self.pending.len(),
    {
        if self.pending.len() == 0 {
            (self, writer)
        } else {
            match spec_message_action::<U>(self.entities, self.pending[0]) {
                None => ServerScope { pending: self.pending.drop_first(), ..self }.write_messages::<
                    U,
                >(writer, packet_index),
                Some(action) => if writer.entity_message_fits(spec_action_bytes(action)) {
                    self.committed(self.pending[0], packet_index).write_messages::<U>(
                        writer.with_entity_message(spec_action_bytes(action)),
                        packet_index,
                    )
                } else {
                    (self, writer)
                },
            }
        }
    }

    /// What `write_messages` writes into the packet: what each message says
    /// that goes into it, in order.
    pub open spec fn written_actions<U: EntityType>(
        self,
        writer: PacketWriterView,
        packet_index: u16,
    ) -> Seq<EntityAction>
        decreases self.pending.len(),
    {
        if self.pending.len() == 0 {
            Seq::empty()
        } else {
            match spec_message_action::<U>(self.entities, self.pending[0]) {
                None => ServerScope { pending: self.pending.drop_first(), ..self }.written_actions::<
                    U,
                >(writer, packet_index),
                Some(action) => if writer.entity_message_fits(spec_action_bytes(action)) {
                    seq![action] + self.committed(self.pending[0], packet_index).written_actions::<
                        U,
                    >(writer.with_entity_message(spec_action_bytes(action)), packet_index)
                } else {
                    Seq::empty()
                },
            }
        }
    }

    /// The scope after the packet `packet_index` was reported delivered.
    pub open spec fn packet_delivered(self, packet_index: u16) -> Self {
        ServerScope { sent: self.sent.remove(packet_index), ..self }
    }

    /// The scope after the packet `packet_index` was reported lost: its
    /// guaranteed messages wait at the end of the queue again.
    pub open spec fn packet_dropped(self, packet_index: u16) -> Self {
        ServerScope {
            pending: self.pending + self.bucket(packet_index),
            sent: self.sent.remove(packet_index),
            ..self
        }
    }
}

/// An entity in a client's scope.
struct ScopedEntity<U> {
    naia_id: u16,
    sent: U,
    latest: U,
}

spec fn scoped_records<U: EntityType>(scope: Map<u16, ScopedEntity<U>>) -> Map<u16, ScopedRecord> {
    Map::new(
        |key: u16| scope.contains_key(key),
        |key: u16|
            ScopedRecord {
                naia_id: scope[key].naia_id,
                sent: entity_record(scope[key].sent),
                latest: entity_record(scope[key].latest),
            },
    )
}

/// Keeps, for one client, the entities in its scope, the messages that tell
/// the client of them, and which guaranteed messages travel in which packet.
pub struct ServerEntityManager<U: EntityType> {
    next_key: u16,
    scope: HashMap<u16, ScopedEntity<U>>,
    queued_messages: VecDeque<ServerEntityMessage>,
    sent_messages: HashMap<u16, Vec<ServerEntityMessage>>,
}

impl<U: EntityType> View for ServerEntityManager<U> {
    type V = ServerScope;

    closed spec fn view(&self) -> ServerScope {
        ServerScope {
            next_key: self.next_key,
            entities: scoped_records(self.scope@),
            pending: self.queued_messages@,
            sent: Map::new(
                |packet_index: u16| self.sent_messages@.contains_key(packet_index),
                |packet_index: u16| self.sent_messages@[packet_index]@,
            ),
        }
    }
}

impl<U: EntityType> ServerEntityManager<U> {
    /// A manager for a client with nothing in scope. Keys start at zero.
    pub fn new() -> (manager: Self)
        ensures
            manager@.wf(),
            manager@ == (ServerScope {
                next_key: 0,
                entities: Map::empty(),
                pending: Seq::empty(),
                sent: Map::empty(),
            }),
    {
        let manager = ServerEntityManager {
            next_key: 0,
            scope: HashMap::new(),
            queued_messages: VecDeque::new(),
            sent_messages: HashMap::new(),
        };
        assert(manager@.entities =~= Map::empty());
        assert(manager@.sent =~= Map::empty());
        manager
    }

    /// The first key from `next_key` on that no entity in scope has.
    fn find_free_key(&self) -> (key: Option<u16>)
        ensures
            key == self@.free_key(),
    {
        let ghost taken = self@.entities.dom();
        let mut key = self.next_key;
        let mut tries: u32 = 0;
        while tries < 0x1_0000
            invariant
                tries <= 0x1_0000,
                taken == self@.entities.dom(),
                spec_free_key(taken, self.next_key, 0x1_0000) == spec_free_key(
                    taken,
                    key,
                    (0x1_0000 - tries) as nat,
                ),
            decreases 0x1_0000 - tries,
        {
            if !self.scope.contains_key(&key) {
                return Some(key);
            }
            key = key.wrapping_add(1);
            tries += 1;
        }
        None
    }

    /// Puts `entity` into the client's scope and queues the message that
    /// tells the client. Returns the key of the entity, which is the first
    /// free one from the key after the last one given out, so that the key of
    /// an entity that has left is not given out again before all others had
    /// their turn. Nothing happens where the manifest does not know the
    /// entity's kind or no key is free.
    pub fn add_entity<T: EventType>(&mut self, manifest: &Manifest<T, U>, entity: &U) -> (key:
        Option<u16>)
        requires
            manifest.wf(),
        ensures
            key == (if manifest.spec_entity_naia_id(entity.spec_type_id()).is_some() {
                old(self)@.free_key()
            } else {
                None
            }),
            final(self)@ == (match key {
                Some(key) => old(self)@.with_entity(
                    key,
                    manifest.spec_entity_naia_id(entity.spec_type_id()).unwrap(),
                    entity_record(*entity),
                ),
                None => old(self)@,
            }),
            old(self)@.wf() ==> final(self)@.wf(),
    {
        let naia_id = match manifest.get_entity_naia_id(entity.get_type_id()) {
            Some(naia_id) => naia_id,
            None => {
                return None;
            },
        };
        let key = match self.find_free_key() {
            Some(key) => key,
            None => {
                return None;
            },
        };
        let sent = entity.get_typed_copy();
        let latest = entity.get_typed_copy();
        self.scope.insert(key, ScopedEntity { naia_id, sent, latest });
        self.queued_messages.push_back(ServerEntityMessage::Create(key));
        self.next_key = key.wrapping_add(1);
        assert(self@.entities =~= old(self)@.entities.insert(
            key,
            ScopedRecord {
                naia_id,
                sent: entity_record(*entity),
                latest: entity_record(*entity),
            },
        ));
        assert(self@.sent =~= old(self)@.sent);
        Some(key)
    }

    /// Takes the entity under `key` out of the client's scope and queues the
    /// message that tells the client. Says whether there was such an entity.
    pub fn remove_entity(&mut self, key: u16) -> (removed: bool)
        ensures
            removed == old(self)@.entities.contains_key(key),
            final(self)@ == old(self)@.without_entity(key),
            old(self)@.wf() ==> final(self)@.wf(),
    {
        match self.scope.remove(&key) {
            Some(_) => {
                self.queued_messages.push_back(ServerEntityMessage::Delete(key));
                assert(self@.entities =~= old(self)@.entities.remove(key));
                assert(self@.sent =~= old(self)@.sent);
                true
            },
            None => {
                assert(self@.entities =~= old(self)@.entities);
                assert(self@.sent =~= old(self)@.sent);
                false
            },
        }
    }

    /// Whether an update for the entity under `key` waits to be sent.
    fn update_is_queued(&self, key: u16) -> (queued: bool)
        ensures
            queued == self@.pending.contains(ServerEntityMessage::Update(key)),
    {
        let mut i: usize = 0;
        while i < self.queued_messages.len()
            invariant
                i <= self.queued_messages.len(),
                forall|j: int|
                    0 <= j < i ==> self.queued_messages@[j] != ServerEntityMessage::Update(key),
            decreases self.queued_messages.len() - i,
        {
            match self.queued_messages[i] {
                ServerEntityMessage::Update(other) => {
                    if other == key {
                        assert(self.queued_messages@[i as int] == ServerEntityMessage::Update(key));
                        return true;
                    }
                },
                _ => {},
            }
            i += 1;
        }
        false
    }

    /// Notes that the entity under `key` is now as `entity` is, and queues an
    /// update for the client unless one waits already. Says whether it did:
    /// nothing happens where no entity of that kind is in scope under `key`.
    pub fn update_entity(&mut self, key: u16, entity: &U) -> (updated: bool)
        ensures
            updated == old(self)@.accepts_update(key, entity_record(*entity)),
            final(self)@ == old(self)@.with_update(key, entity_record(*entity)),
            old(self)@.wf() ==> final(self)@.wf(),
    {
        let queued = self.update_is_queued(key);
        match self.scope.remove(&key) {
            Some(scoped) => {
                if scoped.latest.get_type_id() != entity.get_type_id() {
                    self.scope.insert(key, scoped);
                    assert(self@.entities =~= old(self)@.entities);
                    assert(self@.sent =~= old(self)@.sent);
                    return false;
                }
                let latest = entity.get_typed_copy();
                self.scope.insert(
                    key,
                    ScopedEntity { naia_id: scoped.naia_id, sent: scoped.sent, latest },
                );
                if !queued {
                    self.queued_messages.push_back(ServerEntityMessage::Update(key));
                }
                assert(self@.entities =~= old(self)@.entities.insert(
                    key,
                    ScopedRecord { latest: entity_record(*entity), ..old(self)@.entities[key] },
                ));
                assert(self@.sent =~= old(self)@.sent);
                true
            },
            None => {
                assert(self@.entities =~= old(self)@.entities);
                assert(self@.sent =~= old(self)@.sent);
                false
            },
        }
    }

    /// Whether any message waits to be sent.
    pub fn has_outgoing_messages(&self) -> (waiting: bool)
        ensures
            waiting == (self@.pending.len() != 0),
    {
        self.queued_messages.len() != 0
    }

    /// Whether an entity is in the client's scope under `key`.
    pub fn has_entity(&self, key: u16) -> (held: bool)
        ensures
            held == self@.entities.contains_key(key),
    {
        self.scope.contains_key(&key)
    }

    /// The bytes of what `message` says now.
    fn message_bytes(&self, message: ServerEntityMessage) -> (bytes: Option<Vec<u8>>)
        requires
            self@.wf(),
        ensures
            match bytes {
                Some(bytes) => spec_message_action::<U>(self@.entities, message) matches Some(
                    action,
                ) && bytes@ == spec_action_bytes(action),
                None => spec_message_action::<U>(self@.entities, message).is_none(),
            },
    {
        let mut bytes: Vec<u8> = Vec::new();
        match message {
            ServerEntityMessage::Create(key) => {
                match self.scope.get(&key) {
                    Some(scoped) => {
                        let mut state: Vec<u8> = Vec::new();
                        scoped.latest.write(&mut state);
                        assert(state@ =~= scoped.latest.spec_state());
                        if state.len() > 255 {
                            return None;
                        }
                        write_u8(&mut bytes, 0);
                        write_u16(&mut bytes, key);
                        write_u16(&mut bytes, scoped.naia_id);
                        write_u8(&mut bytes, state.len() as u8);
                        extend(&mut bytes, state.as_slice());
                        assert(bytes@ =~= spec_action_bytes(
                            EntityAction::Create { key, naia_id: scoped.naia_id, state: state@ },
                        ));
                        Some(bytes)
                    },
                    None => None,
                }
            },
            ServerEntityMessage::Update(key) => {
                match self.scope.get(&key) {
                    Some(scoped) => {
                        assert(self@.entities.contains_key(key));
                        let mut diff: Vec<u8> = Vec::new();
                        if !scoped.latest.write_partial(&scoped.sent, &mut diff) {
                            return None;
                        }
                        assert(diff@ =~= U::spec_diff(
                            scoped.latest.spec_type_id(),
                            scoped.sent.spec_state(),
                            scoped.latest.spec_state(),
                        ).unwrap());
                        if diff.len() > 255 {
                            return None;
                        }
                        write_u8(&mut bytes, 1);
                        write_u16(&mut bytes, key);
                        write_u8(&mut bytes, diff.len() as u8);
                        extend(&mut bytes, diff.as_slice());
                        assert(bytes@ =~= spec_action_bytes(
                            EntityAction::Update { key, diff: diff@ },
                        ));
                        Some(bytes)
                    },
                    None => None,
                }
            },
            ServerEntityMessage::Delete(key) => {
                write_u8(&mut bytes, 2);
                write_u16(&mut bytes, key);
                assert(bytes@ =~= spec_action_bytes(EntityAction::Delete { key }));
                Some(bytes)
            },
        }
    }

    /// Takes the first message off the queue without a trace.
    fn pass_over(&mut self)
        requires
            old(self)@.pending.len() > 0,
        ensures
            final(self)@ == (ServerScope {
                pending: old(self)@.pending.drop_first(),
                ..old(self)@
            }),
    {
        self.queued_messages.pop_front();
        assert(self@.pending =~= old(self)@.pending.drop_first());
        assert(self@.entities =~= old(self)@.entities);
        assert(self@.sent =~= old(self)@.sent);
    }

    /// Takes the first message off the queue as written into the packet
    /// `packet_index`.
    fn commit(&mut self, message: ServerEntityMessage, packet_index: u16)
        requires
            old(self)@.wf(),
            old(self)@.pending.len() > 0,
            old(self)@.pending[0] == message,
            spec_message_action::<U>(old(self)@.entities, message).is_some(),
        ensures
            final(self)@ == old(self)@.committed(message, packet_index),
            final(self)@.wf(),
    {
        self.queued_messages.pop_front();
        assert(self@.pending =~= old(self)@.pending.drop_first());
        match message {
            ServerEntityMessage::Delete(_) => {
                assert(self@.entities =~= old(self)@.entities);
            },
            ServerEntityMessage::Create(key) => {
                self.mark_told(key);
            },
            ServerEntityMessage::Update(key) => {
                self.mark_told(key);
            },
        }
        if message.is_guaranteed() {
            let mut bucket = match self.sent_messages.remove(&packet_index) {
                Some(bucket) => bucket,
                None => Vec::new(),
            };
            assert(bucket@ =~= old(self)@.bucket(packet_index));
            bucket.push(message);
            self.sent_messages.insert(packet_index, bucket);
            assert(self@.sent =~= old(self)@.sent.insert(
                packet_index,
                old(self)@.bucket(packet_index).push(message),
            ));
        } else {
            assert(self@.sent =~= old(self)@.sent);
        }
    }

    /// Notes that the client is told of the entity under `key` as it is now.
    fn mark_told(&mut self, key: u16)
        requires
            old(self)@.entities.contains_key(key),
        ensures
            final(self)@ == (ServerScope {
                entities: old(self)@.entities.insert(
                    key,
                    ScopedRecord {
                        sent: old(self)@.entities[key].latest,
                        ..old(self)@.entities[key]
                    },
                ),
                ..old(self)@
            }),
    {
        match self.scope.remove(&key) {
            Some(scoped) => {
                let sent = scoped.latest.get_typed_copy();
                self.scope.insert(
                    key,
                    ScopedEntity { naia_id: scoped.naia_id, sent, latest: scoped.latest },
                );
            },
            None => {},
        }
        assert(self@.entities =~= old(self)@.entities.insert(
            key,
            ScopedRecord { sent: old(self)@.entities[key].latest, ..old(self)@.entities[key] },
        ));
        assert(self@.sent =~= old(self)@.sent);
    }

    /// Writes the waiting messages into `writer`, for the packet
    /// `packet_index`, for as long as the next one fits. Each message says
    /// what there is to say when it is written; one with nothing to say is
    /// passed over.
    pub fn write_data(&mut self, writer: &mut PacketWriter, packet_index: u16)
        requires
            old(self)@.wf(),
            old(writer)@.wf(),
        ensures
            (final(self)@, final(writer)@) == old(self)@.write_messages::<U>(
                old(writer)@,
                packet_index,
            ),
            final(self)@.wf(),
            final(writer)@.wf(),
    {
        let ghost target = self@.write_messages::<U>(writer@, packet_index);
        loop
            invariant_except_break
                self@.write_messages::<U>(writer@, packet_index) == target,
            invariant
                self@.wf(),
                writer@.wf(),
            ensures
                (self@, writer@) == target,
            decreases self.queued_messages@.len(),
        {
            if self.queued_messages.len() == 0 {
                break ;
            }
            let message = self.queued_messages[0];
            match self.message_bytes(message) {
                Some(bytes) => {
                    if writer.write_entity_message(bytes.as_slice()) {
                        self.commit(message, packet_index);
                    } else {
                        break ;
                    }
                },
                None => {
                    self.pass_over();
                },
            }
        }
    }

    /// The packet `packet_index` has arrived: its messages need no more
    /// tracking.
    pub fn notify_packet_delivered(&mut self, packet_index: u16)
        ensures
            final(self)@ == old(self)@.packet_delivered(packet_index),
            old(self)@.wf() ==> final(self)@.wf(),
    {
        self.sent_messages.remove(&packet_index);
        assert(self@.sent =~= old(self)@.sent.remove(packet_index));
        assert(self@.entities =~= old(self)@.entities);
    }

    /// The packet `packet_index` was lost: the guaranteed messages that went
    /// out in it are queued again.
    pub fn notify_packet_dropped(&mut self, packet_index: u16)
        ensures
            final(self)@ == old(self)@.packet_dropped(packet_index),
            old(self)@.wf() ==> final(self)@.wf(),
    {
        match self.sent_messages.remove(&packet_index) {
            Some(dropped) => {
                let mut i: usize = 0;
                while i < dropped.len()
                    invariant
                        i <= dropped.len(),
                        self.next_key == old(self).next_key,
                        self.scope == old(self).scope,
                        self.sent_messages@ == old(self).sent_messages@.remove(packet_index),
                        self.queued_messages@ == old(self).queued_messages@ + dropped@.subrange(
                            0,
                            i as int,
                        ),
                    decreases dropped.len() - i,
                {
                    self.queued_messages.push_back(dropped[i]);
                    assert(dropped@.subrange(0, i + 1) =~= dropped@.subrange(0, i as int).push(
                        dropped@[i as int],
                    ));
                    i += 1;
                }
                assert(dropped@.subrange(0, i as int) =~= dropped@);
                assert(self@.sent =~= old(self)@.sent.remove(packet_index));
            },
            None => {
                assert(self@.sent =~= old(self)@.sent.remove(packet_index));
                assert(self@.pending =~= old(self)@.pending + old(self)@.bucket(packet_index));
            },
        }
    }
}

/// The key that `spec_free_key` finds is free, and every key that the search
/// passed on its way is taken: no key is given out while an earlier one, from
/// the start of the search on, is free.
pub proof fn lemma_free_key_is_first(taken: Set<u16>, start: u16, tries: nat)
    requires
        tries <= 0x1_0000,
    ensures
        match spec_free_key(taken, start, tries) {
            Some(key) => {
                &&& !taken.contains(key)
                &&& exists|steps: int|
                    0 <= steps < tries && key == spec_key_after(start, steps) && forall|
                        passed: int,
                    |
                        0 <= passed < steps ==> taken.contains(
                            #[trigger] spec_key_after(start, passed),
                        )
            },
            None => forall|passed: int|
                0 <= passed < tries ==> taken.contains(#[trigger] spec_key_after(start, passed)),
        },
    decreases tries,
{
    if tries > 0 {
        if !taken.contains(start) {
            assert(start == spec_key_after(start, 0));
        } else {
            let next = spec_key_after(start, 1);
            lemma_free_key_is_first(taken, next, (tries - 1) as nat);
            assert forall|passed: int| 1 <= passed < tries implies spec_key_after(next, passed - 1)
                == #[trigger] spec_key_after(start, passed) by {}
            assert(start == spec_key_after(start, 0));
            match spec_free_key(taken, next, (tries - 1) as nat) {
                Some(key) => {
                    let steps = choose|steps: int|
                        0 <= steps < tries - 1 && key == spec_key_after(next, steps) && forall|
                            passed: int,
                        |
                            0 <= passed < steps ==> taken.contains(
                                #[trigger] spec_key_after(next, passed),
                            );
                    assert(key == spec_key_after(start, steps + 1));
                    assert forall|passed: int| 0 <= passed < steps + 1 implies taken.contains(
                        #[trigger] spec_key_after(start, passed),
                    ) by {
                        if passed > 0 {
                            assert(taken.contains(spec_key_after(next, passed - 1)));
                        }
                    }
                },
                None => {
                    assert forall|passed: int| 0 <= passed < tries implies taken.contains(
                        #[trigger] spec_key_after(start, passed),
                    ) by {
                        if passed > 0 {
                            assert(taken.contains(spec_key_after(next, passed - 1)));
                        }
                    }
                },
            }
        }
    }
}

/// What the server writes for an entity message, the client reads back:
/// parsing the bytes of `action`, wherever they stand in a packet, gives
/// `action` again, state and update being at most 255 bytes long.
pub proof fn lemma_entity_action_round_trip(action: EntityAction, before: Seq<u8>, after: Seq<u8>)
    requires
        action matches EntityAction::Create { state, .. } ==> state.len() <= 255,
        action matches EntityAction::Update { diff, .. } ==> diff.len() <= 255,
    ensures
        spec_parse_entity_action(
            before + spec_action_bytes(action) + after,
            before.len() as int,
        ) == Some((action, (before.len() + spec_action_bytes(action).len()) as int)),
{
    let written = spec_action_bytes(action);
    let bytes = before + written + after;
    let position = before.len() as int;
    match action {
        EntityAction::Create { key, naia_id, state } => {
            assert(bytes[position] == 0);
            assert(bytes.subrange(position + 1, position + 3) =~= u16_bytes(key));
            lemma_u16_round_trip(bytes, position + 1, key);
            assert(bytes.subrange(position + 3, position + 5) =~= u16_bytes(naia_id));
            lemma_u16_round_trip(bytes, position + 3, naia_id);
            assert(bytes[position + 5] == state.len() as u8);
            assert(bytes.subrange(position + 6, position + 6 + state.len()) =~= state);
        },
        EntityAction::Update { key, diff } => {
            assert(bytes[position] == 1);
            assert(bytes.subrange(position + 1, position + 3) =~= u16_bytes(key));
            lemma_u16_round_trip(bytes, position + 1, key);
            assert(bytes[position + 3] == diff.len() as u8);
            assert(bytes.subrange(position + 4, position + 4 + diff.len()) =~= diff);
        },
        EntityAction::Delete { key } => {
            assert(bytes[position] == 2);
            assert(bytes.subrange(position + 1, position + 3) =~= u16_bytes(key));
            lemma_u16_round_trip(bytes, position + 1, key);
        },
    }
}

/// A row of entity messages with the bytes of one more message behind it
/// is the row with that message added.
pub proof fn lemma_holds_one_more_action(
    bytes: Seq<u8>,
    actions: Seq<EntityAction>,
    action: EntityAction,
)
    requires
        spec_holds_actions(bytes, actions),
        action matches EntityAction::Create { state, .. } ==> state.len() <= 255,
        action matches EntityAction::Update { diff, .. } ==> diff.len() <= 255,
    ensures
        spec_holds_actions(bytes + spec_action_bytes(action), actions.push(action)),
{
    let written = spec_action_bytes(action);
    let all = bytes + written;
    let more = actions.push(action);
    assert(Seq::<u8>::empty() + bytes + written =~= all);
    lemma_parse_entity_actions_is_local(bytes, 0, actions.len(), Seq::empty(), written);
    assert(spec_parse_entity_actions(all, 0, actions.len()) == Some(
        (actions, bytes.len() as int),
    ));
    assert(bytes + written + Seq::<u8>::empty() =~= all);
    lemma_entity_action_round_trip(action, bytes, Seq::empty());
    assert(more.len() == actions.len() + 1);
    assert(spec_parse_entity_actions(all, 0, (more.len() - 1) as nat) == Some(
        (actions, bytes.len() as int),
    ));
}

/// Writing the waiting messages puts what they say behind the messages
/// that the writer holds already, and touches nothing else of the writer.
pub proof fn lemma_write_messages_holds_actions<U: EntityType>(
    scope: ServerScope,
    writer: PacketWriterView,
    packet_index: u16,
    held: Seq<EntityAction>,
)
    requires
        spec_holds_actions(writer.entity_bytes, held),
        held.len() == writer.entity_count,
    ensures
        ({
            let after = scope.write_messages::<U>(writer, packet_index).1;
            let written = scope.written_actions::<U>(writer, packet_index);
            &&& spec_holds_actions(after.entity_bytes, held + written)
            &&& after.entity_count == held.len() + written.len()
            &&& after.ping_bytes == writer.ping_bytes
            &&& after.event_count == writer.event_count
            &&& after.event_bytes == writer.event_bytes
        }),
    decreases scope.pending.len(),
{
    let written = scope.written_actions::<U>(writer, packet_index);
    if scope.pending.len() != 0 {
        match spec_message_action::<U>(scope.entities, scope.pending[0]) {
            None => {
                lemma_write_messages_holds_actions::<U>(
                    ServerScope { pending: scope.pending.drop_first(), ..scope },
                    writer,
                    packet_index,
                    held,
                );
            },
            Some(action) => {
                if writer.entity_message_fits(spec_action_bytes(action)) {
                    lemma_holds_one_more_action(writer.entity_bytes, held, action);
                    let next = scope.committed(scope.pending[0], packet_index);
                    let next_writer = writer.with_entity_message(spec_action_bytes(action));
                    lemma_write_messages_holds_actions::<U>(
                        next,
                        next_writer,
                        packet_index,
                        held.push(action),
                    );
                    let rest = next.written_actions::<U>(next_writer, packet_index);
                    assert(held + (seq![action] + rest) =~= held.push(action) + rest);
                } else {
                    assert(held + written =~= held);
                }
            },
        }
    } else {
        assert(held + written =~= held);
    }
}

} // verus!
