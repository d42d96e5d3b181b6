//! The client's copy of the entities that the server has put in its scope.

use crate::entities::client_entity_message::ClientEntityMessage;
use crate::entities::entity_type::{entity_record, EntityRecord, EntityType};
use crate::events::event_type::EventType;
use crate::manifest::Manifest;
use crate::packet_reader::PacketReader;
use crate::wire::{in_bounds, spec_read_u16, spec_read_u8};
use std::collections::HashMap;
use std::collections::VecDeque;
use vstd::prelude::*;

verus! {

broadcast use vstd::std_specs::hash::group_hash_axioms;

/// One message of the server about an entity, as it stands in a packet.
pub enum EntityAction {
    /// The entity `key` comes into scope: an entity of the wire id `naia_id`
    /// in the full state `state`.
    Create { key: u16, naia_id: u16, state: Seq<u8> },
    /// The entity `key` changes by the partial update `diff`.
    Update { key: u16, diff: Seq<u8> },
    /// The entity `key` leaves the scope.
    Delete { key: u16 },
}

/// A string of bytes with its length in one byte in front, at `position`.
pub open spec fn spec_parse_short_bytes(bytes: Seq<u8>, position: int) -> Option<(Seq<u8>, int)> {
    match spec_read_u8(bytes, position) {
        Some(length) => if in_bounds(bytes, position + 1, length as nat) {
            Some((bytes.subrange(position + 1, position + 1 + length), position + 1 + length))
        } else {
            None
        },
        None => None,
    }
}

/// The entity message at `position`, and where it ends: one byte of kind
/// (0 create, 1 update, 2 delete), two bytes of key, then for a create the
/// wire id and the state, for an update the partial update; state and update
/// each with their length in one byte in front.
pub open spec fn spec_parse_entity_action(bytes: Seq<u8>, position: int) -> Option<
    (EntityAction, int),
> {
    match (spec_read_u8(bytes, position), spec_read_u16(bytes, position + 1)) {
        (Some(kind), Some(key)) => if kind == 0 {
            match (spec_read_u16(bytes, position + 3), spec_parse_short_bytes(bytes, position + 5)) {
                (Some(naia_id), Some((state, end))) => Some(
                    (EntityAction::Create { key, naia_id, state }, end),
                ),
                _ => None,
            }
        } else if kind == 1 {
            match spec_parse_short_bytes(bytes, position + 3) {
                Some((diff, end)) => Some((EntityAction::Update { key, diff }, end)),
                None => None,
            }
        } else if kind == 2 {
            Some((EntityAction::Delete { key }, position + 3))
        } else {
            None
        },
        _ => None,
    }
}

/// The `count` entity messages that follow each other from `start` on, and
/// where the last one ends.
pub open spec fn spec_parse_entity_actions(bytes: Seq<u8>, start: int, count: nat) -> Option<
    (Seq<EntityAction>, int),
>
    decreases count,
{
    if count == 0 {
        Some((Seq::empty(), start))
    } else {
        match spec_parse_entity_actions(bytes, start, (count - 1) as nat) {
            Some((actions, position)) => match spec_parse_entity_action(bytes, position) {
                Some((action, end)) => Some((actions.push(action), end)),
                None => None,
            },
            None => None,
        }
    }
}

/// The block of entity messages at `position`: one byte that counts them,
/// then the messages.
pub open spec fn spec_parse_entity_block(bytes: Seq<u8>, position: int) -> Option<
    (Seq<EntityAction>, int),
> {
    match spec_read_u8(bytes, position) {
        Some(count) => spec_parse_entity_actions(bytes, position + 1, count as nat),
        None => None,
    }
}

/// What a `ClientEntityManager` holds, as far as the runtime can tell.
pub struct ClientScope {
    /// The entities in scope, by key.
    pub entities: Map<u16, EntityRecord>,
    /// The entities that the client steers itself, by key.
    pub pawns: Map<u16, EntityRecord>,
    /// The changes that the application has not been told of, oldest first.
    pub messages: Seq<ClientEntityMessage>,
}

/// The scope after one message of the server. A create that the manifest
/// cannot build, an update for a key that is not in scope or that does not
/// apply, and a delete for a key that is not in scope change nothing.
pub open spec fn spec_apply_entity_action<T: EventType, U: EntityType>(
    manifest: &Manifest<T, U>,
    scope: ClientScope,
    action: EntityAction,
) -> ClientScope {
    match action {
        EntityAction::Create { key, naia_id, state } => match manifest.spec_create_entity(
            naia_id,
            state,
        ) {
            Some(record) => ClientScope {
                entities: scope.entities.insert(key, record),
                pawns: scope.pawns,
                messages: scope.messages.push(ClientEntityMessage::Create(key)),
            },
            None => scope,
        },
        EntityAction::Update { key, diff } => if scope.entities.contains_key(key) {
            let record = scope.entities[key];
            match U::spec_read_partial(record.type_id, record.state, diff) {
                Some(state) => ClientScope {
                    entities: scope.entities.insert(
                        key,
                        EntityRecord { type_id: record.type_id, state },
                    ),
                    pawns: scope.pawns,
                    messages: scope.messages.push(ClientEntityMessage::Update(key)),
                },
                None => scope,
            }
        } else {
            scope
        },
        EntityAction::Delete { key } => if scope.entities.contains_key(key) {
            ClientScope {
                entities: scope.entities.remove(key),
                pawns: scope.pawns.remove(key),
                messages: scope.messages.push(ClientEntityMessage::Delete(key)),
            }
        } else {
            scope
        },
    }
}

/// The scope after each of `actions` in turn.
pub open spec fn spec_apply_entity_actions<T: EventType, U: EntityType>(
    manifest: &Manifest<T, U>,
    scope: ClientScope,
    actions: Seq<EntityAction>,
) -> ClientScope
    decreases actions.len(),
{
    if actions.len() == 0 {
        scope
    } else {
        spec_apply_entity_action(
            manifest,
            spec_apply_entity_actions(manifest, scope, actions.drop_last()),
            actions.last(),
        )
    }
}

/// An entity message read off a packet.
enum ParsedAction {
    Create(u16, u16, Vec<u8>),
    Update(u16, Vec<u8>),
    Delete(u16),
}

spec fn action_view(parsed: ParsedAction) -> EntityAction {
    match parsed {
        ParsedAction::Create(key, naia_id, state) => EntityAction::Create {
            key,
            naia_id,
            state: state@,
        },
        ParsedAction::Update(key, diff) => EntityAction::Update { key, diff: diff@ },
        ParsedAction::Delete(key) => EntityAction::Delete { key },
    }
}

fn read_short_bytes(reader: &mut PacketReader) -> (value: Option<Vec<u8>>)
    ensures
        final(reader).bytes() == old(reader).bytes(),
        match value {
            Some(taken) => spec_parse_short_bytes(old(reader).bytes(), old(reader).position())
                == Some((taken@, final(reader).position())),
            None => spec_parse_short_bytes(old(reader).bytes(), old(reader).position()).is_none(),
        },
{
    match reader.read_u8() {
        Some(length) => reader.read_bytes(length as usize),
        None => None,
    }
}

fn read_entity_action(reader: &mut PacketReader) -> (value: Option<ParsedAction>)
    ensures
        final(reader).bytes() == old(reader).bytes(),
        match value {
            Some(parsed) => spec_parse_entity_action(old(reader).bytes(), old(reader).position())
                == Some((action_view(parsed), final(reader).position())),
            None => spec_parse_entity_action(old(reader).bytes(), old(reader).position()).is_none(),
        },
{
    let kind = match reader.read_u8() {
        Some(kind) => kind,
        None => {
            return None;
        },
    };
    let key = match reader.read_u16() {
        Some(key) => key,
        None => {
            return None;
        },
    };
    if kind == 0 {
        let naia_id = match reader.read_u16() {
            Some(naia_id) => naia_id,
            None => {
                return None;
            },
        };
        match read_short_bytes(reader) {
            Some(state) => Some(ParsedAction::Create(key, naia_id, state)),
            None => None,
        }
    } else if kind == 1 {
        match read_short_bytes(reader) {
            Some(diff) => Some(ParsedAction::Update(key, diff)),
            None => None,
        }
    } else if kind == 2 {
        Some(ParsedAction::Delete(key))
    } else {
        None
    }
}

/// Where fewer messages can be read than a count, no greater count can be
/// read either.
proof fn lemma_parse_entity_actions_fails_on(bytes: Seq<u8>, start: int, read: nat, count: nat)
    requires
        read < count,
        spec_parse_entity_actions(bytes, start, read) matches Some((_, position))
            && spec_parse_entity_action(bytes, position).is_none(),
    ensures
        spec_parse_entity_actions(bytes, start, count).is_none(),
    decreases count,
{
    if count > read + 1 {
        lemma_parse_entity_actions_fails_on(bytes, start, read, (count - 1) as nat);
    }
}

/// Holds the entities in the client's scope and applies to them what the
/// server sends.
pub struct ClientEntityManager<U: EntityType> {
    local_entity_store: HashMap<u16, U>,
    pawn_store: HashMap<u16, U>,
    queued_incoming_messages: VecDeque<ClientEntityMessage>,
}

impl<U: EntityType> View for ClientEntityManager<U> {
    type V = ClientScope;

    closed spec fn view(&self) -> ClientScope {
        ClientScope {
            entities: Map::new(
                |key: u16| self.local_entity_store@.contains_key(key),
                |key: u16| entity_record(self.local_entity_store@[key]),
            ),
            pawns: Map::new(
                |key: u16| self.pawn_store@.contains_key(key),
                |key: u16| entity_record(self.pawn_store@[key]),
            ),
            messages: self.queued_incoming_messages@,
        }
    }
}

impl<U: EntityType> ClientEntityManager<U> {
    /// An entity manager with nothing in scope.
    pub fn new() -> (manager: Self)
        ensures
            manager@ == (ClientScope {
                entities: Map::empty(),
                pawns: Map::empty(),
                messages: Seq::empty(),
            }),
    {
        let manager = ClientEntityManager {
            local_entity_store: HashMap::new(),
            pawn_store: HashMap::new(),
            queued_incoming_messages: VecDeque::new(),
        };
        assert(manager@.entities =~= Map::empty());
        assert(manager@.pawns =~= Map::empty());
        manager
    }

    /// Reads the block of entity messages at the reader's cursor and applies
    /// them in order. A block that runs past the end of the packet, or holds
    /// a message of no known kind, is dropped whole: nothing changes, and the
    /// reader is left at the end of the packet.
    pub fn process_data<T: EventType>(
        &mut self,
        reader: &mut PacketReader,
        manifest: &Manifest<T, U>,
    )
        ensures
            final(reader).bytes() == old(reader).bytes(),
            match spec_parse_entity_block(old(reader).bytes(), old(reader).position()) {
                Some((actions, end)) => {
                    &&& final(reader).position() == end
                    &&& final(self)@ == spec_apply_entity_actions(manifest, old(self)@, actions)
                },
                None => {
                    &&& final(reader).position() == old(reader).bytes().len()
                    &&& final(self)@ == old(self)@
                },
            },
    {
        let ghost bytes = reader.bytes();
        let ghost start = reader.position() + 1;
        let message_count = match reader.read_u8() {
            Some(count) => count,
            None => {
                reader.skip_to_end();
                return ;
            },
        };
        let mut parsed: Vec<ParsedAction> = Vec::new();
        let mut x: u8 = 0;
        while x < message_count
            invariant
                x <= message_count,
                reader.bytes() == bytes,
                bytes == old(reader).bytes(),
                start == old(reader).position() + 1,
                spec_read_u8(bytes, start - 1) == Some(message_count),
                self.local_entity_store == old(self).local_entity_store,
                self.pawn_store == old(self).pawn_store,
                self.queued_incoming_messages == old(self).queued_incoming_messages,
                parsed@.len() == x,
                spec_parse_entity_actions(bytes, start, x as nat) == Some(
                    (parsed@.map_values(|action: ParsedAction| action_view(action)), reader.position()),
                ),
            decreases message_count - x,
        {
            match read_entity_action(reader) {
                Some(action) => {
                    let ghost before = parsed@.map_values(
                        |action: ParsedAction| action_view(action),
                    );
                    parsed.push(action);
                    assert(parsed@.map_values(|action: ParsedAction| action_view(action))
                        =~= before.push(action_view(action)));
                },
                None => {
                    proof {
                        lemma_parse_entity_actions_fails_on(
                            bytes,
                            start,
                            x as nat,
                            message_count as nat,
                        );
                    }
                    reader.skip_to_end();
                    return ;
                },
            }
            x += 1;
        }
        let ghost actions = parsed@.map_values(|action: ParsedAction| action_view(action));
        let mut i: usize = 0;
        while i < parsed.len()
            invariant
                i <= parsed.len(),
                actions == parsed@.map_values(|action: ParsedAction| action_view(action)),
                self@ == spec_apply_entity_actions(
                    manifest,
                    old(self)@,
                    actions.subrange(0, i as int),
                ),
            decreases parsed.len() - i,
        {
            assert(actions.subrange(0, i + 1).drop_last() =~= actions.subrange(0, i as int));
            assert(actions.subrange(0, i + 1).last() == action_view(parsed@[i as int]));
            self.apply(manifest, &parsed[i]);
            i += 1;
        }
        assert(actions.subrange(0, i as int) =~= actions);
    }

    /// Applies one message of the server.
    fn apply<T: EventType>(&mut self, manifest: &Manifest<T, U>, action: &ParsedAction)
        ensures
            final(self)@ == spec_apply_entity_action(manifest, old(self)@, action_view(*action)),
    {
        let ghost scope = self@;
        match action {
            ParsedAction::Create(key, naia_id, state) => {
                match manifest.create_entity(*naia_id, state.as_slice()) {
                    Some(new_entity) => {
                        self.local_entity_store.insert(*key, new_entity);
                        self.queued_incoming_messages.push_back(ClientEntityMessage::Create(*key));
                        assert(self@.entities =~= scope.entities.insert(
                            *key,
                            entity_record(new_entity),
                        ));
                        assert(self@.pawns =~= scope.pawns);
                    },
                    None => {},
                }
            },
            ParsedAction::Update(key, diff) => {
                match self.local_entity_store.remove(key) {
                    Some(mut entity) => {
                        let ghost record = entity_record(entity);
                        assert(scope.entities[*key] == record);
                        let applied = entity.read_partial(diff.as_slice());
                        self.local_entity_store.insert(*key, entity);
                        if applied {
                            self.queued_incoming_messages.push_back(
                                ClientEntityMessage::Update(*key),
                            );
                            assert(self@.entities =~= scope.entities.insert(
                                *key,
                                entity_record(entity),
                            ));
                        } else {
                            assert(self@.entities =~= scope.entities);
                        }
                        assert(self@.pawns =~= scope.pawns);
                    },
                    None => {
                        assert(self@.entities =~= scope.entities);
                        assert(self@.pawns =~= scope.pawns);
                    },
                }
            },
            ParsedAction::Delete(key) => {
                match self.local_entity_store.remove(key) {
                    Some(_) => {
                        self.pawn_store.remove(key);
                        self.queued_incoming_messages.push_back(ClientEntityMessage::Delete(*key));
                        assert(self@.entities =~= scope.entities.remove(*key));
                        assert(self@.pawns =~= scope.pawns.remove(*key));
                    },
                    None => {
                        assert(self@.entities =~= scope.entities);
                        assert(self@.pawns =~= scope.pawns);
                    },
                }
            },
        }
    }

    /// Takes the oldest change that the application has not been told of.
    pub fn pop_incoming_message(&mut self) -> (message: Option<ClientEntityMessage>)
        ensures
            message == (if old(self)@.messages.len() == 0 {
                None
            } else {
                Some(old(self)@.messages[0])
            }),
            final(self)@ == (ClientScope {
                messages: if old(self)@.messages.len() == 0 {
                    old(self)@.messages
                } else {
                    old(self)@.messages.drop_first()
                },
                ..old(self)@
            }),
    {
        let message = self.queued_incoming_messages.pop_front();
        assert(self@.entities =~= old(self)@.entities);
        assert(self@.pawns =~= old(self)@.pawns);
        assert(message.is_some() ==> self@.messages =~= old(self)@.messages.drop_first());
        message
    }

    /// The entity in scope under `key`.
    pub fn get_local_entity(&self, key: u16) -> (entity: Option<&U>)
        ensures
            match entity {
                Some(found) => self@.entities.contains_key(key) && self@.entities[key]
                    == entity_record(*found),
                None => !self@.entities.contains_key(key),
            },
    {
        self.local_entity_store.get(&key)
    }

    /// The pawn under `key`.
    pub fn get_pawn(&self, key: u16) -> (pawn: Option<&U>)
        ensures
            match pawn {
                Some(found) => self@.pawns.contains_key(key) && self@.pawns[key] == entity_record(
                    *found,
                ),
                None => !self@.pawns.contains_key(key),
            },
    {
        self.pawn_store.get(&key)
    }

    /// Makes the entity under `key` a pawn: the client keeps a copy of its
    /// own to steer. Says whether there was such an entity.
    pub fn assign_pawn(&mut self, key: u16) -> (assigned: bool)
        ensures
            assigned == old(self)@.entities.contains_key(key),
            final(self)@ == (ClientScope {
                pawns: if assigned {
                    old(self)@.pawns.insert(key, old(self)@.entities[key])
                } else {
                    old(self)@.pawns
                },
                ..old(self)@
            }),
    {
        let copy = match self.local_entity_store.get(&key) {
            Some(entity) => Some(entity.get_typed_copy()),
            None => None,
        };
        match copy {
            Some(pawn) => {
                self.pawn_store.insert(key, pawn);
                assert(self@.pawns =~= old(self)@.pawns.insert(key, old(self)@.entities[key]));
                assert(self@.entities =~= old(self)@.entities);
                true
            },
            None => {
                assert(self@.pawns =~= old(self)@.pawns);
                assert(self@.entities =~= old(self)@.entities);
                false
            },
        }
    }

    /// Gives the pawn under `key` up.
    pub fn unassign_pawn(&mut self, key: u16)
        ensures
            final(self)@ == (ClientScope { pawns: old(self)@.pawns.remove(key), ..old(self)@ }),
    {
        self.pawn_store.remove(&key);
        assert(self@.pawns =~= old(self)@.pawns.remove(key));
        assert(self@.entities =~= old(self)@.entities);
    }
}

/// A row of entity messages ends behind where it starts.
pub proof fn lemma_parse_entity_actions_advances(bytes: Seq<u8>, start: int, count: nat)
    ensures
        spec_parse_entity_actions(bytes, start, count) matches Some((_, end)) ==> end >= start,
    decreases count,
{
    if count > 0 {
        lemma_parse_entity_actions_advances(bytes, start, (count - 1) as nat);
    }
}

/// Whether `bytes` is just the entity messages `actions`, one after the
/// other.
pub open spec fn spec_holds_actions(bytes: Seq<u8>, actions: Seq<EntityAction>) -> bool {
    spec_parse_entity_actions(bytes, 0, actions.len()) == Some((actions, bytes.len() as int))
}

/// A string of bytes with its length in front is read the same whatever
/// stands before it and behind it.
proof fn lemma_parse_short_bytes_is_local(
    bytes: Seq<u8>,
    position: int,
    before: Seq<u8>,
    after: Seq<u8>,
)
    requires
        spec_parse_short_bytes(bytes, position).is_some(),
    ensures
        spec_parse_short_bytes(before + bytes + after, before.len() + position) == Some(
            (
                spec_parse_short_bytes(bytes, position).unwrap().0,
                before.len() + spec_parse_short_bytes(bytes, position).unwrap().1,
            ),
        ),
{
    let all = before + bytes + after;
    let shifted = before.len() + position;
    let length = bytes[position];
    assert(all[shifted] == bytes[position]);
    assert(all.subrange(shifted + 1, shifted + 1 + length) =~= bytes.subrange(
        position + 1,
        position + 1 + length,
    ));
}

/// A 16-bit number is read the same whatever stands before it and behind
/// it.
proof fn lemma_read_u16_is_local(bytes: Seq<u8>, position: int, before: Seq<u8>, after: Seq<u8>)
    requires
        spec_read_u16(bytes, position).is_some(),
    ensures
        spec_read_u16(before + bytes + after, before.len() + position) == spec_read_u16(
            bytes,
            position,
        ),
{
    reveal_with_fuel(crate::wire::be_value, 3);
    let all = before + bytes + after;
    let shifted = before.len() + position;
    assert(all[shifted] == bytes[position]);
    assert(all[shifted + 1] == bytes[position + 1]);
}

/// An entity message is read the same whatever stands before it and behind
/// it.
pub proof fn lemma_parse_entity_action_is_local(
    bytes: Seq<u8>,
    position: int,
    before: Seq<u8>,
    after: Seq<u8>,
)
    requires
        spec_parse_entity_action(bytes, position).is_some(),
    ensures
        spec_parse_entity_action(before + bytes + after, before.len() + position) == Some(
            (
                spec_parse_entity_action(bytes, position).unwrap().0,
                before.len() + spec_parse_entity_action(bytes, position).unwrap().1,
            ),
        ),
{
    let all = before + bytes + after;
    let shifted = before.len() + position;
    let kind = bytes[position];
    assert(all[shifted] == kind);
    lemma_read_u16_is_local(bytes, position + 1, before, after);
    if kind == 0 {
        lemma_read_u16_is_local(bytes, position + 3, before, after);
        lemma_parse_short_bytes_is_local(bytes, position + 5, before, after);
    } else if kind == 1 {
        lemma_parse_short_bytes_is_local(bytes, position + 3, before, after);
    }
}

/// A row of entity messages is read the same whatever stands before it and
/// behind it.
pub proof fn lemma_parse_entity_actions_is_local(
    bytes: Seq<u8>,
    start: int,
    count: nat,
    before: Seq<u8>,
    after: Seq<u8>,
)
    requires
        spec_parse_entity_actions(bytes, start, count).is_some(),
    ensures
        spec_parse_entity_actions(before + bytes + after, before.len() + start, count) == Some(
            (
                spec_parse_entity_actions(bytes, start, count).unwrap().0,
                before.len() + spec_parse_entity_actions(bytes, start, count).unwrap().1,
            ),
        ),
    decreases count,
{
    if count > 0 {
        lemma_parse_entity_actions_is_local(bytes, start, (count - 1) as nat, before, after);
        let position = spec_parse_entity_actions(bytes, start, (count - 1) as nat).unwrap().1;
        lemma_parse_entity_action_is_local(bytes, position, before, after);
    }
}

/// What is written as a block of entity messages is read as that block: a
/// count and a row of so many messages, with whatever before and behind,
/// parse from the count on to just these messages.
pub proof fn lemma_entity_block_round_trip(
    count: u8,
    bytes: Seq<u8>,
    actions: Seq<EntityAction>,
    before: Seq<u8>,
    after: Seq<u8>,
)
    requires
        spec_holds_actions(bytes, actions),
        actions.len() == count,
    ensures
        spec_parse_entity_block(before + seq![count] + bytes + after, before.len() as int) == Some(
            (actions, (before.len() + 1 + bytes.len()) as int),
        ),
{
    let all = before + seq![count] + bytes + after;
    lemma_parse_entity_actions_is_local(bytes, 0, actions.len(), before + seq![count], after);
    assert(all[before.len() as int] == count);
}

} // verus!
