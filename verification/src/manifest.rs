//! The table of event and entity kinds that both hosts share.

use crate::entities::entity_type::{entity_record, EntityRecord, EntityType};
use crate::events::event_type::{event_record, EventRecord, EventType};
use std::marker::PhantomData;
use vstd::prelude::*;

verus! {

/// Maps each registered kind of event and of entity to the 16-bit id that
/// stands for it on the wire, and back. Ids are given out in the order of
/// registration, starting at zero; both hosts must register in the same order.
pub struct Manifest<T: EventType, U: EntityType> {
    event_types: Vec<u16>,
    entity_types: Vec<u16>,
    kinds: PhantomData<(T, U)>,
}

/// The place of `type_id` in `types`, which is its wire id.
pub open spec fn spec_naia_id(types: Seq<u16>, type_id: u16) -> Option<u16> {
    if types.contains(type_id) {
        Some(types.index_of(type_id) as u16)
    } else {
        None
    }
}

/// No kind is listed twice, and every place fits a 16-bit id.
pub open spec fn distinct_types(types: Seq<u16>) -> bool {
    &&& types.no_duplicates()
    &&& types.len() <= 0x1_0000
}

/// Appends `type_id` to `types` unless it is listed already.
fn register(types: &mut Vec<u16>, type_id: u16) -> (naia_id: u16)
    requires
        distinct_types(old(types)@),
    ensures
        distinct_types(final(types)@),
        Some(naia_id) == spec_naia_id(final(types)@, type_id),
        old(types)@.contains(type_id) ==> final(types)@ == old(types)@,
        !old(types)@.contains(type_id) ==> final(types)@ == old(types)@.push(type_id),
{
    match lookup(types, type_id) {
        Some(naia_id) => naia_id,
        None => {
            proof {
                lemma_distinct_u16_len(types@);
            }
            let naia_id: u16 = types.len() as u16;
            types.push(type_id);
            proof {
                let after = types@;
                assert(after[naia_id as int] == type_id);
                assert(after.contains(type_id));
                let found = after.index_of(type_id);
                assert(0 <= found < after.len() && after[found] == type_id);
                assert(found == naia_id as int);
            }
            naia_id
        },
    }
}

/// A sequence of distinct 16-bit numbers that lacks one of them is shorter
/// than the number of 16-bit numbers.
proof fn lemma_distinct_u16_len(types: Seq<u16>)
    requires
        types.no_duplicates(),
    ensures
        types.len() <= 0x1_0000,
        (exists|missing: u16| !types.contains(missing)) ==> types.len() < 0x1_0000,
{
    broadcast use vstd::seq_lib::seq_to_set_is_finite;

    let held = types.to_set();
    let widen = |value: u16| value as int;
    let held_ints: Set<int> = held.map(widen);
    let below: Set<int> = vstd::set_lib::set_int_range(0, 0x1_0000);
    types.unique_seq_to_set();
    vstd::set_lib::lemma_int_range(0, 0x1_0000);
    assert(vstd::relations::injective_on(widen, held));
    vstd::set_lib::lemma_map_size(held, held_ints, widen);
    assert(held_ints.subset_of(below));
    vstd::set_lib::lemma_len_subset(held_ints, below);
    if exists|missing: u16| !types.contains(missing) {
        let missing = choose|missing: u16| !types.contains(missing);
        let rest = below.remove(missing as int);
        assert forall|i: int| held_ints.contains(i) implies rest.contains(i) by {
            let value = choose|value: u16| held.contains(value) && widen(value) == i;
            assert(types.contains(value));
        }
        vstd::set_lib::lemma_len_subset(held_ints, rest);
    }
}

/// The place of `type_id` in `types`, if it is listed.
fn lookup(types: &Vec<u16>, type_id: u16) -> (naia_id: Option<u16>)
    requires
        distinct_types(types@),
    ensures
        naia_id == spec_naia_id(types@, type_id),
{
    let mut i: usize = 0;
    while i < types.len()
        invariant
            i <= types.len(),
            distinct_types(types@),
            forall|j: int| 0 <= j < i ==> types@[j] != type_id,
        decreases types.len() - i,
    {
        if types[i] == type_id {
            proof {
                assert(types@[i as int] == type_id);
                let found = types@.index_of(type_id);
                assert(0 <= found < types@.len() && types@[found] == type_id);
                assert(found == i as int);
            }
            return Some(i as u16);
        }
        i += 1;
    }
    proof {
        assert(!types@.contains(type_id));
    }
    None
}

impl<T: EventType, U: EntityType> Manifest<T, U> {
    /// The kinds of event registered so far, each at the place of its wire id.
    pub closed spec fn event_types(&self) -> Seq<u16> {
        self.event_types@
    }

    /// The kinds of entity registered so far, each at the place of its wire id.
    pub closed spec fn entity_types(&self) -> Seq<u16> {
        self.entity_types@
    }

    /// Every kind has one id and every id one kind.
    pub open spec fn wf(&self) -> bool {
        &&& distinct_types(self.event_types())
        &&& distinct_types(self.entity_types())
    }

    /// The wire id of events of kind `type_id`, if that kind is registered.
    pub open spec fn spec_event_naia_id(&self, type_id: u16) -> Option<u16> {
        spec_naia_id(self.event_types(), type_id)
    }

    /// The wire id of entities of kind `type_id`, if that kind is registered.
    pub open spec fn spec_entity_naia_id(&self, type_id: u16) -> Option<u16> {
        spec_naia_id(self.entity_types(), type_id)
    }

    /// What can be told of the event that `payload` stands for under the wire
    /// id `naia_id`: nothing where the id is unknown or the event's kind
    /// rejects the bytes.
    pub open spec fn spec_create_event(&self, naia_id: u16, payload: Seq<u8>) -> Option<
        EventRecord,
    > {
        if naia_id < self.event_types().len() {
            T::spec_build(self.event_types()[naia_id as int], payload)
        } else {
            None
        }
    }

    /// What can be told of the entity whose full state `state` is under the
    /// wire id `naia_id`.
    pub open spec fn spec_create_entity(&self, naia_id: u16, state: Seq<u8>) -> Option<
        EntityRecord,
    > {
        if naia_id < self.entity_types().len() {
            U::spec_build(self.entity_types()[naia_id as int], state)
        } else {
            None
        }
    }

    /// A manifest with nothing registered.
    pub fn new() -> (manifest: Self)
        ensures
            manifest.wf(),
            manifest.event_types() == Seq::<u16>::empty(),
            manifest.entity_types() == Seq::<u16>::empty(),
    {
        Manifest { event_types: Vec::new(), entity_types: Vec::new(), kinds: PhantomData }
    }

    /// Registers a kind of event and returns its wire id. A kind that is
    /// registered already keeps its id.
    pub fn register_event(&mut self, type_id: u16) -> (naia_id: u16)
        requires
            old(self).wf(),
        ensures
            final(self).wf(),
            final(self).entity_types() == old(self).entity_types(),
            final(self).spec_event_naia_id(type_id) == Some(naia_id),
            old(self).event_types().contains(type_id) ==> final(self).event_types() == old(
                self,
            ).event_types(),
            !old(self).event_types().contains(type_id) ==> final(self).event_types() == old(
                self,
            ).event_types().push(type_id),
    {
        register(&mut self.event_types, type_id)
    }

    /// Registers a kind of entity and returns its wire id. A kind that is
    /// registered already keeps its id.
    pub fn register_entity(&mut self, type_id: u16) -> (naia_id: u16)
        requires
            old(self).wf(),
        ensures
            final(self).wf(),
            final(self).event_types() == old(self).event_types(),
            final(self).spec_entity_naia_id(type_id) == Some(naia_id),
            old(self).entity_types().contains(type_id) ==> final(self).entity_types() == old(
                self,
            ).entity_types(),
            !old(self).entity_types().contains(type_id) ==> final(self).entity_types() == old(
                self,
            ).entity_types().push(type_id),
    {
        register(&mut self.entity_types, type_id)
    }

    /// The wire id of events of kind `type_id`, if that kind is registered.
    pub fn get_event_naia_id(&self, type_id: u16) -> (naia_id: Option<u16>)
        requires
            self.wf(),
        ensures
            naia_id == self.spec_event_naia_id(type_id),
    {
        lookup(&self.event_types, type_id)
    }

    /// The wire id of entities of kind `type_id`, if that kind is registered.
    pub fn get_entity_naia_id(&self, type_id: u16) -> (naia_id: Option<u16>)
        requires
            self.wf(),
        ensures
            naia_id == self.spec_entity_naia_id(type_id),
    {
        lookup(&self.entity_types, type_id)
    }

    /// Builds the event that arrived under the wire id `naia_id`.
    pub fn create_event(&self, naia_id: u16, payload: &[u8]) -> (event: Option<T>)
        ensures
            match event {
                Some(built) => self.spec_create_event(naia_id, payload@) == Some(
                    event_record(built),
                ),
                None => self.spec_create_event(naia_id, payload@).is_none(),
            },
    {
        if (naia_id as usize) < self.event_types.len() {
            T::build(self.event_types[naia_id as usize], payload)
        } else {
            None
        }
    }

    /// Builds the entity that arrived under the wire id `naia_id`.
    pub fn create_entity(&self, naia_id: u16, state: &[u8]) -> (entity: Option<U>)
        ensures
            match entity {
                Some(built) => self.spec_create_entity(naia_id, state@) == Some(
                    entity_record(built),
                ),
                None => self.spec_create_entity(naia_id, state@).is_none(),
            },
    {
        if (naia_id as usize) < self.entity_types.len() {
            U::build(self.entity_types[naia_id as usize], state)
        } else {
            None
        }
    }
}

} // verus!
