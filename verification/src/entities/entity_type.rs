//! What the runtime asks of the application's entities.

use vstd::prelude::*;

verus! {

/// All that the runtime can tell of an entity: its kind and the bytes of its
/// full state.
pub struct EntityRecord {
    pub type_id: u16,
    pub state: Seq<u8>,
}

/// The application's entities: one type, usually an enum, that covers every
/// kind of entity the server replicates to its clients.
///
/// The spec functions name what the runtime can observe of an entity, and
/// the executable methods compute just that.
pub trait EntityType: Sized {
    /// The kind of this entity, as the manifest registers it.
    spec fn spec_type_id(&self) -> u16;

    /// The bytes of the entity's full state.
    spec fn spec_state(&self) -> Seq<u8>;

    /// What can be told of the entity of kind `type_id` whose full state
    /// `state` is; nothing where the bytes are no such state.
    spec fn spec_build(type_id: u16, state: Seq<u8>) -> Option<EntityRecord>;

    /// The state of an entity of kind `type_id` and state `state` after the
    /// partial update `diff`; nothing where `diff` does not apply to it.
    spec fn spec_read_partial(type_id: u16, state: Seq<u8>, diff: Seq<u8>) -> Option<Seq<u8>>;

    /// The partial update that takes an entity of kind `type_id` from the
    /// state `from` to the state `to`; nothing where there is no difference
    /// to bring.
    spec fn spec_diff(type_id: u16, from: Seq<u8>, to: Seq<u8>) -> Option<Seq<u8>>;

    /// The state shown for an entity of kind `type_id`, `elapsed` time units
    /// after it was captured in the state `from`, when the state `to` is due
    /// `period` units after the capture.
    spec fn spec_interpolate(
        type_id: u16,
        from: Seq<u8>,
        to: Seq<u8>,
        elapsed: u64,
        period: u64,
    ) -> Seq<u8>;

    fn get_type_id(&self) -> (type_id: u16)
        ensures
            type_id == self.spec_type_id(),
    ;

    /// Appends the entity's full state to `out_bytes`.
    fn write(&self, out_bytes: &mut Vec<u8>)
        ensures
            final(out_bytes)@ == old(out_bytes)@ + self.spec_state(),
    ;

    /// Decodes an entity of kind `type_id` from its full state.
    fn build(type_id: u16, state: &[u8]) -> (entity: Option<Self>)
        ensures
            match entity {
                Some(built) => Self::spec_build(type_id, state@) == Some(
                    EntityRecord { type_id: built.spec_type_id(), state: built.spec_state() },
                ),
                None => Self::spec_build(type_id, state@).is_none(),
            },
    ;

    /// Applies a partial update in place. Returns whether it applied; an
    /// update that does not apply leaves the entity as it was.
    fn read_partial(&mut self, diff: &[u8]) -> (applied: bool)
        ensures
            applied == Self::spec_read_partial(
                old(self).spec_type_id(),
                old(self).spec_state(),
                diff@,
            ).is_some(),
            final(self).spec_type_id() == old(self).spec_type_id(),
            final(self).spec_state() == (match Self::spec_read_partial(
                old(self).spec_type_id(),
                old(self).spec_state(),
                diff@,
            ) {
                Some(state) => state,
                None => old(self).spec_state(),
            }),
    ;

    /// Appends the partial update that takes `since` to this entity, and
    /// says whether there is one. Where there is none, nothing is appended.
    fn write_partial(&self, since: &Self, out_bytes: &mut Vec<u8>) -> (written: bool)
        requires
            self.spec_type_id() == since.spec_type_id(),
        ensures
            written == Self::spec_diff(
                self.spec_type_id(),
                since.spec_state(),
                self.spec_state(),
            ).is_some(),
            final(out_bytes)@ == old(out_bytes)@ + (match Self::spec_diff(
                self.spec_type_id(),
                since.spec_state(),
                self.spec_state(),
            ) {
                Some(diff) => diff,
                None => Seq::empty(),
            }),
    ;

    /// An owned snapshot: an entity of the same kind and state.
    fn get_typed_copy(&self) -> (copy: Self)
        ensures
            copy.spec_type_id() == self.spec_type_id(),
            copy.spec_state() == self.spec_state(),
    ;

    /// Whether the two entities are of the same kind and state.
    fn equals(&self, other: &Self) -> (equal: bool)
        ensures
            equal == (self.spec_type_id() == other.spec_type_id() && self.spec_state()
                == other.spec_state()),
    ;

    /// The entity on the way from `self` to `target`. The runtime calls this
    /// strictly between the two ends only.
    fn interpolate(&self, target: &Self, elapsed: u64, period: u64) -> (shown: Self)
        requires
            0 < elapsed < period,
        ensures
            shown.spec_type_id() == self.spec_type_id(),
            shown.spec_state() == Self::spec_interpolate(
                self.spec_type_id(),
                self.spec_state(),
                target.spec_state(),
                elapsed,
                period,
            ),
    ;

    /// The partial update from `since` to this entity, applied to `since`,
    /// gives the state of this entity.
    proof fn lemma_diff_applies(&self, since: &Self)
        requires
            self.spec_type_id() == since.spec_type_id(),
        ensures
            Self::spec_diff(self.spec_type_id(), since.spec_state(), self.spec_state()) matches Some(
                diff,
            ) ==> Self::spec_read_partial(self.spec_type_id(), since.spec_state(), diff) == Some(
                self.spec_state(),
            ),
    ;

    /// Decoding the full state that an entity wrote gives an entity that the
    /// runtime cannot tell from it.
    proof fn lemma_build_inverts_write(&self)
        ensures
            Self::spec_build(self.spec_type_id(), self.spec_state()) == Some(
                EntityRecord { type_id: self.spec_type_id(), state: self.spec_state() },
            ),
    ;
}

/// What the runtime can tell of `entity`.
pub open spec fn entity_record<U: EntityType>(entity: U) -> EntityRecord {
    EntityRecord { type_id: entity.spec_type_id(), state: entity.spec_state() }
}

/// Two entities that the runtime cannot tell apart: same kind, same state.
pub open spec fn same_entity<U: EntityType>(a: U, b: U) -> bool {
    entity_record(a) == entity_record(b)
}

} // verus!
