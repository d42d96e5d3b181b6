//! Snapshots of entities, taken when the server last spoke of them, from
//! which the client shows a steady movement towards their newest state.

use crate::entities::client_entity_manager::ClientEntityManager;
use crate::entities::entity_type::{entity_record, EntityRecord, EntityType};
use std::collections::HashMap;
use vstd::prelude::*;

verus! {

broadcast use vstd::std_specs::hash::group_hash_axioms;

/// A snapshot as far as the runtime can tell: when it was taken, and what of.
pub struct Snapshot {
    pub updated: u64,
    pub record: EntityRecord,
}

/// What an `InterpolationManager` holds, as mathematics.
pub struct InterpolationView {
    /// The time in which an entity is shown to reach its newest state.
    pub period: u64,
    /// The snapshots of entities, by key.
    pub entities: Map<u16, Snapshot>,
    /// The snapshots of pawns, by key.
    pub pawns: Map<u16, Snapshot>,
}

/// The time from `anchor` to `now`; none where `now` is the earlier.
pub open spec fn spec_elapsed(anchor: u64, now: u64) -> u64 {
    if now >= anchor {
        (now - anchor) as u64
    } else {
        0
    }
}

/// What is shown of an entity `elapsed` time units after `snapshot` was
/// taken, when `live` is its newest state: the snapshot at the start, the
/// newest state once `period` has passed, and between the two what the
/// entity's kind makes of it.
pub open spec fn spec_shown<U: EntityType>(
    snapshot: EntityRecord,
    live: EntityRecord,
    elapsed: u64,
    period: u64,
) -> EntityRecord {
    if elapsed == 0 {
        snapshot
    } else if elapsed >= period {
        live
    } else {
        EntityRecord {
            type_id: snapshot.type_id,
            state: U::spec_interpolate(
                snapshot.type_id,
                snapshot.state,
                live.state,
                elapsed,
                period,
            ),
        }
    }
}

/// What is shown of the entity under `key` at the time `now`: nothing where
/// it is not in `live` or no snapshot of it is in `snapshots`.
pub open spec fn spec_interpolation<U: EntityType>(
    snapshots: Map<u16, Snapshot>,
    live: Map<u16, EntityRecord>,
    period: u64,
    now: u64,
    key: u16,
) -> Option<EntityRecord> {
    if live.contains_key(key) && snapshots.contains_key(key) {
        Some(
            spec_shown::<U>(
                snapshots[key].record,
                live[key],
                spec_elapsed(snapshots[key].updated, now),
                period,
            ),
        )
    } else {
        None
    }
}

/// The snapshots after one of the entity under `key` was taken at the time
/// `now`, where `live` holds that entity.
pub open spec fn spec_capture(
    snapshots: Map<u16, Snapshot>,
    live: Map<u16, EntityRecord>,
    key: u16,
    now: u64,
) -> Map<u16, Snapshot> {
    if live.contains_key(key) {
        snapshots.insert(key, Snapshot { updated: now, record: live[key] })
    } else {
        snapshots
    }
}

/// The snapshots after the one under `key` was renewed at the time `now`,
/// where there is one and `live` holds the entity.
pub open spec fn spec_sync(
    snapshots: Map<u16, Snapshot>,
    live: Map<u16, EntityRecord>,
    key: u16,
    now: u64,
) -> Map<u16, Snapshot> {
    if live.contains_key(key) && snapshots.contains_key(key) {
        snapshots.insert(key, Snapshot { updated: now, record: live[key] })
    } else {
        snapshots
    }
}

/// A snapshot and the entity last shown from it.
struct InterpolationRecord<U> {
    updated: u64,
    snapshot: U,
    shown: U,
}

spec fn snapshots_of<U: EntityType>(store: Map<u16, InterpolationRecord<U>>) -> Map<u16, Snapshot> {
    Map::new(
        |key: u16| store.contains_key(key),
        |key: u16|
            Snapshot {
                updated: store[key].updated,
                record: entity_record(store[key].snapshot),
            },
    )
}

fn capture<U: EntityType>(
    store: &mut HashMap<u16, InterpolationRecord<U>>,
    live: Option<&U>,
    key: u16,
    now: u64,
    only_known: bool,
)
    ensures
        snapshots_of(final(store)@) == (match live {
            Some(entity) => if only_known && !old(store)@.contains_key(key) {
                snapshots_of(old(store)@)
            } else {
                snapshots_of(old(store)@).insert(
                    key,
                    Snapshot { updated: now, record: entity_record(*entity) },
                )
            },
            None => snapshots_of(old(store)@),
        }),
{
    match live {
        Some(entity) => {
            if only_known && !store.contains_key(&key) {
                return ;
            }
            let snapshot = entity.get_typed_copy();
            let shown = entity.get_typed_copy();
            store.insert(key, InterpolationRecord { updated: now, snapshot, shown });
            assert(snapshots_of(store@) =~= snapshots_of(old(store)@).insert(
                key,
                Snapshot { updated: now, record: entity_record(*entity) },
            ));
        },
        None => {},
    }
}

fn show<'a, U: EntityType>(
    store: &'a mut HashMap<u16, InterpolationRecord<U>>,
    live: Option<&U>,
    period: u64,
    now: u64,
    key: u16,
) -> (shown: Option<&'a U>)
    ensures
        snapshots_of(final(store)@) == snapshots_of(old(store)@),
        match shown {
            Some(entity) => {
                &&& live.is_some()
                &&& old(store)@.contains_key(key)
                &&& entity_record(*entity) == spec_shown::<U>(
                    entity_record(old(store)@[key].snapshot),
                    entity_record(*live.unwrap()),
                    spec_elapsed(old(store)@[key].updated, now),
                    period,
                )
            },
            None => live.is_none() || !old(store)@.contains_key(key),
        },
{
    let tracked_entity = match live {
        Some(entity) => entity,
        None => {
            return None;
        },
    };
    match store.remove(&key) {
        Some(record) => {
            let elapsed = if now >= record.updated {
                now - record.updated
            } else {
                0
            };
            let shown = if elapsed == 0 {
                record.snapshot.get_typed_copy()
            } else if elapsed >= period {
                tracked_entity.get_typed_copy()
            } else {
                record.snapshot.interpolate(tracked_entity, elapsed, period)
            };
            store.insert(
                key,
                InterpolationRecord { updated: record.updated, snapshot: record.snapshot, shown },
            );
            assert(snapshots_of(store@) =~= snapshots_of(old(store)@));
            match store.get(&key) {
                Some(kept) => Some(&kept.shown),
                None => None,
            }
        },
        None => {
            assert(snapshots_of(store@) =~= snapshots_of(old(store)@));
            None
        },
    }
}

/// Keeps, for each entity and each pawn that the application has asked to
/// have smoothed, a snapshot and the time it was taken.
pub struct InterpolationManager<U: EntityType> {
    period: u64,
    entity_store: HashMap<u16, InterpolationRecord<U>>,
    pawn_store: HashMap<u16, InterpolationRecord<U>>,
}

impl<U: EntityType> View for InterpolationManager<U> {
    type V = InterpolationView;

    closed spec fn view(&self) -> InterpolationView {
        InterpolationView {
            period: self.period,
            entities: snapshots_of(self.entity_store@),
            pawns: snapshots_of(self.pawn_store@),
        }
    }
}

impl<U: EntityType> InterpolationManager<U> {
    /// A manager without snapshots. An entity is shown to reach its newest
    /// state within `tick_interval` milliseconds.
    pub fn new(tick_interval: u64) -> (manager: Self)
        ensures
            manager@ == (InterpolationView {
                period: tick_interval,
                entities: Map::empty(),
                pawns: Map::empty(),
            }),
    {
        let manager = InterpolationManager {
            period: tick_interval,
            entity_store: HashMap::new(),
            pawn_store: HashMap::new(),
        };
        assert(manager@.entities =~= Map::empty());
        assert(manager@.pawns =~= Map::empty());
        manager
    }

    /// Takes a snapshot of the entity under `key` at the time `now`. Does
    /// nothing where no such entity is in scope.
    pub fn create_interpolation(
        &mut self,
        entity_manager: &ClientEntityManager<U>,
        key: u16,
        now: u64,
    )
        ensures
            final(self)@ == (InterpolationView {
                entities: spec_capture(old(self)@.entities, entity_manager@.entities, key, now),
                ..old(self)@
            }),
    {
        capture(&mut self.entity_store, entity_manager.get_local_entity(key), key, now, false);
    }

    /// Lets the snapshot of the entity under `key` go.
    pub fn delete_interpolation(&mut self, key: u16)
        ensures
            final(self)@ == (InterpolationView {
                entities: old(self)@.entities.remove(key),
                ..old(self)@
            }),
    {
        self.entity_store.remove(&key);
        assert(self@.entities =~= old(self)@.entities.remove(key));
    }

    /// What to show of the entity under `key` at the time `now`: the
    /// snapshot at the moment it was taken, the entity as it is in scope once
    /// the period has passed, and between the two what the entity's kind
    /// makes of it. Nothing where the entity is not in scope or has no
    /// snapshot. The snapshots stay as they are.
    pub fn get_interpolation(
        &mut self,
        entity_manager: &ClientEntityManager<U>,
        now: u64,
        key: u16,
    ) -> (shown: Option<&U>)
        ensures
            final(self)@ == old(self)@,
            match shown {
                Some(entity) => spec_interpolation::<U>(
                    old(self)@.entities,
                    entity_manager@.entities,
                    old(self)@.period,
                    now,
                    key,
                ) == Some(entity_record(*entity)),
                None => spec_interpolation::<U>(
                    old(self)@.entities,
                    entity_manager@.entities,
                    old(self)@.period,
                    now,
                    key,
                ).is_none(),
            },
    {
        show(&mut self.entity_store, entity_manager.get_local_entity(key), self.period, now, key)
    }

    /// Renews the snapshot of the entity under `key` from the entity as it
    /// is in scope, at the time `now`. To be called when the server has sent
    /// a new state. Does nothing where there is no snapshot or no entity.
    pub fn sync_interpolation(
        &mut self,
        entity_manager: &ClientEntityManager<U>,
        key: u16,
        now: u64,
    )
        ensures
            final(self)@ == (InterpolationView {
                entities: spec_sync(old(self)@.entities, entity_manager@.entities, key, now),
                ..old(self)@
            }),
    {
        capture(&mut self.entity_store, entity_manager.get_local_entity(key), key, now, true);
    }

    /// Takes a snapshot of the pawn under `key` at the time `now`. Does
    /// nothing where there is no such pawn.
    pub fn create_pawn_interpolation(
        &mut self,
        entity_manager: &ClientEntityManager<U>,
        key: u16,
        now: u64,
    )
        ensures
            final(self)@ == (InterpolationView {
                pawns: spec_capture(old(self)@.pawns, entity_manager@.pawns, key, now),
                ..old(self)@
            }),
    {
        capture(&mut self.pawn_store, entity_manager.get_pawn(key), key, now, false);
    }

    /// Lets the snapshot of the pawn under `key` go.
    pub fn delete_pawn_interpolation(&mut self, key: u16)
        ensures
            final(self)@ == (InterpolationView { pawns: old(self)@.pawns.remove(key), ..old(self)@ }),
    {
        self.pawn_store.remove(&key);
        assert(self@.pawns =~= old(self)@.pawns.remove(key));
    }

    /// What to show of the pawn under `key` at the time `now`.
    pub fn get_pawn_interpolation(
        &mut self,
        entity_manager: &ClientEntityManager<U>,
        now: u64,
        key: u16,
    ) -> (shown: Option<&U>)
        ensures
            final(self)@ == old(self)@,
            match shown {
                Some(entity) => spec_interpolation::<U>(
                    old(self)@.pawns,
                    entity_manager@.pawns,
                    old(self)@.period,
                    now,
                    key,
                ) == Some(entity_record(*entity)),
                None => spec_interpolation::<U>(
                    old(self)@.pawns,
                    entity_manager@.pawns,
                    old(self)@.period,
                    now,
                    key,
                ).is_none(),
            },
    {
        show(&mut self.pawn_store, entity_manager.get_pawn(key), self.period, now, key)
    }

    /// Renews the snapshot of the pawn under `key` at the time `now`.
    pub fn sync_pawn_interpolation(
        &mut self,
        entity_manager: &ClientEntityManager<U>,
        key: u16,
        now: u64,
    )
        ensures
            final(self)@ == (InterpolationView {
                pawns: spec_sync(old(self)@.pawns, entity_manager@.pawns, key, now),
                ..old(self)@
            }),
    {
        capture(&mut self.pawn_store, entity_manager.get_pawn(key), key, now, true);
    }
}

/// At the moment a snapshot was taken, and at any time before, the snapshot
/// itself is shown; once the period has passed, the entity as it is in scope.
pub proof fn lemma_interpolation_ends<U: EntityType>(
    snapshots: Map<u16, Snapshot>,
    live: Map<u16, EntityRecord>,
    period: u64,
    now: u64,
    key: u16,
)
    requires
        live.contains_key(key),
        snapshots.contains_key(key),
    ensures
        now <= snapshots[key].updated ==> spec_interpolation::<U>(snapshots, live, period, now, key)
            == Some(snapshots[key].record),
        now > snapshots[key].updated && now - snapshots[key].updated >= period
            ==> spec_interpolation::<U>(snapshots, live, period, now, key) == Some(live[key]),
{
}

} // verus!
