//! A small set of events and one entity, ready to use: a text message, a key
//! press, and a point that moves on a plane.

use crate::entities::entity_type::{EntityRecord, EntityType};
use crate::events::event_type::{EventRecord, EventType};
use crate::manifest::Manifest;
use crate::wire::{
    lemma_u16_bytes_of_read, lemma_u16_round_trip, read_u16_at, spec_read_u16, u16_bytes, write_u16,
};
use vstd::prelude::*;
use vstd::slice::slice_to_vec;
use vstd::string::StringSliceAdditionalSpecFns;

verus! {

/// The kind of a `StringEvent`.
pub const STRING_EVENT_TYPE: u16 = 1;

/// The kind of a `KeyEvent`.
pub const KEY_EVENT_TYPE: u16 = 2;

/// The kind of a `PointEntity`.
pub const POINT_ENTITY_TYPE: u16 = 1;

/// A text message, held as its UTF-8 bytes. Guaranteed to arrive.
pub struct StringEvent {
    message: Vec<u8>,
}

impl StringEvent {
    /// The bytes of the message.
    pub closed spec fn message(&self) -> Seq<u8> {
        self.message@
    }

    /// The event that carries `message`.
    pub fn new(message: &str) -> (event: Self)
        ensures
            event.message() == message.spec_bytes(),
    {
        StringEvent { message: slice_to_vec(message.as_bytes()) }
    }

    /// The UTF-8 bytes of the message.
    pub fn get_message(&self) -> (message: &Vec<u8>)
        ensures
            message@ == self.message(),
    {
        &self.message
    }
}

/// A key press. Sent once; a lost one is not sent again.
pub struct KeyEvent {
    pub key: u8,
}

/// Every event of the example.
pub enum ExampleType {
    StringEvent(StringEvent),
    KeyEvent(KeyEvent),
}

impl EventType for ExampleType {
    open spec fn spec_type_id(&self) -> u16 {
        match self {
            ExampleType::StringEvent(_) => STRING_EVENT_TYPE,
            ExampleType::KeyEvent(_) => KEY_EVENT_TYPE,
        }
    }

    open spec fn spec_is_guaranteed(&self) -> bool {
        self is StringEvent
    }

    open spec fn spec_payload(&self) -> Seq<u8> {
        match self {
            ExampleType::StringEvent(event) => event.message(),
            ExampleType::KeyEvent(event) => seq![event.key],
        }
    }

    open spec fn spec_build(type_id: u16, payload: Seq<u8>) -> Option<EventRecord> {
        if type_id == STRING_EVENT_TYPE {
            Some(EventRecord { type_id, guaranteed: true, payload })
        } else if type_id == KEY_EVENT_TYPE && payload.len() == 1 {
            Some(EventRecord { type_id, guaranteed: false, payload })
        } else {
            None
        }
    }

    fn get_type_id(&self) -> (type_id: u16) {
        match self {
            ExampleType::StringEvent(_) => STRING_EVENT_TYPE,
            ExampleType::KeyEvent(_) => KEY_EVENT_TYPE,
        }
    }

    fn is_guaranteed(&self) -> (guaranteed: bool) {
        match self {
            ExampleType::StringEvent(_) => true,
            ExampleType::KeyEvent(_) => false,
        }
    }

    fn write(&self, out_bytes: &mut Vec<u8>) {
        match self {
            ExampleType::StringEvent(event) => {
                let mut i: usize = 0;
                while i < event.message.len()
                    invariant
                        i <= event.message.len(),
                        out_bytes@ == old(out_bytes)@ + event.message@.subrange(0, i as int),
                    decreases event.message.len() - i,
                {
                    out_bytes.push(event.message[i]);
                    assert(event.message@.subrange(0, i + 1) =~= event.message@.subrange(
                        0,
                        i as int,
                    ).push(event.message@[i as int]));
                    i += 1;
                }
                assert(event.message@.subrange(0, i as int) =~= event.message@);
            },
            ExampleType::KeyEvent(event) => {
                out_bytes.push(event.key);
                assert(out_bytes@ =~= old(out_bytes)@ + seq![event.key]);
            },
        }
    }

    fn build(type_id: u16, payload: &[u8]) -> (event: Option<Self>) {
        if type_id == STRING_EVENT_TYPE {
            Some(ExampleType::StringEvent(StringEvent { message: slice_to_vec(payload) }))
        } else if type_id == KEY_EVENT_TYPE && payload.len() == 1 {
            let key = payload[0];
            assert(payload@ =~= seq![key]);
            Some(ExampleType::KeyEvent(KeyEvent { key }))
        } else {
            None
        }
    }

    proof fn lemma_build_inverts_write(&self) {
    }
}

/// A point on a plane.
pub struct PointEntity {
    pub x: u16,
    pub y: u16,
}

/// The value `elapsed / period` of the way from `from` to `to`, rounded
/// towards `from`.
pub open spec fn slide(from: u16, to: u16, elapsed: u64, period: u64) -> int {
    if to >= from {
        from + (to - from) * elapsed / (period as int)
    } else {
        from - (from - to) * elapsed / (period as int)
    }
}

fn exec_slide(from: u16, to: u16, elapsed: u64, period: u64) -> (at: u16)
    requires
        0 < elapsed < period,
    ensures
        at as int == slide(from, to, elapsed, period),
{
    if to >= from {
        let span: u128 = (to - from) as u128;
        assert(span * elapsed <= 0xffff * 0xffff_ffff_ffff_ffff) by (nonlinear_arith)
            requires
                span <= 0xffff,
                elapsed <= 0xffff_ffff_ffff_ffff,
        ;
        let step: u128 = span * (elapsed as u128) / (period as u128);
        assert(step <= span) by (nonlinear_arith)
            requires
                step == span * elapsed / (period as int),
                0 < elapsed < period,
                0 <= span,
        ;
        from + (step as u16)
    } else {
        let span: u128 = (from - to) as u128;
        assert(span * elapsed <= 0xffff * 0xffff_ffff_ffff_ffff) by (nonlinear_arith)
            requires
                span <= 0xffff,
                elapsed <= 0xffff_ffff_ffff_ffff,
        ;
        let step: u128 = span * (elapsed as u128) / (period as u128);
        assert(step <= span) by (nonlinear_arith)
            requires
                step == span * elapsed / (period as int),
                0 < elapsed < period,
                0 <= span,
        ;
        from - (step as u16)
    }
}

impl PointEntity {
    /// The point at `x`, `y`.
    pub fn new(x: u16, y: u16) -> (point: Self)
        ensures
            point.x == x,
            point.y == y,
    {
        PointEntity { x, y }
    }
}

impl EntityType for PointEntity {
    open spec fn spec_type_id(&self) -> u16 {
        POINT_ENTITY_TYPE
    }

    /// `x`, then `y`, two bytes each.
    open spec fn spec_state(&self) -> Seq<u8> {
        u16_bytes(self.x) + u16_bytes(self.y)
    }

    open spec fn spec_build(type_id: u16, state: Seq<u8>) -> Option<EntityRecord> {
        if type_id == POINT_ENTITY_TYPE && state.len() == 4 {
            Some(EntityRecord { type_id, state })
        } else {
            None
        }
    }

    /// A partial update is a byte that says which coordinates it brings, 1
    /// for `x`, 2 for `y` and 3 for both, and the two bytes of each, `x`
    /// first.
    open spec fn spec_read_partial(type_id: u16, state: Seq<u8>, diff: Seq<u8>) -> Option<
        Seq<u8>,
    > {
        if diff.len() == 3 && diff[0] == 1 {
            Some(diff.subrange(1, 3) + state.subrange(2, 4))
        } else if diff.len() == 3 && diff[0] == 2 {
            Some(state.subrange(0, 2) + diff.subrange(1, 3))
        } else if diff.len() == 5 && diff[0] == 3 {
            Some(diff.subrange(1, 5))
        } else {
            None
        }
    }

    open spec fn spec_diff(type_id: u16, from: Seq<u8>, to: Seq<u8>) -> Option<Seq<u8>> {
        let x_moved = from.subrange(0, 2) != to.subrange(0, 2);
        let y_moved = from.subrange(2, 4) != to.subrange(2, 4);
        if x_moved && y_moved {
            Some(seq![3u8] + to.subrange(0, 4))
        } else if x_moved {
            Some(seq![1u8] + to.subrange(0, 2))
        } else if y_moved {
            Some(seq![2u8] + to.subrange(2, 4))
        } else {
            None
        }
    }

    open spec fn spec_interpolate(
        type_id: u16,
        from: Seq<u8>,
        to: Seq<u8>,
        elapsed: u64,
        period: u64,
    ) -> Seq<u8> {
        u16_bytes(
            slide(
                spec_read_u16(from, 0).unwrap(),
                spec_read_u16(to, 0).unwrap(),
                elapsed,
                period,
            ) as u16,
        ) + u16_bytes(
            slide(
                spec_read_u16(from, 2).unwrap(),
                spec_read_u16(to, 2).unwrap(),
                elapsed,
                period,
            ) as u16,
        )
    }

    fn get_type_id(&self) -> (type_id: u16) {
        POINT_ENTITY_TYPE
    }

    fn write(&self, out_bytes: &mut Vec<u8>) {
        write_u16(out_bytes, self.x);
        write_u16(out_bytes, self.y);
        assert(out_bytes@ =~= old(out_bytes)@ + (u16_bytes(self.x) + u16_bytes(self.y)));
    }

    fn build(type_id: u16, state: &[u8]) -> (entity: Option<Self>) {
        if type_id == POINT_ENTITY_TYPE && state.len() == 4 {
            let x = read_u16_at(state, 0).unwrap();
            let y = read_u16_at(state, 2).unwrap();
            proof {
                lemma_u16_bytes_of_read(state@, 0);
                lemma_u16_bytes_of_read(state@, 2);
                assert(state@ =~= state@.subrange(0, 2) + state@.subrange(2, 4));
            }
            Some(PointEntity { x, y })
        } else {
            None
        }
    }

    fn read_partial(&mut self, diff: &[u8]) -> (applied: bool) {
        proof {
            assert(self.spec_state().subrange(0, 2) =~= u16_bytes(self.x));
            assert(self.spec_state().subrange(2, 4) =~= u16_bytes(self.y));
        }
        if diff.len() == 3 && (diff[0] == 1 || diff[0] == 2) {
            let value = read_u16_at(diff, 1).unwrap();
            proof {
                lemma_u16_bytes_of_read(diff@, 1);
            }
            if diff[0] == 1 {
                self.x = value;
            } else {
                self.y = value;
            }
            true
        } else if diff.len() == 5 && diff[0] == 3 {
            self.x = read_u16_at(diff, 1).unwrap();
            self.y = read_u16_at(diff, 3).unwrap();
            proof {
                lemma_u16_bytes_of_read(diff@, 1);
                lemma_u16_bytes_of_read(diff@, 3);
                assert(diff@.subrange(1, 5) =~= diff@.subrange(1, 3) + diff@.subrange(3, 5));
            }
            true
        } else {
            false
        }
    }

    fn write_partial(&self, since: &Self, out_bytes: &mut Vec<u8>) -> (written: bool) {
        proof {
            lemma_u16_bytes_injective(self.x, since.x);
            lemma_u16_bytes_injective(self.y, since.y);
            assert(self.spec_state().subrange(0, 2) =~= u16_bytes(self.x));
            assert(self.spec_state().subrange(2, 4) =~= u16_bytes(self.y));
            assert(since.spec_state().subrange(0, 2) =~= u16_bytes(since.x));
            assert(since.spec_state().subrange(2, 4) =~= u16_bytes(since.y));
            assert(self.spec_state().subrange(0, 4) =~= self.spec_state());
        }
        let x_moved = self.x != since.x;
        let y_moved = self.y != since.y;
        if x_moved && y_moved {
            out_bytes.push(3);
            write_u16(out_bytes, self.x);
            write_u16(out_bytes, self.y);
            assert(out_bytes@ =~= old(out_bytes)@ + (seq![3u8] + self.spec_state().subrange(0, 4)));
            true
        } else if x_moved {
            out_bytes.push(1);
            write_u16(out_bytes, self.x);
            assert(out_bytes@ =~= old(out_bytes)@ + (seq![1u8] + self.spec_state().subrange(0, 2)));
            true
        } else if y_moved {
            out_bytes.push(2);
            write_u16(out_bytes, self.y);
            assert(out_bytes@ =~= old(out_bytes)@ + (seq![2u8] + self.spec_state().subrange(2, 4)));
            true
        } else {
            assert(out_bytes@ =~= old(out_bytes)@ + Seq::<u8>::empty());
            false
        }
    }

    fn get_typed_copy(&self) -> (copy: Self) {
        PointEntity { x: self.x, y: self.y }
    }

    fn equals(&self, other: &Self) -> (equal: bool) {
        proof {
            lemma_u16_bytes_injective(self.x, other.x);
            lemma_u16_bytes_injective(self.y, other.y);
            if self.spec_state() == other.spec_state() {
                assert(self.spec_state().subrange(0, 2) =~= u16_bytes(self.x));
                assert(other.spec_state().subrange(0, 2) =~= u16_bytes(other.x));
                assert(self.spec_state().subrange(2, 4) =~= u16_bytes(self.y));
                assert(other.spec_state().subrange(2, 4) =~= u16_bytes(other.y));
            }
        }
        self.x == other.x && self.y == other.y
    }

    fn interpolate(&self, target: &Self, elapsed: u64, period: u64) -> (shown: Self) {
        proof {
            lemma_point_state_reads(*self);
            lemma_point_state_reads(*target);
        }
        PointEntity {
            x: exec_slide(self.x, target.x, elapsed, period),
            y: exec_slide(self.y, target.y, elapsed, period),
        }
    }

    proof fn lemma_diff_applies(&self, since: &Self) {
        let from = since.spec_state();
        let to = self.spec_state();
        match Self::spec_diff(self.spec_type_id(), from, to) {
            Some(diff) => {
                let applied = Self::spec_read_partial(self.spec_type_id(), from, diff).unwrap();
                if diff[0] == 3 {
                    assert(diff.subrange(1, 5) =~= to);
                } else if diff[0] == 1 {
                    assert(diff.subrange(1, 3) =~= to.subrange(0, 2));
                    assert(applied =~= to);
                } else {
                    assert(diff.subrange(1, 3) =~= to.subrange(2, 4));
                    assert(applied =~= to);
                }
            },
            None => {},
        }
    }

    proof fn lemma_build_inverts_write(&self) {
    }
}

/// The state of a point reads back as its coordinates.
proof fn lemma_point_state_reads(point: PointEntity)
    ensures
        spec_read_u16(point.spec_state(), 0) == Some(point.x),
        spec_read_u16(point.spec_state(), 2) == Some(point.y),
{
    let state = point.spec_state();
    assert(state.subrange(0, 2) =~= u16_bytes(point.x));
    assert(state.subrange(2, 4) =~= u16_bytes(point.y));
    lemma_u16_round_trip(state, 0, point.x);
    lemma_u16_round_trip(state, 2, point.y);
}

/// Two numbers with the same two bytes are one number.
proof fn lemma_u16_bytes_injective(a: u16, b: u16)
    ensures
        u16_bytes(a) == u16_bytes(b) ==> a == b,
{
    if u16_bytes(a) == u16_bytes(b) {
        assert(u16_bytes(a)[0] == u16_bytes(b)[0]);
        assert(u16_bytes(a)[1] == u16_bytes(b)[1]);
    }
}

/// The manifest of the example: its two kinds of event and its one kind of
/// entity, registered in a fixed order.
pub fn manifest_load() -> (manifest: Manifest<ExampleType, PointEntity>)
    ensures
        manifest.wf(),
        manifest.event_types() == seq![STRING_EVENT_TYPE, KEY_EVENT_TYPE],
        manifest.entity_types() == seq![POINT_ENTITY_TYPE],
{
    let mut manifest = Manifest::new();
    manifest.register_event(STRING_EVENT_TYPE);
    manifest.register_event(KEY_EVENT_TYPE);
    manifest.register_entity(POINT_ENTITY_TYPE);
    manifest
}

} // verus!
