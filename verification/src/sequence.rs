//! Arithmetic on packet sequence numbers, which wrap around at 16 bits.
//!
//! Every comparison of two sequence numbers in the crate goes through this
//! module: `<` on the raw numbers is wrong as soon as the counter has wrapped.

use vstd::prelude::*;

verus! {

/// A packet sequence number: a 16-bit counter that wraps around.
pub type SequenceNumber = u16;

/// The number of steps forward from `b` to `a` on the circle of sequence
/// numbers.
pub open spec fn wrapped_distance(a: u16, b: u16) -> int {
    (a as int - b as int) % 0x1_0000
}

/// Whether `a` is newer than `b`: going forward from `b`, `a` is reached in
/// fewer than half the circle's steps, and the two differ.
pub open spec fn spec_sequence_greater_than(a: u16, b: u16) -> bool {
    0 < wrapped_distance(a, b) < 0x8000
}

/// Whether `a` is older than `b`.
pub open spec fn spec_sequence_less_than(a: u16, b: u16) -> bool {
    spec_sequence_greater_than(b, a)
}

/// The sequence number `steps` before `a`.
pub open spec fn spec_sequence_before(a: u16, steps: int) -> u16 {
    ((a as int - steps) % 0x1_0000) as u16
}

/// The number of steps forward from `b` to `a`.
pub fn sequence_distance(a: u16, b: u16) -> (distance: u16)
    ensures
        distance as int == wrapped_distance(a, b),
{
    a.wrapping_sub(b)
}

/// Whether `a` is newer than `b` in wrapping order.
pub fn sequence_greater_than(a: u16, b: u16) -> (newer: bool)
    ensures
        newer == spec_sequence_greater_than(a, b),
{
    let distance = a.wrapping_sub(b);
    0 < distance && distance < 0x8000
}

/// Whether `a` is older than `b` in wrapping order.
pub fn sequence_less_than(a: u16, b: u16) -> (older: bool)
    ensures
        older == spec_sequence_less_than(a, b),
{
    sequence_greater_than(b, a)
}

/// Of two different sequence numbers that are not half a circle apart,
/// exactly one is the newer.
pub proof fn lemma_sequence_order_is_strict(a: u16, b: u16)
    ensures
        !(spec_sequence_greater_than(a, b) && spec_sequence_greater_than(b, a)),
        !spec_sequence_greater_than(a, a),
        a != b && wrapped_distance(a, b) != 0x8000 ==> (spec_sequence_greater_than(a, b)
            || spec_sequence_greater_than(b, a)),
{
}

/// The successor of a sequence number is newer than it, also across the wrap.
pub proof fn lemma_successor_is_newer(a: u16)
    ensures
        spec_sequence_greater_than(spec_sequence_before(a, -1), a),
{
}

} // verus!
