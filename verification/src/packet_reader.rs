//! A cursor over the bytes of one received packet.

use crate::wire::{
    in_bounds, read_u16_at, read_u32_at, read_u64_at, read_u8_at, spec_read_u16, spec_read_u32,
    spec_read_u64, spec_read_u8,
};
use vstd::prelude::*;
use vstd::slice::slice_subrange;
use vstd::slice::slice_to_vec;

verus! {

/// Reads a packet's payload front to back. A read that would run past the end
/// fails and leaves the cursor where it was.
pub struct PacketReader<'b> {
    buffer: &'b [u8],
    cursor: usize,
}

impl<'b> PacketReader<'b> {
    /// The bytes of the packet.
    pub closed spec fn bytes(&self) -> Seq<u8> {
        self.buffer@
    }

    /// How many bytes have been read.
    pub closed spec fn position(&self) -> int {
        self.cursor as int
    }

    /// A reader at the start of `buffer`.
    pub fn new(buffer: &'b [u8]) -> (reader: Self)
        ensures
            reader.bytes() == buffer@,
            reader.position() == 0,
    {
        PacketReader { buffer, cursor: 0 }
    }

    /// Whether any byte is left to read.
    pub fn has_more(&self) -> (more: bool)
        ensures
            more == (self.position() < self.bytes().len()),
    {
        self.cursor < self.buffer.len()
    }

    /// The whole packet, read or not.
    pub fn get_buffer(&self) -> (buffer: &'b [u8])
        ensures
            buffer@ == self.bytes(),
    {
        self.buffer
    }

    /// How many bytes have been read.
    pub fn get_position(&self) -> (position: usize)
        ensures
            position as int == self.position(),
    {
        self.cursor
    }

    /// Moves the cursor to `position`, which may lie past the end: every read
    /// from there fails.
    pub fn set_position(&mut self, position: usize)
        ensures
            final(self).bytes() == old(self).bytes(),
            final(self).position() == position as int,
    {
        self.cursor = position;
    }

    /// Moves the cursor to the end of the packet.
    pub fn skip_to_end(&mut self)
        ensures
            final(self).bytes() == old(self).bytes(),
            final(self).position() == old(self).bytes().len(),
    {
        self.cursor = self.buffer.len();
    }

    /// Reads one byte.
    pub fn read_u8(&mut self) -> (value: Option<u8>)
        ensures
            final(self).bytes() == old(self).bytes(),
            value == spec_read_u8(old(self).bytes(), old(self).position()),
            final(self).position() == old(self).position() + (if value.is_some() {
                1int
            } else {
                0int
            }),
    {
        let value = read_u8_at(self.buffer, self.cursor);
        let length = self.buffer.len();
        if value.is_some() {
            assert(self.cursor + 1 <= length);
            self.cursor = self.cursor + 1;
        }
        value
    }

    /// Reads a 16-bit number, most significant byte first.
    pub fn read_u16(&mut self) -> (value: Option<u16>)
        ensures
            final(self).bytes() == old(self).bytes(),
            value == spec_read_u16(old(self).bytes(), old(self).position()),
            final(self).position() == old(self).position() + (if value.is_some() {
                2int
            } else {
                0int
            }),
    {
        let value = read_u16_at(self.buffer, self.cursor);
        let length = self.buffer.len();
        if value.is_some() {
            assert(self.cursor + 2 <= length);
            self.cursor = self.cursor + 2;
        }
        value
    }

    /// Reads a 32-bit number, most significant byte first.
    pub fn read_u32(&mut self) -> (value: Option<u32>)
        ensures
            final(self).bytes() == old(self).bytes(),
            value == spec_read_u32(old(self).bytes(), old(self).position()),
            final(self).position() == old(self).position() + (if value.is_some() {
                4int
            } else {
                0int
            }),
    {
        let value = read_u32_at(self.buffer, self.cursor);
        let length = self.buffer.len();
        if value.is_some() {
            assert(self.cursor + 4 <= length);
            self.cursor = self.cursor + 4;
        }
        value
    }

    /// Reads a 64-bit number, most significant byte first.
    pub fn read_u64(&mut self) -> (value: Option<u64>)
        ensures
            final(self).bytes() == old(self).bytes(),
            value == spec_read_u64(old(self).bytes(), old(self).position()),
            final(self).position() == old(self).position() + (if value.is_some() {
                8int
            } else {
                0int
            }),
    {
        let value = read_u64_at(self.buffer, self.cursor);
        let length = self.buffer.len();
        if value.is_some() {
            assert(self.cursor + 8 <= length);
            self.cursor = self.cursor + 8;
        }
        value
    }

    /// Reads the next `length` bytes.
    pub fn read_bytes(&mut self, length: usize) -> (value: Option<Vec<u8>>)
        ensures
            final(self).bytes() == old(self).bytes(),
            value.is_some() == in_bounds(old(self).bytes(), old(self).position(), length as nat),
            value matches Some(taken) ==> {
                &&& taken@ == old(self).bytes().subrange(
                    old(self).position(),
                    old(self).position() + length,
                )
                &&& final(self).position() == old(self).position() + length
            },
            value.is_none() ==> final(self).position() == old(self).position(),
    {
        if self.cursor <= self.buffer.len() && length <= self.buffer.len() - self.cursor {
            let end = self.cursor + length;
            let taken = slice_to_vec(slice_subrange(self.buffer, self.cursor, end));
            self.cursor = end;
            Some(taken)
        } else {
            None
        }
    }
}

} // verus!
