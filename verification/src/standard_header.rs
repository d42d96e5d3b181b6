//! The fixed header of every packet of a connection, and the shorter framing
//! of handshake packets.

use crate::packet_type::PacketType;
use crate::wire::{
    lemma_u16_round_trip, lemma_u32_round_trip, read_u16_at, read_u32_at, spec_read_u16,
    spec_read_u32, u16_bytes, u32_bytes, write_u16, write_u32, write_u8,
};
use vstd::prelude::*;
use vstd::slice::slice_subrange;
use vstd::slice::slice_to_vec;

verus! {

/// The number of bytes a standard header takes.
pub const HEADER_BYTES: usize = 9;

/// Goes in front of every packet of a connection: the packet's type and
/// sequence number, the newest sequence number received from the peer, and
/// one bit for each of the 32 sequence numbers before that, set where that
/// packet was received.
#[derive(Clone, Copy, Debug, PartialEq, Eq, Structural)]
pub struct StandardHeader {
    pub p_type: PacketType,
    pub local_packet_index: u16,
    pub last_remote_packet_index: u16,
    pub ack_field: u32,
}

/// The nine bytes of a header: type, sequence number, acknowledged sequence
/// number, acknowledgement bits; numbers most significant byte first.
pub open spec fn spec_header_bytes(header: StandardHeader) -> Seq<u8> {
    seq![header.spec_packet_type().spec_to_u8()] + u16_bytes(header.spec_packet_index())
        + u16_bytes(header.spec_last_remote_packet_index()) + u32_bytes(header.spec_ack_field())
}

/// The header at the front of `bytes`: nothing where `bytes` is shorter than
/// a header or its first byte names no packet type.
pub open spec fn spec_read_header(bytes: Seq<u8>) -> Option<StandardHeader> {
    if bytes.len() >= 9 {
        match PacketType::spec_from_u8(bytes[0]) {
            Some(p_type) => Some(
                StandardHeader {
                    p_type,
                    local_packet_index: spec_read_u16(bytes, 1).unwrap(),
                    last_remote_packet_index: spec_read_u16(bytes, 3).unwrap(),
                    ack_field: spec_read_u32(bytes, 5).unwrap(),
                },
            ),
            None => None,
        }
    } else {
        None
    }
}

impl StandardHeader {
    pub open spec fn spec_packet_type(self) -> PacketType {
        self.p_type
    }

    pub open spec fn spec_packet_index(self) -> u16 {
        self.local_packet_index
    }

    pub open spec fn spec_last_remote_packet_index(self) -> u16 {
        self.last_remote_packet_index
    }

    pub open spec fn spec_ack_field(self) -> u32 {
        self.ack_field
    }

    pub fn new(
        p_type: PacketType,
        local_packet_index: u16,
        last_remote_packet_index: u16,
        ack_field: u32,
    ) -> (header: Self)
        ensures
            header.spec_packet_type() == p_type,
            header.spec_packet_index() == local_packet_index,
            header.spec_last_remote_packet_index() == last_remote_packet_index,
            header.spec_ack_field() == ack_field,
    {
        StandardHeader { p_type, local_packet_index, last_remote_packet_index, ack_field }
    }

    /// The type of the packet.
    pub fn packet_type(&self) -> (p_type: PacketType)
        ensures
            p_type == self.spec_packet_type(),
    {
        self.p_type
    }

    /// The sequence number of the packet.
    pub fn local_packet_index(&self) -> (index: u16)
        ensures
            index == self.spec_packet_index(),
    {
        self.local_packet_index
    }

    /// The newest sequence number that the sender had received.
    pub fn last_remote_packet_index(&self) -> (index: u16)
        ensures
            index == self.spec_last_remote_packet_index(),
    {
        self.last_remote_packet_index
    }

    /// Which of the 32 packets before `last_remote_packet_index` the sender
    /// had received: bit `i` stands for the packet `i + 1` steps before it.
    pub fn ack_field(&self) -> (field: u32)
        ensures
            field == self.spec_ack_field(),
    {
        self.ack_field
    }

    /// The number of bytes a header takes on the wire.
    pub fn bytes_number() -> (number: usize)
        ensures
            number == 9,
    {
        HEADER_BYTES
    }

    /// Splits a packet into its header and the payload behind it.
    pub fn read(bytes: &[u8]) -> (parts: Option<(StandardHeader, Vec<u8>)>)
        ensures
            match parts {
                Some((header, payload)) => {
                    &&& spec_read_header(bytes@) == Some(header)
                    &&& payload@ == bytes@.skip(9)
                },
                None => spec_read_header(bytes@).is_none(),
            },
    {
        if bytes.len() < HEADER_BYTES {
            return None;
        }
        let p_type = match PacketType::from_u8(bytes[0]) {
            Some(p_type) => p_type,
            None => {
                return None;
            },
        };
        let local_packet_index = read_u16_at(bytes, 1).unwrap();
        let last_remote_packet_index = read_u16_at(bytes, 3).unwrap();
        let ack_field = read_u32_at(bytes, 5).unwrap();
        let payload = slice_to_vec(slice_subrange(bytes, HEADER_BYTES, bytes.len()));
        assert(payload@ =~= bytes@.skip(9));
        Some(
            (
                StandardHeader { p_type, local_packet_index, last_remote_packet_index, ack_field },
                payload,
            ),
        )
    }

    /// The packet made of this header and `payload`.
    pub fn write(&self, payload: &[u8]) -> (packet: Vec<u8>)
        ensures
            packet@ == spec_header_bytes(*self) + payload@,
    {
        let mut packet: Vec<u8> = Vec::new();
        write_u8(&mut packet, self.p_type.to_u8());
        write_u16(&mut packet, self.local_packet_index);
        write_u16(&mut packet, self.last_remote_packet_index);
        write_u32(&mut packet, self.ack_field);
        let ghost head = packet@;
        assert(head =~= spec_header_bytes(*self));
        let mut i: usize = 0;
        while i < payload.len()
            invariant
                i <= payload.len(),
                packet@ == head + payload@.subrange(0, i as int),
            decreases payload.len() - i,
        {
            packet.push(payload[i]);
            assert(payload@.subrange(0, i + 1) =~= payload@.subrange(0, i as int).push(
                payload@[i as int],
            ));
            i += 1;
        }
        assert(payload@.subrange(0, i as int) =~= payload@);
        packet
    }
}

/// The framing of a handshake packet: the byte of its type, then the payload.
pub open spec fn spec_connectionless_bytes(p_type: PacketType, payload: Seq<u8>) -> Seq<u8> {
    seq![p_type.spec_to_u8()] + payload
}

/// The type that the first byte of a packet names.
pub open spec fn spec_peek_packet_type(bytes: Seq<u8>) -> Option<PacketType> {
    if bytes.len() >= 1 {
        PacketType::spec_from_u8(bytes[0])
    } else {
        None
    }
}

/// Frames a handshake packet.
pub fn write_connectionless_payload(p_type: PacketType, payload: &[u8]) -> (packet: Vec<u8>)
    ensures
        packet@ == spec_connectionless_bytes(p_type, payload@),
{
    let mut packet: Vec<u8> = Vec::new();
    write_u8(&mut packet, p_type.to_u8());
    let ghost head = packet@;
    let mut i: usize = 0;
    while i < payload.len()
        invariant
            i <= payload.len(),
            packet@ == head + payload@.subrange(0, i as int),
        decreases payload.len() - i,
    {
        packet.push(payload[i]);
        assert(payload@.subrange(0, i + 1) =~= payload@.subrange(0, i as int).push(
            payload@[i as int],
        ));
        i += 1;
    }
    assert(payload@.subrange(0, i as int) =~= payload@);
    packet
}

/// The type of a packet, read off its first byte; nothing for an empty
/// packet or a byte that names no type.
pub fn peek_packet_type(bytes: &[u8]) -> (p_type: Option<PacketType>)
    ensures
        p_type == spec_peek_packet_type(bytes@),
{
    if bytes.len() >= 1 {
        PacketType::from_u8(bytes[0])
    } else {
        None
    }
}

/// A header that was written is read back, and the payload with it.
pub proof fn lemma_header_round_trip(header: StandardHeader, payload: Seq<u8>)
    ensures
        spec_read_header(spec_header_bytes(header) + payload) == Some(header),
        (spec_header_bytes(header) + payload).skip(9) == payload,
{
    let bytes = spec_header_bytes(header) + payload;
    header.spec_packet_type().lemma_byte_round_trip();
    assert(bytes[0] == header.spec_packet_type().spec_to_u8());
    assert(bytes.subrange(1, 3) =~= u16_bytes(header.spec_packet_index()));
    lemma_u16_round_trip(bytes, 1, header.spec_packet_index());
    assert(bytes.subrange(3, 5) =~= u16_bytes(header.spec_last_remote_packet_index()));
    lemma_u16_round_trip(bytes, 3, header.spec_last_remote_packet_index());
    assert(bytes.subrange(5, 9) =~= u32_bytes(header.spec_ack_field()));
    lemma_u32_round_trip(bytes, 5, header.spec_ack_field());
    assert(bytes.skip(9) =~= payload);
}

} // verus!
