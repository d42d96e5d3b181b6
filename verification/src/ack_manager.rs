//! Sequence numbering of outgoing packets and the account of which of them
//! the peer has received.

use crate::packet_type::PacketType;
use crate::sequence::{
    sequence_greater_than, sequence_less_than, spec_sequence_before, spec_sequence_greater_than,
    spec_sequence_less_than, wrapped_distance,
};
use crate::standard_header::{spec_header_bytes, StandardHeader};
use vstd::prelude::*;

verus! {

/// The number of packets before the newest one that a header acknowledges
/// bit by bit.
pub const REDUNDANT_PACKET_ACKS_SIZE: u16 = 32;

/// What became of a packet that was sent.
#[derive(Clone, Copy, Debug, PartialEq, Eq, Structural)]
pub enum PacketNotice {
    /// The peer has received the packet with this sequence number.
    Delivered(u16),
    /// The packet with this sequence number is given up as lost.
    Dropped(u16),
}

impl PacketNotice {
    /// The sequence number of the packet that the notice is about.
    pub open spec fn spec_index(self) -> u16 {
        match self {
            PacketNotice::Delivered(index) => index,
            PacketNotice::Dropped(index) => index,
        }
    }

    /// The sequence number of the packet that the notice is about.
    pub fn packet_index(&self) -> (index: u16)
        ensures
            index == self.spec_index(),
    {
        match self {
            PacketNotice::Delivered(index) => *index,
            PacketNotice::Dropped(index) => *index,
        }
    }
}

/// A packet that went out and whose fate is not known yet.
#[derive(Clone, Copy, Debug, PartialEq, Eq, Structural)]
pub struct SentPacket {
    pub index: u16,
    pub packet_type: PacketType,
}

/// Whether bit `i` of `field` is set.
pub open spec fn spec_bit(field: u32, i: u32) -> bool {
    (field >> i) & 1 == 1
}

/// Whether a header with the fields `ack_seq` and `ack_field` says that the
/// peer received our packet `index`: it is `ack_seq` itself, or one of the 32
/// packets before it whose bit is set.
pub open spec fn spec_acked(ack_seq: u16, ack_field: u32, index: u16) -> bool {
    let back = wrapped_distance(ack_seq, index);
    back == 0 || (1 <= back <= 32 && spec_bit(ack_field, (back - 1) as u32))
}

/// Whether a header that acknowledges `ack_seq` leaves no hope for our packet
/// `index`: it is older than the packet 33 steps before `ack_seq`, so that no
/// later header can acknowledge it.
pub open spec fn spec_given_up(ack_seq: u16, index: u16) -> bool {
    spec_sequence_less_than(index, spec_sequence_before(ack_seq, 33))
}

/// The notices of delivery that a header gives for the packets in `sent`,
/// oldest packet first.
pub open spec fn spec_delivered(sent: Seq<SentPacket>, ack_seq: u16, ack_field: u32) -> Seq<
    PacketNotice,
>
    decreases sent.len(),
{
    if sent.len() == 0 {
        Seq::empty()
    } else {
        let before = spec_delivered(sent.drop_last(), ack_seq, ack_field);
        if spec_acked(ack_seq, ack_field, sent.last().index) {
            before.push(PacketNotice::Delivered(sent.last().index))
        } else {
            before
        }
    }
}

/// The notices of loss that a header gives for the packets in `sent`, oldest
/// packet first.
pub open spec fn spec_dropped(sent: Seq<SentPacket>, ack_seq: u16, ack_field: u32) -> Seq<
    PacketNotice,
>
    decreases sent.len(),
{
    if sent.len() == 0 {
        Seq::empty()
    } else {
        let before = spec_dropped(sent.drop_last(), ack_seq, ack_field);
        if !spec_acked(ack_seq, ack_field, sent.last().index) && spec_given_up(
            ack_seq,
            sent.last().index,
        ) {
            before.push(PacketNotice::Dropped(sent.last().index))
        } else {
            before
        }
    }
}

/// The packets of `sent` whose fate a header leaves open.
pub open spec fn spec_kept(sent: Seq<SentPacket>, ack_seq: u16, ack_field: u32) -> Seq<SentPacket>
    decreases sent.len(),
{
    if sent.len() == 0 {
        Seq::empty()
    } else {
        let before = spec_kept(sent.drop_last(), ack_seq, ack_field);
        if !spec_acked(ack_seq, ack_field, sent.last().index) && !spec_given_up(
            ack_seq,
            sent.last().index,
        ) {
            before.push(sent.last())
        } else {
            before
        }
    }
}

/// All notices that a header gives: deliveries first, then losses.
pub open spec fn spec_notices(sent: Seq<SentPacket>, ack_seq: u16, ack_field: u32) -> Seq<
    PacketNotice,
> {
    spec_delivered(sent, ack_seq, ack_field) + spec_dropped(sent, ack_seq, ack_field)
}

/// The acknowledgement bits after a packet `ahead` steps newer than the
/// newest so far has come in: every bit moves up by `ahead`, and the bit of
/// the packet that was the newest is set.
pub open spec fn spec_shift_in(field: u32, ahead: u16) -> u32 {
    if ahead == 0 {
        field
    } else if ahead > 32 {
        0
    } else if ahead == 32 {
        0x8000_0000
    } else {
        (field << (ahead as u32)) | (1u32 << ((ahead - 1) as u32))
    }
}

/// The acknowledgement bits after a packet `back` steps older than the newest
/// has come in: its bit is set if it has one.
pub open spec fn spec_mark_in(field: u32, back: u16) -> u32 {
    if 1 <= back <= 32 {
        field | (1u32 << ((back - 1) as u32))
    } else {
        field
    }
}

/// What an `AckManager` holds, as mathematics.
pub struct AckManagerView {
    /// The sequence number that the next outgoing packet gets.
    pub next_outgoing: u16,
    /// Whether any packet has come in from the peer.
    pub heard_any: bool,
    /// The newest sequence number received from the peer.
    pub last_remote: u16,
    /// Bit `i` says whether the packet `i + 1` steps before `last_remote` has
    /// been received.
    pub ack_bitfield: u32,
    /// The packets sent and neither acknowledged nor given up, oldest first.
    pub sent: Seq<SentPacket>,
}

/// Whether no sequence number is on the record `sent` twice.
pub open spec fn spec_no_index_twice(sent: Seq<SentPacket>) -> bool {
    forall|i: int, j: int|
        0 <= i < j < sent.len() ==> (#[trigger] sent[i]).index != (#[trigger] sent[j]).index
}

/// Whether a packet with the sequence number `index` is on the record
/// `sent`.
pub open spec fn spec_on_record(sent: Seq<SentPacket>, index: u16) -> bool {
    exists|i: int| 0 <= i < sent.len() && (#[trigger] sent[i]).index == index
}

impl AckManagerView {
    /// No sequence number is on record twice.
    pub open spec fn wf(self) -> bool {
        spec_no_index_twice(self.sent)
    }

    /// Whether a packet with the sequence number `index` awaits its fate.
    pub open spec fn in_flight(self, index: u16) -> bool {
        spec_on_record(self.sent, index)
    }

    /// Whether the receipt of the peer's packet `index` is on record: it is
    /// the newest one received, or one of the 32 before it whose bit is set.
    pub open spec fn received(self, index: u16) -> bool {
        self.heard_any && spec_acked(self.last_remote, self.ack_bitfield, index)
    }

    /// The state after a packet with the sequence number `index` came in.
    pub open spec fn heard(self, index: u16) -> Self {
        if !self.heard_any {
            AckManagerView { heard_any: true, last_remote: index, ack_bitfield: 0, ..self }
        } else if spec_sequence_greater_than(index, self.last_remote) {
            AckManagerView {
                last_remote: index,
                ack_bitfield: spec_shift_in(
                    self.ack_bitfield,
                    wrapped_distance(index, self.last_remote) as u16,
                ),
                ..self
            }
        } else {
            AckManagerView {
                ack_bitfield: spec_mark_in(
                    self.ack_bitfield,
                    wrapped_distance(self.last_remote, index) as u16,
                ),
                ..self
            }
        }
    }

    /// The state after a header came in: the receipt of its packet is noted,
    /// and the packets that it acknowledges or gives up leave the record.
    pub open spec fn process_incoming(self, header: StandardHeader) -> Self {
        AckManagerView {
            sent: spec_kept(
                self.sent,
                header.last_remote_packet_index,
                header.ack_field,
            ),
            ..self.heard(header.local_packet_index)
        }
    }

    /// The record without any packet of the sequence number `index`.
    pub open spec fn without(sent: Seq<SentPacket>, index: u16) -> Seq<SentPacket>
        decreases sent.len(),
    {
        if sent.len() == 0 {
            Seq::empty()
        } else if sent.last().index == index {
            Self::without(sent.drop_last(), index)
        } else {
            Self::without(sent.drop_last(), index).push(sent.last())
        }
    }

    /// The state after a packet of type `packet_type` went out under the next
    /// sequence number.
    pub open spec fn mark_sent(self, packet_type: PacketType) -> Self {
        AckManagerView {
            next_outgoing: spec_sequence_before(self.next_outgoing, -1),
            sent: Self::without(self.sent, self.next_outgoing).push(
                SentPacket { index: self.next_outgoing, packet_type },
            ),
            ..self
        }
    }

    /// The header that the next outgoing packet of type `packet_type` gets.
    pub open spec fn outgoing_header(self, packet_type: PacketType) -> StandardHeader {
        StandardHeader {
            p_type: packet_type,
            local_packet_index: self.next_outgoing,
            last_remote_packet_index: self.last_remote,
            ack_field: self.ack_bitfield,
        }
    }
}

/// Keeps the sequence number of the next outgoing packet, the record of what
/// came in from the peer, and the packets that went out and whose fate is open.
pub struct AckManager {
    next_outgoing: u16,
    heard_any: bool,
    last_remote: u16,
    ack_bitfield: u32,
    sent_packets: Vec<SentPacket>,
}

impl View for AckManager {
    type V = AckManagerView;

    closed spec fn view(&self) -> AckManagerView {
        AckManagerView {
            next_outgoing: self.next_outgoing,
            heard_any: self.heard_any,
            last_remote: self.last_remote,
            ack_bitfield: self.ack_bitfield,
            sent: self.sent_packets@,
        }
    }
}

fn is_acked(ack_seq: u16, ack_field: u32, index: u16) -> (acked: bool)
    ensures
        acked == spec_acked(ack_seq, ack_field, index),
{
    let back = ack_seq.wrapping_sub(index);
    if back == 0 {
        true
    } else if back <= REDUNDANT_PACKET_ACKS_SIZE {
        (ack_field >> ((back - 1) as u32)) & 1 == 1
    } else {
        false
    }
}

fn is_given_up(ack_seq: u16, index: u16) -> (given_up: bool)
    ensures
        given_up == spec_given_up(ack_seq, index),
{
    sequence_less_than(index, ack_seq.wrapping_sub(33))
}

fn shift_in(field: u32, ahead: u16) -> (shifted: u32)
    ensures
        shifted == spec_shift_in(field, ahead),
{
    if ahead == 0 {
        field
    } else if ahead > 32 {
        0
    } else if ahead == 32 {
        0x8000_0000
    } else {
        (field << (ahead as u32)) | (1u32 << ((ahead - 1) as u32))
    }
}

fn mark_in(field: u32, back: u16) -> (marked: u32)
    ensures
        marked == spec_mark_in(field, back),
{
    if 1 <= back && back <= 32 {
        field | (1u32 << ((back - 1) as u32))
    } else {
        field
    }
}

impl AckManager {
    /// An ack manager that has sent and received nothing. The first packet
    /// goes out under sequence number zero. Until a packet has come in, the
    /// headers acknowledge the sequence number before zero, which the peer
    /// does not send before it has sent all others.
    pub fn new() -> (manager: Self)
        ensures
            manager@.wf(),
            manager@ == (AckManagerView {
                next_outgoing: 0,
                heard_any: false,
                last_remote: 0xffff,
                ack_bitfield: 0,
                sent: Seq::empty(),
            }),
    {
        AckManager {
            next_outgoing: 0,
            heard_any: false,
            last_remote: 0xffff,
            ack_bitfield: 0,
            sent_packets: Vec::new(),
        }
    }

    /// The sequence number that the next outgoing packet gets. Asking does
    /// not use the number up.
    pub fn get_next_packet_index(&self) -> (index: u16)
        ensures
            index == self@.next_outgoing,
    {
        self.next_outgoing
    }

    /// The newest sequence number received from the peer.
    pub fn get_last_remote_packet_index(&self) -> (index: u16)
        ensures
            index == self@.last_remote,
    {
        self.last_remote
    }

    /// The acknowledgement bits that the next outgoing header carries.
    pub fn get_ack_bitfield(&self) -> (field: u32)
        ensures
            field == self@.ack_bitfield,
    {
        self.ack_bitfield
    }

    /// How many packets await their fate.
    pub fn packets_in_flight(&self) -> (number: usize)
        ensures
            number == self@.sent.len(),
    {
        self.sent_packets.len()
    }

    /// Takes in the header of a packet from the peer. Notes the receipt of
    /// that packet, and returns what the header tells of the packets sent:
    /// a notice of delivery for each that it acknowledges, then a notice of
    /// loss for each that it leaves no hope for. The packets noticed leave the
    /// record, so that none is noticed again.
    pub fn process_incoming(&mut self, header: &StandardHeader) -> (notices: Vec<PacketNotice>)
        ensures
            final(self)@ == old(self)@.process_incoming(*header),
            notices@ == spec_notices(
                old(self)@.sent,
                header.last_remote_packet_index,
                header.ack_field,
            ),
            old(self)@.wf() ==> final(self)@.wf(),
    {
        let remote_seq_num = header.local_packet_index();
        let ack_seq = header.last_remote_packet_index();
        let ack_field = header.ack_field();

        if !self.heard_any {
            self.heard_any = true;
            self.last_remote = remote_seq_num;
            self.ack_bitfield = 0;
        } else if sequence_greater_than(remote_seq_num, self.last_remote) {
            let ahead = remote_seq_num.wrapping_sub(self.last_remote);
            self.ack_bitfield = shift_in(self.ack_bitfield, ahead);
            self.last_remote = remote_seq_num;
        } else {
            let back = self.last_remote.wrapping_sub(remote_seq_num);
            self.ack_bitfield = mark_in(self.ack_bitfield, back);
        }

        let ghost sent = self.sent_packets@;
        let mut delivered: Vec<PacketNotice> = Vec::new();
        let mut dropped: Vec<PacketNotice> = Vec::new();
        let mut kept: Vec<SentPacket> = Vec::new();
        let mut i: usize = 0;
        while i < self.sent_packets.len()
            invariant
                i <= self.sent_packets.len(),
                self.sent_packets@ == sent,
                delivered@ == spec_delivered(sent.subrange(0, i as int), ack_seq, ack_field),
                dropped@ == spec_dropped(sent.subrange(0, i as int), ack_seq, ack_field),
                kept@ == spec_kept(sent.subrange(0, i as int), ack_seq, ack_field),
            decreases self.sent_packets.len() - i,
        {
            let packet = self.sent_packets[i];
            assert(sent.subrange(0, i + 1).drop_last() =~= sent.subrange(0, i as int));
            assert(sent.subrange(0, i + 1).last() == packet);
            if is_acked(ack_seq, ack_field, packet.index) {
                delivered.push(PacketNotice::Delivered(packet.index));
            } else if is_given_up(ack_seq, packet.index) {
                dropped.push(PacketNotice::Dropped(packet.index));
            } else {
                kept.push(packet);
            }
            i += 1;
        }
        assert(sent.subrange(0, i as int) =~= sent);
        self.sent_packets = kept;
        delivered.append(&mut dropped);
        proof {
            if old(self)@.wf() {
                lemma_kept_is_part(sent, ack_seq, ack_field);
            }
        }
        delivered
    }

    /// Records that a packet of type `packet_type` goes out under the next
    /// sequence number, and moves on to the number after it.
    pub fn mark_sent(&mut self, packet_type: PacketType)
        ensures
            final(self)@ == old(self)@.mark_sent(packet_type),
            old(self)@.wf() ==> final(self)@.wf(),
    {
        let index = self.next_outgoing;
        let ghost sent = self.sent_packets@;
        let mut kept: Vec<SentPacket> = Vec::new();
        let mut i: usize = 0;
        while i < self.sent_packets.len()
            invariant
                i <= self.sent_packets.len(),
                self.sent_packets@ == sent,
                kept@ == AckManagerView::without(sent.subrange(0, i as int), index),
            decreases self.sent_packets.len() - i,
        {
            let packet = self.sent_packets[i];
            assert(sent.subrange(0, i + 1).drop_last() =~= sent.subrange(0, i as int));
            assert(sent.subrange(0, i + 1).last() == packet);
            if packet.index != index {
                kept.push(packet);
            }
            i += 1;
        }
        assert(sent.subrange(0, i as int) =~= sent);
        kept.push(SentPacket { index, packet_type });
        self.sent_packets = kept;
        self.next_outgoing = index.wrapping_add(1);
        proof {
            if old(self)@.wf() {
                lemma_without_is_part(sent, index);
            }
        }
    }

    /// Puts the header of the next outgoing packet in front of `payload`,
    /// and records the packet as sent.
    pub fn process_outgoing(&mut self, packet_type: PacketType, payload: &[u8]) -> (packet: Vec<u8>)
        ensures
            packet@ == spec_header_bytes(old(self)@.outgoing_header(packet_type)) + payload@,
            final(self)@ == old(self)@.mark_sent(packet_type),
            spec_sequence_greater_than(final(self)@.next_outgoing, old(self)@.next_outgoing),
            old(self)@.wf() ==> final(self)@.wf(),
    {
        let header = StandardHeader::new(
            packet_type,
            self.next_outgoing,
            self.last_remote,
            self.ack_bitfield,
        );
        self.mark_sent(packet_type);
        header.write(payload)
    }
}

/// What a header leaves on record was on record before, in the same order:
/// each packet kept is one of `sent`, at a place that grows along the
/// record, and the header neither acknowledges it nor gives it up.
pub proof fn lemma_kept_is_part(sent: Seq<SentPacket>, ack_seq: u16, ack_field: u32)
    ensures
        ({
            let kept = spec_kept(sent, ack_seq, ack_field);
            &&& kept.len() <= sent.len()
            &&& forall|k: int|
                0 <= k < kept.len() ==> {
                    &&& !spec_acked(ack_seq, ack_field, (#[trigger] kept[k]).index)
                    &&& !spec_given_up(ack_seq, kept[k].index)
                    &&& sent.contains(kept[k])
                }
            &&& spec_no_index_twice(sent) ==> spec_no_index_twice(kept)
        }),
    decreases sent.len(),
{
    if sent.len() > 0 {
        let init = sent.drop_last();
        lemma_kept_is_part(init, ack_seq, ack_field);
        let kept = spec_kept(sent, ack_seq, ack_field);
        let before = spec_kept(init, ack_seq, ack_field);
        assert forall|k: int| 0 <= k < kept.len() implies sent.contains(#[trigger] kept[k]) by {
            if k < before.len() {
                assert(init.contains(before[k]));
                let p = choose|p: int| 0 <= p < init.len() && init[p] == before[k];
                assert(sent[p] == kept[k]);
            } else {
                assert(sent[sent.len() - 1] == kept[k]);
            }
        }
        if spec_no_index_twice(sent) {
            assert forall|i: int, j: int| 0 <= i < j < kept.len() implies (#[trigger] kept[i]).index
                != (#[trigger] kept[j]).index by {
                if j < before.len() {
                    assert(before[i].index != before[j].index);
                } else {
                    assert(init.contains(before[i]));
                    let p = choose|p: int| 0 <= p < init.len() && init[p] == before[i];
                    assert(sent[p].index != sent[sent.len() - 1].index);
                }
            }
        }
    }
}

/// Taking one sequence number off a record that holds none twice leaves a
/// record that holds none twice and that number not at all.
proof fn lemma_without_is_part(sent: Seq<SentPacket>, index: u16)
    requires
        spec_no_index_twice(sent),
    ensures
        ({
            let rest = AckManagerView::without(sent, index);
            &&& forall|k: int|
                0 <= k < rest.len() ==> (#[trigger] rest[k]).index != index && sent.contains(
                    rest[k],
                )
            &&& spec_no_index_twice(rest)
        }),
    decreases sent.len(),
{
    if sent.len() > 0 {
        let init = sent.drop_last();
        lemma_without_is_part(init, index);
        let rest = AckManagerView::without(sent, index);
        let before = AckManagerView::without(init, index);
        assert forall|k: int| 0 <= k < rest.len() implies sent.contains(#[trigger] rest[k]) by {
            if k < before.len() {
                assert(init.contains(before[k]));
                let p = choose|p: int| 0 <= p < init.len() && init[p] == before[k];
                assert(sent[p] == rest[k]);
            } else {
                assert(sent[sent.len() - 1] == rest[k]);
            }
        }
        assert forall|i: int, j: int| 0 <= i < j < rest.len() implies (#[trigger] rest[i]).index != (
        #[trigger] rest[j]).index by {
            if j < before.len() {
                assert(before[i].index != before[j].index);
            } else {
                assert(init.contains(before[i]));
                let p = choose|p: int| 0 <= p < init.len() && init[p] == before[i];
                assert(sent[p].index != sent[sent.len() - 1].index);
            }
        }
    }
}

/// Each notice of delivery is for a packet on record that the header
/// acknowledges, and no packet gets two of them.
proof fn lemma_delivered_is_part(sent: Seq<SentPacket>, ack_seq: u16, ack_field: u32)
    ensures
        ({
            let notices = spec_delivered(sent, ack_seq, ack_field);
            &&& forall|k: int|
                0 <= k < notices.len() ==> {
                    &&& (#[trigger] notices[k]) is Delivered
                    &&& spec_acked(ack_seq, ack_field, notices[k].spec_index())
                    &&& spec_on_record(sent, notices[k].spec_index())
                }
            &&& spec_no_index_twice(sent) ==> forall|i: int, j: int|
                0 <= i < j < notices.len() ==> (#[trigger] notices[i]).spec_index() != (
                #[trigger] notices[j]).spec_index()
        }),
    decreases sent.len(),
{
    if sent.len() > 0 {
        let init = sent.drop_last();
        lemma_delivered_is_part(init, ack_seq, ack_field);
        let notices = spec_delivered(sent, ack_seq, ack_field);
        let before = spec_delivered(init, ack_seq, ack_field);
        assert forall|k: int| 0 <= k < notices.len() implies spec_on_record(
            sent,
            (#[trigger] notices[k]).spec_index(),
        ) by {
            if k < before.len() {
                assert(spec_on_record(init, before[k].spec_index()));
                let p = choose|p: int|
                    0 <= p < init.len() && (#[trigger] init[p]).index == before[k].spec_index();
                assert(sent[p].index == notices[k].spec_index());
            } else {
                assert(sent[sent.len() - 1].index == notices[k].spec_index());
            }
        }
        if spec_no_index_twice(sent) {
            assert(spec_no_index_twice(init)) by {
                assert forall|i: int, j: int| 0 <= i < j < init.len() implies (
                #[trigger] init[i]).index != (#[trigger] init[j]).index by {
                    assert(sent[i].index != sent[j].index);
                }
            }
            assert forall|i: int, j: int| 0 <= i < j < notices.len() implies (
            #[trigger] notices[i]).spec_index() != (#[trigger] notices[j]).spec_index() by {
                if j >= before.len() {
                    assert(spec_on_record(init, before[i].spec_index()));
                    let p = choose|p: int|
                        0 <= p < init.len() && (#[trigger] init[p]).index == before[i].spec_index();
                    assert(sent[p].index != sent[sent.len() - 1].index);
                }
            }
        }
    }
}

/// Each notice of loss is for a packet on record that the header gives up
/// and does not acknowledge, and no packet gets two of them.
proof fn lemma_dropped_is_part(sent: Seq<SentPacket>, ack_seq: u16, ack_field: u32)
    ensures
        ({
            let notices = spec_dropped(sent, ack_seq, ack_field);
            &&& forall|k: int|
                0 <= k < notices.len() ==> {
                    &&& (#[trigger] notices[k]) is Dropped
                    &&& !spec_acked(ack_seq, ack_field, notices[k].spec_index())
                    &&& spec_given_up(ack_seq, notices[k].spec_index())
                    &&& spec_on_record(sent, notices[k].spec_index())
                }
            &&& spec_no_index_twice(sent) ==> forall|i: int, j: int|
                0 <= i < j < notices.len() ==> (#[trigger] notices[i]).spec_index() != (
                #[trigger] notices[j]).spec_index()
        }),
    decreases sent.len(),
{
    if sent.len() > 0 {
        let init = sent.drop_last();
        lemma_dropped_is_part(init, ack_seq, ack_field);
        let notices = spec_dropped(sent, ack_seq, ack_field);
        let before = spec_dropped(init, ack_seq, ack_field);
        assert forall|k: int| 0 <= k < notices.len() implies spec_on_record(
            sent,
            (#[trigger] notices[k]).spec_index(),
        ) by {
            if k < before.len() {
                assert(spec_on_record(init, before[k].spec_index()));
                let p = choose|p: int|
                    0 <= p < init.len() && (#[trigger] init[p]).index == before[k].spec_index();
                assert(sent[p].index == notices[k].spec_index());
            } else {
                assert(sent[sent.len() - 1].index == notices[k].spec_index());
            }
        }
        if spec_no_index_twice(sent) {
            assert(spec_no_index_twice(init)) by {
                assert forall|i: int, j: int| 0 <= i < j < init.len() implies (
                #[trigger] init[i]).index != (#[trigger] init[j]).index by {
                    assert(sent[i].index != sent[j].index);
                }
            }
            assert forall|i: int, j: int| 0 <= i < j < notices.len() implies (
            #[trigger] notices[i]).spec_index() != (#[trigger] notices[j]).spec_index() by {
                if j >= before.len() {
                    assert(spec_on_record(init, before[i].spec_index()));
                    let p = choose|p: int|
                        0 <= p < init.len() && (#[trigger] init[p]).index == before[i].spec_index();
                    assert(sent[p].index != sent[sent.len() - 1].index);
                }
            }
        }
    }
}

/// A header gives at most one notice for a packet, of delivery or of loss and
/// never of both. Each notice is for a packet that awaited its fate, and
/// that packet is off the record afterwards.
pub proof fn lemma_one_notice_per_packet(state: AckManagerView, header: StandardHeader)
    requires
        state.wf(),
    ensures
        ({
            let notices = spec_notices(
                state.sent,
                header.last_remote_packet_index,
                header.ack_field,
            );
            &&& forall|i: int, j: int|
                0 <= i < j < notices.len() ==> (#[trigger] notices[i]).spec_index() != (
                #[trigger] notices[j]).spec_index()
            &&& forall|k: int|
                0 <= k < notices.len() ==> {
                    &&& state.in_flight((#[trigger] notices[k]).spec_index())
                    &&& !state.process_incoming(header).in_flight(notices[k].spec_index())
                }
        }),
{
    let ack_seq = header.last_remote_packet_index;
    let ack_field = header.ack_field;
    let delivered = spec_delivered(state.sent, ack_seq, ack_field);
    let dropped = spec_dropped(state.sent, ack_seq, ack_field);
    let notices = spec_notices(state.sent, ack_seq, ack_field);
    lemma_delivered_is_part(state.sent, ack_seq, ack_field);
    lemma_dropped_is_part(state.sent, ack_seq, ack_field);
    lemma_kept_is_part(state.sent, ack_seq, ack_field);
    assert forall|i: int, j: int| 0 <= i < j < notices.len() implies (
    #[trigger] notices[i]).spec_index() != (#[trigger] notices[j]).spec_index() by {
        if j < delivered.len() {
            assert(delivered[i].spec_index() != delivered[j].spec_index());
        } else if i >= delivered.len() {
            assert(dropped[i - delivered.len()].spec_index() != dropped[j
                - delivered.len()].spec_index());
        } else {
            assert(spec_acked(ack_seq, ack_field, delivered[i].spec_index()));
            assert(!spec_acked(ack_seq, ack_field, dropped[j - delivered.len()].spec_index()));
        }
    }
    let after = state.process_incoming(header);
    assert forall|k: int| 0 <= k < notices.len() implies {
        &&& state.in_flight((#[trigger] notices[k]).spec_index())
        &&& !after.in_flight(notices[k].spec_index())
    } by {
        let index = notices[k].spec_index();
        if k < delivered.len() {
            assert(spec_on_record(state.sent, delivered[k].spec_index()));
        } else {
            assert(spec_on_record(state.sent, dropped[k - delivered.len()].spec_index()));
        }
        let p = choose|p: int| 0 <= p < state.sent.len() && (#[trigger] state.sent[p]).index == index;
        assert(state.sent[p].index == index);
        assert(spec_acked(ack_seq, ack_field, index) || spec_given_up(ack_seq, index));
        if after.in_flight(index) {
            let q = choose|q: int| 0 <= q < after.sent.len() && (#[trigger] after.sent[q]).index == index;
            assert(!spec_acked(ack_seq, ack_field, after.sent[q].index));
            assert(!spec_given_up(ack_seq, after.sent[q].index));
        }
    }
}

/// Over two headers in a row, no packet is noticed by both: what the first
/// header reported delivered or lost, the second is silent about.
pub proof fn lemma_no_notice_twice(
    state: AckManagerView,
    first: StandardHeader,
    second: StandardHeader,
)
    requires
        state.wf(),
    ensures
        ({
            let earlier = spec_notices(
                state.sent,
                first.last_remote_packet_index,
                first.ack_field,
            );
            let later = spec_notices(
                state.process_incoming(first).sent,
                second.last_remote_packet_index,
                second.ack_field,
            );
            forall|i: int, j: int|
                0 <= i < earlier.len() && 0 <= j < later.len() ==> (
                #[trigger] earlier[i]).spec_index() != (#[trigger] later[j]).spec_index()
        }),
{
    let between = state.process_incoming(first);
    lemma_kept_is_part(state.sent, first.last_remote_packet_index, first.ack_field);
    assert(between.wf());
    lemma_one_notice_per_packet(state, first);
    lemma_one_notice_per_packet(between, second);
}

/// Moving the bits up by `ahead` and setting the bit of the former newest
/// packet puts every receipt `ahead` places further back.
proof fn lemma_bit_after_shift(field: u32, ahead: u32, place: u32)
    requires
        1 <= ahead < 32,
        place < 32,
    ensures
        spec_bit(((field << ahead) | (1u32 << ((ahead - 1) as u32))), place) == (place == ahead - 1
            || (place >= ahead && spec_bit(field, (place - ahead) as u32))),
{
    let back = (ahead - 1) as u32;
    if place >= ahead {
        let from = (place - ahead) as u32;
        assert((((field << ahead) | (1u32 << back)) >> place) & 1 == (field >> from) & 1)
            by (bit_vector)
            requires
                1 <= ahead < 32,
                ahead <= place < 32,
                back == ahead - 1,
                from == place - ahead,
        ;
    } else if place == back {
        assert((((field << ahead) | (1u32 << back)) >> place) & 1 == 1) by (bit_vector)
            requires
                1 <= ahead < 32,
                back == ahead - 1,
                place == back,
        ;
    } else {
        assert((((field << ahead) | (1u32 << back)) >> place) & 1 == 0) by (bit_vector)
            requires
                1 <= ahead < 32,
                back == ahead - 1,
                place < back,
        ;
    }
}

/// Setting one bit leaves the others as they are.
proof fn lemma_bit_after_mark(field: u32, marked: u32, place: u32)
    requires
        marked < 32,
        place < 32,
    ensures
        spec_bit(field | (1u32 << marked), place) == (place == marked || spec_bit(field, place)),
{
    if place == marked {
        assert(((field | (1u32 << marked)) >> place) & 1 == 1) by (bit_vector)
            requires
                marked < 32,
                place == marked,
        ;
    } else {
        assert(((field | (1u32 << marked)) >> place) & 1 == (field >> place) & 1) by (bit_vector)
            requires
                marked < 32,
                place < 32,
                place != marked,
        ;
    }
}

/// What the acknowledgement fields mean. After a packet `index` of the peer
/// came in, the receipts on record are these: that of `index`, and those
/// that were on record before; each as far as it lies within the newest
/// packet received and the 32 before it.
pub proof fn lemma_receipts_are_kept(state: AckManagerView, index: u16, other: u16)
    ensures
        state.heard(index).received(other) <==> ((other == index || state.received(other))
            && wrapped_distance(state.heard(index).last_remote, other) <= 32),
{
    let after = state.heard(index);
    let back = wrapped_distance(after.last_remote, other);
    if !state.heard_any {
        assert(!spec_bit(0, (back - 1) as u32)) by {
            let place = (back - 1) as u32;
            assert((0u32 >> place) & 1 == 0) by (bit_vector);
        }
    } else if spec_sequence_greater_than(index, state.last_remote) {
        let ahead = wrapped_distance(index, state.last_remote);
        let before = wrapped_distance(state.last_remote, other);
        if 1 <= back <= 32 {
            let place = (back - 1) as u32;
            if ahead > 32 {
                assert((0u32 >> place) & 1 == 0) by (bit_vector);
            } else if ahead == 32 {
                assert(((0x8000_0000u32 >> place) & 1 == 1) == (place == 31)) by (bit_vector)
                    requires
                        place < 32,
                ;
            } else {
                lemma_bit_after_shift(state.ack_bitfield, ahead as u32, place);
            }
        }
    } else {
        let marked = wrapped_distance(state.last_remote, index);
        if 1 <= marked <= 32 && 1 <= back <= 32 {
            lemma_bit_after_mark(state.ack_bitfield, (marked - 1) as u32, (back - 1) as u32);
        }
    }
}

} // verus!
