use naia::ack_manager::{AckManager, PacketNotice};
use naia::packet_type::PacketType;
use naia::standard_header::StandardHeader;

fn send(manager: &mut AckManager, count: usize) {
    for _ in 0..count {
        manager.mark_sent(PacketType::Data);
    }
}

fn header(seq: u16, ack_seq: u16, ack_field: u32) -> StandardHeader {
    StandardHeader::new(PacketType::Data, seq, ack_seq, ack_field)
}

#[test]
fn sequence_numbers_count_up_from_zero() {
    let mut manager = AckManager::new();
    assert_eq!(manager.get_next_packet_index(), 0);
    assert_eq!(manager.get_next_packet_index(), 0);
    manager.mark_sent(PacketType::Data);
    assert_eq!(manager.get_next_packet_index(), 1);
    assert_eq!(manager.packets_in_flight(), 1);
}

#[test]
fn outgoing_packet_carries_header_and_payload() {
    let mut manager = AckManager::new();
    manager.process_incoming(&header(5, 0, 0));
    manager.process_incoming(&header(7, 0, 0));
    let packet = manager.process_outgoing(PacketType::Data, &[0xab]);
    // type, seq 0, last remote 7, bits: 5 is two before 7
    assert_eq!(packet, vec![4, 0, 0, 0, 7, 0, 0, 0, 0b10, 0xab]);
    assert_eq!(manager.get_next_packet_index(), 1);
}

#[test]
fn acked_sequence_and_set_bits_are_delivered() {
    let mut manager = AckManager::new();
    send(&mut manager, 5);
    // ack 4, bits for 3 and 1
    let notices = manager.process_incoming(&header(0, 4, 0b101));
    assert_eq!(
        notices,
        vec![PacketNotice::Delivered(1), PacketNotice::Delivered(3), PacketNotice::Delivered(4)]
    );
    assert_eq!(manager.packets_in_flight(), 2);
}

#[test]
fn unset_bit_inside_the_window_is_neither_delivered_nor_dropped() {
    let mut manager = AckManager::new();
    send(&mut manager, 34);
    // ack 33 with no bits: 1..=32 are inside the window, 0 is 33 before
    let notices = manager.process_incoming(&header(0, 33, 0));
    assert_eq!(notices, vec![PacketNotice::Delivered(33)]);
    assert_eq!(manager.packets_in_flight(), 33);
}

#[test]
fn packet_older_than_the_window_is_dropped() {
    let mut manager = AckManager::new();
    send(&mut manager, 36);
    // ack 35: 35 - 33 = 2, so 0 and 1 are given up, 2 is not yet
    let notices = manager.process_incoming(&header(0, 35, 0xffff_ffff));
    let dropped: Vec<&PacketNotice> =
        notices.iter().filter(|notice| matches!(notice, PacketNotice::Dropped(_))).collect();
    assert_eq!(dropped, vec![&PacketNotice::Dropped(0), &PacketNotice::Dropped(1)]);
    assert!(notices.contains(&PacketNotice::Delivered(3)));
    assert!(notices.contains(&PacketNotice::Delivered(35)));
    assert!(!notices.iter().any(|notice| notice.packet_index() == 2));
    // deliveries come first
    let first_drop = notices.iter().position(|n| matches!(n, PacketNotice::Dropped(_))).unwrap();
    assert!(notices[..first_drop].iter().all(|n| matches!(n, PacketNotice::Delivered(_))));
    assert_eq!(manager.packets_in_flight(), 1);
}

#[test]
fn no_packet_is_noticed_twice() {
    let mut manager = AckManager::new();
    send(&mut manager, 40);
    let mut seen: Vec<u16> = Vec::new();
    for h in [
        header(0, 3, 0b111),
        header(1, 3, 0b111),
        header(2, 20, 0),
        header(3, 39, 0xffff_ffff),
        header(4, 39, 0xffff_ffff),
    ] {
        for notice in manager.process_incoming(&h) {
            assert!(!seen.contains(&notice.packet_index()));
            seen.push(notice.packet_index());
        }
    }
    // 6 is 33 before 39: outside the bits, and not yet older than 39 - 33
    assert_eq!(seen.len(), 39);
    assert!(!seen.contains(&6));
    assert_eq!(manager.packets_in_flight(), 1);
    let last = manager.process_incoming(&header(5, 40, 0));
    assert_eq!(last, vec![PacketNotice::Dropped(6)]);
}

#[test]
fn receipts_shift_into_the_bitfield() {
    let mut manager = AckManager::new();
    manager.process_incoming(&header(10, 0, 0));
    assert_eq!(manager.get_last_remote_packet_index(), 10);
    assert_eq!(manager.get_ack_bitfield(), 0);
    manager.process_incoming(&header(11, 0, 0));
    assert_eq!(manager.get_ack_bitfield(), 0b1);
    manager.process_incoming(&header(14, 0, 0));
    // 13 and 12 missing, 11 and 10 received
    assert_eq!(manager.get_ack_bitfield(), 0b1100);
    manager.process_incoming(&header(12, 0, 0));
    assert_eq!(manager.get_last_remote_packet_index(), 14);
    assert_eq!(manager.get_ack_bitfield(), 0b1110);
    // a duplicate changes nothing
    manager.process_incoming(&header(12, 0, 0));
    manager.process_incoming(&header(14, 0, 0));
    assert_eq!(manager.get_ack_bitfield(), 0b1110);
    // a jump of 32 keeps only the bit of the former newest
    manager.process_incoming(&header(46, 0, 0));
    assert_eq!(manager.get_ack_bitfield(), 0x8000_0000);
    // a jump beyond the window forgets everything
    manager.process_incoming(&header(146, 0, 0));
    assert_eq!(manager.get_ack_bitfield(), 0);
}

#[test]
fn receipts_wrap_around() {
    let mut manager = AckManager::new();
    manager.process_incoming(&header(0xffff, 0, 0));
    manager.process_incoming(&header(1, 0, 0));
    assert_eq!(manager.get_last_remote_packet_index(), 1);
    assert_eq!(manager.get_ack_bitfield(), 0b10);
    manager.process_incoming(&header(0, 0, 0));
    assert_eq!(manager.get_ack_bitfield(), 0b11);
}

#[test]
fn acks_wrap_around() {
    let mut manager = AckManager::new();
    for _ in 0..0xffffu32 {
        manager.mark_sent(PacketType::Heartbeat);
        let index = manager.get_next_packet_index().wrapping_sub(1);
        manager.process_incoming(&header(0, index, 0));
    }
    assert_eq!(manager.get_next_packet_index(), 0xffff);
    send(&mut manager, 3);
    assert_eq!(manager.get_next_packet_index(), 2);
    // ack 1 and, by the bits, 0xffff; 0 stays open
    let notices = manager.process_incoming(&header(0, 1, 0b10));
    assert_eq!(notices, vec![PacketNotice::Delivered(0xffff), PacketNotice::Delivered(1)]);
    assert_eq!(manager.packets_in_flight(), 1);
}
