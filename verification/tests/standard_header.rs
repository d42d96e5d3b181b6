use byteorder::{BigEndian, ByteOrder};
use naia::packet_reader::PacketReader;
use naia::packet_type::{ManagerType, PacketType};
use naia::standard_header::{peek_packet_type, write_connectionless_payload, StandardHeader};

#[test]
fn header_is_nine_bytes_big_endian() {
    let header = StandardHeader::new(PacketType::Data, 0x0102, 0x0304, 0x0506_0708);
    let packet = header.write(&[0xaa, 0xbb]);
    assert_eq!(packet, vec![4, 1, 2, 3, 4, 5, 6, 7, 8, 0xaa, 0xbb]);
    assert_eq!(StandardHeader::bytes_number(), 9);
}

#[test]
fn header_fields_agree_with_byteorder() {
    let header = StandardHeader::new(PacketType::Heartbeat, 0xbeef, 0x1234, 0xdead_beef);
    let packet = header.write(&[]);
    assert_eq!(BigEndian::read_u16(&packet[1..3]), 0xbeef);
    assert_eq!(BigEndian::read_u16(&packet[3..5]), 0x1234);
    assert_eq!(BigEndian::read_u32(&packet[5..9]), 0xdead_beef);
}

#[test]
fn header_round_trip() {
    let header = StandardHeader::new(PacketType::Data, 65535, 0, 0x8000_0001);
    let packet = header.write(&[9, 8, 7]);
    let (read, payload) = StandardHeader::read(&packet).unwrap();
    assert_eq!(read, header);
    assert_eq!(read.packet_type(), PacketType::Data);
    assert_eq!(read.local_packet_index(), 65535);
    assert_eq!(read.last_remote_packet_index(), 0);
    assert_eq!(read.ack_field(), 0x8000_0001);
    assert_eq!(payload, vec![9, 8, 7]);
}

#[test]
fn short_or_unknown_header_is_refused() {
    assert!(StandardHeader::read(&[4, 0, 0, 0, 0, 0, 0, 0]).is_none());
    assert!(StandardHeader::read(&[]).is_none());
    assert!(StandardHeader::read(&[9, 0, 0, 0, 0, 0, 0, 0, 0]).is_none());
    assert!(StandardHeader::read(&[255, 0, 0, 0, 0, 0, 0, 0, 0, 1]).is_none());
    let (header, payload) = StandardHeader::read(&[8, 0, 0, 0, 0, 0, 0, 0, 0]).unwrap();
    assert_eq!(header.packet_type(), PacketType::Disconnect);
    assert!(payload.is_empty());
}

#[test]
fn packet_type_bytes() {
    let all = [
        PacketType::ClientChallengeRequest,
        PacketType::ServerChallengeResponse,
        PacketType::ClientConnectRequest,
        PacketType::ServerConnectResponse,
        PacketType::Data,
        PacketType::Heartbeat,
        PacketType::Ping,
        PacketType::Pong,
        PacketType::Disconnect,
    ];
    for (byte, packet_type) in all.iter().enumerate() {
        assert_eq!(packet_type.to_u8(), byte as u8);
        assert_eq!(PacketType::from_u8(byte as u8), Some(*packet_type));
        assert_eq!(packet_type.is_connectionless(), byte < 4);
    }
    assert_eq!(PacketType::from_u8(9), None);
}

#[test]
fn manager_type_bytes() {
    assert_eq!(ManagerType::from_u8(0), Some(ManagerType::Event));
    assert_eq!(ManagerType::from_u8(1), Some(ManagerType::Entity));
    assert_eq!(ManagerType::from_u8(2), Some(ManagerType::Ping));
    assert_eq!(ManagerType::from_u8(3), None);
    assert_eq!(ManagerType::Ping.to_u8(), 2);
}

#[test]
fn connectionless_framing_is_type_then_payload() {
    let packet = write_connectionless_payload(PacketType::ClientChallengeRequest, &[1, 2, 3]);
    assert_eq!(packet, vec![0, 1, 2, 3]);
    assert_eq!(peek_packet_type(&packet), Some(PacketType::ClientChallengeRequest));
    assert_eq!(peek_packet_type(&[]), None);
    assert_eq!(peek_packet_type(&[77]), None);
}

#[test]
fn reader_reads_big_endian_and_stops_at_the_end() {
    let data = [0x12u8, 0x34, 0x56, 0x78, 0x9a, 0xbc, 0xde, 0xf0, 0x11, 0x22, 0x33];
    let mut reader = PacketReader::new(&data);
    assert_eq!(reader.read_u8(), Some(0x12));
    assert_eq!(reader.read_u16(), Some(0x3456));
    assert_eq!(reader.get_position(), 3);
    assert_eq!(reader.read_u64(), Some(0x789a_bcde_f011_2233));
    assert!(!reader.has_more());
    assert_eq!(reader.read_u8(), None);
    assert_eq!(reader.get_position(), 11);
    reader.set_position(7);
    assert_eq!(reader.read_u32(), Some(0xf011_2233));
    reader.set_position(8);
    assert_eq!(reader.read_u32(), None);
    assert_eq!(reader.get_position(), 8);
    assert_eq!(reader.read_bytes(4), None);
    assert_eq!(reader.read_bytes(3), Some(vec![0x11, 0x22, 0x33]));
    reader.set_position(100);
    assert_eq!(reader.read_u8(), None);
    assert_eq!(reader.read_bytes(0), None);
    assert_eq!(reader.get_buffer(), &data);
}
