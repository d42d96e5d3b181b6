use naia::client_tick_manager::ClientTickManager;
use naia::connection::Connection;
use naia::connection_config::ConnectionConfig;
use naia::entities::client_entity_manager::ClientEntityManager;
use naia::entities::client_entity_message::ClientEntityMessage;
use naia::entities::entity_type::EntityType;
use naia::events::event_type::EventType;
use naia::example::{
    manifest_load, ExampleType, KeyEvent, PointEntity, StringEvent, KEY_EVENT_TYPE,
    POINT_ENTITY_TYPE, STRING_EVENT_TYPE,
};
use naia::interpolation_manager::InterpolationManager;
use naia::manifest::Manifest;
use naia::packet_reader::PacketReader;
use naia::packet_type::PacketType;
use naia::packet_writer::PacketWriter;
use naia::ping_manager::PingManager;
use naia::standard_header::StandardHeader;
use naia::timer::Timer;

fn chat(message: &str) -> ExampleType {
    ExampleType::StringEvent(StringEvent::new(message))
}

#[test]
fn connection_config_defaults() {
    let config = ConnectionConfig::default();
    assert_eq!(config.disconnection_timeout_duration, 10_000);
    assert_eq!(config.heartbeat_interval, 4_000);
    assert_eq!(config.ping_interval, 1_000);
    assert_eq!(config.ping_sample_size, 20);
    let config = ConnectionConfig::new(1, 2, 3, 4);
    assert_eq!(config.disconnection_timeout_duration, 1);
    assert_eq!(config.heartbeat_interval, 2);
    assert_eq!(config.ping_interval, 3);
    assert_eq!(config.ping_sample_size, 4);
}

#[test]
fn manifest_gives_ids_in_order_of_registration() {
    let mut manifest: Manifest<ExampleType, PointEntity> = Manifest::new();
    assert_eq!(manifest.get_event_naia_id(40), None);
    assert_eq!(manifest.register_event(40), 0);
    assert_eq!(manifest.register_event(30), 1);
    assert_eq!(manifest.register_event(40), 0);
    assert_eq!(manifest.register_entity(40), 0);
    assert_eq!(manifest.get_event_naia_id(30), Some(1));
    assert_eq!(manifest.get_event_naia_id(31), None);
    assert_eq!(manifest.get_entity_naia_id(40), Some(0));
    assert_eq!(manifest.get_entity_naia_id(30), None);
}

#[test]
fn manifest_creates_what_was_written() {
    let manifest = manifest_load();
    assert_eq!(manifest.get_event_naia_id(STRING_EVENT_TYPE), Some(0));
    assert_eq!(manifest.get_event_naia_id(KEY_EVENT_TYPE), Some(1));
    assert_eq!(manifest.get_entity_naia_id(POINT_ENTITY_TYPE), Some(0));
    let event = chat("round");
    let mut bytes = Vec::new();
    event.write(&mut bytes);
    let id = manifest.get_event_naia_id(event.get_type_id()).unwrap();
    match manifest.create_event(id, &bytes) {
        Some(ExampleType::StringEvent(built)) => assert_eq!(built.get_message(), &b"round".to_vec()),
        _ => panic!("not built"),
    }
    assert!(manifest.create_event(2, &bytes).is_none());
    assert!(manifest.create_event(1, &bytes).is_none());
    assert!(matches!(
        manifest.create_event(1, &[7]),
        Some(ExampleType::KeyEvent(KeyEvent { key: 7 }))
    ));
    let point = PointEntity::new(258, 3);
    let mut state = Vec::new();
    point.write(&mut state);
    assert_eq!(state, vec![1, 2, 0, 3]);
    let built = manifest.create_entity(0, &state).unwrap();
    assert!(built.equals(&point));
    assert!(manifest.create_entity(1, &state).is_none());
    assert!(manifest.create_entity(0, &[1, 2, 3]).is_none());
}

#[test]
fn timer_rings_after_its_interval() {
    let mut timer = Timer::new(100, 1_000);
    assert!(!timer.ringing(1_000));
    assert!(!timer.ringing(1_099));
    assert!(timer.ringing(1_100));
    timer.reset(1_100);
    assert!(!timer.ringing(1_199));
    assert!(timer.ringing(1_200));
    timer.ring_manual();
    assert!(timer.ringing(0));
    let late = Timer::new(10, u64::MAX - 3);
    assert!(!late.ringing(u64::MAX - 1));
    assert!(late.ringing(u64::MAX));
}

#[test]
fn tick_follows_the_clock_and_the_server() {
    let mut ticks = ClientTickManager::new(50, 1_000);
    assert_eq!(ticks.get_tick(), 0);
    ticks.update_frame(1_049);
    assert_eq!(ticks.get_tick(), 0);
    ticks.update_frame(1_050);
    assert_eq!(ticks.get_tick(), 1);
    ticks.update_frame(1_260);
    assert_eq!(ticks.get_tick(), 5);
    ticks.update_frame(1_299);
    assert_eq!(ticks.get_tick(), 5);
    ticks.update_frame(1_300);
    assert_eq!(ticks.get_tick(), 6);
    ticks.set_tick(0xffff);
    ticks.update_frame(1_350);
    assert_eq!(ticks.get_tick(), 0);
    ticks.update_frame(900);
    assert_eq!(ticks.get_tick(), 0);
    let mut still = ClientTickManager::new(0, 0);
    still.update_frame(1_000_000);
    assert_eq!(still.get_tick(), 0);
}

#[test]
fn writer_frames_the_event_block() {
    let manifest = manifest_load();
    let mut writer = PacketWriter::new();
    assert!(!writer.has_bytes());
    assert!(writer.write_event(&manifest, &chat("hi")));
    assert!(writer.write_event(&manifest, &ExampleType::KeyEvent(KeyEvent { key: 4 })));
    assert!(writer.has_bytes());
    assert_eq!(writer.get_bytes(), vec![0, 2, 0, 0, 2, b'h', b'i', 0, 1, 1, 4]);
    assert!(!writer.has_bytes());
    assert_eq!(writer.get_bytes(), Vec::<u8>::new());
}

#[test]
fn writer_keeps_to_the_packet_budget() {
    let manifest = manifest_load();
    let mut writer = PacketWriter::new();
    let big = chat(&"x".repeat(200));
    // each takes 203 bytes; the block header takes two
    assert!(writer.write_event(&manifest, &big));
    assert!(writer.write_event(&manifest, &big));
    assert!(!writer.write_event(&manifest, &big));
    // 499 - 2 - 406 = 91 bytes are left: 88 of payload fit, 89 do not
    assert!(!writer.write_event(&manifest, &chat(&"y".repeat(89))));
    assert!(writer.write_event(&manifest, &chat(&"y".repeat(88))));
    assert!(!writer.write_event(&manifest, &ExampleType::KeyEvent(KeyEvent { key: 1 })));
    assert_eq!(writer.get_bytes().len(), 499);
}

#[test]
fn writer_refuses_what_cannot_be_encoded() {
    let manifest = manifest_load();
    let mut writer = PacketWriter::new();
    assert!(!writer.write_event(&manifest, &chat(&"x".repeat(256))));
    let empty: Manifest<ExampleType, PointEntity> = Manifest::new();
    assert!(!writer.write_event(&empty, &chat("a")));
    assert!(!writer.has_bytes());
}

#[test]
fn writer_counts_at_most_255_events() {
    let manifest = manifest_load();
    let mut writer = PacketWriter::new();
    let smallest = chat("");
    for _ in 0..165 {
        assert!(writer.write_event(&manifest, &smallest));
    }
    // 2 + 165 * 3 = 497 bytes: the next one would make 500
    assert!(!writer.write_event(&manifest, &smallest));
    let bytes = writer.get_bytes();
    assert_eq!(bytes.len(), 497);
    assert_eq!(bytes[1], 165);
}

#[test]
fn ping_block_is_tag_kind_timestamp() {
    let mut writer = PacketWriter::new();
    assert!(writer.write_ping(1, 0x0102_0304_0506_0708));
    assert_eq!(writer.get_bytes(), vec![2, 1, 1, 2, 3, 4, 5, 6, 7, 8]);
}

#[test]
fn ping_measures_round_trips() {
    let mut us = PingManager::new(1_000, 3, 0);
    let mut them = PingManager::new(1_000, 3, 0);
    let mut expected: Vec<u64> = Vec::new();
    for (sent, back) in [(10u64, 110u64), (2_000, 2_040), (4_000, 4_190), (6_000, 6_030)] {
        assert!(us.should_write(sent));
        let mut writer = PacketWriter::new();
        us.write_data(&mut writer, sent);
        assert!(!us.should_write(sent + 1));
        let ping = writer.get_bytes();
        assert_eq!(ping[..2], [2, 0]);
        let mut reader = PacketReader::new(&ping[1..]);
        them.read_data(&mut reader, sent + 5);
        assert!(!reader.has_more());
        let mut writer = PacketWriter::new();
        them.write_data(&mut writer, sent + 5);
        let answer = writer.get_bytes();
        // the answer comes first, then their own ping if one is due
        assert_eq!(answer[..2], [2, 1]);
        let mut reader = PacketReader::new(&answer[1..10]);
        us.read_data(&mut reader, back);
        expected.push(back - sent);
        if expected.len() > 3 {
            expected.remove(0);
        }
        let mean = expected.iter().sum::<u64>() / expected.len() as u64;
        assert_eq!(us.get_rtt(), mean);
    }
    // the window holds 40, 190, 30: mean 86, deviations 46, 104, 56
    assert_eq!(us.get_rtt(), 86);
    assert_eq!(us.get_jitter(), 68);
}

#[test]
fn ping_is_due_again_after_the_interval() {
    let mut ping = PingManager::new(1_000, 5, 0);
    assert_eq!(ping.get_rtt(), 0);
    assert_eq!(ping.get_jitter(), 0);
    let mut writer = PacketWriter::new();
    ping.write_data(&mut writer, 100);
    assert!(!ping.should_write(1_099));
    assert!(ping.should_write(1_100));
    // a block cut short leaves the reader at the end
    let short = [0u8, 1, 2];
    let mut reader = PacketReader::new(&short);
    ping.read_data(&mut reader, 500);
    assert!(!reader.has_more());
    let unknown = [7u8, 0, 0, 0, 0, 0, 0, 0, 1, 5];
    let mut reader = PacketReader::new(&unknown);
    ping.read_data(&mut reader, 500);
    assert!(!reader.has_more());
    assert_eq!(ping.get_rtt(), 0);
    assert!(!ping.should_write(600));
    // a pong ends the wait and gives the time since the timestamp it returns
    let pong = [1u8, 0, 0, 0, 0, 0, 0, 0, 100];
    let mut reader = PacketReader::new(&pong);
    ping.read_data(&mut reader, 530);
    assert_eq!(ping.get_rtt(), 430);
    assert!(ping.should_write(600));
    // a timestamp from the future counts as no time at all
    let early = [1u8, 0, 0, 0, 0, 0, 0, 3, 0];
    ping.read_data(&mut PacketReader::new(&early), 530);
    assert_eq!(ping.get_rtt(), 215);
    assert_eq!(ping.get_jitter(), 215);
}

#[test]
fn heartbeat_is_due_after_silence_and_only_without_traffic() {
    let config = ConnectionConfig::new(10_000, 4_000, 1_000, 20);
    let mut connection: Connection<ExampleType> = Connection::new(&config, 0);
    assert!(!connection.should_send_heartbeat(3_999));
    assert!(connection.should_send_heartbeat(4_000));
    connection.mark_sent(4_000);
    assert!(!connection.should_send_heartbeat(7_999));
    assert!(connection.should_send_heartbeat(8_000));
    connection.queue_event(chat("pending"));
    assert!(!connection.should_send_heartbeat(8_000));
}

#[test]
fn heartbeat_keeps_the_peer_from_dropping() {
    let config = ConnectionConfig::new(10_000, 4_000, 1_000, 20);
    let mut client: Connection<ExampleType> = Connection::new(&config, 0);
    let mut server: Connection<ExampleType> = Connection::new(&config, 0);
    let mut now = 0;
    while now < 30_000 {
        now += 100;
        if client.should_send_heartbeat(now) {
            let packet = client.process_outgoing_header(PacketType::Heartbeat, &[]);
            client.mark_sent(now);
            let (header, payload) = StandardHeader::read(&packet).unwrap();
            assert_eq!(header.packet_type(), PacketType::Heartbeat);
            assert!(payload.is_empty());
            server.mark_heard(now);
            server.process_incoming_header(&header);
        }
        assert!(!server.should_drop(now));
    }
    assert!(client.get_next_packet_index() >= 7);
}

#[test]
fn silence_drops_the_peer() {
    let config = ConnectionConfig::new(10_000, 4_000, 1_000, 20);
    let mut connection: Connection<ExampleType> = Connection::new(&config, 500);
    assert!(!connection.should_drop(10_499));
    assert!(connection.should_drop(10_500));
    connection.mark_heard(10_400);
    assert!(!connection.should_drop(10_500));
    assert!(!connection.should_drop(20_399));
    assert!(connection.should_drop(20_400));
}

#[test]
fn connection_requeues_guaranteed_events_of_a_dropped_packet() {
    let config = ConnectionConfig::default();
    let mut connection: Connection<ExampleType> = Connection::new(&config, 0);
    connection.queue_event(chat("keep"));
    connection.queue_event(ExampleType::KeyEvent(KeyEvent { key: 1 }));
    let index = connection.get_next_packet_index();
    assert!(connection.pop_outgoing_event(index).is_some());
    assert!(connection.pop_outgoing_event(index).is_some());
    connection.process_outgoing_header(PacketType::Data, &[]);
    for _ in 0..34 {
        connection.process_outgoing_header(PacketType::Heartbeat, &[]);
    }
    assert!(!connection.has_outgoing_events());
    // the peer has 34 and the 32 before it, not 0 and 1
    let header = StandardHeader::new(PacketType::Heartbeat, 0, 34, 0xffff_ffff);
    connection.process_incoming_header(&header);
    assert!(connection.has_outgoing_events());
    let again = connection.pop_outgoing_event(35).unwrap();
    assert!(matches!(&*again, ExampleType::StringEvent(e) if e.get_message() == &b"keep".to_vec()));
    assert!(connection.pop_outgoing_event(35).is_none());
}

fn entity_block(messages: &[&[u8]]) -> Vec<u8> {
    let mut block = vec![messages.len() as u8];
    for message in messages {
        block.extend_from_slice(message);
    }
    block
}

#[test]
fn entity_stream_creates_updates_and_deletes() {
    let manifest = manifest_load();
    let mut entities: ClientEntityManager<PointEntity> = ClientEntityManager::new();
    let block = entity_block(&[
        &[0, 0, 9, 0, 0, 4, 0, 1, 0, 2],
        &[1, 0, 9, 3, 1, 0, 50],
        &[1, 0, 8, 3, 2, 0, 60],
        &[0, 0, 8, 0, 5, 4, 0, 1, 0, 2],
        &[2, 0, 7],
    ]);
    let mut reader = PacketReader::new(&block);
    entities.process_data(&mut reader, &manifest);
    assert!(!reader.has_more());
    let point = entities.get_local_entity(9).unwrap();
    assert_eq!((point.x, point.y), (50, 2));
    assert!(entities.get_local_entity(8).is_none());
    assert_eq!(entities.pop_incoming_message(), Some(ClientEntityMessage::Create(9)));
    assert_eq!(entities.pop_incoming_message(), Some(ClientEntityMessage::Update(9)));
    assert_eq!(entities.pop_incoming_message(), None);

    let block = entity_block(&[&[1, 0, 9, 2, 1, 1], &[2, 0, 9], &[1, 0, 9, 3, 2, 0, 60]]);
    let mut reader = PacketReader::new(&block);
    entities.process_data(&mut reader, &manifest);
    assert!(entities.get_local_entity(9).is_none());
    assert_eq!(entities.pop_incoming_message(), Some(ClientEntityMessage::Delete(9)));
    assert_eq!(entities.pop_incoming_message(), None);
}

#[test]
fn malformed_entity_block_changes_nothing() {
    let manifest = manifest_load();
    let mut entities: ClientEntityManager<PointEntity> = ClientEntityManager::new();
    let cut = entity_block(&[&[0, 0, 9, 0, 0, 4, 0, 1, 0, 2], &[1, 0, 9, 3, 1, 0]]);
    let mut reader = PacketReader::new(&cut);
    entities.process_data(&mut reader, &manifest);
    assert!(!reader.has_more());
    assert!(entities.get_local_entity(9).is_none());
    assert_eq!(entities.pop_incoming_message(), None);
    let unknown_kind = entity_block(&[&[0, 0, 9, 0, 0, 4, 0, 1, 0, 2], &[3, 0, 9]]);
    let mut reader = PacketReader::new(&unknown_kind);
    entities.process_data(&mut reader, &manifest);
    assert!(entities.get_local_entity(9).is_none());
}

#[test]
fn pawns_are_kept_apart_from_entities() {
    let manifest = manifest_load();
    let mut entities: ClientEntityManager<PointEntity> = ClientEntityManager::new();
    let block = entity_block(&[&[0, 0, 1, 0, 0, 4, 0, 5, 0, 6]]);
    entities.process_data(&mut PacketReader::new(&block), &manifest);
    assert!(!entities.assign_pawn(2));
    assert!(entities.assign_pawn(1));
    let block = entity_block(&[&[1, 0, 1, 3, 1, 0, 9]]);
    entities.process_data(&mut PacketReader::new(&block), &manifest);
    assert_eq!(entities.get_local_entity(1).unwrap().x, 9);
    assert_eq!(entities.get_pawn(1).unwrap().x, 5);
    entities.unassign_pawn(1);
    assert!(entities.get_pawn(1).is_none());
    assert!(entities.assign_pawn(1));
    let block = entity_block(&[&[2, 0, 1]]);
    entities.process_data(&mut PacketReader::new(&block), &manifest);
    assert!(entities.get_pawn(1).is_none());
}

#[test]
fn interpolation_moves_from_snapshot_to_live() {
    let manifest = manifest_load();
    let tick_interval = 100;
    let t0 = 5_000;
    let mut entities: ClientEntityManager<PointEntity> = ClientEntityManager::new();
    let mut smooth: InterpolationManager<PointEntity> = InterpolationManager::new(tick_interval);
    // the server puts the entity in scope at x = 0
    let create = entity_block(&[&[0, 0, 3, 0, 0, 4, 0, 0, 0, 40]]);
    entities.process_data(&mut PacketReader::new(&create), &manifest);
    assert!(smooth.get_interpolation(&entities, t0, 3).is_none());
    smooth.create_interpolation(&entities, 3, t0);
    smooth.create_interpolation(&entities, 4, t0);
    assert!(smooth.get_interpolation(&entities, t0, 4).is_none());
    assert_eq!(smooth.get_interpolation(&entities, t0, 3).unwrap().x, 0);
    // one tick later it is at x = 10
    let update = entity_block(&[&[1, 0, 3, 3, 1, 0, 10]]);
    entities.process_data(&mut PacketReader::new(&update), &manifest);
    assert_eq!(smooth.get_interpolation(&entities, t0, 3).unwrap().x, 0);
    assert_eq!(smooth.get_interpolation(&entities, t0 - 1, 3).unwrap().x, 0);
    let half = smooth.get_interpolation(&entities, t0 + tick_interval / 2, 3).unwrap();
    assert_eq!((half.x, half.y), (5, 40));
    assert_eq!(smooth.get_interpolation(&entities, t0 + 99, 3).unwrap().x, 9);
    assert_eq!(smooth.get_interpolation(&entities, t0 + tick_interval, 3).unwrap().x, 10);
    assert_eq!(smooth.get_interpolation(&entities, t0 + 10 * tick_interval, 3).unwrap().x, 10);
    // asking does not move the snapshot
    assert_eq!(smooth.get_interpolation(&entities, t0 + 30, 3).unwrap().x, 3);
    // the next update renews the snapshot
    smooth.sync_interpolation(&entities, 3, t0 + tick_interval);
    smooth.sync_interpolation(&entities, 4, t0 + tick_interval);
    let update = entity_block(&[&[1, 0, 3, 3, 1, 0, 0]]);
    entities.process_data(&mut PacketReader::new(&update), &manifest);
    assert_eq!(smooth.get_interpolation(&entities, t0 + tick_interval, 3).unwrap().x, 10);
    assert_eq!(smooth.get_interpolation(&entities, t0 + tick_interval + 25, 3).unwrap().x, 8);
    smooth.delete_interpolation(3);
    assert!(smooth.get_interpolation(&entities, t0 + tick_interval, 3).is_none());
}

#[test]
fn pawn_interpolation_goes_by_the_pawn() {
    let manifest = manifest_load();
    let mut entities: ClientEntityManager<PointEntity> = ClientEntityManager::new();
    let mut smooth: InterpolationManager<PointEntity> = InterpolationManager::new(10);
    let create = entity_block(&[&[0, 0, 3, 0, 0, 4, 0, 0, 0, 0]]);
    entities.process_data(&mut PacketReader::new(&create), &manifest);
    smooth.create_pawn_interpolation(&entities, 3, 0);
    assert!(smooth.get_pawn_interpolation(&entities, 0, 3).is_none());
    entities.assign_pawn(3);
    smooth.create_pawn_interpolation(&entities, 3, 0);
    let update = entity_block(&[&[1, 0, 3, 3, 1, 0, 100]]);
    entities.process_data(&mut PacketReader::new(&update), &manifest);
    // the pawn did not move with the entity
    assert_eq!(smooth.get_pawn_interpolation(&entities, 5, 3).unwrap().x, 0);
    entities.assign_pawn(3);
    assert_eq!(smooth.get_pawn_interpolation(&entities, 5, 3).unwrap().x, 50);
    smooth.sync_pawn_interpolation(&entities, 3, 5);
    assert_eq!(smooth.get_pawn_interpolation(&entities, 5, 3).unwrap().x, 100);
    smooth.delete_pawn_interpolation(3);
    assert!(smooth.get_pawn_interpolation(&entities, 5, 3).is_none());
}

#[test]
fn point_entity_contract() {
    let mut point = PointEntity::new(1, 2);
    assert!(!point.read_partial(&[0, 0, 0]));
    assert!(!point.read_partial(&[4, 0, 0]));
    assert!(!point.read_partial(&[1, 0]));
    assert!(!point.read_partial(&[3, 0, 0]));
    assert!(point.read_partial(&[2, 1, 0]));
    assert_eq!((point.x, point.y), (1, 256));
    assert!(point.read_partial(&[3, 0, 7, 0, 8]));
    assert_eq!((point.x, point.y), (7, 8));
    assert!(point.read_partial(&[1, 0, 1]));
    assert!(point.read_partial(&[2, 1, 0]));
    let mut diff = Vec::new();
    assert!(!point.write_partial(&PointEntity::new(1, 256), &mut diff));
    assert!(point.write_partial(&PointEntity::new(1, 2), &mut diff));
    assert!(point.write_partial(&PointEntity::new(5, 256), &mut diff));
    assert!(point.write_partial(&PointEntity::new(5, 2), &mut diff));
    assert_eq!(diff, vec![2, 1, 0, 1, 0, 1, 3, 0, 1, 1, 0]);
    let copy = point.get_typed_copy();
    assert!(copy.equals(&point));
    assert!(!copy.equals(&PointEntity::new(1, 2)));
    let back = PointEntity::new(100, 0).interpolate(&PointEntity::new(0, 7), 1, 3);
    assert_eq!((back.x, back.y), (67, 2));
}
