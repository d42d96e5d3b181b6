use naia::client_connection::ClientConnection;
use naia::connection_config::ConnectionConfig;
use naia::entities::client_entity_manager::ClientEntityManager;
use naia::entities::client_entity_message::ClientEntityMessage;
use naia::entities::server_entity_manager::{ServerEntityManager, ServerEntityMessage};
use naia::example::{manifest_load, ExampleType, KeyEvent, PointEntity, StringEvent};
use naia::interpolation_manager::InterpolationManager;
use naia::manifest::Manifest;
use naia::packet_reader::PacketReader;
use naia::packet_type::PacketType;
use naia::packet_writer::PacketWriter;
use naia::server_connection::ServerConnection;
use naia::standard_header::StandardHeader;

type Server = ClientConnection<ExampleType, PointEntity>;
type Client = ServerConnection<ExampleType, PointEntity>;

fn written(manager: &mut ServerEntityManager<PointEntity>, packet_index: u16) -> Vec<u8> {
    let mut writer = PacketWriter::new();
    manager.write_data(&mut writer, packet_index);
    writer.get_bytes()
}

#[test]
fn server_messages_have_the_wire_format() {
    let manifest = manifest_load();
    let mut manager: ServerEntityManager<PointEntity> = ServerEntityManager::new();
    assert!(!manager.has_outgoing_messages());
    assert_eq!(manager.add_entity(&manifest, &PointEntity::new(1, 2)), Some(0));
    assert_eq!(manager.add_entity(&manifest, &PointEntity::new(3, 4)), Some(1));
    assert!(manager.has_entity(1));
    assert!(manager.update_entity(0, &PointEntity::new(1, 7)));
    assert!(manager.remove_entity(1));
    assert!(!manager.remove_entity(1));
    assert!(!manager.update_entity(1, &PointEntity::new(0, 0)));
    assert!(manager.has_outgoing_messages());
    // the first create brings the entity as it is now; the second entity has
    // left, so that there is nothing to create; nothing is left to update
    assert_eq!(written(&mut manager, 0), vec![1, 2, 0, 0, 0, 0, 0, 4, 0, 1, 0, 7, 2, 0, 1]);
    assert!(!manager.has_outgoing_messages());
    assert!(manager.update_entity(0, &PointEntity::new(9, 9)));
    assert!(manager.update_entity(0, &PointEntity::new(5, 7)));
    assert_eq!(written(&mut manager, 1), vec![1, 1, 1, 0, 0, 3, 1, 0, 5]);
    assert!(manager.update_entity(0, &PointEntity::new(5, 7)));
    assert_eq!(written(&mut manager, 2), Vec::<u8>::new());
}

#[test]
fn unknown_kind_is_not_put_in_scope() {
    let empty: Manifest<ExampleType, PointEntity> = Manifest::new();
    let mut manager: ServerEntityManager<PointEntity> = ServerEntityManager::new();
    assert_eq!(manager.add_entity(&empty, &PointEntity::new(1, 2)), None);
    assert!(!manager.has_outgoing_messages());
    assert!(!manager.has_entity(0));
}

#[test]
fn keys_are_not_given_out_again_before_the_wrap() {
    let manifest = manifest_load();
    let mut manager: ServerEntityManager<PointEntity> = ServerEntityManager::new();
    let point = PointEntity::new(0, 0);
    assert_eq!(manager.add_entity(&manifest, &point), Some(0));
    assert_eq!(manager.add_entity(&manifest, &point), Some(1));
    assert!(manager.remove_entity(0));
    assert_eq!(manager.add_entity(&manifest, &point), Some(2));
    for expected in 3..=0xffffu16 {
        assert_eq!(manager.add_entity(&manifest, &point), Some(expected));
        if expected % 2 == 1 {
            assert!(manager.remove_entity(expected));
        }
    }
    // after the wrap the freed keys come again, in order
    assert_eq!(manager.add_entity(&manifest, &point), Some(0));
    assert_eq!(manager.add_entity(&manifest, &point), Some(3));
    assert_eq!(manager.add_entity(&manifest, &point), Some(5));
}

#[test]
fn full_scope_gives_no_key() {
    let manifest = manifest_load();
    let mut manager: ServerEntityManager<PointEntity> = ServerEntityManager::new();
    let point = PointEntity::new(0, 0);
    for expected in 0..=0xffffu16 {
        assert_eq!(manager.add_entity(&manifest, &point), Some(expected));
    }
    assert_eq!(manager.add_entity(&manifest, &point), None);
    assert!(manager.remove_entity(700));
    assert_eq!(manager.add_entity(&manifest, &point), Some(700));
}

#[test]
fn lost_creates_and_deletes_are_sent_again_and_lost_updates_are_not() {
    let manifest = manifest_load();
    let mut manager: ServerEntityManager<PointEntity> = ServerEntityManager::new();
    manager.add_entity(&manifest, &PointEntity::new(1, 1));
    assert_eq!(written(&mut manager, 10).len(), 12);
    manager.update_entity(0, &PointEntity::new(2, 1));
    assert_eq!(written(&mut manager, 11), vec![1, 1, 1, 0, 0, 3, 1, 0, 2]);
    manager.notify_packet_dropped(11);
    assert!(!manager.has_outgoing_messages());
    manager.notify_packet_dropped(10);
    assert!(manager.has_outgoing_messages());
    // sent again, the create brings the entity as it is by now
    assert_eq!(written(&mut manager, 12), vec![1, 1, 0, 0, 0, 0, 0, 4, 0, 2, 0, 1]);
    manager.notify_packet_delivered(12);
    manager.notify_packet_dropped(12);
    assert!(!manager.has_outgoing_messages());
    manager.remove_entity(0);
    assert_eq!(written(&mut manager, 13), vec![1, 1, 2, 0, 0]);
    manager.notify_packet_dropped(13);
    assert_eq!(written(&mut manager, 14), vec![1, 1, 2, 0, 0]);
    assert_eq!(ServerEntityMessage::Update(3).is_guaranteed(), false);
    assert_eq!(ServerEntityMessage::Create(3).is_guaranteed(), true);
    assert_eq!(ServerEntityMessage::Delete(3).is_guaranteed(), true);
}

#[test]
fn entity_messages_wait_for_a_packet_with_room() {
    let manifest = manifest_load();
    let mut manager: ServerEntityManager<PointEntity> = ServerEntityManager::new();
    let point = PointEntity::new(0, 0);
    for _ in 0..100 {
        manager.add_entity(&manifest, &point);
    }
    // a create takes ten bytes: 49 of them and the two bytes in front fit
    let first = written(&mut manager, 0);
    assert_eq!(first.len(), 492);
    assert_eq!(first[..2], [1, 49]);
    let second = written(&mut manager, 1);
    assert_eq!(second[..2], [1, 49]);
    let third = written(&mut manager, 2);
    assert_eq!(third[..2], [1, 2]);
    assert_eq!(third[2..5], [0, 0, 98]);
    assert!(!manager.has_outgoing_messages());
}

#[test]
fn what_the_server_writes_the_client_reads() {
    let manifest = manifest_load();
    let mut server: ServerEntityManager<PointEntity> = ServerEntityManager::new();
    let mut client: ClientEntityManager<PointEntity> = ClientEntityManager::new();
    let key = server.add_entity(&manifest, &PointEntity::new(300, 4)).unwrap();
    let block = written(&mut server, 0);
    client.process_data(&mut PacketReader::new(&block[1..]), &manifest);
    let point = client.get_local_entity(key).unwrap();
    assert_eq!((point.x, point.y), (300, 4));
    server.update_entity(key, &PointEntity::new(301, 5));
    let block = written(&mut server, 1);
    client.process_data(&mut PacketReader::new(&block[1..]), &manifest);
    let point = client.get_local_entity(key).unwrap();
    assert_eq!((point.x, point.y), (301, 5));
    server.remove_entity(key);
    let block = written(&mut server, 2);
    client.process_data(&mut PacketReader::new(&block[1..]), &manifest);
    assert!(client.get_local_entity(key).is_none());
    assert_eq!(client.pop_incoming_message(), Some(ClientEntityMessage::Create(key)));
    assert_eq!(client.pop_incoming_message(), Some(ClientEntityMessage::Update(key)));
    assert_eq!(client.pop_incoming_message(), Some(ClientEntityMessage::Delete(key)));
}

/// Carries every packet that is due from one side to the other.
fn exchange(server: &mut Server, client: &mut Client, manifest: &Manifest<ExampleType, PointEntity>, now: u64) {
    while let Some(packet) = server.get_outgoing_packet(manifest, now) {
        server.mark_sent(now);
        let (header, body) = StandardHeader::read(&packet).unwrap();
        client.mark_heard(now);
        client.process_incoming_header(&header);
        client.process_incoming_data(manifest, &body, now);
    }
    while let Some(packet) = client.get_outgoing_packet(manifest, now) {
        client.mark_sent(now);
        let (header, body) = StandardHeader::read(&packet).unwrap();
        server.mark_heard(now);
        server.process_incoming_header(&header);
        server.process_incoming_data(manifest, &body, now);
    }
}

#[test]
fn entity_lifecycle_with_interpolation() {
    let manifest = manifest_load();
    let config = ConnectionConfig::default();
    let tick_interval = 50;
    let t0 = 1_000;
    let mut server = Server::new(&config, t0);
    let mut client = Client::new(&config, t0);
    let mut smooth: InterpolationManager<PointEntity> = InterpolationManager::new(tick_interval);
    let mut scope: ClientEntityManager<PointEntity> = ClientEntityManager::new();

    // the server puts the entity in scope at x = 0
    let key = server.add_entity(&manifest, &PointEntity::new(0, 0)).unwrap();
    exchange(&mut server, &mut client, &manifest, t0);
    assert_eq!(client.get_incoming_entity_message(), Some(ClientEntityMessage::Create(key)));
    assert_eq!(client.get_local_entity(key).unwrap().x, 0);
    // the application mirrors the scope to smooth it
    let create = [1u8, 0, 0, key as u8, 0, 0, 4, 0, 0, 0, 0];
    scope.process_data(&mut PacketReader::new(&create), &manifest);
    smooth.create_interpolation(&scope, key, t0);

    // one tick later the entity is at x = 10
    assert!(server.update_entity(key, &PointEntity::new(10, 0)));
    exchange(&mut server, &mut client, &manifest, t0 + tick_interval);
    assert_eq!(client.get_incoming_entity_message(), Some(ClientEntityMessage::Update(key)));
    assert_eq!(client.get_local_entity(key).unwrap().x, 10);
    let update = [1u8, 1, 0, key as u8, 3, 1, 0, 10];
    scope.process_data(&mut PacketReader::new(&update), &manifest);
    assert_eq!(smooth.get_interpolation(&scope, t0 + tick_interval / 2, key).unwrap().x, 5);
    smooth.sync_interpolation(&scope, key, t0 + tick_interval);
    assert_eq!(smooth.get_interpolation(&scope, t0 + tick_interval, key).unwrap().x, 10);

    // the entity leaves the scope
    assert!(server.remove_entity(key));
    exchange(&mut server, &mut client, &manifest, t0 + 2 * tick_interval);
    assert_eq!(client.get_incoming_entity_message(), Some(ClientEntityMessage::Delete(key)));
    assert!(client.get_local_entity(key).is_none());
    assert_eq!(client.get_incoming_entity_message(), None);
}

#[test]
fn server_and_client_exchange_events_and_pings() {
    let manifest = manifest_load();
    let config = ConnectionConfig::default();
    let mut server = Server::new(&config, 0);
    let mut client = Client::new(&config, 0);
    server.queue_event(ExampleType::StringEvent(StringEvent::new("to the client")));
    client.queue_event(ExampleType::KeyEvent(KeyEvent { key: 9 }));
    exchange(&mut server, &mut client, &manifest, 10);
    exchange(&mut server, &mut client, &manifest, 40);
    match client.get_incoming_event() {
        Some(ExampleType::StringEvent(event)) => {
            assert_eq!(event.get_message(), &b"to the client".to_vec())
        }
        _ => panic!("no event"),
    }
    assert!(matches!(
        server.get_incoming_event(),
        Some(ExampleType::KeyEvent(KeyEvent { key: 9 }))
    ));
    assert!(server.get_incoming_event().is_none());
    // the server pinged at 10 and got its answer at 10; the client pinged at
    // 10 and got its answer at 40
    assert_eq!(server.get_rtt(), 0);
    assert_eq!(client.get_rtt(), 30);
    assert_eq!(server.get_next_packet_index(), 2);
}

#[test]
fn a_client_has_no_say_about_entities() {
    let manifest = manifest_load();
    let config = ConnectionConfig::default();
    let mut server = Server::new(&config, 0);
    // an entity block, then an event block that is not read any more
    let body = [1u8, 1, 2, 0, 0, 0, 1, 0, 1, 1, 8];
    server.process_incoming_data(&manifest, &body, 5);
    assert!(server.get_incoming_event().is_none());
    let body = [0u8, 1, 0, 1, 1, 8, 1, 1, 2, 0, 0];
    server.process_incoming_data(&manifest, &body, 5);
    assert!(matches!(
        server.get_incoming_event(),
        Some(ExampleType::KeyEvent(KeyEvent { key: 8 }))
    ));
    assert!(!server.should_drop(9_999));
    assert!(server.should_drop(10_000));
    server.mark_heard(9_000);
    assert!(!server.should_drop(18_999));
    assert!(!server.should_send_heartbeat(3_999));
    assert!(server.should_send_heartbeat(4_000));
    let heartbeat = server.process_outgoing_header(PacketType::Heartbeat, &[]);
    assert_eq!(heartbeat, vec![5, 0, 0, 0xff, 0xff, 0, 0, 0, 0]);
}

#[test]
fn server_takes_in_whole_packets() {
    let manifest = manifest_load();
    let config = ConnectionConfig::default();
    let mut server = Server::new(&config, 0);
    let mut client = Client::new(&config, 0);
    client.queue_event(ExampleType::KeyEvent(KeyEvent { key: 2 }));
    let packet = client.get_outgoing_packet(&manifest, 100).unwrap();
    assert!(server.process_packet(&manifest, &packet, 9_000));
    assert!(matches!(
        server.get_incoming_event(),
        Some(ExampleType::KeyEvent(KeyEvent { key: 2 }))
    ));
    // the packet counted as heard at 9000
    assert!(!server.should_drop(18_999));
    assert!(server.should_drop(19_000));
    // a handshake packet is passed over, a packet without a header is unreadable
    assert!(server.process_packet(&manifest, &[2, 1, 2, 3], 9_500));
    assert!(!server.process_packet(&manifest, &[4, 1, 2, 3], 9_500));
    assert!(!server.process_packet(&manifest, &[], 9_500));
    assert!(!server.should_drop(19_499));
    // the answer acknowledges what came in
    let answer = server.process_outgoing_header(PacketType::Heartbeat, &[]);
    assert_eq!(answer, vec![5, 0, 0, 0, 0, 0, 0, 0, 0]);
}

#[test]
fn server_connection_has_its_turn() {
    let manifest = manifest_load();
    let config = ConnectionConfig::new(10_000, 4_000, 100_000, 20);
    let mut server = Server::new(&config, 0);
    let mut client = Client::new(&config, 0);
    client.queue_event(ExampleType::KeyEvent(KeyEvent { key: 1 }));
    client.queue_event(ExampleType::KeyEvent(KeyEvent { key: 2 }));
    let packet = client.get_outgoing_packet(&manifest, 5).unwrap();
    assert!(server.process_packet(&manifest, &packet, 6));
    server.queue_event(ExampleType::StringEvent(StringEvent::new("hello")));
    // the events of the client come out, the ping and the event go out
    let step = server.update(&manifest, 7);
    assert!(!step.lost);
    assert_eq!(step.events.len(), 2);
    assert!(matches!(step.events[0], ExampleType::KeyEvent(KeyEvent { key: 1 })));
    assert!(matches!(step.events[1], ExampleType::KeyEvent(KeyEvent { key: 2 })));
    assert_eq!(step.packets.len(), 1);
    let (header, body) = StandardHeader::read(&step.packets[0]).unwrap();
    assert_eq!(header.packet_type(), PacketType::Data);
    assert_eq!(header.last_remote_packet_index(), 0);
    assert_eq!(body.len(), 10 + 10 + 2 + 8);
    // nothing to say until the heartbeat is due
    let step = server.update(&manifest, 4_006);
    assert!(step.events.is_empty() && step.packets.is_empty());
    let step = server.update(&manifest, 4_007);
    assert_eq!(step.packets.len(), 1);
    assert_eq!(step.packets[0][0], PacketType::Heartbeat.to_u8());
    // silence since 6 loses the client at 10006, and nothing is sent to it
    server.queue_event(ExampleType::StringEvent(StringEvent::new("anyone?")));
    assert!(!server.update(&manifest, 10_005).lost);
    server.queue_event(ExampleType::StringEvent(StringEvent::new("anyone?")));
    let step = server.update(&manifest, 10_006);
    assert!(step.lost);
    assert!(step.packets.is_empty() && step.events.is_empty());
}
