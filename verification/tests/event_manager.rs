use naia::events::event_manager::EventManager;
use naia::example::{manifest_load, ExampleType, KeyEvent, StringEvent};
use naia::packet_reader::PacketReader;

fn text(event: &ExampleType) -> Vec<u8> {
    match event {
        ExampleType::StringEvent(event) => event.get_message().clone(),
        ExampleType::KeyEvent(_) => panic!("not a string event"),
    }
}

fn chat(message: &str) -> ExampleType {
    ExampleType::StringEvent(StringEvent::new(message))
}

#[test]
fn pop_then_unpop_restores_the_queue() {
    let mut manager: EventManager<ExampleType> = EventManager::new();
    manager.queue_outgoing_event(chat("hello"));
    manager.queue_outgoing_event(ExampleType::KeyEvent(KeyEvent { key: 3 }));
    let popped = manager.pop_outgoing_event(7).unwrap();
    assert_eq!(text(&popped), b"hello".to_vec());
    manager.unpop_outgoing_event(7, &popped);
    let again = manager.pop_outgoing_event(8).unwrap();
    assert_eq!(text(&again), b"hello".to_vec());
    let next = manager.pop_outgoing_event(8).unwrap();
    assert!(matches!(*next, ExampleType::KeyEvent(KeyEvent { key: 3 })));
    assert!(!manager.has_outgoing_events());
    // Packet 7 holds no record after the unpop; packet 8 holds the chat event.
    manager.notify_packet_dropped(7);
    assert!(!manager.has_outgoing_events());
    manager.notify_packet_dropped(8);
    assert!(manager.has_outgoing_events());
    let resent = manager.pop_outgoing_event(9).unwrap();
    assert_eq!(text(&resent), b"hello".to_vec());
    assert!(manager.pop_outgoing_event(9).is_none());
}

#[test]
fn delivered_packet_is_not_sent_again() {
    let mut manager: EventManager<ExampleType> = EventManager::new();
    manager.queue_outgoing_event(chat("once"));
    assert!(manager.pop_outgoing_event(0).is_some());
    manager.notify_packet_delivered(0);
    manager.notify_packet_dropped(0);
    assert!(!manager.has_outgoing_events());
}

#[test]
fn dropped_packet_requeues_in_order_behind_the_queue() {
    let mut manager: EventManager<ExampleType> = EventManager::new();
    manager.queue_outgoing_event(chat("a"));
    manager.queue_outgoing_event(chat("b"));
    manager.queue_outgoing_event(chat("c"));
    manager.pop_outgoing_event(4);
    manager.pop_outgoing_event(4);
    manager.notify_packet_dropped(4);
    let order: Vec<Vec<u8>> = (0..3).map(|_| text(&manager.pop_outgoing_event(5).unwrap())).collect();
    assert_eq!(order, vec![b"c".to_vec(), b"a".to_vec(), b"b".to_vec()]);
}

#[test]
fn write_data_frames_id_length_payload() {
    let manifest = manifest_load();
    let bytes = EventManager::write_data(&manifest, &chat("hi")).unwrap();
    assert_eq!(bytes, vec![0, 0, 2, b'h', b'i']);
    let key = ExampleType::KeyEvent(KeyEvent { key: 9 });
    assert_eq!(EventManager::write_data(&manifest, &key).unwrap(), vec![0, 1, 1, 9]);
}

#[test]
fn write_data_refuses_a_payload_over_255_bytes() {
    let manifest = manifest_load();
    let long = "x".repeat(256);
    assert!(EventManager::write_data(&manifest, &chat(&long)).is_none());
    let longest = "x".repeat(255);
    let bytes = EventManager::write_data(&manifest, &chat(&longest)).unwrap();
    assert_eq!(bytes.len(), 258);
    assert_eq!(bytes[2], 255);
}

#[test]
fn process_data_queues_known_events_and_skips_unknown_ids() {
    let manifest = manifest_load();
    let mut manager: EventManager<ExampleType> = EventManager::new();
    // three events: "hey", an unknown id 7, key 5
    let data = [3u8, 0, 0, 3, b'h', b'e', b'y', 0, 7, 1, 0xff, 0, 1, 1, 5, 0xaa];
    let mut reader = PacketReader::new(&data);
    manager.process_data(&mut reader, &manifest);
    assert_eq!(reader.get_position(), 15);
    assert!(manager.has_incoming_events());
    assert_eq!(text(&manager.pop_incoming_event().unwrap()), b"hey".to_vec());
    assert!(matches!(
        manager.pop_incoming_event(),
        Some(ExampleType::KeyEvent(KeyEvent { key: 5 }))
    ));
    assert!(manager.pop_incoming_event().is_none());
    assert!(!manager.has_incoming_events());
}

#[test]
fn process_data_drops_a_block_that_runs_off_the_end() {
    let manifest = manifest_load();
    let mut manager: EventManager<ExampleType> = EventManager::new();
    // two events announced, the second one is cut short
    let data = [2u8, 0, 0, 1, b'a', 0, 0, 5, b'b'];
    let mut reader = PacketReader::new(&data);
    manager.process_data(&mut reader, &manifest);
    assert!(!manager.has_incoming_events());
    assert!(!reader.has_more());
}

#[test]
fn written_event_is_read_back() {
    let manifest = manifest_load();
    let mut manager: EventManager<ExampleType> = EventManager::new();
    let mut data = vec![1u8];
    data.extend(EventManager::write_data(&manifest, &chat("round trip")).unwrap());
    let mut reader = PacketReader::new(&data);
    manager.process_data(&mut reader, &manifest);
    assert_eq!(text(&manager.pop_incoming_event().unwrap()), b"round trip".to_vec());
}
