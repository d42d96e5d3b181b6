use naia::client_config::{ClientConfig, SharedConfig};
use naia::connection_config::ConnectionConfig;
use naia::example::{manifest_load, ExampleType, KeyEvent, PointEntity, StringEvent};
use naia::handshake::{
    read_challenge_request, read_challenge_response, read_connect_request,
    write_challenge_request, write_challenge_response, write_connect_request,
    write_connect_response,
};
use naia::naia_client::{ClientConnectionState, ClientEvent, NaiaClient};
use naia::packet_type::PacketType;
use naia::server_connection::ServerConnection;
use naia::server_handshake::{
    read_auth_event, HandshakeAction, HandshakeError, HandshakeValidator,
};
use naia::standard_header::StandardHeader;

type Client = NaiaClient<ExampleType, PointEntity>;
type Peer = ServerConnection<ExampleType, PointEntity>;

const ADDRESS: &[u8] = b"127.0.0.1:5000";

fn config() -> ClientConfig {
    ClientConfig {
        disconnection_timeout_duration: 10_000,
        heartbeat_interval: 10,
        ping_interval: 1_000,
        ping_sample_size: 20,
        send_handshake_interval: 10,
    }
}

fn chat(message: &str) -> ExampleType {
    ExampleType::StringEvent(StringEvent::new(message))
}

fn validator() -> HandshakeValidator {
    HandshakeValidator::new(b"a secret of the server".to_vec())
}

/// Runs the handshake from the time `now` on and returns the client, connected.
fn connect(now: u64) -> Client {
    let server = validator();
    let mut client = Client::new(manifest_load(), Some(config()), SharedConfig::new(1_000), None, now);
    let step = client.update(now);
    let response = server.process_challenge_request(&step.packets[0], ADDRESS, 7).unwrap();
    assert!(client.process_packet(now, &response).is_none());
    let step = client.update(now + 10);
    assert!(server.process_connect_request(&step.packets[0], ADDRESS).is_ok());
    let event = client.process_packet(now + 10, &write_connect_response());
    assert!(matches!(event, Some(ClientEvent::Connection)));
    client
}

#[test]
fn hmac_agrees_with_the_published_vector() {
    // key "Jefe", message "what do ya want for nothing?"
    let validator = HandshakeValidator::new(b"Jefe".to_vec());
    let timestamp = u64::from_be_bytes(*b"what do ");
    let digest = validator.digest(timestamp, b"ya want for nothing?");
    let expected: [u8; 32] = [
        0x5b, 0xdc, 0xc1, 0x46, 0xbf, 0x60, 0x75, 0x4e, 0x6a, 0x04, 0x24, 0x26, 0x08, 0x95, 0x75,
        0xc7, 0x5a, 0x00, 0x3f, 0x08, 0x9d, 0x27, 0x39, 0x83, 0x9d, 0xec, 0x58, 0xb9, 0x64, 0xec,
        0x38, 0x43,
    ];
    assert_eq!(digest, expected.to_vec());
}

#[test]
fn handshake_packets_are_read_back() {
    let request = write_challenge_request(0x0102_0304_0506_0708);
    assert_eq!(request, vec![0, 1, 2, 3, 4, 5, 6, 7, 8]);
    assert_eq!(read_challenge_request(&request), Some(0x0102_0304_0506_0708));
    assert_eq!(read_challenge_request(&request[..8]), None);
    let digest = [9u8; 32];
    let response = write_challenge_response(0x0a0b, 77, &digest);
    assert_eq!(response.len(), 43);
    assert_eq!(response[..3], [1, 0x0a, 0x0b]);
    assert_eq!(read_challenge_response(&response), Some((0x0a0b, 77, digest.to_vec())));
    assert_eq!(read_challenge_response(&response[..42]), None);
    assert_eq!(read_challenge_response(&request), None);
    let connect = write_connect_request(77, &digest, &[0, 1, 5]);
    assert_eq!(connect.len(), 44);
    assert_eq!(read_connect_request(&connect), Some((77, digest.to_vec(), vec![0, 1, 5])));
    assert_eq!(read_connect_request(&connect[..40]), None);
    assert_eq!(write_connect_response(), vec![3]);
}

#[test]
fn handshake_happy_path() {
    let server = validator();
    let mut client = Client::new(manifest_load(), Some(config()), SharedConfig::new(1_000), None, 100);
    assert_eq!(client.get_connection_state(), ClientConnectionState::AwaitingChallengeResponse);
    // the client opens with its timestamp
    let step = client.update(100);
    assert!(step.event.is_none());
    assert_eq!(step.packets, vec![write_challenge_request(100)]);
    // the server answers with its tick, the timestamp and the digest
    let response = server.process_challenge_request(&step.packets[0], ADDRESS, 7).unwrap();
    let digest = server.digest(100, ADDRESS);
    assert_eq!(digest.len(), 32);
    assert_eq!(response, write_challenge_response(7, 100, &digest));
    assert!(client.process_packet(101, &response).is_none());
    assert_eq!(client.get_connection_state(), ClientConnectionState::AwaitingConnectResponse);
    assert_eq!(client.get_tick(), 7);
    // nothing is due before the handshake interval has passed
    assert!(client.update(105).packets.is_empty());
    // the client returns timestamp and digest
    let step = client.update(110);
    assert_eq!(step.packets, vec![write_connect_request(100, &digest, &[])]);
    assert_eq!(server.process_connect_request(&step.packets[0], ADDRESS), Ok(vec![]));
    // the server admits it
    let event = client.process_packet(111, &write_connect_response());
    assert!(matches!(event, Some(ClientEvent::Connection)));
    assert_eq!(client.get_connection_state(), ClientConnectionState::Connected);
    assert_eq!(client.get_tick(), 7);
}

#[test]
fn handshake_carries_the_auth_event() {
    let server = validator();
    let auth = chat("let me in");
    let mut client =
        Client::new(manifest_load(), Some(config()), SharedConfig::new(1_000), Some(auth), 0);
    let step = client.update(0);
    let response = server.process_challenge_request(&step.packets[0], ADDRESS, 0).unwrap();
    client.process_packet(0, &response);
    let step = client.update(10);
    let verdict = server.process_connect_request(&step.packets[0], ADDRESS).unwrap();
    let mut expected = vec![0u8, 0];
    expected.extend_from_slice(b"let me in");
    assert_eq!(verdict, expected);
}

#[test]
fn handshake_replay_is_refused() {
    let server = validator();
    let mut client = Client::new(manifest_load(), Some(config()), SharedConfig::new(1_000), None, 100);
    let step = client.update(100);
    let response = server.process_challenge_request(&step.packets[0], ADDRESS, 7).unwrap();
    client.process_packet(100, &response);
    let digest = server.digest(100, ADDRESS);
    // a connect request with another timestamp than the digest was given for
    let replay = write_connect_request(99, &digest, &[]);
    assert_eq!(server.process_connect_request(&replay, ADDRESS), Err(HandshakeError::AuthFailed));
    // the right request from another address
    let honest = write_connect_request(100, &digest, &[]);
    assert_eq!(
        server.process_connect_request(&honest, b"10.0.0.1:5000"),
        Err(HandshakeError::AuthFailed)
    );
    // a digest of another server
    let other = HandshakeValidator::new(b"another secret".to_vec());
    let forged = write_connect_request(100, &other.digest(100, ADDRESS), &[]);
    assert_eq!(server.process_connect_request(&forged, ADDRESS), Err(HandshakeError::AuthFailed));
    // a request cut short
    assert_eq!(
        server.process_connect_request(&honest[..40], ADDRESS),
        Err(HandshakeError::Malformed)
    );
    assert_eq!(server.process_connect_request(&honest, ADDRESS), Ok(vec![]));
    // unanswered, the client stays where it is and asks again at every interval
    for round in 1..5u64 {
        let step = client.update(100 + round * 10);
        assert_eq!(step.packets, vec![honest.clone()]);
        assert!(step.event.is_none());
        assert_eq!(client.get_connection_state(), ClientConnectionState::AwaitingConnectResponse);
    }
}

#[test]
fn stale_challenge_response_is_passed_over() {
    let server = validator();
    let mut client = Client::new(manifest_load(), Some(config()), SharedConfig::new(1_000), None, 100);
    // before the client has asked, no answer counts
    let early = write_challenge_response(7, 100, &server.digest(100, ADDRESS));
    assert!(client.process_packet(100, &early).is_none());
    assert_eq!(client.get_connection_state(), ClientConnectionState::AwaitingChallengeResponse);
    client.update(100);
    // an answer to another timestamp
    let stale = write_challenge_response(9, 99, &server.digest(99, ADDRESS));
    assert!(client.process_packet(100, &stale).is_none());
    assert_eq!(client.get_connection_state(), ClientConnectionState::AwaitingChallengeResponse);
    assert_eq!(client.get_tick(), 0);
    // a connect response out of turn
    assert!(client.process_packet(100, &write_connect_response()).is_none());
    assert_eq!(client.get_connection_state(), ClientConnectionState::AwaitingChallengeResponse);
    // an answer cut short
    assert!(client.process_packet(100, &early[..42]).is_none());
    assert_eq!(client.get_connection_state(), ClientConnectionState::AwaitingChallengeResponse);
    // the client keeps asking with the same timestamp
    assert_eq!(client.update(110).packets, vec![write_challenge_request(100)]);
    assert!(client.process_packet(110, &early).is_none());
    assert_eq!(client.get_connection_state(), ClientConnectionState::AwaitingConnectResponse);
    assert_eq!(client.get_tick(), 7);
}

#[test]
fn events_are_not_queued_without_a_connection() {
    let mut client = Client::new(manifest_load(), None, SharedConfig::new(1_000), None, 0);
    assert!(!client.send_event(chat("too early")));
    assert!(client.get_entity(0).is_none());
    let mut client = connect(0);
    assert!(client.send_event(chat("fine")));
}

/// Hands a packet of the client to the peer and returns the peer's answer.
fn deliver(peer: &mut Peer, packet: &[u8], now: u64) -> Vec<u8> {
    let manifest = manifest_load();
    let (header, payload) = StandardHeader::read(packet).unwrap();
    peer.mark_heard(now);
    peer.process_incoming_header(&header);
    if header.packet_type() == PacketType::Data {
        peer.process_incoming_data(&manifest, &payload, now);
    }
    match peer.get_outgoing_packet(&manifest, now) {
        Some(answer) => answer,
        None => peer.process_outgoing_header(PacketType::Heartbeat, &[]),
    }
}

#[test]
fn reliable_event_is_recovered_after_a_lost_packet() {
    let mut client = connect(0);
    let connection_config = ConnectionConfig::new(10_000, 10, 1_000, 20);
    let mut peer = Peer::new(&connection_config, 10);
    assert!(client.send_event(chat("hello")));
    assert!(client.send_event(ExampleType::KeyEvent(KeyEvent { key: 1 })));
    // the first packet carries both events, and is lost
    let step = client.update(20);
    assert_eq!(step.packets.len(), 1);
    let (header, body) = StandardHeader::read(&step.packets[0]).unwrap();
    assert_eq!(header.local_packet_index(), 0);
    assert_eq!(body[..10], [2, 0, 0, 0, 0, 0, 0, 0, 0, 20]);
    assert_eq!(body[10..], [0, 2, 0, 0, 5, b'h', b'e', b'l', b'l', b'o', 0, 1, 1, 1]);
    // from then on everything arrives
    let mut received: Vec<Vec<u8>> = Vec::new();
    let mut keys = 0;
    let mut last_index = 0;
    let mut now = 20;
    for _ in 0..120 {
        now += 10;
        let step = client.update(now);
        assert!(step.event.is_none());
        for packet in &step.packets {
            let index = StandardHeader::read(packet).unwrap().0.local_packet_index();
            assert_eq!(index, last_index + 1);
            last_index = index;
            let answer = deliver(&mut peer, packet, now);
            assert!(client.process_packet(now, &answer).is_none());
        }
        while let Some(event) = peer.get_incoming_event() {
            match event {
                ExampleType::StringEvent(event) => received.push(event.get_message().clone()),
                ExampleType::KeyEvent(_) => keys += 1,
            }
        }
    }
    // the guaranteed event arrived exactly once, the other one is gone for good
    assert_eq!(received, vec![b"hello".to_vec()]);
    assert_eq!(keys, 0);
    assert!(last_index > 100);
}

#[test]
fn events_and_entities_reach_the_application_in_order() {
    let manifest = manifest_load();
    let mut client = connect(0);
    let connection_config = ConnectionConfig::new(10_000, 10, 1_000, 20);
    let mut peer = Peer::new(&connection_config, 10);
    peer.queue_event(chat("one"));
    peer.queue_event(chat("two"));
    let events = peer.get_outgoing_packet(&manifest, 15).unwrap();
    assert!(client.process_packet(15, &events).is_none());
    let mut body = vec![1u8, 2, 0, 0, 4, 0, 0, 4, 0, 1, 0, 2, 1, 0, 4, 3, 2, 0, 9];
    body.extend_from_slice(&[0, 1, 0, 1, 1, 42]);
    let entities = peer.process_outgoing_header(PacketType::Data, &body);
    assert!(client.process_packet(16, &entities).is_none());
    let mut news = Vec::new();
    for now in 17..25 {
        match client.update(now).event {
            Some(ClientEvent::Event(ExampleType::StringEvent(event))) => {
                news.push(String::from_utf8(event.get_message().clone()).unwrap())
            }
            Some(ClientEvent::Event(ExampleType::KeyEvent(event))) => {
                news.push(format!("key {}", event.key))
            }
            Some(ClientEvent::CreateEntity(key)) => news.push(format!("create {}", key)),
            Some(ClientEvent::UpdateEntity(key)) => news.push(format!("update {}", key)),
            Some(ClientEvent::DeleteEntity(key)) => news.push(format!("delete {}", key)),
            Some(_) => panic!("unexpected news"),
            None => {}
        }
    }
    assert_eq!(news, vec!["one", "two", "key 42", "create 4", "update 4"]);
    let point = client.get_entity(4).unwrap();
    assert_eq!((point.x, point.y), (1, 9));
    assert!(client.get_entity(5).is_none());
}

#[test]
fn unknown_block_ends_the_reading_of_a_packet() {
    let mut client = connect(0);
    let connection_config = ConnectionConfig::new(10_000, 10, 1_000, 20);
    let mut peer = Peer::new(&connection_config, 10);
    // a good event block, a block of no known manager, another good event block
    let body = [0u8, 1, 0, 1, 1, 7, 9, 0, 1, 0, 1, 1, 8];
    let packet = peer.process_outgoing_header(PacketType::Data, &body);
    assert!(client.process_packet(20, &packet).is_none());
    assert!(matches!(
        client.update(21).event,
        Some(ClientEvent::Event(ExampleType::KeyEvent(KeyEvent { key: 7 })))
    ));
    assert!(client.update(22).event.is_none());
    assert_eq!(client.get_connection_state(), ClientConnectionState::Connected);
}

#[test]
fn silence_is_reported_once_as_disconnection() {
    let mut client = connect(0);
    let mut disconnections = 0;
    let mut now = 10;
    while now < 30_000 {
        now += 250;
        match client.update(now).event {
            Some(ClientEvent::Disconnection) => {
                disconnections += 1;
                // connected at 10, ten seconds of silence
                assert_eq!(now, 10_010);
                assert_eq!(
                    client.get_connection_state(),
                    ClientConnectionState::AwaitingChallengeResponse
                );
            }
            Some(_) => panic!("unexpected news"),
            None => {}
        }
    }
    assert_eq!(disconnections, 1);
    // the handshake has started over with a new timestamp
    let step = client.update(now + 10);
    assert_eq!(step.packets.len(), 1);
    assert_eq!(step.packets[0][0], 0);
}

#[test]
fn heard_packets_put_the_disconnection_off() {
    let mut client = connect(0);
    let connection_config = ConnectionConfig::new(10_000, 4_000, 1_000, 20);
    let mut peer = Peer::new(&connection_config, 10);
    let mut now = 10;
    while now < 30_000 {
        now += 4_000;
        let heartbeat = peer.process_outgoing_header(PacketType::Heartbeat, &[]);
        assert!(client.process_packet(now, &heartbeat).is_none());
        assert!(client.update(now + 1).event.is_none());
    }
    assert_eq!(client.get_connection_state(), ClientConnectionState::Connected);
    // a stray handshake packet also shows that the server is there
    assert!(client.process_packet(now + 9_000, &write_connect_response()).is_none());
    assert!(client.update(now + 18_000).event.is_none());
    assert!(matches!(client.update(now + 19_000).event, Some(ClientEvent::Disconnection)));
}

#[test]
fn unreadable_header_ends_the_connection() {
    let mut client = connect(0);
    assert!(matches!(client.process_packet(20, &[4, 0, 0]), Some(ClientEvent::Disconnection)));
    assert_eq!(client.get_connection_state(), ClientConnectionState::AwaitingChallengeResponse);
    assert!(client.process_packet(20, &[4, 0, 0]).is_none());
    let mut client = connect(0);
    assert!(matches!(
        client.process_packet(20, &[200, 0, 0, 0, 0, 0, 0, 0, 0]),
        Some(ClientEvent::Disconnection)
    ));
    let mut client = connect(0);
    assert!(matches!(client.process_packet(20, &[]), Some(ClientEvent::Disconnection)));
}

#[test]
fn client_sends_heartbeats_when_it_has_nothing_to_say() {
    let mut client = connect(0);
    // the first packet is a ping
    let step = client.update(15);
    assert_eq!(step.packets.len(), 1);
    assert_eq!(step.packets[0][0], PacketType::Data.to_u8());
    let step = client.update(20);
    assert!(step.packets.is_empty());
    let step = client.update(25);
    assert_eq!(step.packets.len(), 1);
    assert_eq!(step.packets[0], vec![5, 0, 1, 0xff, 0xff, 0, 0, 0, 0]);
}

#[test]
fn an_update_hands_out_a_bounded_number_of_packets() {
    let mut client = connect(0);
    let big = "x".repeat(250);
    for _ in 0..100 {
        assert!(client.send_event(chat(&big)));
    }
    // one event of 253 bytes fits a packet beside the ping, two do not
    let step = client.update(15);
    assert_eq!(step.packets.len(), 64);
    let step = client.update(16);
    assert_eq!(step.packets.len(), 36);
    assert!(client.update(17).packets.is_empty());
}

#[test]
fn server_decides_about_strangers() {
    let server = validator();
    let digest = server.digest(5, ADDRESS);
    match server.process_packet(&write_challenge_request(5), ADDRESS, 9) {
        HandshakeAction::Reply(reply) => {
            assert_eq!(reply, write_challenge_response(9, 5, &digest))
        }
        _ => panic!("no reply"),
    }
    match server.process_packet(&write_connect_request(5, &digest, &[0, 0, 7]), ADDRESS, 9) {
        HandshakeAction::Admit { reply, auth } => {
            assert_eq!(reply, write_connect_response());
            assert_eq!(auth, vec![0, 0, 7]);
        }
        _ => panic!("not admitted"),
    }
    let ignored: Vec<Vec<u8>> = vec![
        write_connect_request(6, &digest, &[]),
        write_connect_request(5, &[0u8; 32], &[]),
        write_connect_request(5, &digest[..31], &[]),
        write_challenge_request(5)[..8].to_vec(),
        write_challenge_response(9, 5, &digest),
        write_connect_response(),
        vec![4, 0, 0, 0, 0, 0, 0, 0, 0],
        vec![],
        vec![99],
    ];
    for packet in ignored {
        assert!(matches!(server.process_packet(&packet, ADDRESS, 9), HandshakeAction::Ignore));
    }
    assert!(matches!(
        server.process_packet(&write_connect_request(5, &digest, &[]), b"elsewhere", 9),
        HandshakeAction::Ignore
    ));
}

#[test]
fn server_reads_the_auth_event_of_the_client() {
    let manifest = manifest_load();
    let server = validator();
    let mut client =
        Client::new(manifest_load(), Some(config()), SharedConfig::new(1_000), Some(chat("it is me")), 0);
    let step = client.update(0);
    let response = server.process_challenge_request(&step.packets[0], ADDRESS, 0).unwrap();
    client.process_packet(0, &response);
    let step = client.update(10);
    let auth = server.process_connect_request(&step.packets[0], ADDRESS).unwrap();
    match read_auth_event(&manifest, &auth) {
        Some(ExampleType::StringEvent(event)) => {
            assert_eq!(event.get_message(), &b"it is me".to_vec())
        }
        _ => panic!("no auth event"),
    }
    assert!(read_auth_event(&manifest, &[]).is_none());
    assert!(read_auth_event(&manifest, &[0]).is_none());
    assert!(read_auth_event(&manifest, &[0, 9, 1]).is_none());
    assert!(read_auth_event(&manifest, &[0, 1]).is_none());
    assert!(matches!(
        read_auth_event(&manifest, &[0, 1, 33]),
        Some(ExampleType::KeyEvent(KeyEvent { key: 33 }))
    ));
}
