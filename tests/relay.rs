use session_relay::control::host;
use session_relay::outbox::Outboxes;
use session_relay::frame::{decode_frame, encode_frame, Decoded, FrameKind};
use session_relay::registry::Registry;
use session_relay::relay::{parse_handshake, Departure, Handshake, Relay};

fn hello(name: &str) -> String {
    format!("JOIN {}\r\nUpgrade: relay\r\n\r\n", name)
}

fn joined(reg: &Registry, port: u16) -> Vec<String> {
    reg.lookup(port).unwrap().joined_users.iter().map(|u| u.name.clone()).collect()
}

#[test]
fn handshake_names() {
    assert_eq!(parse_handshake(&hello("bob")), Some("bob".to_string()));
    assert_eq!(parse_handshake("JOIN bob\r\nHost: x\r\nUpgrade: relay\r\n\r\n"), Some("bob".to_string()));
    assert_eq!(parse_handshake("JOIN bob\r\nHost: x\r\n\r\n"), None);
    assert_eq!(parse_handshake("JOIN \r\nUpgrade: relay\r\n"), None);
    assert_eq!(parse_handshake("GET / HTTP/1.1\r\nUpgrade: relay\r\n"), None);
}

#[test]
fn hosting_and_relaying_scenario() {
    let mut reg = Registry::new();
    let hosted = host(&mut reg, "alice".to_string(), Ok(41000)).unwrap();
    assert_eq!(hosted.to_json(), "{\"port\": 41000, \"username\": \"alice\"}");
    assert_eq!(reg.to_json(), "[{\"port\": 41000, \"hosting_user\": \"alice\", \"joined_users\": []}]");

    let mut relay = Relay::new(hosted.port, hosted.username.clone());
    let mut queues = Outboxes::new();
    assert_eq!(relay.open(&mut reg, 1, &hello("bob")), Handshake::Joined);
    assert_eq!(reg.to_json(), "[{\"port\": 41000, \"hosting_user\": \"alice\", \"joined_users\": [\"bob\"]}]");
    assert!(relay.recipients(1).is_empty());
    relay.broadcast(&mut queues, 1, &b"hello".to_vec());
    assert!(queues.take(1).is_empty());

    assert_eq!(relay.open(&mut reg, 2, &hello("carol")), Handshake::Joined);
    assert_eq!(relay.recipients(1), vec![2]);
    assert_eq!(relay.recipients(2), vec![1]);
    relay.broadcast(&mut queues, 1, &b"hi carol".to_vec());
    assert_eq!(queues.take(2), vec![b"hi carol".to_vec()]);
    assert!(queues.take(1).is_empty());
}

#[test]
fn broadcast_reaches_all_others_in_order() {
    let mut reg = Registry::new();
    host(&mut reg, "h".to_string(), Ok(9)).unwrap();
    let mut relay = Relay::new(9, "h".to_string());
    assert_eq!(relay.open(&mut reg, 10, &hello("h")), Handshake::Host);
    for (c, n) in [(11u64, "p1"), (12, "p2"), (13, "p3")] {
        assert_eq!(relay.open(&mut reg, c, &hello(n)), Handshake::Joined);
    }
    assert_eq!(joined(&reg, 9), vec!["h", "p1", "p2", "p3"]);
    assert_eq!(relay.recipients(12), vec![10, 11, 13]);
    assert_eq!(relay.recipients(10), vec![11, 12, 13]);
    assert!(relay.recipients(99).is_empty());
}

#[test]
fn malformed_handshake_changes_nothing() {
    let mut reg = Registry::new();
    host(&mut reg, "alice".to_string(), Ok(5)).unwrap();
    let mut relay = Relay::new(5, "alice".to_string());
    assert_eq!(relay.open(&mut reg, 1, "JOIN bob\r\n\r\n"), Handshake::Rejected);
    assert!(joined(&reg, 5).is_empty());
    assert!(relay.recipients(1).is_empty());
    assert!(matches!(relay.close(&mut reg, 1), Departure::Unknown));
}

#[test]
fn reopening_an_open_connection_is_rejected() {
    let mut reg = Registry::new();
    host(&mut reg, "alice".to_string(), Ok(5)).unwrap();
    let mut relay = Relay::new(5, "alice".to_string());
    assert_eq!(relay.open(&mut reg, 1, &hello("bob")), Handshake::Joined);
    assert_eq!(relay.open(&mut reg, 1, &hello("eve")), Handshake::Rejected);
    assert_eq!(joined(&reg, 5), vec!["bob"]);
}

#[test]
fn duplicate_names_are_kept() {
    let mut reg = Registry::new();
    host(&mut reg, "alice".to_string(), Ok(5)).unwrap();
    let mut relay = Relay::new(5, "alice".to_string());
    relay.open(&mut reg, 1, &hello("bob"));
    relay.open(&mut reg, 2, &hello("bob"));
    assert_eq!(joined(&reg, 5), vec!["bob", "bob"]);
}

#[test]
fn participant_leaving_keeps_the_session() {
    let mut reg = Registry::new();
    host(&mut reg, "alice".to_string(), Ok(5)).unwrap();
    let mut relay = Relay::new(5, "alice".to_string());
    relay.open(&mut reg, 1, &hello("bob"));
    relay.open(&mut reg, 2, &hello("carol"));
    assert!(matches!(relay.close(&mut reg, 1), Departure::Left));
    assert_eq!(joined(&reg, 5), vec!["carol"]);
    assert!(!relay.is_terminated());
    assert!(relay.recipients(1).is_empty());
    assert!(relay.recipients(2).is_empty());
}

#[test]
fn host_leaving_ends_the_session() {
    let mut reg = Registry::new();
    host(&mut reg, "alice".to_string(), Ok(5)).unwrap();
    let mut relay = Relay::new(5, "alice".to_string());
    assert_eq!(relay.open(&mut reg, 7, &hello("alice")), Handshake::Host);
    assert_eq!(joined(&reg, 5), vec!["alice"]);
    relay.open(&mut reg, 1, &hello("bob"));
    relay.open(&mut reg, 2, &hello("carol"));
    match relay.close(&mut reg, 7) {
        Departure::Ended(conns) => assert_eq!(conns, vec![1, 2]),
        other => panic!("unexpected {:?}", other),
    }
    assert!(relay.is_terminated());
    assert_eq!(reg.len(), 0);
    assert_eq!(relay.open(&mut reg, 3, &hello("dan")), Handshake::Rejected);
    assert!(host(&mut reg, "zoe".to_string(), Ok(5)).is_ok());
}

#[test]
fn second_host_name_joins_as_participant() {
    let mut reg = Registry::new();
    host(&mut reg, "alice".to_string(), Ok(5)).unwrap();
    let mut relay = Relay::new(5, "alice".to_string());
    assert_eq!(relay.open(&mut reg, 1, &hello("alice")), Handshake::Host);
    assert_eq!(relay.open(&mut reg, 2, &hello("alice")), Handshake::Joined);
    assert_eq!(joined(&reg, 5), vec!["alice", "alice"]);
}

#[test]
fn frame_round_trip() {
    let bytes = encode_frame(FrameKind::Message, b"hi carol");
    assert_eq!(bytes[..5].to_vec(), vec![1, 0, 0, 0, 8]);
    let mut buf = bytes.clone();
    buf.extend_from_slice(&[9, 9]);
    match decode_frame(&buf) {
        Decoded::Frame(kind, payload, used) => {
            assert_eq!(kind, FrameKind::Message);
            assert_eq!(payload, b"hi carol".to_vec());
            assert_eq!(used, 13);
        }
        other => panic!("unexpected {:?}", other),
    }
}

#[test]
fn frame_length_is_big_endian() {
    let payload = vec![0u8; 0x1_0203];
    let bytes = encode_frame(FrameKind::Close, &payload);
    assert_eq!(bytes[..5].to_vec(), vec![2, 0, 1, 2, 3]);
}

#[test]
fn frame_partial_and_invalid() {
    assert!(matches!(decode_frame(&[]), Decoded::Incomplete));
    assert!(matches!(decode_frame(&[1, 0, 0]), Decoded::Incomplete));
    assert!(matches!(decode_frame(&[1, 0, 0, 0, 3, 7]), Decoded::Incomplete));
    assert!(matches!(decode_frame(&[7, 0, 0, 0, 0]), Decoded::Invalid));
    assert!(matches!(decode_frame(&[2, 0, 0, 0, 0]), Decoded::Frame(FrameKind::Close, _, 5)));
}
