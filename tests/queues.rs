use session_relay::control::host;
use session_relay::outbox::Outboxes;
use session_relay::registry::Registry;
use session_relay::relay::{Handshake, Relay};

fn join_request(name: &str) -> String {
    format!("JOIN {}\r\nUpgrade: relay\r\n\r\n", name)
}

#[test]
fn queues_start_empty() {
    let mut o = Outboxes::new();
    assert!(o.take(1).is_empty());
}

#[test]
fn take_empties_only_its_queue() {
    let mut o = Outboxes::new();
    o.enqueue(1, &b"a".to_vec());
    o.enqueue(2, &b"b".to_vec());
    o.enqueue(1, &b"c".to_vec());
    assert_eq!(o.take(1), vec![b"a".to_vec(), b"c".to_vec()]);
    assert!(o.take(1).is_empty());
    assert_eq!(o.take(2), vec![b"b".to_vec()]);
}

#[test]
fn enqueue_all_skips_others() {
    let mut o = Outboxes::new();
    o.enqueue_all(&vec![3, 5], &b"m".to_vec());
    assert_eq!(o.take(3), vec![b"m".to_vec()]);
    assert!(o.take(4).is_empty());
    assert_eq!(o.take(5), vec![b"m".to_vec()]);
}

#[test]
fn broadcast_keeps_send_order() {
    let mut reg = Registry::new();
    host(&mut reg, "alice".to_string(), Ok(8)).unwrap();
    let mut relay = Relay::new(8, "alice".to_string());
    assert_eq!(relay.open(&mut reg, 1, &join_request("bob")), Handshake::Joined);
    assert_eq!(relay.open(&mut reg, 2, &join_request("carol")), Handshake::Joined);
    assert_eq!(relay.open(&mut reg, 3, &join_request("dave")), Handshake::Joined);
    let mut o = Outboxes::new();
    relay.broadcast(&mut o, 1, &b"hello".to_vec());
    relay.broadcast(&mut o, 1, &b"hi carol".to_vec());
    assert!(o.take(1).is_empty());
    assert_eq!(o.take(2), vec![b"hello".to_vec(), b"hi carol".to_vec()]);
    assert_eq!(o.take(3), vec![b"hello".to_vec(), b"hi carol".to_vec()]);
}

#[test]
fn broadcast_from_a_closed_connection_goes_nowhere() {
    let mut reg = Registry::new();
    host(&mut reg, "alice".to_string(), Ok(8)).unwrap();
    let mut relay = Relay::new(8, "alice".to_string());
    relay.open(&mut reg, 1, &join_request("bob"));
    let mut o = Outboxes::new();
    relay.broadcast(&mut o, 9, &b"x".to_vec());
    assert!(o.take(1).is_empty());
}
