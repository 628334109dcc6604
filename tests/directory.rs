use session_relay::control::{extract_username, host, HostError};
use session_relay::registry::{Registry, RegistryError};
use session_relay::session::{push_decimal, Session, User};

fn user(name: &str) -> User {
    User::new(name.to_string())
}

fn session(port: u16, host_name: &str, joined: &[&str]) -> Session {
    let mut s = Session::new(port, user(host_name));
    for name in joined {
        s.joined_users.push(user(name));
    }
    s
}

#[test]
fn session_json_without_participants() {
    let s = session(40000, "alice", &[]);
    assert_eq!(s.to_json(), "{\"port\": 40000, \"hosting_user\": \"alice\", \"joined_users\": []}");
}

#[test]
fn session_json_with_participants() {
    let s = session(7, "alice", &["bob", "carol"]);
    assert_eq!(
        s.to_json(),
        "{\"port\": 7, \"hosting_user\": \"alice\", \"joined_users\": [\"bob\",\"carol\"]}"
    );
}

#[test]
fn decimal_digits() {
    for (n, text) in [(0u64, "0"), (9, "9"), (10, "10"), (65535, "65535"), (1000000, "1000000")] {
        let mut out = String::from("x");
        push_decimal(&mut out, n);
        assert_eq!(out, format!("x{}", text));
    }
}

#[test]
fn empty_registry_lists_nothing() {
    let reg = Registry::new();
    assert_eq!(reg.len(), 0);
    assert!(reg.list().is_empty());
    assert_eq!(reg.to_json(), "[]");
}

#[test]
fn registry_json_joins_sessions_with_commas() {
    let mut reg = Registry::new();
    assert_eq!(reg.insert(session(1, "a", &[])), Ok(()));
    assert_eq!(reg.insert(session(2, "b", &["c"])), Ok(()));
    assert_eq!(
        reg.to_json(),
        "[{\"port\": 1, \"hosting_user\": \"a\", \"joined_users\": []},{\"port\": 2, \"hosting_user\": \"b\", \"joined_users\": [\"c\"]}]"
    );
}

#[test]
fn insert_refuses_a_duplicate_port() {
    let mut reg = Registry::new();
    assert_eq!(reg.insert(session(5, "a", &[])), Ok(()));
    assert_eq!(reg.insert(session(5, "b", &[])), Err(RegistryError::DuplicatePort));
    assert_eq!(reg.len(), 1);
    assert_eq!(reg.lookup(5).unwrap().hosting_user.name, "a");
}

#[test]
fn remove_is_idempotent() {
    let mut reg = Registry::new();
    reg.insert(session(5, "a", &[])).unwrap();
    reg.insert(session(6, "b", &[])).unwrap();
    let gone = reg.remove(5).unwrap();
    assert_eq!(gone.port, 5);
    assert!(reg.remove(5).is_none());
    assert_eq!(reg.len(), 1);
    assert_eq!(reg.find(6), Some(0));
    assert_eq!(reg.find(5), None);
}

#[test]
fn set_participants_of_unknown_port() {
    let mut reg = Registry::new();
    assert_eq!(reg.set_participants(9, vec![user("x")]), Err(RegistryError::SessionNotFound));
    reg.insert(session(9, "h", &[])).unwrap();
    assert_eq!(reg.set_participants(9, vec![user("x"), user("y")]), Ok(()));
    let listed = reg.list();
    let names: Vec<String> = listed[0].joined_users.iter().map(|u| u.name.clone()).collect();
    assert_eq!(names, vec!["x".to_string(), "y".to_string()]);
}

#[test]
fn list_is_a_snapshot() {
    let mut reg = Registry::new();
    reg.insert(session(3, "h", &["p"])).unwrap();
    let snapshot = reg.list();
    reg.set_participants(3, vec![]).unwrap();
    assert_eq!(snapshot[0].joined_users.len(), 1);
    assert_eq!(reg.list()[0].joined_users.len(), 0);
}

#[test]
fn host_registers_a_fresh_session() {
    let mut reg = Registry::new();
    let hosted = host(&mut reg, "alice".to_string(), Ok(40000)).unwrap();
    assert_eq!(hosted.port, 40000);
    assert_eq!(hosted.username, "alice");
    assert_eq!(hosted.to_json(), "{\"port\": 40000, \"username\": \"alice\"}");
    let listed = reg.list();
    assert_eq!(listed.len(), 1);
    assert_eq!(listed[0].port, 40000);
    assert_eq!(listed[0].hosting_user.name, "alice");
    assert!(listed[0].joined_users.is_empty());
}

#[test]
fn hosted_ports_are_distinct() {
    let mut reg = Registry::new();
    let a = host(&mut reg, "a".to_string(), Ok(100)).unwrap();
    let b = host(&mut reg, "b".to_string(), Ok(101)).unwrap();
    assert_ne!(a.port, b.port);
    assert_eq!(host(&mut reg, "c".to_string(), Ok(100)).err(), Some(HostError::DuplicatePort));
    assert_eq!(reg.len(), 2);
}

#[test]
fn host_bind_failure_leaves_registry() {
    let mut reg = Registry::new();
    let r = host(&mut reg, "alice".to_string(), Err("address in use".to_string()));
    assert_eq!(r.err(), Some(HostError::BindFailed("address in use".to_string())));
    assert_eq!(reg.len(), 0);
}

#[test]
fn username_from_host_request() {
    let req = "POST /host HTTP/1.1\r\nContent-Length: 20\r\n\r\n{\"username\":\"alice\"}";
    assert_eq!(extract_username(req), Some("alice".to_string()));
}

#[test]
fn username_missing_or_unterminated() {
    assert_eq!(extract_username("POST /host HTTP/1.1\r\n\r\n{}"), None);
    assert_eq!(extract_username("POST /host HTTP/1.1\r\n\r\n{\"username\":\"alice"), None);
    assert_eq!(extract_username("{\"username\":\"\"}"), Some(String::new()));
}

#[test]
fn username_with_json_whitespace() {
    let compact = "POST /host HTTP/1.1\r\n\r\n{\"username\":\"u\"}";
    let spaced = "POST /host HTTP/1.1\r\n\r\n{\"username\": \"u\"}";
    let wide = "POST /host HTTP/1.1\r\n\r\n{ \"username\"\t:\n \"u\" }";
    assert_eq!(extract_username(compact), Some("u".to_string()));
    assert_eq!(extract_username(spaced), Some("u".to_string()));
    assert_eq!(extract_username(wide), Some("u".to_string()));
}

#[test]
fn username_with_escape_or_wrong_shape() {
    assert_eq!(extract_username("{\"username\": \"a\\\"b\"}"), None);
    assert_eq!(extract_username("{\"username\" \"u\"}"), None);
    assert_eq!(extract_username("{\"username\": 5}"), None);
}

#[test]
fn names_are_escaped_in_json() {
    let s = session(1, "\"", &["a\\b", "x\ny"]);
    assert_eq!(
        s.to_json(),
        "{\"port\": 1, \"hosting_user\": \"\\\"\", \"joined_users\": [\"a\\\\b\",\"x\\u000ay\"]}"
    );
}

#[test]
fn hosted_answer_escapes_the_name() {
    let mut reg = Registry::new();
    let hosted = host(&mut reg, "a\"b".to_string(), Ok(3)).unwrap();
    assert_eq!(hosted.to_json(), "{\"port\": 3, \"username\": \"a\\\"b\"}");
}
