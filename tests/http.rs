use session_relay::control::{forbidden, json_response, ok_response, route, Asset, Route};

#[test]
fn routes_of_the_allow_list() {
    assert_eq!(route("GET / HTTP/1.1\r\n\r\n"), Route::Asset(Asset::Index));
    assert_eq!(route("GET /script.js HTTP/1.1\r\n"), Route::Asset(Asset::Script));
    assert_eq!(route("GET /favicon.ico HTTP/1.1\r\n"), Route::Asset(Asset::Favicon));
    assert_eq!(route("GET /sessions HTTP/1.1\r\n"), Route::Sessions);
    assert_eq!(route("POST /host HTTP/1.1\r\n"), Route::Host);
}

#[test]
fn unknown_asset_is_forbidden() {
    assert_eq!(route("GET /nonexistent.ico HTTP/1.1\r\nHost: x\r\n\r\n"), Route::Forbidden);
    assert_eq!(forbidden(), b"HTTP/1.1 403 Forbidden".to_vec());
}

#[test]
fn other_methods_are_ignored() {
    assert_eq!(route("DELETE /sessions HTTP/1.1\r\n"), Route::Ignored);
    assert_eq!(route(""), Route::Ignored);
}

#[test]
fn asset_paths_and_types() {
    assert_eq!(Asset::Index.path(), "./frontend/index.html");
    assert_eq!(Asset::Script.content_type(), "text/javascript");
    assert_eq!(Asset::Favicon.content_type(), "image/png");
}

#[test]
fn ok_response_frames_the_body() {
    let r = ok_response("text/html", b"<p>hi</p>");
    assert_eq!(
        r,
        b"HTTP/1.1 200 OK\r\nContent-Length: 9\r\nContent-Type: text/html\r\n\r\n<p>hi</p>".to_vec()
    );
}

#[test]
fn json_response_counts_bytes() {
    let r = json_response(&"[\"\u{e9}\"]".to_string());
    let text = String::from_utf8(r).unwrap();
    assert_eq!(text, "HTTP/1.1 200 OK\r\nContent-length: 6\r\nContent-Type: text/json\r\n\r\n[\"\u{e9}\"]");
}

#[test]
fn server_error_response() {
    assert_eq!(
        session_relay::control::server_error(),
        b"HTTP/1.1 500 Internal Server Error\r\nContent-Length: 0\r\n\r\n".to_vec()
    );
}

#[test]
fn handshake_accept_response() {
    assert_eq!(
        session_relay::relay::handshake_accept(),
        b"RELAY/1 101 Switching Protocols\r\nUpgrade: relay\r\n\r\n".to_vec()
    );
}

#[test]
fn json_response_of_empty_list() {
    assert_eq!(
        json_response(&"[]".to_string()),
        b"HTTP/1.1 200 OK\r\nContent-length: 2\r\nContent-Type: text/json\r\n\r\n[]".to_vec()
    );
}

#[test]
fn bad_request_response() {
    assert_eq!(
        session_relay::control::bad_request(),
        b"HTTP/1.1 400 Bad Request\r\nContent-Length: 0\r\n\r\n".to_vec()
    );
}
