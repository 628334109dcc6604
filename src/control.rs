use vstd::prelude::*;
use vstd::slice::slice_to_vec;
use vstd::string::*;
use vstd::utf8::encode_utf8;
use crate::registry::{Registry, has_port};
use crate::session::{Session, SessionView, User, decimal, push_decimal, push_quoted, quoted};
use crate::text::{find, find_from, has_prefix, starts_with};

verus! {

/// A static asset on the allow-list.
#[derive(PartialEq, Eq, Structural, Debug, Clone, Copy)]
pub enum Asset {
    Index,
    Script,
    Favicon,
}

/// What the front door does with a request.
#[derive(PartialEq, Eq, Structural, Debug, Clone, Copy)]
pub enum Route {
    /// Serve an asset of the allow-list.
    Asset(Asset),
    /// List the live sessions.
    Sessions,
    /// Host a new session.
    Host,
    /// A `GET` of anything off the allow-list.
    Forbidden,
    /// Any other request: no response is owed.
    Ignored,
}

/// The route of a request, decided by the start of its text.
pub open spec fn route_of(req: Seq<char>) -> Route {
    if starts_with(req, "GET / HTTP/1.1"@) {
        Route::Asset(Asset::Index)
    } else if starts_with(req, "GET /script.js HTTP/1.1"@) {
        Route::Asset(Asset::Script)
    } else if starts_with(req, "GET /favicon.ico HTTP/1.1"@) {
        Route::Asset(Asset::Favicon)
    } else if starts_with(req, "GET /sessions HTTP/1.1"@) {
        Route::Sessions
    } else if starts_with(req, "POST /host HTTP/1.1"@) {
        Route::Host
    } else if starts_with(req, "GET "@) {
        Route::Forbidden
    } else {
        Route::Ignored
    }
}

/// Routes a request by the start of its text.
pub fn route(request: &str) -> (r: Route)
    ensures
        r == route_of(request@),
{
    if has_prefix(request, "GET / HTTP/1.1") {
        Route::Asset(Asset::Index)
    } else if has_prefix(request, "GET /script.js HTTP/1.1") {
        Route::Asset(Asset::Script)
    } else if has_prefix(request, "GET /favicon.ico HTTP/1.1") {
        Route::Asset(Asset::Favicon)
    } else if has_prefix(request, "GET /sessions HTTP/1.1") {
        Route::Sessions
    } else if has_prefix(request, "POST /host HTTP/1.1") {
        Route::Host
    } else if has_prefix(request, "GET ") {
        Route::Forbidden
    } else {
        Route::Ignored
    }
}

pub open spec fn asset_path(a: Asset) -> Seq<char> {
    match a {
        Asset::Index => "./frontend/index.html"@,
        Asset::Script => "./frontend/script.js"@,
        Asset::Favicon => "./frontend/favicon.ico"@,
    }
}

pub open spec fn asset_content_type(a: Asset) -> Seq<char> {
    match a {
        Asset::Index => "text/html"@,
        Asset::Script => "text/javascript"@,
        Asset::Favicon => "image/png"@,
    }
}

impl Asset {
    /// Where the asset lies, relative to the server's directory.
    pub fn path(&self) -> (r: &'static str)
        ensures
            r@ == asset_path(*self),
    {
        match self {
            Asset::Index => "./frontend/index.html",
            Asset::Script => "./frontend/script.js",
            Asset::Favicon => "./frontend/favicon.ico",
        }
    }

    /// The content type that the asset is served with.
    pub fn content_type(&self) -> (r: &'static str)
        ensures
            r@ == asset_content_type(*self),
    {
        match self {
            Asset::Index => "text/html",
            Asset::Script => "text/javascript",
            Asset::Favicon => "image/png",
        }
    }
}

/// The status line and headers of a successful response.
pub open spec fn ok_head(content_type: Seq<char>, length: nat) -> Seq<char> {
    "HTTP/1.1 200 OK\r\n"@ + "Content-Length: "@ + decimal(length) + "\r\nContent-Type: "@ + content_type
        + "\r\n\r\n"@
}

/// The status line and headers of a JSON response.
pub open spec fn json_head(length: nat) -> Seq<char> {
    "HTTP/1.1 200 OK\r\n"@ + "Content-length: "@ + decimal(length) + "\r\nContent-Type: text/json\r\n\r\n"@
}

/// The bytes of a `403 Forbidden` response.
pub open spec fn forbidden_bytes() -> Seq<u8> {
    encode_utf8("HTTP/1.1 403 Forbidden"@)
}

/// The response to a request for anything off the allow-list.
pub fn forbidden() -> (r: Vec<u8>)
    ensures
        r@ == forbidden_bytes(),
{
    slice_to_vec("HTTP/1.1 403 Forbidden".as_bytes())
}

/// The bytes of a `500 Internal Server Error` response.
pub open spec fn server_error_bytes() -> Seq<u8> {
    encode_utf8("HTTP/1.1 500 Internal Server Error\r\nContent-Length: 0\r\n\r\n"@)
}

/// The response to a hosting request that could not be served.
pub fn server_error() -> (r: Vec<u8>)
    ensures
        r@ == server_error_bytes(),
{
    slice_to_vec("HTTP/1.1 500 Internal Server Error\r\nContent-Length: 0\r\n\r\n".as_bytes())
}

/// The bytes of a `400 Bad Request` response.
pub open spec fn bad_request_bytes() -> Seq<u8> {
    encode_utf8("HTTP/1.1 400 Bad Request\r\nContent-Length: 0\r\n\r\n"@)
}

/// The response to a hosting request that names no user.
pub fn bad_request() -> (r: Vec<u8>)
    ensures
        r@ == bad_request_bytes(),
{
    slice_to_vec("HTTP/1.1 400 Bad Request\r\nContent-Length: 0\r\n\r\n".as_bytes())
}

/// A `200 OK` response carrying `body` with the given content type.
pub fn ok_response(content_type: &str, body: &[u8]) -> (r: Vec<u8>)
    ensures
        r@ == encode_utf8(ok_head(content_type@, body@.len())) + body@,
{
    let mut head = String::from_str("HTTP/1.1 200 OK\r\n");
    head.append("Content-Length: ");
    push_decimal(&mut head, body.len() as u64);
    head.append("\r\nContent-Type: ");
    head.append(content_type);
    head.append("\r\n\r\n");
    let mut out = slice_to_vec(head.as_str().as_bytes());
    let mut rest = slice_to_vec(body);
    out.append(&mut rest);
    out
}

/// A `200 OK` response carrying a JSON text.
pub fn json_response(body: &String) -> (r: Vec<u8>)
    ensures
        r@ == encode_utf8(json_head(encode_utf8(body@).len())) + encode_utf8(body@),
{
    let bytes = body.as_str().as_bytes();
    let mut head = String::from_str("HTTP/1.1 200 OK\r\n");
    head.append("Content-length: ");
    push_decimal(&mut head, bytes.len() as u64);
    head.append("\r\nContent-Type: text/json\r\n\r\n");
    let mut out = slice_to_vec(head.as_str().as_bytes());
    let mut rest = slice_to_vec(bytes);
    out.append(&mut rest);
    out
}

/// JSON's whitespace characters.
pub open spec fn is_json_ws(c: char) -> bool {
    c == ' ' || c == '\t' || c == '\n' || c == '\r'
}

/// The first index at or after `i` that holds no JSON whitespace.
pub open spec fn skip_ws(s: Seq<char>, i: int) -> int
    decreases s.len() - i,
{
    if 0 <= i < s.len() && is_json_ws(s[i]) {
        skip_ws(s, i + 1)
    } else {
        i
    }
}

/// The key that names the user in a hosting request.
pub open spec fn username_key() -> Seq<char> {
    "\"username\""@
}

/// The user name of a hosting request: the string value of the first
/// `"username"` key, with JSON whitespace allowed around the colon. A value
/// that holds a backslash escape is not taken.
pub open spec fn username_of(req: Seq<char>) -> Option<Seq<char>> {
    match find_from(req, username_key(), 0) {
        None => None,
        Some(k) => {
            let a = skip_ws(req, k + username_key().len());
            if a >= req.len() || req[a] != ':' {
                None
            } else {
                let b = skip_ws(req, a + 1);
                if b >= req.len() || req[b] != '"' {
                    None
                } else {
                    match find_from(req, "\""@, b + 1) {
                        None => None,
                        Some(e) => if req.subrange(b + 1, e).contains('\\') {
                            None
                        } else {
                            Some(req.subrange(b + 1, e))
                        },
                    }
                }
            }
        },
    }
}

/// The first index at or after `i` that holds no JSON whitespace.
pub fn skip_whitespace(s: &str, i: usize) -> (r: usize)
    requires
        i <= s@.len(),
    ensures
        r as int == skip_ws(s@, i as int),
        i <= r <= s@.len(),
{
    let n = s.unicode_len();
    let mut j = i;
    while j < n
        invariant
            n == s@.len(),
            i <= j <= n,
            skip_ws(s@, i as int) == skip_ws(s@, j as int),
        decreases n - j,
    {
        let c = s.get_char(j);
        if !(c == ' ' || c == '\t' || c == '\n' || c == '\r') {
            return j;
        }
        j = j + 1;
    }
    j
}

/// The user name that a hosting request carries, if it carries one.
pub fn extract_username(request: &str) -> (r: Option<String>)
    ensures
        match r {
            Some(name) => username_of(request@) == Some(name@),
            None => username_of(request@) is None,
        },
{
    let key = "\"username\"";
    let quote = "\"";
    let n = request.unicode_len();
    let k = match find(request, key, 0) {
        None => return None,
        Some(k) => k,
    };
    proof {
        crate::text::lemma_find_from_bounds(request@, key@, 0);
    }
    let a = skip_whitespace(request, k + key.unicode_len());
    if a >= n || request.get_char(a) != ':' {
        return None;
    }
    let b = skip_whitespace(request, a + 1);
    if b >= n || request.get_char(b) != '"' {
        return None;
    }
    let e = match find(request, quote, b + 1) {
        None => return None,
        Some(e) => e,
    };
    proof {
        crate::text::lemma_find_from_bounds(request@, quote@, b + 1);
    }
    let ghost v = request@.subrange(b + 1, e as int);
    proof {
        assert(username_of(request@) == if v.contains('\\') {
            None
        } else {
            Some(v)
        });
    }
    let mut j = b + 1;
    while j < e
        invariant
            n == request@.len(),
            b + 1 <= j <= e <= n,
            v == request@.subrange(b + 1, e as int),
            username_of(request@) == if v.contains('\\') {
                None
            } else {
                Some(v)
            },
            forall|t: int| b + 1 <= t < j ==> request@[t] != '\\',
        decreases e - j,
    {
        if request.get_char(j) == '\\' {
            proof {
                assert(v[j - (b + 1)] == '\\');
                assert(v.contains('\\'));
            }
            return None;
        }
        j = j + 1;
    }
    proof {
        assert(!v.contains('\\')) by {
            if v.contains('\\') {
                let t = choose|t: int| 0 <= t < v.len() && v[t] == '\\';
                assert(request@[t + b + 1] == '\\');
            }
        }
    }
    Some(String::from_str(request.substring_char(b + 1, e)))
}

/// What the hosting user is told on success.
pub struct HostedSession {
    pub port: u16,
    pub username: String,
}

/// The JSON object that answers a successful hosting request.
pub open spec fn hosted_json(port: u16, username: Seq<char>) -> Seq<char> {
    "{\"port\": "@ + decimal(port as nat) + ", \"username\": "@ + quoted(username) + "}"@
}

impl HostedSession {
    /// The answer as a JSON object of the port and the user name.
    pub fn to_json(&self) -> (r: String)
        ensures
            r@ == hosted_json(self.port, self.username@),
    {
        let mut out = String::from_str("{\"port\": ");
        push_decimal(&mut out, self.port as u64);
        out.append(", \"username\": ");
        push_quoted(&mut out, self.username.as_str());
        out.append("}");
        out
    }
}

/// Why a hosting request failed.
#[derive(PartialEq, Eq, Debug)]
pub enum HostError {
    /// No relay listener could be bound; the cause as the system gave it.
    BindFailed(String),
    /// The bound port is already registered.
    DuplicatePort,
}

/// The session that a successful hosting request registers.
pub open spec fn fresh_session(port: u16, username: Seq<char>) -> SessionView {
    SessionView { port, host: username, joined: Seq::empty() }
}

/// Registers the session of a hosting request, given the outcome of binding
/// its relay listener: the bound port, or the reason it could not be bound.
pub fn host(registry: &mut Registry, username: String, bound: Result<u16, String>) -> (r: Result<HostedSession, HostError>)
    requires
        old(registry).wf(),
    ensures
        final(registry).wf(),
        match bound {
            Err(cause) => r == Err::<HostedSession, HostError>(HostError::BindFailed(cause))
                && final(registry)@ == old(registry)@,
            Ok(port) => if has_port(old(registry)@, port) {
                r == Err::<HostedSession, HostError>(HostError::DuplicatePort) && final(registry)@ == old(registry)@
            } else {
                r matches Ok(h) && h.port == port && h.username@ == username@
                    && final(registry)@ == old(registry)@.push(fresh_session(port, username@))
            },
        },
{
    match bound {
        Err(cause) => Err(HostError::BindFailed(cause)),
        Ok(port) => {
            let hosting_user = User::new(username.clone());
            let session = Session::new(port, hosting_user);
            match registry.insert(session) {
                Ok(()) => Ok(HostedSession { port, username }),
                Err(_) => Err(HostError::DuplicatePort),
            }
        },
    }
}

} // verus!
