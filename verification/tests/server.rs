use minihttp::server::ConnState;
use minihttp::server::Connection;
use minihttp::server::Handler;
use minihttp::server::Server;

struct Teapot;

impl Handler for Teapot {
    fn handle_request(
        &self,
        _request: &minihttp::request::Request,
    ) -> (minihttp::status_code::StatusCode, Option<String>, Option<String>) {
        (
            minihttp::status_code::StatusCode::Created,
            Some("made".to_string()),
            Some("text/plain".to_string()),
        )
    }
}

struct Panicky;

impl Handler for Panicky {
    fn handle_request(
        &self,
        _request: &minihttp::request::Request,
    ) -> (minihttp::status_code::StatusCode, Option<String>, Option<String>) {
        panic!("the handler must not run on a parse failure");
    }
}

fn lines_without_date(text: &str) -> Vec<String> {
    text.split("\r\n")
        .filter(|line| !line.starts_with("Date: "))
        .map(|line| line.to_string())
        .collect()
}

#[test]
fn connection_frames_on_terminator() {
    let mut conn = Connection::new();
    assert_eq!(conn.state(), ConnState::Reading);
    conn.on_read(b"GET / HTTP/1.1\r\n");
    assert_eq!(conn.state(), ConnState::Reading);
    conn.on_read(b"\r\n");
    assert_eq!(conn.state(), ConnState::Framed);
}

#[test]
fn connection_frames_across_tiny_fragments() {
    let mut conn = Connection::new();
    for b in b"GET /x?a=1 HTTP/1.1\r\n\r\n" {
        assert_eq!(conn.state(), ConnState::Reading);
        conn.on_read(&[*b]);
    }
    assert_eq!(conn.state(), ConnState::Framed);
    let text = conn.respond_default();
    assert_eq!(conn.state(), ConnState::Responding);
    assert!(text.starts_with("HTTP/1.1 200 OK\r\n"));
    assert!(text.ends_with("\r\n\r\nHello, world!"));
    conn.on_written();
    assert_eq!(conn.state(), ConnState::Closed);
}

#[test]
fn peer_close_before_terminator_closes_silently() {
    let mut conn = Connection::new();
    conn.on_read(b"GET / HT");
    conn.on_peer_closed();
    assert_eq!(conn.state(), ConnState::Closed);
}

#[test]
fn malformed_request_gets_bad_request_with_message() {
    let mut conn = Connection::new();
    conn.on_read(b"FOO /x HTTP/1.1\r\n\r\n");
    assert_eq!(conn.state(), ConnState::Framed);
    let text = conn.respond_default();
    assert!(text.starts_with("HTTP/1.1 400 Bad Request\r\n"));
    assert!(text.ends_with("\r\n\r\nInvalid Method"));
}

#[test]
fn invalid_encoding_gets_bad_request() {
    let mut conn = Connection::new();
    conn.on_read(b"GET /\xff HTTP/1.1\r\n\r\n");
    let text = conn.respond_default();
    assert!(text.starts_with("HTTP/1.1 400 Bad Request\r\n"));
    assert!(text.ends_with("\r\n\r\nInvalid Encoding"));
}

#[test]
fn interleaved_connections_do_not_cross_talk() {
    let mut a = Connection::new();
    let mut b = Connection::new();
    a.on_read(b"GET /a?x");
    b.on_read(b"FOO /b HT");
    a.on_read(b"=1 HTTP/1.1\r\n");
    b.on_read(b"TP/1.1\r\n\r\n");
    a.on_read(b"\r\n");
    assert_eq!(a.state(), ConnState::Framed);
    assert_eq!(b.state(), ConnState::Framed);
    let ta = a.respond_default();
    let tb = b.respond_default();
    assert!(ta.starts_with("HTTP/1.1 200 OK\r\n"));
    assert!(ta.ends_with("Hello, world!"));
    assert!(tb.starts_with("HTTP/1.1 400 Bad Request\r\n"));
    assert!(tb.ends_with("Invalid Method"));
}

#[test]
fn same_request_twice_differs_only_in_date() {
    let raw = b"GET /same?a=1 HTTP/1.1\r\n\r\n";
    let mut c1 = Connection::new();
    c1.on_read(raw);
    let t1 = c1.respond_default();
    let mut c2 = Connection::new();
    c2.on_read(raw);
    let t2 = c2.respond_default();
    assert_eq!(lines_without_date(&t1), lines_without_date(&t2));
    assert_eq!(t1.matches("Date: ").count(), 1);
    assert_eq!(t2.matches("Date: ").count(), 1);
}

#[test]
fn fragmented_delivery_yields_the_same_response() {
    let raw = b"GET /frag?a=1&b=Tap+Water HTTP/1.1\r\n\r\n";
    let mut whole = Connection::new();
    whole.on_read(raw);
    let mut pieces = Connection::new();
    for b in raw {
        pieces.on_read(&[*b]);
    }
    assert_eq!(whole.state(), ConnState::Framed);
    assert_eq!(pieces.state(), ConnState::Framed);
    let tw = whole.respond_default();
    let tp = pieces.respond_default();
    assert_eq!(lines_without_date(&tw), lines_without_date(&tp));
}

#[test]
fn default_handler_ignores_the_request() {
    let server = Server::new("127.0.0.1:8080");
    let r1 = minihttp::request::Request::parse(b"GET /one HTTP/1.1\r\n\r\n").unwrap();
    let r2 = minihttp::request::Request::parse(b"POST /two?a=1 HTTP/1.1\r\n\r\n").unwrap();
    let a1 = server.handle_request(&r1);
    let a2 = server.handle_request(&r2);
    assert_eq!(a1.0, minihttp::status_code::StatusCode::Okay);
    assert_eq!(a1.1.as_deref(), Some("Hello, world!"));
    assert_eq!(a1.2.as_deref(), Some("text/plain"));
    assert_eq!(a2.0, a1.0);
    assert_eq!(a2.1, a1.1);
    assert_eq!(a2.2, a1.2);
}

#[test]
fn pluggable_handler_answers_through_respond() {
    let mut conn = Connection::new();
    conn.on_read(b"PUT /pot HTTP/1.1\r\n\r\n");
    let text = conn.respond(&Teapot);
    assert!(text.starts_with("HTTP/1.1 201 Created\r\n"));
    assert!(text.ends_with("\r\n\r\nmade"));
}

#[test]
fn server_is_its_own_default_handler() {
    let server = Server::new("127.0.0.1:8080");
    assert_eq!(server.addr, "127.0.0.1:8080");
    let mut conn = Connection::new();
    conn.on_read(b"GET / HTTP/1.1\r\n\r\n");
    let text = conn.respond(&server);
    assert!(text.starts_with("HTTP/1.1 200 OK\r\n"));
    assert!(text.ends_with("\r\n\r\nHello, world!"));
}

#[test]
fn respond_on_error_does_not_consult_the_handler() {
    let mut conn = Connection::new();
    conn.on_read(b"FOO / HTTP/1.1\r\n\r\n");
    let text = conn.respond(&Panicky);
    assert!(text.starts_with("HTTP/1.1 400 Bad Request\r\n"));
}
