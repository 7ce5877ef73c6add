//! The per-connection state machine and the server it belongs to.
//!
//! A connection owns its buffered bytes and passes through `Reading`,
//! `Framed`, `Responding` and `Closed`, in that order: bytes are read until
//! the buffer ends with the header terminator, the buffer is parsed, the
//! response text is produced, written out, and the connection closes. The
//! socket work itself — accepting, reading, writing — lives outside this
//! library and drives these transitions with the bytes it saw.

use vstd::prelude::*;

use crate::request::ParseError;
use crate::request::Request;
use crate::request::spec_parse;
use crate::response::Response;
use crate::response::is_imf_fixdate;
use crate::response::no_crlf;
use crate::response::spec_date_prefix;
use crate::response::spec_date_suffix;
use crate::response::spec_new_response;
use crate::response::spec_serialize;
use crate::response::spec_with_body;
use crate::response::lemma_serialize_date_slot;
use crate::status_code::StatusCode;

verus! {

/// A carriage return byte.
pub const CR_BYTE: u8 = 0x0d;

/// A line feed byte.
pub const LF_BYTE: u8 = 0x0a;

/// The states one connection passes through, in order.
#[derive(Copy, Clone, Debug, PartialEq, Eq, Structural, Hash)]
pub enum ConnState {
    Reading,
    Framed,
    Responding,
    Closed,
}

/// The body every well-formed request is answered with by the placeholder
/// handler.
pub open spec fn spec_greeting() -> Seq<char> {
    "Hello, world!"@
}

/// Whether the buffered bytes end with the header terminator, the sole
/// framing signal: an empty line, two CRLF pairs.
pub open spec fn ends_with_terminator(b: Seq<u8>) -> bool {
    b.len() >= 4 && b[b.len() - 4] == CR_BYTE && b[b.len() - 3] == LF_BYTE && b[b.len() - 2]
        == CR_BYTE && b[b.len() - 1] == LF_BYTE
}

/// The mathematical shape of a connection: its state and its buffered bytes.
#[verifier::ext_equal]
pub struct ConnectionModel {
    pub state: ConnState,
    pub buffer: Seq<u8>,
}

/// One accepted connection: the bytes buffered so far and where the
/// connection stands. Each connection is owned by exactly one execution
/// unit; no state is shared across connections.
pub struct Connection {
    state: ConnState,
    buffer: Vec<u8>,
}

impl View for Connection {
    type V = ConnectionModel;

    closed spec fn view(&self) -> ConnectionModel {
        ConnectionModel { state: self.state, buffer: self.buffer@ }
    }
}

/// What one read does to a connection: the chunk lands at the end of the
/// buffer, and the connection becomes framed exactly when the grown buffer
/// ends with the header terminator.
pub open spec fn spec_on_read(m: ConnectionModel, chunk: Seq<u8>) -> ConnectionModel {
    ConnectionModel {
        state: if ends_with_terminator(m.buffer + chunk) {
            ConnState::Framed
        } else {
            ConnState::Reading
        },
        buffer: m.buffer + chunk,
    }
}

/// A connection after every chunk of a fragmented stream has been read, in
/// order. A driver that reads only while the connection is reading delivers
/// every chunk exactly when the terminator arrives at the stream's end.
pub open spec fn spec_feed(m: ConnectionModel, chunks: Seq<Seq<u8>>) -> ConnectionModel
    decreases chunks.len(),
{
    if chunks.len() == 0 {
        m
    } else {
        spec_feed(spec_on_read(m, chunks[0]), chunks.skip(1))
    }
}

/// Reading a fragmented stream accumulates exactly its bytes: after the
/// chunks are fed, the buffer is the old buffer followed by their
/// concatenation, and the state is settled by that buffer alone.
pub proof fn lemma_feed(m: ConnectionModel, chunks: Seq<Seq<u8>>)
    requires
        chunks.len() > 0,
    ensures
        spec_feed(m, chunks).buffer == m.buffer + chunks.flatten(),
        spec_feed(m, chunks).state == (if ends_with_terminator(m.buffer + chunks.flatten()) {
            ConnState::Framed
        } else {
            ConnState::Reading
        }),
    decreases chunks.len(),
{
    let m1 = spec_on_read(m, chunks[0]);
    if chunks.len() == 1 {
        assert(chunks.skip(1) =~= Seq::<Seq<u8>>::empty());
        assert(chunks.flatten() =~= chunks[0] + Seq::<u8>::empty());
        assert(m.buffer + chunks.flatten() =~= m.buffer + chunks[0]);
    } else {
        lemma_feed(m1, chunks.skip(1));
        assert(chunks.flatten() == chunks[0] + chunks.skip(1).flatten()) by {
            assert(chunks =~= seq![chunks[0]] + chunks.skip(1));
            vstd::seq_lib::lemma_flatten_concat(seq![chunks[0]], chunks.skip(1));
            assert(seq![chunks[0]].flatten() =~= chunks[0] + Seq::<u8>::empty());
            assert(chunks[0] + Seq::<u8>::empty() =~= chunks[0]);
        }
        assert(m1.buffer + chunks.skip(1).flatten() =~= m.buffer + chunks.flatten());
    }
}

/// However a byte stream is fragmented into in-order reads, the connection
/// ends with the same buffer and in the same state: the outcome depends on
/// the bytes alone. With [`lemma_respond_date_slot`], the responses to the
/// whole stream and to any fragmentation of it then differ at most in their
/// date slots.
pub proof fn lemma_fragmentation_independent(
    m: ConnectionModel,
    c1: Seq<Seq<u8>>,
    c2: Seq<Seq<u8>>,
)
    requires
        c1.flatten() == c2.flatten(),
        c1.len() > 0,
        c2.len() > 0,
    ensures
        spec_feed(m, c1) == spec_feed(m, c2),
{
    lemma_feed(m, c1);
    lemma_feed(m, c2);
}

/// The complete response text for framed bytes, given the date text the
/// clock rendered: the fixed greeting when the bytes parse, a Bad Request
/// carrying the error's message when they do not.
pub open spec fn spec_respond(buf: Seq<u8>, d: Seq<char>) -> Seq<char> {
    match spec_parse(buf) {
        Ok(_) => spec_serialize(
            spec_with_body(spec_new_response(StatusCode::Okay), spec_greeting(), "text/plain"@, d),
        ),
        Err(e) => spec_serialize(
            spec_with_body(
                spec_new_response(StatusCode::BadRequest),
                e.spec_message(),
                "text/plain"@,
                d,
            ),
        ),
    }
}

/// What precedes the date slot in the response to framed bytes: a function
/// of the bytes alone.
pub open spec fn spec_respond_prefix(buf: Seq<u8>) -> Seq<char> {
    match spec_parse(buf) {
        Ok(_) => spec_date_prefix(StatusCode::Okay, spec_greeting(), "text/plain"@),
        Err(e) => spec_date_prefix(StatusCode::BadRequest, e.spec_message(), "text/plain"@),
    }
}

/// What follows the date slot in that response: a function of the bytes
/// alone.
pub open spec fn spec_respond_suffix(buf: Seq<u8>) -> Seq<char> {
    match spec_parse(buf) {
        Ok(_) => spec_date_suffix(spec_greeting()),
        Err(e) => spec_date_suffix(e.spec_message()),
    }
}

/// The response to framed bytes depends on the clock only in its date slot:
/// everything before and after the date is a function of the bytes alone, so
/// answering the same bytes twice yields identical text but for the date.
pub proof fn lemma_respond_date_slot(buf: Seq<u8>, d: Seq<char>)
    ensures
        spec_respond(buf, d) == spec_respond_prefix(buf) + d + spec_respond_suffix(buf),
{
    match spec_parse(buf) {
        Ok(_) => {
            lemma_serialize_date_slot(StatusCode::Okay, spec_greeting(), "text/plain"@, d);
        },
        Err(e) => {
            lemma_serialize_date_slot(StatusCode::BadRequest, e.spec_message(), "text/plain"@, d);
        },
    }
}

impl Connection {
    /// A fresh connection, reading with an empty buffer.
    pub fn new() -> (c: Connection)
        ensures
            c@.state == ConnState::Reading,
            c@.buffer == Seq::<u8>::empty(),
    {
        Connection { state: ConnState::Reading, buffer: Vec::new() }
    }

    /// Where the connection stands.
    pub fn state(&self) -> (s: ConnState)
        ensures
            s == self@.state,
    {
        self.state
    }

    /// Takes one chunk the socket read. The chunk lands at the end of the
    /// buffer; the connection becomes framed exactly when the grown buffer
    /// ends with the header terminator.
    pub fn on_read(&mut self, chunk: &[u8])
        requires
            old(self)@.state == ConnState::Reading,
        ensures
            final(self)@ == spec_on_read(old(self)@, chunk@),
    {
        self.buffer.extend_from_slice(chunk);
        let len = self.buffer.len();
        let framed = len >= 4 && self.buffer[len - 4] == CR_BYTE && self.buffer[len - 3] == LF_BYTE
            && self.buffer[len - 2] == CR_BYTE && self.buffer[len - 1] == LF_BYTE;
        if framed {
            self.state = ConnState::Framed;
        }
        proof {
            assert(self@ =~= spec_on_read(old(self)@, chunk@));
        }
    }

    /// The peer closed before the terminator was seen: the connection closes
    /// without producing a response.
    pub fn on_peer_closed(&mut self)
        requires
            old(self)@.state == ConnState::Reading,
        ensures
            final(self)@.state == ConnState::Closed,
            final(self)@.buffer == old(self)@.buffer,
    {
        self.state = ConnState::Closed;
    }

    /// Parses the framed bytes into a request, or the error they deserve.
    pub fn framed_request(&self) -> (r: Result<Request, ParseError>)
        requires
            self@.state == ConnState::Framed,
        ensures
            match r {
                Ok(req) => spec_parse(self@.buffer) == Ok::<_, ParseError>(req@),
                Err(e) => spec_parse(self@.buffer) == Err::<crate::request::RequestModel, _>(e),
            },
    {
        Request::parse(self.buffer.as_slice())
    }

    /// Parses the framed bytes and produces the complete response text with
    /// the placeholder handling: a well-formed request is answered with the
    /// fixed greeting, a malformed one with a Bad Request carrying the
    /// error's message. The connection moves to responding.
    pub fn respond_default(&mut self) -> (r: String)
        requires
            old(self)@.state == ConnState::Framed,
        ensures
            final(self)@.state == ConnState::Responding,
            final(self)@.buffer == old(self)@.buffer,
            exists|d: Seq<char>|
                no_crlf(d) && is_imf_fixdate(d) && r@ == #[trigger] spec_respond(
                    old(self)@.buffer,
                    d,
                ),
    {
        let result = Request::parse(self.buffer.as_slice());
        self.state = ConnState::Responding;
        match result {
            Ok(_request) => {
                let mut resp = Response::new(StatusCode::Okay);
                resp.set_body("Hello, world!".to_owned(), "text/plain");
                let text = resp.send();
                proof {
                    let d = choose|d: Seq<char>|
                        no_crlf(d) && is_imf_fixdate(d) && resp@ == #[trigger] spec_with_body(
                            spec_new_response(StatusCode::Okay),
                            spec_greeting(),
                            "text/plain"@,
                            d,
                        );
                    assert(text@ == spec_respond(old(self)@.buffer, d));
                }
                text
            },
            Err(e) => {
                let mut resp = Response::new(StatusCode::BadRequest);
                resp.set_body(e.message().to_owned(), "text/plain");
                let text = resp.send();
                proof {
                    let d = choose|d: Seq<char>|
                        no_crlf(d) && is_imf_fixdate(d) && resp@ == #[trigger] spec_with_body(
                            spec_new_response(StatusCode::BadRequest),
                            e.spec_message(),
                            "text/plain"@,
                            d,
                        );
                    assert(text@ == spec_respond(old(self)@.buffer, d));
                }
                text
            },
        }
    }

    /// Parses the framed bytes, dispatches a well-formed request to the
    /// handler, and produces the response text; a parse failure is answered
    /// Bad Request with the error's message, without consulting the handler.
    /// The connection moves to responding.
    pub fn respond<H: Handler>(&mut self, handler: &H) -> (r: String)
        requires
            old(self)@.state == ConnState::Framed,
        ensures
            final(self)@.state == ConnState::Responding,
            final(self)@.buffer == old(self)@.buffer,
            match spec_parse(old(self)@.buffer) {
                Ok(_) => exists|sc: StatusCode, b: Seq<char>, ct: Seq<char>, d: Seq<char>|
                    (no_crlf(d) && is_imf_fixdate(d) && r@ == spec_serialize(
                        #[trigger] spec_with_body(spec_new_response(sc), b, ct, d),
                    )) || r@ == spec_serialize(spec_new_response(sc)),
                Err(e) => exists|d: Seq<char>|
                    no_crlf(d) && is_imf_fixdate(d) && r@ == #[trigger] spec_serialize(
                        spec_with_body(
                            spec_new_response(StatusCode::BadRequest),
                            e.spec_message(),
                            "text/plain"@,
                            d,
                        ),
                    ),
            },
    {
        let result = Request::parse(self.buffer.as_slice());
        self.state = ConnState::Responding;
        match result {
            Ok(request) => {
                let (status, body, content_type) = handler.handle_request(&request);
                let mut resp = Response::new(status);
                let had_body = body.is_some();
                match body {
                    Some(b) => {
                        let ghost gb = b@;
                        match content_type {
                            Some(ct) => {
                                resp.set_body(b, ct.as_str());
                                proof {
                                    let d = choose|d: Seq<char>|
                                        no_crlf(d) && is_imf_fixdate(d) && resp@
                                            == #[trigger] spec_with_body(
                                            spec_new_response(status),
                                            gb,
                                            ct@,
                                            d,
                                        );
                                    assert(no_crlf(d) && is_imf_fixdate(d) && resp@
                                        == spec_with_body(spec_new_response(status), gb, ct@, d));
                                }
                            },
                            None => {
                                resp.set_body(b, "text/plain");
                                proof {
                                    let d = choose|d: Seq<char>|
                                        no_crlf(d) && is_imf_fixdate(d) && resp@
                                            == #[trigger] spec_with_body(
                                            spec_new_response(status),
                                            gb,
                                            "text/plain"@,
                                            d,
                                        );
                                    assert(no_crlf(d) && is_imf_fixdate(d) && resp@
                                        == spec_with_body(
                                        spec_new_response(status),
                                        gb,
                                        "text/plain"@,
                                        d,
                                    ));
                                }
                            },
                        }
                    },
                    None => {},
                }
                let text = resp.send();
                proof {
                    if !had_body {
                        let ghost w = spec_with_body(
                            spec_new_response(status),
                            Seq::<char>::empty(),
                            Seq::<char>::empty(),
                            Seq::<char>::empty(),
                        );
                        assert(no_crlf(Seq::<char>::empty()));
                        assert(text@ == spec_serialize(spec_new_response(status)));
                    }
                }
                text
            },
            Err(e) => {
                let mut resp = Response::new(StatusCode::BadRequest);
                resp.set_body(e.message().to_owned(), "text/plain");
                resp.send()
            },
        }
    }

    /// The response was written and flushed: the connection closes.
    pub fn on_written(&mut self)
        requires
            old(self)@.state == ConnState::Responding,
        ensures
            final(self)@.state == ConnState::Closed,
            final(self)@.buffer == old(self)@.buffer,
    {
        self.state = ConnState::Closed;
    }
}

/// A pluggable request handler: maps a parsed request to the status code,
/// optional body text and optional content type of its answer.
pub trait Handler {
    fn handle_request(&self, request: &Request) -> (StatusCode, Option<String>, Option<String>);
}

/// The server: it owns the address to listen on. The accept loop itself is
/// socket work and lives with the caller; each accepted connection gets its
/// own [`Connection`].
pub struct Server {
    pub addr: String,
}

impl Server {
    /// A server for the given listen address.
    pub fn new(addr: &str) -> (r: Server)
        ensures
            r.addr@ == addr@,
    {
        Server { addr: addr.to_owned() }
    }
}

impl Handler for Server {
    /// The fixed placeholder: every request, whatever it holds, is answered
    /// 200 with the greeting as plain text. The answer does not depend on the
    /// request.
    fn handle_request(&self, _request: &Request) -> (r: (
        StatusCode,
        Option<String>,
        Option<String>,
    ))
        ensures
            r.0 == StatusCode::Okay,
            r.1 matches Some(b) && b@ == spec_greeting(),
            r.2 matches Some(c) && c@ == "text/plain"@,
    {
        (StatusCode::Okay, Some("Hello, world!".to_owned()), Some("text/plain".to_owned()))
    }
}

} // verus!
