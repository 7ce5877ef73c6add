//! The request-line parser: raw bytes from the socket become a method, a
//! decoded path, and an optional query-string mapping, or a parse error.
//!
//! The parser never panics on arbitrary input: every failure returns a
//! [`ParseError`] variant.

use vstd::prelude::*;
use vstd::string::StrSliceExecFns;
use vstd::string::StringSliceAdditionalSpecFns;
use vstd::utf8::decode_utf8;
use vstd::utf8::valid_utf8;

use crate::query_string::QueryString;
use crate::query_string::ValueView;
use crate::query_string::spec_decode;
use crate::text::find2;
use crate::text::lemma_find2;
use crate::text::spec_find2;
use crate::text::spec_trim;
use crate::text::str_eq;
use crate::text::trim;

verus! {

/// The closed set of request methods.
#[derive(Copy, Clone, Debug, PartialEq, Eq, Structural, Hash)]
pub enum Method {
    GET,
    POST,
    PUT,
    DELETE,
    HEAD,
    OPTIONS,
    CONNECT,
    TRACE,
    PATCH,
}

impl Method {
    /// The wire token of this method.
    pub open spec fn spec_token(self) -> Seq<char> {
        match self {
            Method::GET => "GET"@,
            Method::POST => "POST"@,
            Method::PUT => "PUT"@,
            Method::DELETE => "DELETE"@,
            Method::HEAD => "HEAD"@,
            Method::OPTIONS => "OPTIONS"@,
            Method::CONNECT => "CONNECT"@,
            Method::TRACE => "TRACE"@,
            Method::PATCH => "PATCH"@,
        }
    }

    /// The wire token of this method.
    pub fn token(&self) -> (r: &str)
        ensures
            r@ == self.spec_token(),
    {
        match self {
            Method::GET => "GET",
            Method::POST => "POST",
            Method::PUT => "PUT",
            Method::DELETE => "DELETE",
            Method::HEAD => "HEAD",
            Method::OPTIONS => "OPTIONS",
            Method::CONNECT => "CONNECT",
            Method::TRACE => "TRACE",
            Method::PATCH => "PATCH",
        }
    }
}

/// The method a token names, if any.
pub open spec fn spec_parse_method(t: Seq<char>) -> Option<Method> {
    if t == "GET"@ {
        Some(Method::GET)
    } else if t == "POST"@ {
        Some(Method::POST)
    } else if t == "PUT"@ {
        Some(Method::PUT)
    } else if t == "DELETE"@ {
        Some(Method::DELETE)
    } else if t == "HEAD"@ {
        Some(Method::HEAD)
    } else if t == "OPTIONS"@ {
        Some(Method::OPTIONS)
    } else if t == "CONNECT"@ {
        Some(Method::CONNECT)
    } else if t == "TRACE"@ {
        Some(Method::TRACE)
    } else if t == "PATCH"@ {
        Some(Method::PATCH)
    } else {
        None
    }
}

/// Parses a method token against the closed method set.
pub fn parse_method(t: &str) -> (r: Option<Method>)
    ensures
        r == spec_parse_method(t@),
{
    if str_eq(t, "GET") {
        Some(Method::GET)
    } else if str_eq(t, "POST") {
        Some(Method::POST)
    } else if str_eq(t, "PUT") {
        Some(Method::PUT)
    } else if str_eq(t, "DELETE") {
        Some(Method::DELETE)
    } else if str_eq(t, "HEAD") {
        Some(Method::HEAD)
    } else if str_eq(t, "OPTIONS") {
        Some(Method::OPTIONS)
    } else if str_eq(t, "CONNECT") {
        Some(Method::CONNECT)
    } else if str_eq(t, "TRACE") {
        Some(Method::TRACE)
    } else if str_eq(t, "PATCH") {
        Some(Method::PATCH)
    } else {
        None
    }
}

/// Why a request failed to parse. Each variant carries a fixed message; at
/// the boundary every variant maps to a Bad Request response.
/// `UnsupportedVersion` belongs to the closed set with its fixed message;
/// the protocol check's tested policy answers every protocol mismatch,
/// version mismatches included, with `InvalidProtocol`.
#[derive(Copy, Clone, Debug, PartialEq, Eq, Structural, Hash)]
pub enum ParseError {
    InvalidRequest,
    InvalidEncoding,
    InvalidProtocol,
    InvalidMethod,
    UnsupportedVersion,
}

impl ParseError {
    /// The fixed human-readable message of this error.
    pub open spec fn spec_message(self) -> Seq<char> {
        match self {
            ParseError::InvalidRequest => "Invalid Request"@,
            ParseError::InvalidEncoding => "Invalid Encoding"@,
            ParseError::InvalidProtocol => "Invalid Protocol"@,
            ParseError::InvalidMethod => "Invalid Method"@,
            ParseError::UnsupportedVersion => "HTTP Version Not Supported"@,
        }
    }

    /// The fixed human-readable message of this error.
    pub fn message(&self) -> (r: &str)
        ensures
            r@ == self.spec_message(),
    {
        match self {
            ParseError::InvalidRequest => "Invalid Request",
            ParseError::InvalidEncoding => "Invalid Encoding",
            ParseError::InvalidProtocol => "Invalid Protocol",
            ParseError::InvalidMethod => "Invalid Method",
            ParseError::UnsupportedVersion => "HTTP Version Not Supported",
        }
    }
}

/// The next token of the request line: the text up to the first space or
/// carriage return, trimmed of surrounding whitespace, and the rest after
/// that separator. `None` when no separator remains.
pub open spec fn spec_parse_next_word(s: Seq<char>) -> Option<(Seq<char>, Seq<char>)> {
    match spec_find2(s, ' ', '\r') {
        None => None,
        Some(i) => Some((spec_trim(s.take(i)), s.skip(i + 1))),
    }
}

/// Cuts the next token off the request text.
pub fn parse_next_word(request: &str) -> (r: Option<(&str, &str)>)
    ensures
        match r {
            Some((tok, rest)) => spec_parse_next_word(request@) == Some((tok@, rest@)),
            None => spec_parse_next_word(request@) == None::<(Seq<char>, Seq<char>)>,
        },
{
    match find2(request, ' ', '\r') {
        None => None,
        Some(i) => {
            proof {
                lemma_find2(request@, ' ', '\r');
            }
            let n = request.unicode_len();
            let tok = trim(request.substring_char(0, i));
            let rest = request.substring_char(i + 1, n);
            proof {
                assert(request@.subrange(0, i as int) =~= request@.take(i as int));
                assert(request@.subrange(i + 1, n as int) =~= request@.skip(i + 1));
            }
            Some((tok, rest))
        },
    }
}

/// A raw path split at its first `?`: the path, and the query text after the
/// `?` when there is one.
pub open spec fn spec_separate_path_and_query(s: Seq<char>) -> (Seq<char>, Option<Seq<char>>) {
    match spec_find2(s, '?', '?') {
        None => (s, None),
        Some(i) => (s.take(i), Some(s.skip(i + 1))),
    }
}

/// Splits a raw path from the query text after its first `?`.
pub fn separate_path_and_query(raw_path: &str) -> (r: (&str, Option<&str>))
    ensures
        r.0@ == spec_separate_path_and_query(raw_path@).0,
        match r.1 {
            Some(q) => spec_separate_path_and_query(raw_path@).1 == Some(q@),
            None => spec_separate_path_and_query(raw_path@).1 is None,
        },
{
    match find2(raw_path, '?', '?') {
        None => (raw_path, None),
        Some(i) => {
            proof {
                lemma_find2(raw_path@, '?', '?');
            }
            let n = raw_path.unicode_len();
            let path = raw_path.substring_char(0, i);
            let q = raw_path.substring_char(i + 1, n);
            proof {
                assert(raw_path@.subrange(0, i as int) =~= raw_path@.take(i as int));
                assert(raw_path@.subrange(i + 1, n as int) =~= raw_path@.skip(i + 1));
            }
            (path, Some(q))
        },
    }
}

/// How the protocol token is judged: exactly `HTTP/1.1`, split at the first
/// `/` into scheme and version, is accepted; every other token — another
/// scheme, another version, or no `/` at all — is an invalid protocol.
pub open spec fn spec_validate_protocol(t: Seq<char>) -> Result<(), ParseError> {
    match spec_find2(t, '/', '/') {
        None => Err(ParseError::InvalidProtocol),
        Some(i) => {
            if t.take(i) == "HTTP"@ && t.skip(i + 1) == "1.1"@ {
                Ok(())
            } else {
                Err(ParseError::InvalidProtocol)
            }
        },
    }
}

/// Checks the protocol token.
pub fn validate_protocol(protocol: &str) -> (r: Result<(), ParseError>)
    ensures
        r == spec_validate_protocol(protocol@),
{
    match find2(protocol, '/', '/') {
        None => Err(ParseError::InvalidProtocol),
        Some(i) => {
            proof {
                lemma_find2(protocol@, '/', '/');
            }
            let n = protocol.unicode_len();
            let scheme = protocol.substring_char(0, i);
            let version = protocol.substring_char(i + 1, n);
            proof {
                assert(protocol@.subrange(0, i as int) =~= protocol@.take(i as int));
                assert(protocol@.subrange(i + 1, n as int) =~= protocol@.skip(i + 1));
            }
            if str_eq(scheme, "HTTP") && str_eq(version, "1.1") {
                Ok(())
            } else {
                Err(ParseError::InvalidProtocol)
            }
        },
    }
}

/// The first line of the decoded text: everything before its first line
/// feed, or the whole text when none occurs. Only this much is ever
/// tokenized, so what follows the first line cannot change the outcome.
pub open spec fn spec_first_line(s: Seq<char>) -> Seq<char> {
    match spec_find2(s, '\n', '\n') {
        None => s,
        Some(i) => s.take(i),
    }
}

/// Cuts the decoded text at its first line feed.
pub fn first_line(s: &str) -> (r: &str)
    ensures
        r@ == spec_first_line(s@),
{
    match find2(s, '\n', '\n') {
        None => s,
        Some(i) => {
            proof {
                lemma_find2(s@, '\n', '\n');
            }
            let r = s.substring_char(0, i);
            proof {
                assert(s@.subrange(0, i as int) =~= s@.take(i as int));
            }
            r
        },
    }
}

/// The outcome of tokenizing one request line: three whitespace-delimited
/// tokens, a valid protocol, a known method, and the path split from its
/// query text.
pub open spec fn spec_parse_request_line(s: Seq<char>) -> Result<
    (Method, Seq<char>, Option<Seq<char>>),
    ParseError,
> {
    match spec_parse_next_word(s) {
        None => Err(ParseError::InvalidRequest),
        Some((method_tok, rest1)) => match spec_parse_next_word(rest1) {
            None => Err(ParseError::InvalidRequest),
            Some((raw_path, rest2)) => match spec_parse_next_word(rest2) {
                None => Err(ParseError::InvalidRequest),
                Some((protocol, _)) => match spec_validate_protocol(protocol) {
                    Err(e) => Err(e),
                    Ok(_) => match spec_parse_method(method_tok) {
                        None => Err(ParseError::InvalidMethod),
                        Some(m) => Ok(
                            (
                                m,
                                spec_separate_path_and_query(raw_path).0,
                                spec_separate_path_and_query(raw_path).1,
                            ),
                        ),
                    },
                },
            },
        },
    }
}

/// Tokenizes the request line into method, path and optional query text.
pub fn parse_request_line<'a>(request: &'a str) -> (r: Result<
    (Method, &'a str, Option<&'a str>),
    ParseError,
>)
    ensures
        match r {
            Ok((m, path, q)) => spec_parse_request_line(request@) == Ok::<_, ParseError>(
                (
                    m,
                    path@,
                    match q {
                        Some(qq) => Some(qq@),
                        None => None::<Seq<char>>,
                    },
                ),
            ),
            Err(e) => spec_parse_request_line(request@) == Err::<(Method, Seq<char>, Option<Seq<char>>), _>(e),
        },
{
    let w1 = parse_next_word(request);
    match w1 {
        None => Err(ParseError::InvalidRequest),
        Some((method_tok, rest1)) => {
            let w2 = parse_next_word(rest1);
            match w2 {
                None => Err(ParseError::InvalidRequest),
                Some((raw_path, rest2)) => {
                    let w3 = parse_next_word(rest2);
                    match w3 {
                        None => Err(ParseError::InvalidRequest),
                        Some((protocol, _rest3)) => match validate_protocol(protocol) {
                            Err(e) => Err(e),
                            Ok(_) => match parse_method(method_tok) {
                                None => Err(ParseError::InvalidMethod),
                                Some(m) => {
                                    let (path, q) = separate_path_and_query(raw_path);
                                    Ok((m, path, q))
                                },
                            },
                        },
                    }
                },
            }
        },
    }
}

/// The mathematical shape of a parsed request: its method, the characters of
/// its path, and its decoded query mapping when a query text was present.
pub struct RequestModel {
    pub method: Method,
    pub path: Seq<char>,
    pub query: Option<Map<Seq<char>, ValueView>>,
}

/// A parsed request. Headers and body are present but left unpopulated by
/// the parser: only the request line is tokenized.
#[derive(Debug)]
pub struct Request {
    method: Method,
    path: String,
    query_string: Option<QueryString>,
    headers: Vec<(String, String)>,
    body: Vec<u8>,
}

impl View for Request {
    type V = RequestModel;

    closed spec fn view(&self) -> RequestModel {
        RequestModel {
            method: self.method,
            path: self.path@,
            query: match self.query_string {
                Some(q) => Some(q@),
                None => None,
            },
        }
    }
}

/// What parsing raw bytes yields: the bytes must be UTF-8, and their first
/// line alone must tokenize as a request line; the query text, when present,
/// is decoded into its mapping.
pub open spec fn spec_parse(buf: Seq<u8>) -> Result<RequestModel, ParseError> {
    if !valid_utf8(buf) {
        Err(ParseError::InvalidEncoding)
    } else {
        match spec_parse_request_line(spec_first_line(decode_utf8(buf))) {
            Err(e) => Err(e),
            Ok((m, path, q)) => Ok(
                RequestModel {
                    method: m,
                    path: path,
                    query: match q {
                        Some(raw) => Some(spec_decode(raw)),
                        None => None,
                    },
                },
            ),
        }
    }
}

impl Request {
    /// The decoded path, with any `?` suffix stripped.
    pub fn path(&self) -> (r: &str)
        ensures
            r@ == self@.path,
    {
        self.path.as_str()
    }

    /// The request method.
    pub fn method(&self) -> (r: &Method)
        ensures
            *r == self@.method,
    {
        &self.method
    }

    /// The decoded query mapping, when the path carried a query text.
    pub fn query_string(&self) -> (r: Option<&QueryString>)
        ensures
            match r {
                Some(q) => self@.query == Some(q@),
                None => self@.query is None,
            },
    {
        self.query_string.as_ref()
    }

    /// Parses raw request bytes. `Ok` exactly when the bytes are valid UTF-8
    /// whose first line is a well-formed request line; otherwise the error
    /// that [`spec_parse`] names for those bytes.
    pub fn parse(buf: &[u8]) -> (r: Result<Request, ParseError>)
        ensures
            match r {
                Ok(req) => spec_parse(buf@) == Ok::<_, ParseError>(req@),
                Err(e) => spec_parse(buf@) == Err::<RequestModel, _>(e),
            },
    {
        match crate::text::bytes_to_str(buf) {
            None => Err(ParseError::InvalidEncoding),
            Some(s) => {
                proof {
                    vstd::utf8::encode_utf8_decode_utf8(s@);
                }
                let line = first_line(s);
                match parse_request_line(line) {
                    Err(e) => Err(e),
                    Ok((m, path, q)) => {
                        let query_string = match q {
                            Some(raw) => Some(QueryString::from(raw)),
                            None => None,
                        };
                        Ok(
                            Request {
                                method: m,
                                path: path.to_owned(),
                                query_string,
                                headers: Vec::new(),
                                body: Vec::new(),
                            },
                        )
                    },
                }
            },
        }
    }
}

impl Default for Request {
    /// The placeholder request: a GET of the root path with no query.
    fn default() -> (r: Request)
        ensures
            r@.method == Method::GET,
            r@.path == "/"@,
            r@.query is None,
    {
        Request {
            method: Method::GET,
            path: "/".to_owned(),
            query_string: None,
            headers: Vec::new(),
            body: Vec::new(),
        }
    }
}

/// The wire text of a request line built from a method, a path and an
/// optional query text.
pub open spec fn spec_request_line(m: Method, path: Seq<char>, query: Option<Seq<char>>) -> Seq<
    char,
> {
    m.spec_token() + " "@ + path + (match query {
        Some(q) => "?"@ + q,
        None => Seq::<char>::empty(),
    }) + " HTTP/1.1\r\n"@
}

/// Serializes a method, path and optional query text into a request line.
pub fn request_line(method: &Method, path: &str, query: Option<&str>) -> (r: String)
    ensures
        r@ == spec_request_line(
            *method,
            path@,
            match query {
                Some(q) => Some(q@),
                None => None::<Seq<char>>,
            },
        ),
{
    let mut out = method.token().to_owned();
    out.append(" ");
    out.append(path);
    match query {
        Some(q) => {
            out.append("?");
            out.append(q);
        },
        None => {},
    }
    out.append(" HTTP/1.1\r\n");
    proof {
        assert(out@ =~= spec_request_line(
            *method,
            path@,
            match query {
                Some(q) => Some(q@),
                None => None::<Seq<char>>,
            },
        ));
    }
    out
}

/// Text with no space, no carriage return and no line feed: the first two
/// end a token early, the last ends the first line.
pub open spec fn no_separator(s: Seq<char>) -> bool {
    forall|j: int| 0 <= j < s.len() ==> #[trigger] s[j] != ' ' && s[j] != '\r' && s[j] != '\n'
}

/// Text with no whitespace character at all: it holds no separator and
/// trimming returns it whole.
pub open spec fn clean_text(s: Seq<char>) -> bool {
    forall|j: int| 0 <= j < s.len() ==> !crate::text::is_ws(#[trigger] s[j])
}

/// Parts that serialize into a request line that parses back to them: no
/// space, carriage return or line feed anywhere (the first two would end the
/// token early, the last would end the line), no `?` in the path (it would
/// move the query split), and no whitespace at either edge of the raw path
/// token (trimming would strip it). A tab strictly inside the path or the
/// query text is allowed: trimming only touches the edges.
pub open spec fn valid_request_parts(path: Seq<char>, query: Option<Seq<char>>) -> bool {
    &&& no_separator(path)
    &&& (forall|j: int| 0 <= j < path.len() ==> #[trigger] path[j] != '?')
    &&& match query {
        Some(q) => no_separator(q),
        None => true,
    }
    &&& ({
        let raw = path + (match query {
            Some(q) => seq!['?'] + q,
            None => Seq::<char>::empty(),
        });
        spec_trim(raw) == raw
    })
}

/// Whitespace-free text has no separator and trims to itself.
proof fn lemma_clean_is_token(s: Seq<char>)
    requires
        clean_text(s),
    ensures
        no_separator(s),
        spec_trim(s) == s,
{
    assert forall|j: int| 0 <= j < s.len() implies #[trigger] s[j] != ' ' && s[j] != '\r' by {
        assert(!crate::text::is_ws(s[j]));
    }
    crate::text::lemma_trim_of_clean(s);
}

/// A separator-free token that trims to itself, followed by a separator,
/// tokenizes back to itself, with the rest after the separator.
proof fn lemma_word_split(tok: Seq<char>, sep: char, rest: Seq<char>)
    requires
        sep == ' ' || sep == '\r',
        no_separator(tok),
        spec_trim(tok) == tok,
    ensures
        spec_parse_next_word(tok + seq![sep] + rest) == Some((tok, rest)),
{
    let s = tok + seq![sep] + rest;
    let l = tok.len() as int;
    assert(s[l] == sep);
    assert forall|j: int| 0 <= j < l implies s[j] != ' ' && s[j] != '\r' by {
        assert(s[j] == tok[j]);
    }
    crate::text::lemma_find2_is(s, ' ', '\r', l);
    assert(s.take(l) =~= tok);
    assert(s.skip(l + 1) =~= rest);
}

/// Every method token is clean and parses back to its method.
proof fn lemma_method_token(m: Method)
    ensures
        clean_text(m.spec_token()),
        spec_parse_method(m.spec_token()) == Some(m),
{
    reveal_strlit("GET");
    reveal_strlit("POST");
    reveal_strlit("PUT");
    reveal_strlit("DELETE");
    reveal_strlit("HEAD");
    reveal_strlit("OPTIONS");
    reveal_strlit("CONNECT");
    reveal_strlit("TRACE");
    reveal_strlit("PATCH");
    assert("GET"@.len() == 3);
    assert("POST"@.len() == 4);
    assert("PUT"@.len() == 3);
    assert("DELETE"@.len() == 6);
    assert("HEAD"@.len() == 4);
    assert("OPTIONS"@.len() == 7);
    assert("CONNECT"@.len() == 7);
    assert("TRACE"@.len() == 5);
    assert("PATCH"@.len() == 5);
    assert("GET"@[0] == 'G' && "PUT"@[0] == 'P');
    assert("POST"@[0] == 'P' && "HEAD"@[0] == 'H');
    assert("OPTIONS"@[0] == 'O' && "CONNECT"@[0] == 'C');
    assert("TRACE"@[0] == 'T' && "PATCH"@[0] == 'P');
}

/// The token `HTTP/1.1` is clean and validates.
proof fn lemma_protocol_token()
    ensures
        clean_text("HTTP/1.1"@),
        spec_validate_protocol("HTTP/1.1"@) == Ok::<(), ParseError>(()),
{
    reveal_strlit("HTTP/1.1");
    reveal_strlit("HTTP");
    reveal_strlit("1.1");
    let t = "HTTP/1.1"@;
    crate::text::lemma_find2_is(t, '/', '/', 4);
    assert(t.take(4) =~= "HTTP"@);
    assert(t.skip(5) =~= "1.1"@);
}

/// Request-line round trip: serializing a valid method, path and query into
/// a request line and parsing its bytes back yields that method, that path,
/// and the mapping decoded from that query text.
pub proof fn lemma_request_line_round_trip(m: Method, path: Seq<char>, query: Option<Seq<char>>)
    requires
        valid_request_parts(path, query),
    ensures
        spec_parse(vstd::utf8::encode_utf8(spec_request_line(m, path, query))) == Ok::<
            _,
            ParseError,
        >(
            RequestModel {
                method: m,
                path: path,
                query: match query {
                    Some(q) => Some(spec_decode(q)),
                    None => None,
                },
            },
        ),
{
    let line = spec_request_line(m, path, query);
    vstd::utf8::encode_utf8_valid_utf8(line);
    vstd::utf8::encode_utf8_decode_utf8(line);
    reveal_strlit(" ");
    reveal_strlit("?");
    reveal_strlit(" HTTP/1.1\r\n");
    reveal_strlit("HTTP/1.1");
    let tok1 = m.spec_token();
    let opt = match query {
        Some(q) => "?"@ + q,
        None => Seq::<char>::empty(),
    };
    let raw = path + opt;
    let tail = "HTTP/1.1"@ + seq!['\r'];
    assert(" HTTP/1.1\r\n"@ =~= seq![' '] + tail + seq!['\n']);
    let cut = tok1 + seq![' '] + (raw + seq![' '] + tail);
    assert(line =~= cut + seq!['\n']);
    lemma_method_token(m);
    lemma_clean_is_token(tok1);
    assert(no_separator(raw)) by {
        assert forall|j: int| 0 <= j < raw.len() implies #[trigger] raw[j] != ' ' && raw[j] != '\r'
            && raw[j] != '\n' by {
            if j < path.len() {
                assert(raw[j] == path[j]);
            } else {
                match query {
                    Some(q) => {
                        if j == path.len() {
                            assert(raw[j] == '?');
                        } else {
                            assert(raw[j] == q[j - path.len() - 1]);
                        }
                    },
                    None => {},
                }
            }
        }
    }
    lemma_protocol_token();
    lemma_clean_is_token("HTTP/1.1"@);
    let ghost ptok = "HTTP/1.1"@;
    assert(spec_first_line(line) == cut) by {
        let c = cut.len() as int;
        assert(line[c] == '\n');
        assert forall|j: int| 0 <= j < c implies line[j] != '\n' by {
            assert(line[j] == cut[j]);
            let l1 = tok1.len() as int;
            let l2 = raw.len() as int;
            if j < l1 {
                assert(cut[j] == tok1[j]);
                assert(!crate::text::is_ws(tok1[j]));
            } else if j == l1 {
                assert(cut[j] == ' ');
            } else if j < l1 + 1 + l2 {
                assert(cut[j] == raw[j - l1 - 1]);
            } else if j == l1 + 1 + l2 {
                assert(cut[j] == ' ');
            } else if j < l1 + 1 + l2 + 1 + ptok.len() {
                assert(cut[j] == ptok[j - l1 - l2 - 2]);
                assert(!crate::text::is_ws(ptok[j - l1 - l2 - 2]));
            } else {
                assert(cut[j] == '\r');
            }
        }
        crate::text::lemma_find2_is(line, '\n', '\n', c);
        assert(line.take(c) =~= cut);
    }
    lemma_word_split(tok1, ' ', raw + seq![' '] + tail);
    assert(spec_trim(raw) == raw) by {
        assert(raw =~= path + (match query {
            Some(q) => seq!['?'] + q,
            None => Seq::<char>::empty(),
        }));
    }
    lemma_word_split(raw, ' ', tail);
    assert(tail =~= ptok + seq!['\r'] + Seq::<char>::empty());
    lemma_word_split(ptok, '\r', Seq::<char>::empty());
    assert(spec_parse_next_word(cut) == Some((tok1, raw + seq![' '] + tail)));
    assert(spec_parse_next_word(raw + seq![' '] + tail) == Some((raw, tail)));
    assert(spec_parse_next_word(tail) == Some((ptok, Seq::<char>::empty())));
    match query {
        None => {
            assert(raw =~= path);
            crate::text::lemma_find2_none(path, '?', '?');
            assert(spec_separate_path_and_query(raw) == (path, None::<Seq<char>>));
        },
        Some(q) => {
            assert(raw =~= path + seq!['?'] + q);
            let l = path.len() as int;
            assert(raw[l] == '?');
            assert forall|j: int| 0 <= j < l implies raw[j] != '?' && raw[j] != '?' by {
                assert(raw[j] == path[j]);
            }
            crate::text::lemma_find2_is(raw, '?', '?', l);
            assert(raw.take(l) =~= path);
            assert(raw.skip(l + 1) =~= q);
            assert(spec_separate_path_and_query(raw) == (path, Some(q)));
        },
    }
}

} // verus!

