use minihttp::query_string::Value;
use minihttp::request::Method;
use minihttp::request::ParseError;
use minihttp::request::Request;
use minihttp::request::parse_method;
use minihttp::request::parse_next_word;
use minihttp::request::request_line;
use minihttp::request::separate_path_and_query;
use minihttp::request::validate_protocol;

#[test]
fn parses_simple_request() {
    let req = Request::parse(b"GET /hello HTTP/1.1\r\nHost: x\r\n\r\n").unwrap();
    assert_eq!(*req.method(), Method::GET);
    assert_eq!(req.path(), "/hello");
    assert!(req.query_string().is_none());
}

#[test]
fn parses_query_string() {
    let req = Request::parse(b"GET /search?q=Tap+Water&tag=a&tag=b HTTP/1.1\r\n\r\n").unwrap();
    assert_eq!(req.path(), "/search");
    let qs = req.query_string().unwrap();
    match qs.get("q") {
        Some(Value::Single(s)) => assert_eq!(s, "Tap Water"),
        other => panic!("unexpected value for q: {:?}", other),
    }
    match qs.get("tag") {
        Some(Value::Multiple(vs)) => assert_eq!(vs, &vec!["a".to_string(), "b".to_string()]),
        other => panic!("unexpected value for tag: {:?}", other),
    }
}

#[test]
fn http_1_0_is_an_invalid_protocol() {
    // scheme matches, version does not: still an invalid protocol
    let e = Request::parse(b"GET /x HTTP/1.0\r\n\r\n").unwrap_err();
    assert_eq!(e, ParseError::InvalidProtocol);
}

#[test]
fn wrong_scheme_with_right_version_is_invalid_protocol() {
    let e = Request::parse(b"GET /x FTP/1.1\r\n\r\n").unwrap_err();
    assert_eq!(e, ParseError::InvalidProtocol);
}

#[test]
fn protocol_without_slash_is_invalid_protocol() {
    let e = Request::parse(b"GET /x HTTP1.1\r\n\r\n").unwrap_err();
    assert_eq!(e, ParseError::InvalidProtocol);
}

#[test]
fn wrong_scheme_and_version_is_invalid_protocol() {
    let e = Request::parse(b"GET /x FTP/2.0\r\n\r\n").unwrap_err();
    assert_eq!(e, ParseError::InvalidProtocol);
}

#[test]
fn unknown_method_is_invalid_method() {
    let e = Request::parse(b"FOO /x HTTP/1.1\r\n\r\n").unwrap_err();
    assert_eq!(e, ParseError::InvalidMethod);
}

#[test]
fn missing_tokens_are_an_invalid_request() {
    let e = Request::parse(b"GET\r\n\r\n").unwrap_err();
    assert_eq!(e, ParseError::InvalidRequest);
    let e = Request::parse(b"").unwrap_err();
    assert_eq!(e, ParseError::InvalidRequest);
}

#[test]
fn invalid_utf8_is_an_invalid_encoding() {
    let e = Request::parse(b"GET /\xff HTTP/1.1\r\n\r\n").unwrap_err();
    assert_eq!(e, ParseError::InvalidEncoding);
}

#[test]
fn error_messages_are_fixed() {
    assert_eq!(ParseError::InvalidRequest.message(), "Invalid Request");
    assert_eq!(ParseError::InvalidEncoding.message(), "Invalid Encoding");
    assert_eq!(ParseError::InvalidProtocol.message(), "Invalid Protocol");
    assert_eq!(ParseError::InvalidMethod.message(), "Invalid Method");
    assert_eq!(
        ParseError::UnsupportedVersion.message(),
        "HTTP Version Not Supported"
    );
}

#[test]
fn every_method_token_parses_back() {
    let methods = [
        Method::GET,
        Method::POST,
        Method::PUT,
        Method::DELETE,
        Method::HEAD,
        Method::OPTIONS,
        Method::CONNECT,
        Method::TRACE,
        Method::PATCH,
    ];
    for m in methods.iter() {
        assert_eq!(parse_method(m.token()), Some(*m));
    }
    assert_eq!(parse_method("get"), None);
}

#[test]
fn request_line_round_trips() {
    let line = request_line(&Method::POST, "/submit", Some("a=1&a=2&b=Tap+Water"));
    assert_eq!(line, "POST /submit?a=1&a=2&b=Tap+Water HTTP/1.1\r\n");
    let req = Request::parse(line.as_bytes()).unwrap();
    assert_eq!(*req.method(), Method::POST);
    assert_eq!(req.path(), "/submit");
    let qs = req.query_string().unwrap();
    match qs.get("a") {
        Some(Value::Multiple(vs)) => assert_eq!(vs, &vec!["1".to_string(), "2".to_string()]),
        other => panic!("unexpected value for a: {:?}", other),
    }
    match qs.get("b") {
        Some(Value::Single(s)) => assert_eq!(s, "Tap Water"),
        other => panic!("unexpected value for b: {:?}", other),
    }
}

#[test]
fn request_line_round_trips_without_query() {
    let line = request_line(&Method::GET, "/plain", None);
    assert_eq!(line, "GET /plain HTTP/1.1\r\n");
    let req = Request::parse(line.as_bytes()).unwrap();
    assert_eq!(*req.method(), Method::GET);
    assert_eq!(req.path(), "/plain");
    assert!(req.query_string().is_none());
}

#[test]
fn next_word_stops_at_space_or_cr() {
    assert_eq!(parse_next_word("GET /x rest"), Some(("GET", "/x rest")));
    assert_eq!(parse_next_word("token\rrest"), Some(("token", "rest")));
    assert_eq!(parse_next_word("nothing-here"), None);
}

#[test]
fn path_splits_at_first_question_mark() {
    assert_eq!(separate_path_and_query("/a?b=1?c"), ("/a", Some("b=1?c")));
    assert_eq!(separate_path_and_query("/a"), ("/a", None));
}

#[test]
fn protocol_table() {
    assert!(validate_protocol("HTTP/1.1").is_ok());
    assert_eq!(
        validate_protocol("FTP/1.1"),
        Err(ParseError::InvalidProtocol)
    );
    assert_eq!(
        validate_protocol("HTTP/2.0"),
        Err(ParseError::InvalidProtocol)
    );
    assert_eq!(
        validate_protocol("HTTP11"),
        Err(ParseError::InvalidProtocol)
    );
}

#[test]
fn only_the_first_line_is_tokenized() {
    // a first line with missing tokens is an invalid request, whatever
    // tokens later lines may hold
    let short = Request::parse(b"GET /x\r\n\r\n").unwrap_err();
    assert_eq!(short, ParseError::InvalidRequest);
    let with_more = Request::parse(b"GET /x\r\nHTTP/1.1 y\r\n\r\n").unwrap_err();
    assert_eq!(with_more, ParseError::InvalidRequest);
}

#[test]
fn default_request_is_a_get_of_root() {
    let req = Request::default();
    assert_eq!(*req.method(), Method::GET);
    assert_eq!(req.path(), "/");
    assert!(req.query_string().is_none());
}
