use minihttp::response::Response;
use minihttp::status_code::StatusCode;

fn count_occurrences(text: &str, needle: &str) -> usize {
    let mut count = 0;
    let mut rest = text;
    while let Some(i) = rest.find(needle) {
        count += 1;
        rest = &rest[i + needle.len()..];
    }
    count
}

fn header_value<'a>(text: &'a str, name: &str) -> &'a str {
    let key = format!("{}: ", name);
    let start = text.find(&key).expect("header present") + key.len();
    let end = text[start..].find("\r\n").expect("header line ends") + start;
    &text[start..end]
}

#[test]
fn framing_has_exactly_one_of_each_body_header() {
    let mut resp = Response::new(StatusCode::Okay);
    resp.set_body("Hello".to_string(), "text/plain");
    let text = resp.send();
    assert!(text.starts_with("HTTP/1.1 200 OK\r\n"));
    assert!(text.ends_with("\r\n\r\nHello"));
    for name in ["Etag", "Date", "Cache-Control", "Content-Type", "Content-Length"] {
        assert_eq!(count_occurrences(&text, &format!("{}: ", name)), 1, "{}", name);
    }
    assert_eq!(header_value(&text, "Content-Length"), "5");
    assert_eq!(header_value(&text, "Content-Type"), "text/plain");
    assert_eq!(
        header_value(&text, "Cache-Control"),
        "public, max-age=0, must-revalidate"
    );
}

#[test]
fn etag_is_the_quoted_md5_of_the_body() {
    let mut resp = Response::new(StatusCode::Okay);
    resp.set_body("Hello".to_string(), "text/plain");
    let text = resp.send();
    assert_eq!(
        header_value(&text, "Etag"),
        "\"8b1a9953c4611296a827abf8c47804d7\""
    );
}

#[test]
fn content_length_counts_bytes_not_characters() {
    let mut resp = Response::new(StatusCode::Okay);
    resp.set_body("héllo".to_string(), "text/plain");
    let text = resp.send();
    // five characters, six bytes
    assert_eq!(header_value(&text, "Content-Length"), "6");
}

#[test]
fn date_header_is_one_clean_line() {
    let mut resp = Response::new(StatusCode::Okay);
    resp.set_body("x".to_string(), "text/plain");
    let text = resp.send();
    let date = header_value(&text, "Date");
    assert!(!date.contains('\r') && !date.contains('\n'));
    // the fixed IMF-fixdate shape, e.g. "Sun, 06 Nov 1994 08:49:37 GMT"
    assert!(date.len() >= 29);
    assert!(date.ends_with(" GMT"));
    assert_eq!(&date[3..5], ", ");
    assert_eq!(&date[7..8], " ");
    let time = &date[date.len() - 12..date.len() - 4];
    let tb = time.as_bytes();
    assert!(tb[2] == b':' && tb[5] == b':');
    for k in [0, 1, 3, 4, 6, 7] {
        assert!(tb[k].is_ascii_digit());
    }
}

#[test]
fn response_without_body_has_no_body_headers() {
    let resp = Response::new(StatusCode::NoContent);
    let text = resp.send();
    assert_eq!(text, "HTTP/1.1 204 No Content\r\n\r\n");
}

#[test]
fn added_header_is_emitted_and_replaced() {
    let mut resp = Response::new(StatusCode::Okay);
    resp.add_header("X-Kind", "a");
    resp.add_header("X-Kind", "b");
    let text = resp.send();
    assert_eq!(count_occurrences(&text, "X-Kind: "), 1);
    assert_eq!(header_value(&text, "X-Kind"), "b");
}

#[test]
fn status_table_is_fixed() {
    let table: [(StatusCode, u16, &str); 13] = [
        (StatusCode::Okay, 200, "OK"),
        (StatusCode::Created, 201, "Created"),
        (StatusCode::NoContent, 204, "No Content"),
        (StatusCode::BadRequest, 400, "Bad Request"),
        (StatusCode::Unauthorized, 401, "Unauthorized"),
        (StatusCode::Forbidden, 403, "Forbidden"),
        (StatusCode::NotFound, 404, "Not Found"),
        (StatusCode::MethodNotAllowed, 405, "Method Not Allowed"),
        (StatusCode::NotAcceptable, 406, "Not Acceptable"),
        (StatusCode::InternalServerError, 500, "Internal Server Error"),
        (StatusCode::NotImplemented, 501, "Not Implemented"),
        (StatusCode::BadGateway, 502, "Bad Gateway"),
        (StatusCode::ServiceUnavailable, 503, "Service Unavailable"),
    ];
    for (code, number, phrase) in table.iter() {
        assert_eq!(code.code(), *number);
        assert_eq!(code.reason_phrase(), *phrase);
    }
}

#[test]
fn status_line_uses_code_and_reason() {
    let resp = Response::new(StatusCode::ServiceUnavailable);
    let text = resp.send();
    assert!(text.starts_with("HTTP/1.1 503 Service Unavailable\r\n"));
}
