//! The response builder: a status code, an optional body and its headers,
//! assembled and serialized into the wire text written back to the client.

use vstd::prelude::*;
use vstd::string::StrSliceExecFns;
use vstd::string::StringSliceAdditionalSpecFns;
use vstd::utf8::encode_utf8;

use crate::status_code::StatusCode;
use crate::text::dec_string;
use crate::text::spec_dec;
use crate::text::str_eq;

verus! {

/// The 32 lowercase hex digits of the MD5 digest of a text, a function of the
/// text alone.
pub uninterp spec fn md5_hex(s: Seq<char>) -> Seq<char>;

/// Whether `c` is a lowercase hex digit.
pub open spec fn is_hex_lower(c: char) -> bool {
    (0x30 <= c as u32 <= 0x39) || (0x61 <= c as u32 <= 0x66)
}

/// Relies on md5::compute and the digest's lowercase-hex rendering: a
/// 16-byte digest printed as 32 lowercase hex digits, a function of the
/// input text alone.
#[verifier::external_body]
fn md5_hex_string(body: &str) -> (r: String)
    ensures
        r@ == md5_hex(body@),
        r@.len() == 32,
        forall|i: int| 0 <= i < r@.len() ==> is_hex_lower(#[trigger] r@[i]),
{
    format!("{:x}", md5::compute(body))
}

/// Whether `s` holds no carriage return and no line feed, so that it can
/// stand as one header value without breaking the framing.
pub open spec fn no_crlf(s: Seq<char>) -> bool {
    forall|i: int| 0 <= i < s.len() ==> #[trigger] s[i] != '\r' && s[i] != '\n'
}

/// Whether `c` is a decimal digit.
pub open spec fn spec_is_digit(c: char) -> bool {
    0x30 <= c as u32 <= 0x39
}

/// Whether `c` is an ASCII letter.
pub open spec fn spec_is_letter(c: char) -> bool {
    (0x41 <= c as u32 <= 0x5a) || (0x61 <= c as u32 <= 0x7a)
}

/// The shape of a date in the fixed IMF-fixdate form, as in
/// `Sun, 06 Nov 1994 08:49:37 GMT`: a three-letter weekday and `, `, a
/// two-digit day, a three-letter month, the year's digits (a sign and more
/// digits only for years outside four digits), then `HH:MM:SS GMT`.
pub open spec fn is_imf_fixdate(s: Seq<char>) -> bool {
    let n = s.len() as int;
    &&& n >= 29
    &&& spec_is_letter(s[0]) && spec_is_letter(s[1]) && spec_is_letter(s[2])
    &&& s[3] == ',' && s[4] == ' '
    &&& spec_is_digit(s[5]) && spec_is_digit(s[6]) && s[7] == ' '
    &&& spec_is_letter(s[8]) && spec_is_letter(s[9]) && spec_is_letter(s[10]) && s[11] == ' '
    &&& (forall|j: int|
        12 <= j < n - 13 ==> spec_is_digit(#[trigger] s[j]) || s[j] == '+' || s[j] == '-')
    &&& s[n - 13] == ' '
    &&& spec_is_digit(s[n - 12]) && spec_is_digit(s[n - 11]) && s[n - 10] == ':'
    &&& spec_is_digit(s[n - 9]) && spec_is_digit(s[n - 8]) && s[n - 7] == ':'
    &&& spec_is_digit(s[n - 6]) && spec_is_digit(s[n - 5])
    &&& s[n - 4] == ' ' && s[n - 3] == 'G' && s[n - 2] == 'M' && s[n - 1] == 'T'
}

/// Relies on chrono's Utc::now and DateTime::format with the IMF-fixdate
/// pattern: the rendering is a three-letter English weekday, `, `, a
/// zero-padded two-digit day, a three-letter English month, the year
/// (four digits, or a sign and more digits outside that range), the
/// zero-padded time, and ` GMT` — one line with no carriage return and no
/// line feed, whatever the clock read.
#[verifier::external_body]
fn http_date() -> (r: String)
    ensures
        no_crlf(r@),
        is_imf_fixdate(r@),
{
    let now: chrono::DateTime<chrono::Utc> = std::time::SystemTime::now().into();
    now.format("%a, %d %b %Y %H:%M:%S GMT").to_string()
}

/// The mathematical shape of a response: its status, the characters of its
/// body when one is set, and its header pairs in order.
pub struct ResponseModel {
    pub status: StatusCode,
    pub body: Option<Seq<char>>,
    pub headers: Seq<(Seq<char>, Seq<char>)>,
}

/// A response under construction: status code, optional body, headers.
#[derive(Debug)]
pub struct Response {
    status_code: StatusCode,
    body: Option<String>,
    headers: Vec<(String, String)>,
}

impl View for Response {
    type V = ResponseModel;

    closed spec fn view(&self) -> ResponseModel {
        ResponseModel {
            status: self.status_code,
            body: match self.body {
                Some(b) => Some(b@),
                None => None,
            },
            headers: self.headers@.map_values(|p: (String, String)| (p.0@, p.1@)),
        }
    }
}

/// A response with this status and nothing else yet.
pub open spec fn spec_new_response(status: StatusCode) -> ResponseModel {
    ResponseModel { status, body: None, headers: Seq::empty() }
}

/// First header position holding the name `k`, if any.
pub open spec fn spec_find_header(hs: Seq<(Seq<char>, Seq<char>)>, k: Seq<char>) -> Option<int>
    decreases hs.len(),
{
    if hs.len() == 0 {
        None
    } else if hs[0].0 == k {
        Some(0int)
    } else {
        match spec_find_header(hs.skip(1), k) {
            Some(i) => Some(i + 1),
            None => None,
        }
    }
}

/// What `spec_find_header` returns: the first position with that name, or
/// `None` when no header carries it.
pub proof fn lemma_find_header(hs: Seq<(Seq<char>, Seq<char>)>, k: Seq<char>)
    ensures
        match spec_find_header(hs, k) {
            Some(i) => 0 <= i < hs.len() && hs[i].0 == k && (forall|j: int|
                0 <= j < i ==> #[trigger] hs[j].0 != k),
            None => forall|j: int| 0 <= j < hs.len() ==> #[trigger] hs[j].0 != k,
        },
    decreases hs.len(),
{
    if hs.len() > 0 && hs[0].0 != k {
        lemma_find_header(hs.skip(1), k);
        match spec_find_header(hs.skip(1), k) {
            Some(i) => {
                assert(hs.skip(1)[i] == hs[i + 1]);
                assert(forall|j: int| 1 <= j < i + 1 ==> hs[j] == hs.skip(1)[j - 1]);
            },
            None => {
                assert(forall|j: int| 1 <= j < hs.len() ==> hs[j] == hs.skip(1)[j - 1]);
            },
        }
    }
}

/// The headers after setting name `k` to value `v`: the first header with
/// that name is replaced, or the pair is appended when the name is new.
pub open spec fn spec_set_header(
    hs: Seq<(Seq<char>, Seq<char>)>,
    k: Seq<char>,
    v: Seq<char>,
) -> Seq<(Seq<char>, Seq<char>)> {
    match spec_find_header(hs, k) {
        None => hs.push((k, v)),
        Some(i) => hs.update(i, (k, v)),
    }
}

/// The model after a body is set: the body itself, and the five headers it
/// brings with it, the date being whatever the clock rendered.
pub open spec fn spec_with_body(
    r: ResponseModel,
    body: Seq<char>,
    ctype: Seq<char>,
    date: Seq<char>,
) -> ResponseModel {
    ResponseModel {
        status: r.status,
        body: Some(body),
        headers: spec_set_header(
            spec_set_header(
                spec_set_header(
                    spec_set_header(
                        spec_set_header(r.headers, "Etag"@, "\""@ + md5_hex(body) + "\""@),
                        "Content-Type"@,
                        ctype,
                    ),
                    "Content-Length"@,
                    spec_dec(encode_utf8(body).len()),
                ),
                "Date"@,
                date,
            ),
            "Cache-Control"@,
            "public, max-age=0, must-revalidate"@,
        ),
    }
}

/// One serialized header line.
pub open spec fn spec_header_line(h: (Seq<char>, Seq<char>)) -> Seq<char> {
    h.0 + ": "@ + h.1 + "\r\n"@
}

/// The serialized header block, one line per header, in order.
pub open spec fn spec_header_lines(hs: Seq<(Seq<char>, Seq<char>)>) -> Seq<char>
    decreases hs.len(),
{
    if hs.len() == 0 {
        Seq::empty()
    } else {
        spec_header_line(hs[0]) + spec_header_lines(hs.skip(1))
    }
}

/// The wire text of a response: status line, header lines, a blank line,
/// then the raw body when one is set.
pub open spec fn spec_serialize(r: ResponseModel) -> Seq<char> {
    "HTTP/1.1 "@ + spec_dec(r.status.spec_code() as nat) + " "@ + r.status.spec_reason_phrase()
        + "\r\n"@ + spec_header_lines(r.headers) + "\r\n"@ + (match r.body {
        Some(b) => b,
        None => Seq::<char>::empty(),
    })
}

impl Response {
    /// A response with this status and nothing else yet.
    pub fn new(status_code: StatusCode) -> (r: Response)
        ensures
            r@ == spec_new_response(status_code),
    {
        let r = Response { status_code, body: None, headers: Vec::new() };
        proof {
            assert(r@.headers =~= spec_new_response(status_code).headers);
        }
        r
    }

    /// Sets header `key` to `value`, replacing an earlier value of that key.
    pub fn add_header(&mut self, key: &str, value: &str)
        ensures
            final(self)@.status == old(self)@.status,
            final(self)@.body == old(self)@.body,
            final(self)@.headers == spec_set_header(old(self)@.headers, key@, value@),
    {
        let ghost hv = self@.headers;
        let n = self.headers.len();
        let mut j: usize = 0;
        while j < n
            invariant
                n == self.headers@.len(),
                j <= n,
                self == old(self),
                hv == self@.headers,
                forall|i: int| 0 <= i < j ==> #[trigger] hv[i].0 != key@,
            decreases n - j,
        {
            if str_eq(self.headers[j].0.as_str(), key) {
                proof {
                    lemma_find_header_is(hv, key@, j as int);
                }
                let _old = self.headers.remove(j);
                self.headers.insert(j, (key.to_owned(), value.to_owned()));
                proof {
                    assert(self@.headers =~= hv.update(j as int, (key@, value@)));
                }
                return ;
            }
            j += 1;
        }
        proof {
            lemma_find_header(hv, key@);
            if let Some(i) = spec_find_header(hv, key@) {
                assert(hv[i].0 != key@);
            }
        }
        self.headers.push((key.to_owned(), value.to_owned()));
        proof {
            assert(self@.headers =~= hv.push((key@, value@)));
        }
    }

    /// Sets the body and the headers that come with it: `Etag` (the quoted
    /// MD5 digest of the body), `Content-Type`, `Content-Length` (the byte
    /// length of the body), `Date` (the clock now), and `Cache-Control`.
    pub fn set_body(&mut self, body: String, content_type: &str)
        ensures
            exists|d: Seq<char>|
                no_crlf(d) && is_imf_fixdate(d) && final(self)@ == #[trigger] spec_with_body(
                    old(self)@,
                    body@,
                    content_type@,
                    d,
                ),
    {
        let hex = md5_hex_string(body.as_str());
        let mut etag = "\"".to_owned();
        etag.append(hex.as_str());
        etag.append("\"");
        proof {
            assert(etag@ =~= "\""@ + md5_hex(body@) + "\""@);
        }
        self.add_header("Etag", etag.as_str());
        let len = body.as_str().as_bytes().len();
        let ghost gbody = body@;
        self.body = Some(body);
        self.add_header("Content-Type", content_type);
        let len_text = dec_string(len as u64);
        self.add_header("Content-Length", len_text.as_str());
        let date = http_date();
        let ghost gdate = date@;
        self.add_header("Date", date.as_str());
        self.add_header("Cache-Control", "public, max-age=0, must-revalidate");
        proof {
            assert(final(self)@ == spec_with_body(old(self)@, gbody, content_type@, gdate));
        }
    }

    /// Serializes the response into the wire text a caller writes to its
    /// socket: status line, header lines, a blank line, then the body.
    pub fn send(&self) -> (r: String)
        ensures
            r@ == spec_serialize(self@),
    {
        let mut out = "HTTP/1.1 ".to_owned();
        let code_text = dec_string(self.status_code.code() as u64);
        out.append(code_text.as_str());
        out.append(" ");
        out.append(self.status_code.reason_phrase());
        out.append("\r\n");
        let ghost pre = "HTTP/1.1 "@ + spec_dec(self@.status.spec_code() as nat) + " "@
            + self@.status.spec_reason_phrase() + "\r\n"@;
        proof {
            assert(out@ =~= pre);
            assert(self@.headers.skip(0) =~= self@.headers);
        }
        let ghost hv = self@.headers;
        let n = self.headers.len();
        let mut i: usize = 0;
        while i < n
            invariant
                n == self.headers@.len(),
                hv == self@.headers,
                i <= n,
                out@ + spec_header_lines(hv.skip(i as int)) =~= pre + spec_header_lines(hv),
            decreases n - i,
        {
            let pair = &self.headers[i];
            out.append(pair.0.as_str());
            out.append(": ");
            out.append(pair.1.as_str());
            out.append("\r\n");
            proof {
                let rest = hv.skip(i as int);
                assert(rest[0] == hv[i as int]);
                assert(rest.skip(1) =~= hv.skip(i + 1));
                assert(spec_header_lines(rest) == spec_header_line(hv[i as int])
                    + spec_header_lines(hv.skip(i + 1)));
                assert(out@ + spec_header_lines(hv.skip(i + 1)) =~= pre + spec_header_lines(hv));
            }
            i += 1;
        }
        proof {
            assert(hv.skip(n as int) =~= Seq::<(Seq<char>, Seq<char>)>::empty());
            assert(out@ =~= pre + spec_header_lines(hv));
        }
        out.append("\r\n");
        match &self.body {
            Some(b) => {
                out.append(b.as_str());
            },
            None => {},
        }
        proof {
            assert(out@ =~= spec_serialize(self@));
        }
        out
    }
}

/// Setting a header name that no header carries appends the pair.
proof fn lemma_set_header_fresh(hs: Seq<(Seq<char>, Seq<char>)>, k: Seq<char>, v: Seq<char>)
    requires
        forall|j: int| 0 <= j < hs.len() ==> #[trigger] hs[j].0 != k,
    ensures
        spec_set_header(hs, k, v) == hs.push((k, v)),
{
    lemma_find_header(hs, k);
    if let Some(i) = spec_find_header(hs, k) {
        assert(hs[i].0 != k);
    }
}

/// Serializing the header block of one more header appends its line.
proof fn lemma_header_lines_push(hs: Seq<(Seq<char>, Seq<char>)>, p: (Seq<char>, Seq<char>))
    ensures
        spec_header_lines(hs.push(p)) == spec_header_lines(hs) + spec_header_line(p),
    decreases hs.len(),
{
    if hs.len() == 0 {
        assert(hs.push(p)[0] == p);
        assert(hs.push(p).skip(1) =~= Seq::<(Seq<char>, Seq<char>)>::empty());
        assert(spec_header_lines(hs.push(p).skip(1)) == Seq::<char>::empty());
        assert(spec_header_lines(hs.push(p)) == spec_header_line(p) + Seq::<char>::empty());
        assert(spec_header_lines(hs) == Seq::<char>::empty());
        assert(spec_header_lines(hs.push(p)) =~= spec_header_lines(hs) + spec_header_line(p));
    } else {
        assert(hs.push(p)[0] == hs[0]);
        assert(hs.push(p).skip(1) =~= hs.skip(1).push(p));
        lemma_header_lines_push(hs.skip(1), p);
        assert(spec_header_lines(hs.push(p)) =~= spec_header_lines(hs) + spec_header_line(p));
    }
}

/// Everything that precedes the date value in the serialization of a fresh
/// response given a body.
pub open spec fn spec_date_prefix(status: StatusCode, body: Seq<char>, ctype: Seq<char>) -> Seq<
    char,
> {
    "HTTP/1.1 "@ + spec_dec(status.spec_code() as nat) + " "@ + status.spec_reason_phrase()
        + "\r\n"@ + spec_header_line(("Etag"@, "\""@ + md5_hex(body) + "\""@)) + spec_header_line(
        ("Content-Type"@, ctype),
    ) + spec_header_line(("Content-Length"@, spec_dec(encode_utf8(body).len()))) + "Date"@ + ": "@
}

/// Everything that follows the date value in that serialization.
pub open spec fn spec_date_suffix(body: Seq<char>) -> Seq<char> {
    "\r\n"@ + spec_header_line(("Cache-Control"@, "public, max-age=0, must-revalidate"@)) + "\r\n"@
        + body
}

/// Setting a body on a fresh response yields exactly the five body headers,
/// one of each, in this order: `Etag` with the quoted digest of the body,
/// `Content-Type`, `Content-Length` with the body's byte length, `Date`, and
/// `Cache-Control`.
pub proof fn lemma_fresh_body_headers(
    status: StatusCode,
    body: Seq<char>,
    ctype: Seq<char>,
    d: Seq<char>,
)
    ensures
        spec_with_body(spec_new_response(status), body, ctype, d).headers =~= seq![
            ("Etag"@, "\""@ + md5_hex(body) + "\""@),
            ("Content-Type"@, ctype),
            ("Content-Length"@, spec_dec(encode_utf8(body).len())),
            ("Date"@, d),
            ("Cache-Control"@, "public, max-age=0, must-revalidate"@),
        ],
{
    reveal_strlit("Etag");
    reveal_strlit("Content-Type");
    reveal_strlit("Content-Length");
    reveal_strlit("Date");
    reveal_strlit("Cache-Control");
    assert("Etag"@.len() == 4);
    assert("Content-Type"@.len() == 12);
    assert("Content-Length"@.len() == 14);
    assert("Date"@.len() == 4);
    assert("Cache-Control"@.len() == 13);
    assert("Etag"@[0] == 'E' && "Date"@[0] == 'D');
    let e = ("Etag"@, "\""@ + md5_hex(body) + "\""@);
    let ct = ("Content-Type"@, ctype);
    let cl = ("Content-Length"@, spec_dec(encode_utf8(body).len()));
    let dh = ("Date"@, d);
    let cc = ("Cache-Control"@, "public, max-age=0, must-revalidate"@);
    let h0 = Seq::<(Seq<char>, Seq<char>)>::empty();
    lemma_set_header_fresh(h0, e.0, e.1);
    lemma_set_header_fresh(h0.push(e), ct.0, ct.1);
    lemma_set_header_fresh(h0.push(e).push(ct), cl.0, cl.1);
    lemma_set_header_fresh(h0.push(e).push(ct).push(cl), dh.0, dh.1);
    lemma_set_header_fresh(h0.push(e).push(ct).push(cl).push(dh), cc.0, cc.1);
}

/// The serialized text of a fresh response given a body depends on the clock
/// only in its date slot: the text before and after the date is a function of
/// the status, body and content type alone. Two responses to the same input
/// are therefore identical but for the date between those two parts.
pub proof fn lemma_serialize_date_slot(
    status: StatusCode,
    body: Seq<char>,
    ctype: Seq<char>,
    d: Seq<char>,
)
    ensures
        spec_serialize(spec_with_body(spec_new_response(status), body, ctype, d))
            == spec_date_prefix(status, body, ctype) + d + spec_date_suffix(body),
{
    reveal_strlit("Etag");
    reveal_strlit("Content-Type");
    reveal_strlit("Content-Length");
    reveal_strlit("Date");
    reveal_strlit("Cache-Control");
    assert("Etag"@.len() == 4);
    assert("Content-Type"@.len() == 12);
    assert("Content-Length"@.len() == 14);
    assert("Date"@.len() == 4);
    assert("Cache-Control"@.len() == 13);
    assert("Etag"@[0] == 'E' && "Date"@[0] == 'D');
    let e = ("Etag"@, "\""@ + md5_hex(body) + "\""@);
    let ct = ("Content-Type"@, ctype);
    let cl = ("Content-Length"@, spec_dec(encode_utf8(body).len()));
    let dh = ("Date"@, d);
    let cc = ("Cache-Control"@, "public, max-age=0, must-revalidate"@);
    let h0 = Seq::<(Seq<char>, Seq<char>)>::empty();
    lemma_set_header_fresh(h0, e.0, e.1);
    let h1 = h0.push(e);
    lemma_set_header_fresh(h1, ct.0, ct.1);
    let h2 = h1.push(ct);
    lemma_set_header_fresh(h2, cl.0, cl.1);
    let h3 = h2.push(cl);
    lemma_set_header_fresh(h3, dh.0, dh.1);
    let h4 = h3.push(dh);
    lemma_set_header_fresh(h4, cc.0, cc.1);
    let h5 = h4.push(cc);
    assert(spec_with_body(spec_new_response(status), body, ctype, d).headers == h5);
    lemma_header_lines_push(h0, e);
    lemma_header_lines_push(h1, ct);
    lemma_header_lines_push(h2, cl);
    lemma_header_lines_push(h3, dh);
    lemma_header_lines_push(h4, cc);
    assert(spec_header_lines(h0) =~= Seq::<char>::empty());
    assert(spec_serialize(spec_with_body(spec_new_response(status), body, ctype, d))
        =~= spec_date_prefix(status, body, ctype) + d + spec_date_suffix(body));
}

/// A header position that carries `k`, with no earlier one, is the position
/// `spec_find_header` returns.
pub proof fn lemma_find_header_is(hs: Seq<(Seq<char>, Seq<char>)>, k: Seq<char>, i: int)
    requires
        0 <= i < hs.len(),
        hs[i].0 == k,
        forall|j: int| 0 <= j < i ==> #[trigger] hs[j].0 != k,
    ensures
        spec_find_header(hs, k) == Some(i),
{
    lemma_find_header(hs, k);
    match spec_find_header(hs, k) {
        Some(m) => {
            if m < i {
                assert(hs[m].0 != k);
            } else if i < m {
                assert(hs[i].0 != k);
            }
        },
        None => {
            assert(hs[i].0 != k);
        },
    }
}

} // verus!
