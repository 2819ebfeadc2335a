use vstd::prelude::*;
use vstd::utf8::encode_utf8;

use super::headers::{Headers, insert_entry, keys_distinct, lemma_insert_entry, headers_map};
use super::request::content_length_of;
use super::status::{StatusCode, status_code_number, status_reason_text};
use super::text::{decimal_chars, decimal_string, lemma_decimal_parse_roundtrip};

verus! {

/// A response as a mathematical value.
pub struct ResponseView {
    pub status: StatusCode,
    pub headers: Seq<(Seq<char>, Seq<char>)>,
    pub body: Option<Seq<u8>>,
}

/// An HTTP response: a status, headers in the order they were first set, and an optional body.
#[derive(Debug)]
pub struct HttpResponse {
    pub status: StatusCode,
    pub headers: Headers,
    pub body: Option<Vec<u8>>,
}

impl View for HttpResponse {
    type V = ResponseView;

    open spec fn view(&self) -> ResponseView {
        ResponseView {
            status: self.status,
            headers: self.headers@,
            body: match self.body {
                Some(b) => Some(b@),
                None => None,
            },
        }
    }
}

/// A response with a status, no headers and no body.
pub open spec fn bare_response(status: StatusCode) -> ResponseView {
    ResponseView { status, headers: Seq::empty(), body: None }
}

/// `r` with header `k` set to `v`.
pub open spec fn with_header(r: ResponseView, k: Seq<char>, v: Seq<char>) -> ResponseView {
    ResponseView { headers: insert_entry(r.headers, k, v), ..r }
}

/// `r` with body `b`, and `Content-Length` set to the decimal length of `b`.
pub open spec fn with_body(r: ResponseView, b: Seq<u8>) -> ResponseView {
    ResponseView {
        headers: insert_entry(r.headers, "Content-Length"@, decimal_chars(b.len())),
        body: Some(b),
        ..r
    }
}

/// A plain-text response whose body is the UTF-8 encoding of `text`.
pub open spec fn text_response(status: StatusCode, text: Seq<char>) -> ResponseView {
    with_body(with_header(bare_response(status), "Content-Type"@, "text/plain"@), encode_utf8(text))
}

/// The header lines of a response, each `key: value` followed by CRLF, in order.
pub open spec fn header_block(es: Seq<(Seq<char>, Seq<char>)>) -> Seq<char>
    decreases es.len(),
{
    if es.len() == 0 {
        Seq::empty()
    } else {
        header_block(es.drop_last()) + es.last().0 + ": "@ + es.last().1 + "\r\n"@
    }
}

/// The status line, the header lines and the blank line that end the head of a response.
pub open spec fn response_head(r: ResponseView) -> Seq<char> {
    "HTTP/1.1 "@ + decimal_chars(status_code_number(r.status) as nat) + " "@ + status_reason_text(
        r.status,
    ) + "\r\n"@ + header_block(r.headers) + "\r\n"@
}

/// The bytes sent for a response: its head in UTF-8, then its body.
pub open spec fn response_bytes(r: ResponseView) -> Seq<u8> {
    encode_utf8(response_head(r)) + match r.body {
        Some(b) => b,
        None => Seq::empty(),
    }
}

impl HttpResponse {
    /// A response with the given status, no headers and no body.
    pub fn new(status: StatusCode) -> (r: HttpResponse)
        ensures
            r@ == bare_response(status),
    {
        HttpResponse { status, headers: Headers::new(), body: None }
    }

    /// The response with header `key` set to `value`.
    pub fn header(self, key: &str, value: &str) -> (r: HttpResponse)
        ensures
            r@ == with_header(self@, key@, value@),
    {
        let mut r = self;
        r.headers.insert(String::from_str(key), String::from_str(value));
        r
    }

    /// The response with `body` as its body and `Content-Length` set to its length.
    pub fn body(self, body: Vec<u8>) -> (r: HttpResponse)
        ensures
            r@ == with_body(self@, body@),
    {
        let mut r = self;
        let len = decimal_string(body.len());
        r.headers.insert(String::from_str("Content-Length"), len);
        r.body = Some(body);
        r
    }

    /// A `200 OK` response with the given body and content type.
    pub fn ok(body: Vec<u8>, content_type: &str) -> (r: HttpResponse)
        ensures
            r@ == with_body(
                with_header(bare_response(StatusCode::OK), "Content-Type"@, content_type@),
                body@,
            ),
    {
        HttpResponse::new(StatusCode::OK).header("Content-Type", content_type).body(body)
    }

    /// A plain-text response with the given status and message as its body.
    fn plain_text(status: StatusCode, text: &str) -> (r: HttpResponse)
        ensures
            r@ == text_response(status, text@),
    {
        HttpResponse::new(status).header("Content-Type", "text/plain").body(text.as_bytes_vec())
    }

    /// `404 Not Found`, with that text as a plain-text body.
    pub fn not_found() -> (r: HttpResponse)
        ensures
            r@ == text_response(StatusCode::NotFound, "404 Not Found"@),
    {
        HttpResponse::plain_text(StatusCode::NotFound, "404 Not Found")
    }

    /// `500 Internal Server Error`, with that text as a plain-text body.
    pub fn internal_server_error() -> (r: HttpResponse)
        ensures
            r@ == text_response(StatusCode::InternalServerError, "500 Internal Server Error"@),
    {
        HttpResponse::plain_text(StatusCode::InternalServerError, "500 Internal Server Error")
    }

    /// `405 Method Not Allowed`, with that text as a plain-text body.
    pub fn method_not_allowed() -> (r: HttpResponse)
        ensures
            r@ == text_response(StatusCode::MethodNotAllowed, "405 Method Not Allowed"@),
    {
        HttpResponse::plain_text(StatusCode::MethodNotAllowed, "405 Method Not Allowed")
    }

    /// The bytes of the response as sent on the wire: status line, header lines,
    /// a blank line, then the body.
    pub fn to_bytes(&self) -> (b: Vec<u8>)
        ensures
            b@ == response_bytes(self@),
            b@.take(encode_utf8(response_head(self@)).len() as int) == encode_utf8(
                response_head(self@),
            ),
            match self@.body {
                Some(body) => b@.len() == encode_utf8(response_head(self@)).len() + body.len()
                    && b@.skip(encode_utf8(response_head(self@)).len() as int) == body,
                None => b@.len() == encode_utf8(response_head(self@)).len(),
            },
    {
        let mut s = String::from_str("HTTP/1.1 ");
        let code = decimal_string(self.status.code() as usize);
        s.append(code.as_str());
        s.append(" ");
        s.append(self.status.reason());
        s.append("\r\n");
        let ghost status_line = s@;
        let ghost es = self@.headers;
        assert(es.take(0) =~= Seq::<(Seq<char>, Seq<char>)>::empty());
        let mut i: usize = 0;
        while i < self.headers.len()
            invariant
                es == self.headers@,
                i <= es.len(),
                s@ == status_line + header_block(es.take(i as int)),
            decreases es.len() - i,
        {
            let (k, v) = self.headers.entry(i);
            s.append(k.as_str());
            s.append(": ");
            s.append(v.as_str());
            s.append("\r\n");
            assert(es.take(i + 1).drop_last() =~= es.take(i as int));
            i = i + 1;
        }
        assert(es.take(i as int) =~= es);
        s.append("\r\n");
        let mut bytes = s.as_str().as_bytes_vec();
        assert(s@ =~= response_head(self@));
        let ghost head_bytes = bytes@;
        match &self.body {
            Some(body) => {
                let mut j: usize = 0;
                while j < body.len()
                    invariant
                        j <= body@.len(),
                        bytes@ == head_bytes + body@.take(j as int),
                    decreases body.len() - j,
                {
                    bytes.push(body[j]);
                    assert(body@.take(j + 1) =~= body@.take(j as int).push(body@[j as int]));
                    j = j + 1;
                }
                assert(body@.take(j as int) =~= body@);
            },
            None => {
                assert(bytes@ =~= head_bytes + Seq::<u8>::empty());
            },
        }
        proof {
            lemma_wire_bytes_end_with_body(self@);
        }
        bytes
    }
}

/// The bytes sent for a response are its head in UTF-8 followed by exactly its body, all of
/// it and nothing after it; a response without a body sends its head alone.
pub proof fn lemma_wire_bytes_end_with_body(r: ResponseView)
    ensures
        response_bytes(r).take(encode_utf8(response_head(r)).len() as int) == encode_utf8(
            response_head(r),
        ),
        match r.body {
            Some(b) => response_bytes(r).len() == encode_utf8(response_head(r)).len() + b.len()
                && response_bytes(r).skip(encode_utf8(response_head(r)).len() as int) == b,
            None => response_bytes(r).len() == encode_utf8(response_head(r)).len(),
        },
{
    let h = encode_utf8(response_head(r));
    let w = response_bytes(r);
    assert(w.take(h.len() as int) =~= h);
    match r.body {
        Some(b) => {
            assert(w.skip(h.len() as int) =~= b);
        },
        None => {},
    }
}

/// The header lines of a response list every header, in order, each exactly as
/// `key: value` and a line ending: the lines of the first `i + 1` headers are the lines of
/// the first `i` followed by the line of header `i`, and the lines of all of them are the
/// block that the head holds.
pub proof fn lemma_head_lists_every_header(r: ResponseView, i: int)
    requires
        0 <= i < r.headers.len(),
    ensures
        header_block(r.headers.take(i + 1)) == header_block(r.headers.take(i)) + r.headers[i].0
            + ": "@ + r.headers[i].1 + "\r\n"@,
        header_block(r.headers.take(r.headers.len() as int)) == header_block(r.headers),
{
    assert(r.headers.take(i + 1).drop_last() =~= r.headers.take(i));
    assert(r.headers.take(i + 1).last() == r.headers[i]);
    assert(r.headers.take(r.headers.len() as int) =~= r.headers);
}

/// A response framed with a body announces, in its `Content-Length` header, exactly the
/// number of bytes that follow its head on the wire.
pub proof fn lemma_announced_length_matches_wire(r: ResponseView, b: Seq<u8>)
    requires
        keys_distinct(r.headers),
        b.len() <= usize::MAX,
    ensures
        content_length_of(with_body(r, b).headers) == response_bytes(with_body(r, b)).len()
            - encode_utf8(response_head(with_body(r, b))).len(),
{
    lemma_body_sets_content_length(r, b);
    lemma_wire_bytes_end_with_body(with_body(r, b));
}

/// Setting a header binds exactly the given value: afterwards the key reads as `v`, every
/// other header reads as before, and the status and body are untouched.
pub proof fn lemma_header_binds_value(r: ResponseView, k: Seq<char>, v: Seq<char>)
    requires
        keys_distinct(r.headers),
    ensures
        keys_distinct(with_header(r, k, v).headers),
        headers_map(with_header(r, k, v).headers) == headers_map(r.headers).insert(k, v),
        headers_map(with_header(r, k, v).headers)[k] == v,
        with_header(r, k, v).status == r.status,
        with_header(r, k, v).body == r.body,
{
    lemma_insert_entry(r.headers, k, v);
}

/// Setting a body keeps exactly that body, and the other headers read as before.
pub proof fn lemma_body_binds_bytes(r: ResponseView, b: Seq<u8>)
    requires
        keys_distinct(r.headers),
    ensures
        keys_distinct(with_body(r, b).headers),
        with_body(r, b).body == Some(b),
        with_body(r, b).status == r.status,
        headers_map(with_body(r, b).headers) == headers_map(r.headers).insert(
            "Content-Length"@,
            decimal_chars(b.len()),
        ),
{
    lemma_insert_entry(r.headers, "Content-Length"@, decimal_chars(b.len()));
}

/// A `200 OK` response built by `ok` carries exactly the given body, its content type
/// exactly as given, and the body's length, and no other header.
pub proof fn lemma_ok_response(b: Seq<u8>, content_type: Seq<char>)
    requires
        b.len() <= usize::MAX,
    ensures
        ({
            let r = with_body(
                with_header(bare_response(StatusCode::OK), "Content-Type"@, content_type),
                b,
            );
            &&& r.status == StatusCode::OK
            &&& r.body == Some(b)
            &&& headers_map(r.headers) == Map::<Seq<char>, Seq<char>>::empty().insert(
                "Content-Type"@,
                content_type,
            ).insert("Content-Length"@, decimal_chars(b.len()))
            &&& content_length_of(r.headers) == b.len()
        }),
{
    let r0 = bare_response(StatusCode::OK);
    assert(headers_map(r0.headers) =~= Map::<Seq<char>, Seq<char>>::empty());
    lemma_header_binds_value(r0, "Content-Type"@, content_type);
    let r1 = with_header(r0, "Content-Type"@, content_type);
    lemma_body_binds_bytes(r1, b);
    lemma_body_sets_content_length(r1, b);
}

/// A response framed with a body announces that body's exact length: its `Content-Length`
/// header reads back, as `HttpRequest::content_length` reads one, as the number of body bytes.
pub proof fn lemma_body_sets_content_length(r: ResponseView, b: Seq<u8>)
    requires
        keys_distinct(r.headers),
        b.len() <= usize::MAX,
    ensures
        content_length_of(with_body(r, b).headers) == b.len(),
        with_body(r, b).body == Some(b),
{
    lemma_insert_entry(r.headers, "Content-Length"@, decimal_chars(b.len()));
    lemma_decimal_parse_roundtrip(b.len() as usize);
    assert(headers_map(with_body(r, b).headers).contains_key("Content-Length"@));
}

} // verus!
