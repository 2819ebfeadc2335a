use vstd::prelude::*;
use vstd::utf8::{decode_utf8, encode_utf8, valid_utf8};

use crate::http::request::{HttpRequest, ParseError, parse_request, RequestView, ParseErrorView};
use crate::http::response::{
    HttpResponse, bare_response, text_response, with_body, with_header,
};
use crate::http::status::StatusCode;
use crate::router::{Router, first_route};

verus! {

/// The largest request read from a connection, in bytes; a read that fills the whole buffer
/// is refused as too large.
pub const MAX_REQUEST_SIZE: usize = 8192;

/// The most connections served at once.
pub const MAX_CONNECTIONS: usize = 100;

/// What `String::from_utf8_lossy` gives for `bytes`: the text they encode, with each invalid
/// sequence replaced by U+FFFD.
pub uninterp spec fn utf8_lossy(bytes: Seq<u8>) -> Seq<char>;

/// `String::from_utf8_lossy`: the text of `bytes`, with invalid UTF-8 replaced by U+FFFD.
/// Its documentation says that valid UTF-8 is decoded unchanged; what it gives for invalid
/// input depends on the bytes alone and is named, not stated.
#[verifier::external_body]
fn decode_utf8_lossy(bytes: &[u8]) -> (s: String)
    ensures
        s@ == utf8_lossy(bytes@),
        valid_utf8(bytes@) ==> s@ == decode_utf8(bytes@),
{
    String::from_utf8_lossy(bytes).into_owned()
}

/// How a connection goes on after its first read.
#[derive(Debug, Clone, Copy, PartialEq, Eq, Structural)]
pub enum ReadOutcome {
    /// The peer closed the connection before sending anything.
    Closed,
    /// The request filled the whole buffer and is refused.
    TooLarge,
    /// The bytes read are a request to answer.
    Request,
}

/// What to do with a connection whose first read returned `n` bytes.
pub fn classify_read(n: usize) -> (o: ReadOutcome)
    ensures
        o == (if n == 0 {
            ReadOutcome::Closed
        } else if n == MAX_REQUEST_SIZE {
            ReadOutcome::TooLarge
        } else {
            ReadOutcome::Request
        }),
{
    if n == 0 {
        ReadOutcome::Closed
    } else if n == MAX_REQUEST_SIZE {
        ReadOutcome::TooLarge
    } else {
        ReadOutcome::Request
    }
}

/// The answer to a request that filled the whole read buffer.
pub fn too_large_response() -> (r: HttpResponse)
    ensures
        r@ == text_response(StatusCode::BadRequest, "400 Request Too Large"@),
{
    HttpResponse::new(StatusCode::BadRequest).header("Content-Type", "text/plain").body(
        "400 Request Too Large".as_bytes_vec(),
    )
}

/// Whether a new connection is served, given how many were being served when it arrived.
pub fn admit_connection(active: usize) -> (b: bool)
    ensures
        b == (active < MAX_CONNECTIONS),
{
    active < MAX_CONNECTIONS
}

/// The server never serves more than `MAX_CONNECTIONS` connections at once: where at most
/// that many were being served, admitting or refusing one more leaves at most that many.
pub proof fn lemma_connections_bounded(active: nat)
    requires
        active <= MAX_CONNECTIONS,
    ensures
        (if active < MAX_CONNECTIONS {
            active + 1
        } else {
            active
        }) <= MAX_CONNECTIONS,
{
}

/// The request that the bytes read from a connection hold, read as text with invalid UTF-8
/// replaced.
pub fn request_from_bytes(bytes: &[u8]) -> (r: Result<HttpRequest, ParseError>)
    ensures
        match r {
            Ok(req) => parse_request(utf8_lossy(bytes@)) == Ok::<RequestView, ParseErrorView>(
                req@,
            ),
            Err(e) => parse_request(utf8_lossy(bytes@)) == Err::<RequestView, ParseErrorView>(
                e@,
            ),
        },
{
    let text = decode_utf8_lossy(bytes);
    HttpRequest::parse(text.as_str())
}

/// The answer to a connection's request: `500 Internal Server Error` where it did not parse;
/// otherwise the static file found for it, if any, else what the router answers.
pub fn respond<H: Fn(HttpRequest) -> HttpResponse>(
    router: &Router<H>,
    parsed: Result<HttpRequest, ParseError>,
    static_hit: Option<HttpResponse>,
) -> (res: HttpResponse)
    requires
        parsed matches Ok(req) ==> router.accepts(req),
    ensures
        match parsed {
            Err(_) => res@ == text_response(
                StatusCode::InternalServerError,
                "500 Internal Server Error"@,
            ),
            Ok(req) => match static_hit {
                Some(s) => res == s,
                None => match first_route(router.route_keys(), req@.method, req@.path) {
                    Some(i) => call_ensures(router.handlers()[i], (req,), res),
                    None => res@ == text_response(StatusCode::NotFound, "404 Not Found"@),
                },
            },
        },
{
    match parsed {
        Err(_) => HttpResponse::internal_server_error(),
        Ok(req) => match static_hit {
            Some(s) => s,
            None => router.handle(req),
        },
    }
}

/// The handler of `/about`: a small HTML page.
pub fn about_handler(_req: HttpRequest) -> (r: HttpResponse)
    ensures
        r@ == with_body(
            with_header(bare_response(StatusCode::OK), "Content-Type"@, "text/html"@),
            encode_utf8("<h1>About page</h1>"@),
        ),
{
    HttpResponse::ok("<h1>About page</h1>".as_bytes_vec(), "text/html")
}

/// The handler of `/echo`: the request's body sent back as plain text, or `(no body)`.
pub fn echo_handler(req: HttpRequest) -> (r: HttpResponse)
    ensures
        r@ == with_body(
            with_header(bare_response(StatusCode::OK), "Content-Type"@, "text/plain"@),
            match req@.body {
                Some(b) => b,
                None => encode_utf8("(no body)"@),
            },
        ),
{
    let body = match req.body {
        Some(b) => b,
        None => "(no body)".as_bytes_vec(),
    };
    HttpResponse::ok(body, "text/plain")
}

} // verus!
