use vstd::prelude::*;

verus! {

/// The HTTP status codes this server answers with.
#[derive(Debug, Clone, Copy, PartialEq, Eq, Structural)]
pub enum StatusCode {
    // 2XX Success
    OK,
    Created,
    NoContent,
    // 3XX Redirection
    MovedPermanently,
    Found,
    NotModified,
    // 4XX Client Errors
    BadRequest,
    Unauthorized,
    Forbidden,
    NotFound,
    MethodNotAllowed,
    UnprocessableEntity,
    // 5XX Server Errors
    InternalServerError,
    NotImplemented,
    BadGateway,
    ServiceUnavailable,
}

/// The numeric code of a status, as RFC 9110 assigns it.
pub open spec fn status_code_number(s: StatusCode) -> u16 {
    match s {
        StatusCode::OK => 200,
        StatusCode::Created => 201,
        StatusCode::NoContent => 204,
        StatusCode::MovedPermanently => 301,
        StatusCode::Found => 302,
        StatusCode::NotModified => 304,
        StatusCode::BadRequest => 400,
        StatusCode::Unauthorized => 401,
        StatusCode::Forbidden => 403,
        StatusCode::NotFound => 404,
        StatusCode::MethodNotAllowed => 405,
        StatusCode::UnprocessableEntity => 422,
        StatusCode::InternalServerError => 500,
        StatusCode::NotImplemented => 501,
        StatusCode::BadGateway => 502,
        StatusCode::ServiceUnavailable => 503,
    }
}

/// The reason phrase sent after the numeric code in a status line.
pub open spec fn status_reason_text(s: StatusCode) -> Seq<char> {
    match s {
        StatusCode::OK => "OK"@,
        StatusCode::Created => "Created"@,
        StatusCode::NoContent => "No Content"@,
        StatusCode::MovedPermanently => "Moved Permanently"@,
        StatusCode::Found => "Found"@,
        StatusCode::NotModified => "Not Modified"@,
        StatusCode::BadRequest => "Bad Request"@,
        StatusCode::Unauthorized => "Unauthorized"@,
        StatusCode::Forbidden => "Forbidden"@,
        StatusCode::NotFound => "Not Found"@,
        StatusCode::MethodNotAllowed => "Method Not Allowed"@,
        StatusCode::UnprocessableEntity => "Unprocessable Entity"@,
        StatusCode::InternalServerError => "Internal Server Error"@,
        StatusCode::NotImplemented => "Not Implemented"@,
        StatusCode::BadGateway => "Bad Gateway"@,
        StatusCode::ServiceUnavailable => "Service Unavailable"@,
    }
}

impl StatusCode {
    /// The numeric status code.
    pub fn code(&self) -> (c: u16)
        ensures
            c == status_code_number(*self),
    {
        match self {
            StatusCode::OK => 200,
            StatusCode::Created => 201,
            StatusCode::NoContent => 204,
            StatusCode::MovedPermanently => 301,
            StatusCode::Found => 302,
            StatusCode::NotModified => 304,
            StatusCode::BadRequest => 400,
            StatusCode::Unauthorized => 401,
            StatusCode::Forbidden => 403,
            StatusCode::NotFound => 404,
            StatusCode::MethodNotAllowed => 405,
            StatusCode::UnprocessableEntity => 422,
            StatusCode::InternalServerError => 500,
            StatusCode::NotImplemented => 501,
            StatusCode::BadGateway => 502,
            StatusCode::ServiceUnavailable => 503,
        }
    }

    /// The reason phrase of the status.
    pub fn reason(&self) -> (r: &'static str)
        ensures
            r@ == status_reason_text(*self),
    {
        match self {
            StatusCode::OK => "OK",
            StatusCode::Created => "Created",
            StatusCode::NoContent => "No Content",
            StatusCode::MovedPermanently => "Moved Permanently",
            StatusCode::Found => "Found",
            StatusCode::NotModified => "Not Modified",
            StatusCode::BadRequest => "Bad Request",
            StatusCode::Unauthorized => "Unauthorized",
            StatusCode::Forbidden => "Forbidden",
            StatusCode::NotFound => "Not Found",
            StatusCode::MethodNotAllowed => "Method Not Allowed",
            StatusCode::UnprocessableEntity => "Unprocessable Entity",
            StatusCode::InternalServerError => "Internal Server Error",
            StatusCode::NotImplemented => "Not Implemented",
            StatusCode::BadGateway => "Bad Gateway",
            StatusCode::ServiceUnavailable => "Service Unavailable",
        }
    }
}

/// Distinct statuses have distinct numeric codes, so a code names its status.
pub proof fn lemma_status_code_injective(a: StatusCode, b: StatusCode)
    ensures
        status_code_number(a) == status_code_number(b) ==> a == b,
{
}

/// Every code is a three-digit number, and its first digit is the class of the status:
/// 2 for success, 3 for redirection, 4 for client errors, 5 for server errors.
pub proof fn lemma_status_code_class(s: StatusCode)
    ensures
        100 <= status_code_number(s) <= 599,
        (status_code_number(s) / 100 == 2) <==> (s is OK || s is Created || s is NoContent),
        (status_code_number(s) / 100 == 3) <==> (s is MovedPermanently || s is Found
            || s is NotModified),
        (status_code_number(s) / 100 == 4) <==> (s is BadRequest || s is Unauthorized
            || s is Forbidden || s is NotFound || s is MethodNotAllowed
            || s is UnprocessableEntity),
        (status_code_number(s) / 100 == 5) <==> (s is InternalServerError || s is NotImplemented
            || s is BadGateway || s is ServiceUnavailable),
{
}

} // verus!
