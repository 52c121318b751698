//! An HTTP message codec: typed requests, responses and status codes,
//! their serialization to bytes, and parsers that read them back from a
//! byte stream.  The sockets that carry the bytes live with the
//! surrounding program.

use vstd::prelude::*;
use vstd::string::StringSliceAdditionalSpecFns;
use vstd::utf8::encode_utf8;
use crate::misc::ReadableVec;
use crate::strmap::{sv_has_key, sv_map, StringMap};

verus! {

// ---------------------------------------------------------------------
// Decimal notation
// ---------------------------------------------------------------------

/// The decimal digits of `n`, most significant first.
pub open spec fn dec_digits(n: nat) -> Seq<u8>
    decreases n,
{
    if n < 10 {
        seq![(n + 48) as u8]
    } else {
        dec_digits((n / 10) as nat).push(((n % 10) + 48) as u8)
    }
}

/// The decimal notation of `n`, with a leading minus sign when negative.
pub open spec fn dec_int(n: int) -> Seq<u8> {
    if n < 0 {
        seq![45u8] + dec_digits((-n) as nat)
    } else {
        dec_digits(n as nat)
    }
}

/// The decimal digits of `n`, executed; see [`dec_digits`].
fn u64_dec(n: u64) -> (v: Vec<u8>)
    ensures
        v@ == dec_digits(n as nat),
    decreases n,
{
    if n < 10 {
        let mut v: Vec<u8> = Vec::new();
        v.push((n as u8) + 48);
        proof {
            assert(v@ =~= dec_digits(n as nat));
        }
        v
    } else {
        let mut v = u64_dec(n / 10);
        v.push(((n % 10) as u8) + 48);
        v
    }
}

/// The decimal notation of `n`, executed; see [`dec_int`].
fn i32_dec(n: i32) -> (v: Vec<u8>)
    ensures
        v@ == dec_int(n as int),
{
    let wide: i64 = n as i64;
    if wide < 0 {
        let mut v: Vec<u8> = Vec::new();
        v.push(45);
        let mut d = u64_dec((-wide) as u64);
        v.append(&mut d);
        proof {
            assert(v@ =~= dec_int(n as int));
        }
        v
    } else {
        u64_dec(wide as u64)
    }
}

/// Writes an HTTP version pair as its wire notation: the two numbers in
/// decimal around a dot.
pub fn httpver_to_vecu8(httpver: (i32, i32)) -> (out: Vec<u8>)
    ensures
        out@ == dec_int(httpver.0 as int) + seq![46u8] + dec_int(httpver.1 as int),
{
    let mut out = i32_dec(httpver.0);
    out.push(46);
    let mut minor = i32_dec(httpver.1);
    out.append(&mut minor);
    proof {
        assert(out@ =~= dec_int(httpver.0 as int) + seq![46u8] + dec_int(httpver.1 as int));
    }
    out
}

// ---------------------------------------------------------------------
// Status codes
// ---------------------------------------------------------------------

/// An HTTP status code of the standard (with a few in jest).
#[derive(Clone, Debug)]
pub enum HttpStatusCodes {
    /// Status 100.
    Continue,
    /// Status 101.
    SwitchingProtocols,
    /// Status 102.
    Processing,
    /// Status 103.
    EarlyHints,
    /// Status 200.
    Okay,
    /// Status 201.
    Created,
    /// Status 202.
    Accepted,
    /// Status 203.
    NonAuthoritativeInformation,
    /// Status 204.
    NoContent,
    /// Status 205.
    ResetContent,
    /// Status 206.
    PartialContent,
    /// Status 207.
    MultiStatus,
    /// Status 208.
    AlreadyReported,
    /// Status 226.
    IMUsed,
    /// Status 300.
    MultipleChoices,
    /// Status 301.
    MovedPermanently,
    /// Status 302.
    Found,
    /// Status 303.
    SeeOther,
    /// Status 304.
    NotModified,
    /// Status 305.
    UseProxy,
    /// Status 306.
    Reserved306,
    /// Status 307.
    TemporaryRedirect,
    /// Status 308.
    PermanentRedirect,
    /// Status 400.
    BadRequest,
    /// Status 401.
    Unauthorized,
    /// Status 402.
    PaymentRequired,
    /// Status 403.
    Forbidden,
    /// Status 404.
    NotFound,
    /// Status 405.
    MethodNotAllowed,
    /// Status 406.
    NotAcceptable,
    /// Status 407.
    ProxyAuthenticationRequired,
    /// Status 408.
    RequestTimeout,
    /// Status 409.
    Conflict,
    /// Status 410.
    Gone,
    /// Status 411.
    LengthRequired,
    /// Status 412.
    PreconditionFailed,
    /// Status 413.
    PayloadTooLarge,
    /// Status 414.
    URITooLong,
    /// Status 415.
    UnsupportedMediaType,
    /// Status 416.
    RangeNotSatisfiable,
    /// Status 417.
    ExpectationFailed,
    /// Status 418.
    ImATeapot,
    /// Status 420.
    ChillOutMan,
    /// Status 421.
    MisdirectedRequest,
    /// Status 422.
    UnprocessableContent,
    /// Status 423.
    Locked,
    /// Status 424.
    FailedDependency,
    /// Status 425.
    TooEarly,
    /// Status 426.
    UpgradeRequired,
    /// Status 428.
    PreconditionRequired,
    /// Status 429.
    TooManyRequests,
    /// Status 431.
    RequestHeaderFieldsTooLarge,
    /// Status 451.
    UnavailableForLegalReasons,
    /// Status 500.
    InternalServerError,
    /// Status 501.
    NotImplemented,
    /// Status 502.
    BadGateway,
    /// Status 503.
    ServiceUnavailable,
    /// Status 504.
    GatewayTimeout,
    /// Status 505.
    HTTPVersionNotSupported,
    /// Status 506.
    VariantAlsoNegotiates,
    /// Status 507.
    InsufficientStorage,
    /// Status 508.
    LoopDetected,
    /// Status 510.
    NotExtended,
    /// Status 511.
    NetworkAuthenticationRequired,
}

impl HttpStatusCodes {
    /// The numeric code of this status.
    pub open spec fn spec_code(self) -> int {
        match self {
            HttpStatusCodes::Continue => 100,
            HttpStatusCodes::SwitchingProtocols => 101,
            HttpStatusCodes::Processing => 102,
            HttpStatusCodes::EarlyHints => 103,
            HttpStatusCodes::Okay => 200,
            HttpStatusCodes::Created => 201,
            HttpStatusCodes::Accepted => 202,
            HttpStatusCodes::NonAuthoritativeInformation => 203,
            HttpStatusCodes::NoContent => 204,
            HttpStatusCodes::ResetContent => 205,
            HttpStatusCodes::PartialContent => 206,
            HttpStatusCodes::MultiStatus => 207,
            HttpStatusCodes::AlreadyReported => 208,
            HttpStatusCodes::IMUsed => 226,
            HttpStatusCodes::MultipleChoices => 300,
            HttpStatusCodes::MovedPermanently => 301,
            HttpStatusCodes::Found => 302,
            HttpStatusCodes::SeeOther => 303,
            HttpStatusCodes::NotModified => 304,
            HttpStatusCodes::UseProxy => 305,
            HttpStatusCodes::Reserved306 => 306,
            HttpStatusCodes::TemporaryRedirect => 307,
            HttpStatusCodes::PermanentRedirect => 308,
            HttpStatusCodes::BadRequest => 400,
            HttpStatusCodes::Unauthorized => 401,
            HttpStatusCodes::PaymentRequired => 402,
            HttpStatusCodes::Forbidden => 403,
            HttpStatusCodes::NotFound => 404,
            HttpStatusCodes::MethodNotAllowed => 405,
            HttpStatusCodes::NotAcceptable => 406,
            HttpStatusCodes::ProxyAuthenticationRequired => 407,
            HttpStatusCodes::RequestTimeout => 408,
            HttpStatusCodes::Conflict => 409,
            HttpStatusCodes::Gone => 410,
            HttpStatusCodes::LengthRequired => 411,
            HttpStatusCodes::PreconditionFailed => 412,
            HttpStatusCodes::PayloadTooLarge => 413,
            HttpStatusCodes::URITooLong => 414,
            HttpStatusCodes::UnsupportedMediaType => 415,
            HttpStatusCodes::RangeNotSatisfiable => 416,
            HttpStatusCodes::ExpectationFailed => 417,
            HttpStatusCodes::ImATeapot => 418,
            HttpStatusCodes::ChillOutMan => 420,
            HttpStatusCodes::MisdirectedRequest => 421,
            HttpStatusCodes::UnprocessableContent => 422,
            HttpStatusCodes::Locked => 423,
            HttpStatusCodes::FailedDependency => 424,
            HttpStatusCodes::TooEarly => 425,
            HttpStatusCodes::UpgradeRequired => 426,
            HttpStatusCodes::PreconditionRequired => 428,
            HttpStatusCodes::TooManyRequests => 429,
            HttpStatusCodes::RequestHeaderFieldsTooLarge => 431,
            HttpStatusCodes::UnavailableForLegalReasons => 451,
            HttpStatusCodes::InternalServerError => 500,
            HttpStatusCodes::NotImplemented => 501,
            HttpStatusCodes::BadGateway => 502,
            HttpStatusCodes::ServiceUnavailable => 503,
            HttpStatusCodes::GatewayTimeout => 504,
            HttpStatusCodes::HTTPVersionNotSupported => 505,
            HttpStatusCodes::VariantAlsoNegotiates => 506,
            HttpStatusCodes::InsufficientStorage => 507,
            HttpStatusCodes::LoopDetected => 508,
            HttpStatusCodes::NotExtended => 510,
            HttpStatusCodes::NetworkAuthenticationRequired => 511,
        }
    }

    /// The numeric code of this status.
    pub fn code(&self) -> (c: i32)
        ensures
            c == self.spec_code(),
    {
        match self {
            HttpStatusCodes::Continue => 100,
            HttpStatusCodes::SwitchingProtocols => 101,
            HttpStatusCodes::Processing => 102,
            HttpStatusCodes::EarlyHints => 103,
            HttpStatusCodes::Okay => 200,
            HttpStatusCodes::Created => 201,
            HttpStatusCodes::Accepted => 202,
            HttpStatusCodes::NonAuthoritativeInformation => 203,
            HttpStatusCodes::NoContent => 204,
            HttpStatusCodes::ResetContent => 205,
            HttpStatusCodes::PartialContent => 206,
            HttpStatusCodes::MultiStatus => 207,
            HttpStatusCodes::AlreadyReported => 208,
            HttpStatusCodes::IMUsed => 226,
            HttpStatusCodes::MultipleChoices => 300,
            HttpStatusCodes::MovedPermanently => 301,
            HttpStatusCodes::Found => 302,
            HttpStatusCodes::SeeOther => 303,
            HttpStatusCodes::NotModified => 304,
            HttpStatusCodes::UseProxy => 305,
            HttpStatusCodes::Reserved306 => 306,
            HttpStatusCodes::TemporaryRedirect => 307,
            HttpStatusCodes::PermanentRedirect => 308,
            HttpStatusCodes::BadRequest => 400,
            HttpStatusCodes::Unauthorized => 401,
            HttpStatusCodes::PaymentRequired => 402,
            HttpStatusCodes::Forbidden => 403,
            HttpStatusCodes::NotFound => 404,
            HttpStatusCodes::MethodNotAllowed => 405,
            HttpStatusCodes::NotAcceptable => 406,
            HttpStatusCodes::ProxyAuthenticationRequired => 407,
            HttpStatusCodes::RequestTimeout => 408,
            HttpStatusCodes::Conflict => 409,
            HttpStatusCodes::Gone => 410,
            HttpStatusCodes::LengthRequired => 411,
            HttpStatusCodes::PreconditionFailed => 412,
            HttpStatusCodes::PayloadTooLarge => 413,
            HttpStatusCodes::URITooLong => 414,
            HttpStatusCodes::UnsupportedMediaType => 415,
            HttpStatusCodes::RangeNotSatisfiable => 416,
            HttpStatusCodes::ExpectationFailed => 417,
            HttpStatusCodes::ImATeapot => 418,
            HttpStatusCodes::ChillOutMan => 420,
            HttpStatusCodes::MisdirectedRequest => 421,
            HttpStatusCodes::UnprocessableContent => 422,
            HttpStatusCodes::Locked => 423,
            HttpStatusCodes::FailedDependency => 424,
            HttpStatusCodes::TooEarly => 425,
            HttpStatusCodes::UpgradeRequired => 426,
            HttpStatusCodes::PreconditionRequired => 428,
            HttpStatusCodes::TooManyRequests => 429,
            HttpStatusCodes::RequestHeaderFieldsTooLarge => 431,
            HttpStatusCodes::UnavailableForLegalReasons => 451,
            HttpStatusCodes::InternalServerError => 500,
            HttpStatusCodes::NotImplemented => 501,
            HttpStatusCodes::BadGateway => 502,
            HttpStatusCodes::ServiceUnavailable => 503,
            HttpStatusCodes::GatewayTimeout => 504,
            HttpStatusCodes::HTTPVersionNotSupported => 505,
            HttpStatusCodes::VariantAlsoNegotiates => 506,
            HttpStatusCodes::InsufficientStorage => 507,
            HttpStatusCodes::LoopDetected => 508,
            HttpStatusCodes::NotExtended => 510,
            HttpStatusCodes::NetworkAuthenticationRequired => 511,
        }
    }

    /// The status that carries the numeric code `c`, if the standard
    /// names one.
    pub fn from_i32(c: i32) -> (r: Option<HttpStatusCodes>)
        ensures
            r == status_from_code(c as int),
            r matches Some(s) ==> s.spec_code() == c,
    {
        match c {
        100 => Some(HttpStatusCodes::Continue),
        101 => Some(HttpStatusCodes::SwitchingProtocols),
        102 => Some(HttpStatusCodes::Processing),
        103 => Some(HttpStatusCodes::EarlyHints),
        200 => Some(HttpStatusCodes::Okay),
        201 => Some(HttpStatusCodes::Created),
        202 => Some(HttpStatusCodes::Accepted),
        203 => Some(HttpStatusCodes::NonAuthoritativeInformation),
        204 => Some(HttpStatusCodes::NoContent),
        205 => Some(HttpStatusCodes::ResetContent),
        206 => Some(HttpStatusCodes::PartialContent),
        207 => Some(HttpStatusCodes::MultiStatus),
        208 => Some(HttpStatusCodes::AlreadyReported),
        226 => Some(HttpStatusCodes::IMUsed),
        300 => Some(HttpStatusCodes::MultipleChoices),
        301 => Some(HttpStatusCodes::MovedPermanently),
        302 => Some(HttpStatusCodes::Found),
        303 => Some(HttpStatusCodes::SeeOther),
        304 => Some(HttpStatusCodes::NotModified),
        305 => Some(HttpStatusCodes::UseProxy),
        306 => Some(HttpStatusCodes::Reserved306),
        307 => Some(HttpStatusCodes::TemporaryRedirect),
        308 => Some(HttpStatusCodes::PermanentRedirect),
        400 => Some(HttpStatusCodes::BadRequest),
        401 => Some(HttpStatusCodes::Unauthorized),
        402 => Some(HttpStatusCodes::PaymentRequired),
        403 => Some(HttpStatusCodes::Forbidden),
        404 => Some(HttpStatusCodes::NotFound),
        405 => Some(HttpStatusCodes::MethodNotAllowed),
        406 => Some(HttpStatusCodes::NotAcceptable),
        407 => Some(HttpStatusCodes::ProxyAuthenticationRequired),
        408 => Some(HttpStatusCodes::RequestTimeout),
        409 => Some(HttpStatusCodes::Conflict),
        410 => Some(HttpStatusCodes::Gone),
        411 => Some(HttpStatusCodes::LengthRequired),
        412 => Some(HttpStatusCodes::PreconditionFailed),
        413 => Some(HttpStatusCodes::PayloadTooLarge),
        414 => Some(HttpStatusCodes::URITooLong),
        415 => Some(HttpStatusCodes::UnsupportedMediaType),
        416 => Some(HttpStatusCodes::RangeNotSatisfiable),
        417 => Some(HttpStatusCodes::ExpectationFailed),
        418 => Some(HttpStatusCodes::ImATeapot),
        420 => Some(HttpStatusCodes::ChillOutMan),
        421 => Some(HttpStatusCodes::MisdirectedRequest),
        422 => Some(HttpStatusCodes::UnprocessableContent),
        423 => Some(HttpStatusCodes::Locked),
        424 => Some(HttpStatusCodes::FailedDependency),
        425 => Some(HttpStatusCodes::TooEarly),
        426 => Some(HttpStatusCodes::UpgradeRequired),
        428 => Some(HttpStatusCodes::PreconditionRequired),
        429 => Some(HttpStatusCodes::TooManyRequests),
        431 => Some(HttpStatusCodes::RequestHeaderFieldsTooLarge),
        451 => Some(HttpStatusCodes::UnavailableForLegalReasons),
        500 => Some(HttpStatusCodes::InternalServerError),
        501 => Some(HttpStatusCodes::NotImplemented),
        502 => Some(HttpStatusCodes::BadGateway),
        503 => Some(HttpStatusCodes::ServiceUnavailable),
        504 => Some(HttpStatusCodes::GatewayTimeout),
        505 => Some(HttpStatusCodes::HTTPVersionNotSupported),
        506 => Some(HttpStatusCodes::VariantAlsoNegotiates),
        507 => Some(HttpStatusCodes::InsufficientStorage),
        508 => Some(HttpStatusCodes::LoopDetected),
        510 => Some(HttpStatusCodes::NotExtended),
        511 => Some(HttpStatusCodes::NetworkAuthenticationRequired),
            _ => None,
        }
    }
}

/// The status that carries the numeric code `c`, if the standard names
/// one.
pub open spec fn status_from_code(c: int) -> Option<HttpStatusCodes> {
    if c == 100 {
        Some(HttpStatusCodes::Continue)
    } else if c == 101 {
        Some(HttpStatusCodes::SwitchingProtocols)
    } else if c == 102 {
        Some(HttpStatusCodes::Processing)
    } else if c == 103 {
        Some(HttpStatusCodes::EarlyHints)
    } else if c == 200 {
        Some(HttpStatusCodes::Okay)
    } else if c == 201 {
        Some(HttpStatusCodes::Created)
    } else if c == 202 {
        Some(HttpStatusCodes::Accepted)
    } else if c == 203 {
        Some(HttpStatusCodes::NonAuthoritativeInformation)
    } else if c == 204 {
        Some(HttpStatusCodes::NoContent)
    } else if c == 205 {
        Some(HttpStatusCodes::ResetContent)
    } else if c == 206 {
        Some(HttpStatusCodes::PartialContent)
    } else if c == 207 {
        Some(HttpStatusCodes::MultiStatus)
    } else if c == 208 {
        Some(HttpStatusCodes::AlreadyReported)
    } else if c == 226 {
        Some(HttpStatusCodes::IMUsed)
    } else if c == 300 {
        Some(HttpStatusCodes::MultipleChoices)
    } else if c == 301 {
        Some(HttpStatusCodes::MovedPermanently)
    } else if c == 302 {
        Some(HttpStatusCodes::Found)
    } else if c == 303 {
        Some(HttpStatusCodes::SeeOther)
    } else if c == 304 {
        Some(HttpStatusCodes::NotModified)
    } else if c == 305 {
        Some(HttpStatusCodes::UseProxy)
    } else if c == 306 {
        Some(HttpStatusCodes::Reserved306)
    } else if c == 307 {
        Some(HttpStatusCodes::TemporaryRedirect)
    } else if c == 308 {
        Some(HttpStatusCodes::PermanentRedirect)
    } else if c == 400 {
        Some(HttpStatusCodes::BadRequest)
    } else if c == 401 {
        Some(HttpStatusCodes::Unauthorized)
    } else if c == 402 {
        Some(HttpStatusCodes::PaymentRequired)
    } else if c == 403 {
        Some(HttpStatusCodes::Forbidden)
    } else if c == 404 {
        Some(HttpStatusCodes::NotFound)
    } else if c == 405 {
        Some(HttpStatusCodes::MethodNotAllowed)
    } else if c == 406 {
        Some(HttpStatusCodes::NotAcceptable)
    } else if c == 407 {
        Some(HttpStatusCodes::ProxyAuthenticationRequired)
    } else if c == 408 {
        Some(HttpStatusCodes::RequestTimeout)
    } else if c == 409 {
        Some(HttpStatusCodes::Conflict)
    } else if c == 410 {
        Some(HttpStatusCodes::Gone)
    } else if c == 411 {
        Some(HttpStatusCodes::LengthRequired)
    } else if c == 412 {
        Some(HttpStatusCodes::PreconditionFailed)
    } else if c == 413 {
        Some(HttpStatusCodes::PayloadTooLarge)
    } else if c == 414 {
        Some(HttpStatusCodes::URITooLong)
    } else if c == 415 {
        Some(HttpStatusCodes::UnsupportedMediaType)
    } else if c == 416 {
        Some(HttpStatusCodes::RangeNotSatisfiable)
    } else if c == 417 {
        Some(HttpStatusCodes::ExpectationFailed)
    } else if c == 418 {
        Some(HttpStatusCodes::ImATeapot)
    } else if c == 420 {
        Some(HttpStatusCodes::ChillOutMan)
    } else if c == 421 {
        Some(HttpStatusCodes::MisdirectedRequest)
    } else if c == 422 {
        Some(HttpStatusCodes::UnprocessableContent)
    } else if c == 423 {
        Some(HttpStatusCodes::Locked)
    } else if c == 424 {
        Some(HttpStatusCodes::FailedDependency)
    } else if c == 425 {
        Some(HttpStatusCodes::TooEarly)
    } else if c == 426 {
        Some(HttpStatusCodes::UpgradeRequired)
    } else if c == 428 {
        Some(HttpStatusCodes::PreconditionRequired)
    } else if c == 429 {
        Some(HttpStatusCodes::TooManyRequests)
    } else if c == 431 {
        Some(HttpStatusCodes::RequestHeaderFieldsTooLarge)
    } else if c == 451 {
        Some(HttpStatusCodes::UnavailableForLegalReasons)
    } else if c == 500 {
        Some(HttpStatusCodes::InternalServerError)
    } else if c == 501 {
        Some(HttpStatusCodes::NotImplemented)
    } else if c == 502 {
        Some(HttpStatusCodes::BadGateway)
    } else if c == 503 {
        Some(HttpStatusCodes::ServiceUnavailable)
    } else if c == 504 {
        Some(HttpStatusCodes::GatewayTimeout)
    } else if c == 505 {
        Some(HttpStatusCodes::HTTPVersionNotSupported)
    } else if c == 506 {
        Some(HttpStatusCodes::VariantAlsoNegotiates)
    } else if c == 507 {
        Some(HttpStatusCodes::InsufficientStorage)
    } else if c == 508 {
        Some(HttpStatusCodes::LoopDetected)
    } else if c == 510 {
        Some(HttpStatusCodes::NotExtended)
    } else if c == 511 {
        Some(HttpStatusCodes::NetworkAuthenticationRequired)
    } else {
        None
    }
}

// ---------------------------------------------------------------------
// Errors
// ---------------------------------------------------------------------

/// The reason an invalid content length was reported.
#[derive(Debug)]
pub enum InvalidContentLengthReason {
    /// No `Content-Length` header stood in the message.
    MissingContentLength,
    /// The `Content-Length` value could not be read as an integer.
    MalformedContentLength,
}

/// An error of reading or sending an HTTP message.
#[derive(Debug)]
pub enum Error {
    /// The message could not be read for an unknown reason.
    UnreadableMessageError,
    /// The version was unreadable.
    InvalidVersionError,
    /// The status code could not be read as an integer.
    UnreadableStatusCode,
    /// The status code is not one the standard names.
    UnknownStatusError,
    /// The `Content-Length` header could not be used; the payload says
    /// why.
    InvalidContentLength(InvalidContentLengthReason),
    /// The stream ended before the message did.
    StreamReadError,
    /// The socket did not connect.
    CouldntConnect,
    /// The stream could not be written to.
    CouldntSend,
    /// The first five bytes were not `HTTP/`.
    NotHTTP,
}

// ---------------------------------------------------------------------
// Messages
// ---------------------------------------------------------------------

/// A response to an [`HTTPRequest`].
#[derive(Debug)]
pub struct HTTPResponse {
    /// The protocol tag; `HTTP` when built, `HTTP/` as read from the
    /// wire.
    pub httptag: Vec<u8>,
    /// The protocol version in use.
    pub httpversion: (i32, i32),
    /// The status of the response.
    pub statuscode: HttpStatusCodes,
    /// The human-readable reason, such as `OK` for 200.
    pub reason: Vec<u8>,
    /// The header fields of the response.
    pub headers: StringMap,
    /// The message body.
    pub content: Vec<u8>,
}

/// An HTTP request.
#[derive(Debug)]
pub struct HTTPRequest {
    /// The request method, such as `GET` or `POST`.
    pub method: Vec<u8>,
    /// The path of the request.
    pub path: Vec<u8>,
    /// The protocol tag; `HTTP` when built, `HTTP/` as read from the
    /// wire.
    pub httptag: Vec<u8>,
    /// The protocol version in use.
    pub httpversion: (i32, i32),
    /// The header fields of the request.
    pub headers: StringMap,
    /// The message body.
    pub content: Vec<u8>,
}

/// The bytes `\r\n`.
pub open spec fn crlf() -> Seq<u8> {
    seq![13u8, 10u8]
}

/// One serialized header field: the name, a colon and a space, the
/// value, and a line end.
pub open spec fn header_line(e: (Seq<char>, Seq<char>)) -> Seq<u8> {
    encode_utf8(e.0) + seq![58u8, 32u8] + encode_utf8(e.1) + crlf()
}

/// The serialized header fields from position `i` on, in storage order.
pub open spec fn headers_bytes(hs: Seq<(Seq<char>, Seq<char>)>, i: int) -> Seq<u8>
    decreases hs.len() - i,
{
    if i < 0 || i >= hs.len() {
        Seq::empty()
    } else {
        header_line(hs[i]) + headers_bytes(hs, i + 1)
    }
}

/// The serialized form of a request: the request line, the header
/// fields, and the body directly after them.
pub open spec fn request_bytes(r: HTTPRequest) -> Seq<u8> {
    r.method@ + seq![32u8] + r.path@ + seq![32u8] + r.httptag@ + seq![47u8] + dec_int(
        r.httpversion.0 as int,
    ) + seq![46u8] + dec_int(r.httpversion.1 as int) + crlf() + headers_bytes(
        r.headers.entries_seq(),
        0,
    ) + r.content@ + crlf()
}

/// The serialized form of a response: the status line, the header
/// fields, a blank line, and the body.
pub open spec fn response_bytes(r: HTTPResponse) -> Seq<u8> {
    r.httptag@ + seq![47u8] + dec_int(r.httpversion.0 as int) + seq![46u8] + dec_int(
        r.httpversion.1 as int,
    ) + seq![32u8] + dec_int(r.statuscode.spec_code()) + seq![32u8] + r.reason@ + crlf()
        + headers_bytes(r.headers.entries_seq(), 0) + crlf() + r.content@ + crlf()
}

/// Serializes the header fields of `headers` in storage order.
fn write_headers(headers: &StringMap, out: &mut Vec<u8>)
    ensures
        final(out)@ == old(out)@ + headers_bytes(headers.entries_seq(), 0),
{
    let ghost hs = headers.entries_seq();
    let ghost base = old(out)@;
    let n = headers.len();
    let mut i: usize = 0;
    while i < n
        invariant
            hs == headers.entries_seq(),
            n == hs.len(),
            i <= n,
            base + headers_bytes(hs, 0) == out@ + headers_bytes(hs, i as int),
        decreases n - i,
    {
        let e = headers.entry(i);
        let ghost before = out@;
        out.extend_from_slice(e.0.as_str().as_bytes());
        out.push(58);
        out.push(32);
        out.extend_from_slice(e.1.as_str().as_bytes());
        out.push(13);
        out.push(10);
        proof {
            assert(out@ =~= before + header_line(hs[i as int]));
            assert(before + (header_line(hs[i as int]) + headers_bytes(hs, i + 1)) =~= (before
                + header_line(hs[i as int])) + headers_bytes(hs, i + 1));
        }
        i += 1;
    }
    proof {
        assert(headers_bytes(hs, n as int) =~= Seq::<u8>::empty());
        assert(out@ =~= out@ + headers_bytes(hs, n as int));
        assert(out@ =~= base + headers_bytes(hs, 0));
    }
}

impl HTTPRequest {
    /// Serializes this request to its wire bytes; see [`request_bytes`].
    pub fn into_bytes(&self) -> (out: Vec<u8>)
        ensures
            out@ == request_bytes(*self),
    {
        let mut out: Vec<u8> = Vec::new();
        out.extend_from_slice(self.method.as_slice());
        out.push(32);
        out.extend_from_slice(self.path.as_slice());
        out.push(32);
        out.extend_from_slice(self.httptag.as_slice());
        out.push(47);
        let mut ver = httpver_to_vecu8(self.httpversion);
        out.append(&mut ver);
        out.push(13);
        out.push(10);
        let ghost head = out@;
        write_headers(&self.headers, &mut out);
        out.extend_from_slice(self.content.as_slice());
        out.push(13);
        out.push(10);
        proof {
            assert(out@ =~= request_bytes(*self));
        }
        out
    }
}

impl HTTPResponse {
    /// Serializes this response to its wire bytes; see
    /// [`response_bytes`].
    pub fn into_bytes(&self) -> (out: Vec<u8>)
        ensures
            out@ == response_bytes(*self),
    {
        let mut out: Vec<u8> = Vec::new();
        out.extend_from_slice(self.httptag.as_slice());
        out.push(47);
        let mut ver = httpver_to_vecu8(self.httpversion);
        out.append(&mut ver);
        out.push(32);
        let mut code = i32_dec(self.statuscode.code());
        out.append(&mut code);
        out.push(32);
        out.extend_from_slice(self.reason.as_slice());
        out.push(13);
        out.push(10);
        write_headers(&self.headers, &mut out);
        out.push(13);
        out.push(10);
        out.extend_from_slice(self.content.as_slice());
        out.push(13);
        out.push(10);
        proof {
            assert(out@ =~= response_bytes(*self));
        }
        out
    }

    /// A plain `200 OK` response with empty headers and no body.
    pub fn new() -> (r: HTTPResponse)
        ensures
            r.httptag@ == http_tag(),
            r.httpversion.0 == 1 && r.httpversion.1 == 1,
            r.statuscode is Okay,
            r.reason@ == ok_reason(),
            r.headers@ == Map::<Seq<char>, Seq<char>>::empty(),
            r.headers.wf(),
            r.headers.entries_seq() == Seq::<(Seq<char>, Seq<char>)>::empty(),
            r.content@ == Seq::<u8>::empty(),
    {
        let mut httptag: Vec<u8> = Vec::new();
        httptag.push(72);
        httptag.push(84);
        httptag.push(84);
        httptag.push(80);
        let mut reason: Vec<u8> = Vec::new();
        reason.push(79);
        reason.push(75);
        let r = HTTPResponse {
            httptag,
            httpversion: (1, 1),
            statuscode: HttpStatusCodes::Okay,
            reason,
            headers: StringMap::new(),
            content: Vec::new(),
        };
        proof {
            assert(r.httptag@ =~= http_tag());
            assert(r.reason@ =~= ok_reason());
            assert(r.content@ =~= Seq::<u8>::empty());
        }
        r
    }

    /// This response with the given status code and reason.
    pub fn with_statuscode(self, code: HttpStatusCodes, reason: Vec<u8>) -> (r: HTTPResponse)
        ensures
            r == (HTTPResponse { statuscode: code, reason, ..self }),
    {
        HTTPResponse { statuscode: code, reason, ..self }
    }

    /// This response with the given body.
    pub fn with_content(self, content: Vec<u8>) -> (r: HTTPResponse)
        ensures
            r == (HTTPResponse { content, ..self }),
    {
        HTTPResponse { content, ..self }
    }
}


// ---------------------------------------------------------------------
// Reading decimal integers
// ---------------------------------------------------------------------

/// The characters that the bytes of `s` denote, one character per byte.
pub open spec fn chars_of_bytes(s: Seq<u8>) -> Seq<char> {
    s.map_values(|b: u8| b as char)
}

/// Whether `c` is a decimal digit.
pub open spec fn ch_is_digit(c: char) -> bool {
    48 <= (c as u32) && (c as u32) <= 57
}

/// Whether every character of `s` is a decimal digit.
pub open spec fn chars_digits(s: Seq<char>) -> bool {
    forall|i: int| 0 <= i < s.len() ==> ch_is_digit(s[i])
}

/// The value of the digit string `s`, most significant first.
pub open spec fn digits_val(s: Seq<char>) -> int
    decreases s.len(),
{
    if s.len() == 0 {
        0
    } else {
        digits_val(s.drop_last()) * 10 + ((s.last() as u32) - 48)
    }
}

/// Ten to the `k`.
pub open spec fn pow10(k: nat) -> int
    decreases k,
{
    if k == 0 {
        1
    } else {
        10 * pow10((k - 1) as nat)
    }
}

/// Ten to the `k` is positive.
proof fn lemma_pow10_pos(k: nat)
    ensures
        pow10(k) >= 1,
    decreases k,
{
    if k > 0 {
        lemma_pow10_pos((k - 1) as nat);
    }
}

/// Splitting a digit string splits its value by a power of ten.
proof fn lemma_digits_concat(a: Seq<char>, b: Seq<char>)
    ensures
        digits_val(a + b) == digits_val(a) * pow10(b.len()) + digits_val(b),
    decreases b.len(),
{
    if b.len() == 0 {
        assert(a + b =~= a);
    } else {
        lemma_digits_concat(a, b.drop_last());
        assert((a + b).drop_last() =~= a + b.drop_last());
        assert((a + b).last() == b.last());
        let p = pow10((b.len() - 1) as nat);
        assert(digits_val(a) * p * 10 == digits_val(a) * (10 * p)) by (nonlinear_arith);
    }
}

/// A digit string's value lies under the power of ten of its length.
proof fn lemma_digits_bound(b: Seq<char>)
    requires
        chars_digits(b),
    ensures
        0 <= digits_val(b) < pow10(b.len()),
    decreases b.len(),
{
    if b.len() > 0 {
        assert(chars_digits(b.drop_last())) by {
            assert(forall|i: int|
                0 <= i < b.len() - 1 ==> b.drop_last()[i] == b[i] && ch_is_digit(b[i]));
        }
        lemma_digits_bound(b.drop_last());
        assert(ch_is_digit(b.last()));
    }
}

/// An all-zero digit string has value zero.
proof fn lemma_zeros_val(z: Seq<char>)
    requires
        forall|i: int| 0 <= i < z.len() ==> (z[i] as u32) == 48,
    ensures
        digits_val(z) == 0,
    decreases z.len(),
{
    if z.len() > 0 {
        lemma_zeros_val(z.drop_last());
        assert((z.last() as u32) == 48);
    }
}

/// A digit string that starts with a nonzero digit reaches the power of
/// ten of one less than its length.
proof fn lemma_sig_lower(b: Seq<char>)
    requires
        chars_digits(b),
        b.len() >= 1,
        (b[0] as u32) != 48,
    ensures
        digits_val(b) >= pow10((b.len() - 1) as nat),
{
    let d0 = seq![b[0]];
    let rest = b.drop_first();
    assert(b =~= d0 + rest);
    lemma_digits_concat(d0, rest);
    assert(chars_digits(rest)) by {
        assert(forall|i: int| 0 <= i < rest.len() ==> rest[i] == b[i + 1] && ch_is_digit(b[i + 1]));
    }
    lemma_digits_bound(rest);
    lemma_pow10_pos(rest.len());
    assert(ch_is_digit(b[0]));
    assert(digits_val(d0) >= 1) by {
        assert(d0.drop_last() =~= Seq::<char>::empty());
        assert(digits_val(Seq::<char>::empty()) == 0);
        assert(d0.last() == b[0]);
    }
    assert(digits_val(d0) * pow10(rest.len()) >= pow10(rest.len())) by (nonlinear_arith)
        requires digits_val(d0) >= 1 && pow10(rest.len()) >= 1;
}

/// The integer that the character string `s` denotes in the usual
/// decimal notation with an optional sign, if it denotes one that fits a
/// 32-bit signed integer.
pub open spec fn parse_int_spec(s: Seq<char>) -> Option<int> {
    if s.len() == 0 {
        None
    } else {
        let neg = s[0] == '-';
        let ds = if s[0] == '-' || s[0] == '+' {
            s.drop_first()
        } else {
            s
        };
        if ds.len() == 0 || !chars_digits(ds) {
            None
        } else {
            let v = if neg {
                -digits_val(ds)
            } else {
                digits_val(ds)
            };
            if v < -2147483648 || v > 2147483647 {
                None
            } else {
                Some(v)
            }
        }
    }
}

/// Reads `s` as a decimal 32-bit integer; see [`parse_int_spec`].
#[verifier::rlimit(100)]
pub fn parse_i32(s: &str) -> (r: Option<i32>)
    ensures
        match r {
            Some(v) => parse_int_spec(s@) == Some(v as int),
            None => parse_int_spec(s@) is None,
        },
{
    let len = s.unicode_len();
    if len == 0 {
        return None;
    }
    let first = s.get_char(0);
    let neg = first == '-';
    let start: usize = if first == '-' || first == '+' {
        1
    } else {
        0
    };
    let ghost ds = if first == '-' || first == '+' {
        s@.drop_first()
    } else {
        s@
    };
    proof {
        assert(ds =~= s@.subrange(start as int, len as int));
    }
    if start >= len {
        return None;
    }
    // every character must be a digit
    let mut i = start;
    while i < len
        invariant
            len == s@.len(),
            1 <= len,
            start < len,
            start <= 1,
            start <= i <= len,
            ds == s@.subrange(start as int, len as int),
            ds == (if s@[0] == '-' || s@[0] == '+' {
                s@.drop_first()
            } else {
                s@
            }),
            start == 1 <==> (s@[0] == '-' || s@[0] == '+'),
            forall|j: int| start <= j < i ==> ch_is_digit(s@[j]),
        decreases len - i,
    {
        let u = s.get_char(i) as u32;
        if u < 48 || u > 57 {
            proof {
                assert(ds[i - start] == s@[i as int]);
                assert(!ch_is_digit(ds[i - start]));
            }
            return None;
        }
        i += 1;
    }
    proof {
        assert(chars_digits(ds)) by {
            assert(forall|j: int|
                0 <= j < ds.len() ==> ds[j] == s@[start + j] && ch_is_digit(s@[start + j]));
        }
    }
    // skip the leading zeros
    let mut nz = start;
    while nz < len && (s.get_char(nz) as u32) == 48
        invariant
            len == s@.len(),
            start <= nz <= len,
            forall|j: int| start <= j < nz ==> (s@[j] as u32) == 48,
        decreases len - nz,
    {
        nz += 1;
    }
    let ghost zeros = s@.subrange(start as int, nz as int);
    let ghost sig = s@.subrange(nz as int, len as int);
    proof {
        assert(ds =~= zeros + sig);
        lemma_digits_concat(zeros, sig);
        lemma_zeros_val(zeros);
        assert(digits_val(ds) == digits_val(sig));
        assert(chars_digits(sig)) by {
            assert(forall|j: int|
                0 <= j < sig.len() ==> sig[j] == s@[nz + j] && ch_is_digit(s@[nz + j]));
        }
    }
    if len - nz > 10 {
        proof {
            assert((sig[0] as u32) != 48);
            lemma_sig_lower(sig);
            lemma_pow10_pos((sig.len() - 1) as nat);
            assert(pow10(10) == 10000000000) by {
                reveal_with_fuel(pow10, 12);
            }
            assert(pow10((sig.len() - 1) as nat) >= pow10(10)) by {
                lemma_pow10_mono(10, (sig.len() - 1) as nat);
            }
            assert(digits_val(ds) > 2147483647);
        }
        return None;
    }
    // at most ten significant digits: the value fits a 64-bit count
    let mut acc: u64 = 0;
    let mut k = nz;
    while k < len
        invariant
            len == s@.len(),
            nz <= k <= len,
            len - nz <= 10,
            sig == s@.subrange(nz as int, len as int),
            chars_digits(sig),
            acc == digits_val(s@.subrange(nz as int, k as int)),
            acc < 10000000000,
        decreases len - k,
    {
        let u = s.get_char(k) as u32;
        proof {
            assert(sig[k - nz] == s@[k as int]);
            assert(ch_is_digit(sig[k - nz]));
            let pre = s@.subrange(nz as int, k as int);
            let cur = s@.subrange(nz as int, k as int + 1);
            assert(cur.drop_last() =~= pre);
            assert(chars_digits(pre)) by {
                assert(forall|j: int|
                    0 <= j < pre.len() ==> pre[j] == s@[nz + j] && ch_is_digit(s@[nz + j]));
            }
            lemma_digits_bound(pre);
            assert(pre.len() <= 9);
            assert(pow10(pre.len()) <= pow10(9)) by {
                lemma_pow10_mono(pre.len(), 9);
            }
            assert(pow10(9) == 1000000000) by {
                reveal_with_fuel(pow10, 12);
            }
        }
        acc = acc * 10 + ((u - 48) as u64);
        k += 1;
    }
    proof {
        assert(s@.subrange(nz as int, len as int) =~= sig);
        assert(acc == digits_val(sig));
    }
    if neg {
        if acc > 2147483648 {
            return None;
        }
        Some((-(acc as i64)) as i32)
    } else {
        if acc > 2147483647 {
            return None;
        }
        Some(acc as i32)
    }
}

/// A longer digit string reaches at least as high a power of ten.
proof fn lemma_pow10_mono(a: nat, b: nat)
    requires
        a <= b,
    ensures
        pow10(a) <= pow10(b),
    decreases b,
{
    if a < b {
        lemma_pow10_mono(a, (b - 1) as nat);
        lemma_pow10_pos((b - 1) as nat);
    }
}


// ---------------------------------------------------------------------
// Reading messages from a byte stream
// ---------------------------------------------------------------------

/// The leftmost position at or after `from` where byte `b` stands in
/// `s`, or `-1` when there is none.
pub open spec fn find_byte(s: Seq<u8>, b: u8, from: int) -> int
    decreases s.len() - from,
{
    if from < 0 || from >= s.len() {
        -1
    } else if s[from] == b {
        from
    } else {
        find_byte(s, b, from + 1)
    }
}

/// The leftmost occurrence of byte `b`, executed; see [`find_byte`].
fn find_byte_from(v: &Vec<u8>, b: u8, from: usize) -> (r: Option<usize>)
    ensures
        match r {
            Some(i) => from <= i && i < v@.len() && v@[i as int] == b && find_byte(
                v@,
                b,
                from as int,
            ) == i,
            None => find_byte(v@, b, from as int) == -1,
        },
    decreases v@.len() - from,
{
    if from >= v.len() {
        None
    } else if v[from] == b {
        Some(from)
    } else {
        find_byte_from(v, b, from + 1)
    }
}

/// The string whose characters are the bytes of `v[from..to]`.
fn bytes_to_string(v: &Vec<u8>, from: usize, to: usize) -> (s: String)
    requires
        from <= to <= v@.len(),
    ensures
        s@ == chars_of_bytes(v@.subrange(from as int, to as int)),
{
    let mut s = String::new();
    let mut i = from;
    while i < to
        invariant
            from <= i <= to <= v@.len(),
            s@ == chars_of_bytes(v@.subrange(from as int, i as int)),
        decreases to - i,
    {
        crate::text::push_char(&mut s, v[i] as char);
        i += 1;
        proof {
            assert(s@ =~= chars_of_bytes(v@.subrange(from as int, i as int)));
        }
    }
    s
}

/// A copy of the bytes `v[from..to]`.
fn copy_range(v: &Vec<u8>, from: usize, to: usize) -> (out: Vec<u8>)
    requires
        from <= to <= v@.len(),
    ensures
        out@ == v@.subrange(from as int, to as int),
{
    let mut out: Vec<u8> = Vec::new();
    let mut i = from;
    while i < to
        invariant
            from <= i <= to <= v@.len(),
            out@ == v@.subrange(from as int, i as int),
        decreases to - i,
    {
        out.push(v[i]);
        i += 1;
        proof {
            assert(out@ =~= v@.subrange(from as int, i as int));
        }
    }
    out
}

/// Whether the byte is a decimal digit.
pub open spec fn byte_digit(b: u8) -> bool {
    48 <= b <= 57
}

/// The bytes `HTTP/`.
pub open spec fn http_slash() -> Seq<u8> {
    seq![72u8, 84u8, 84u8, 80u8, 47u8]
}

/// The bytes `HTTP`.
pub open spec fn http_tag() -> Seq<u8> {
    seq![72u8, 84u8, 84u8, 80u8]
}

/// The bytes `OK`.
pub open spec fn ok_reason() -> Seq<u8> {
    seq![79u8, 75u8]
}

/// The header name `Content-Length`.
pub open spec fn content_length_key() -> Seq<char> {
    seq!['C', 'o', 'n', 't', 'e', 'n', 't', '-', 'L', 'e', 'n', 'g', 't', 'h']
}

/// Reads header fields from position `p` of `s` until a line that
/// starts with a carriage return ends them: each field is a name up to
/// a colon, one separator byte, and a value up to the line end, bound
/// into `acc` with a later field replacing an earlier one of the same
/// name.  Returns the fields and the position after the final carriage
/// return; a stream that ends first is an error.
pub open spec fn parse_headers(s: Seq<u8>, p: int, acc: Seq<(Seq<char>, Seq<char>)>) -> Result<
    (Seq<(Seq<char>, Seq<char>)>, int),
    Error,
>
    decreases s.len() - p,
{
    if p < 0 || p >= s.len() {
        Err(Error::StreamReadError)
    } else if s[p] == 13 {
        Ok((acc, p + 1))
    } else {
        let c = find_byte(s, 58, p);
        if c < p {
            Err(Error::StreamReadError)
        } else {
            let vr = find_byte(s, 13, c + 2);
            if vr < c + 2 || vr + 2 > s.len() {
                Err(Error::StreamReadError)
            } else {
                let key = chars_of_bytes(s.subrange(p, c));
                let value = chars_of_bytes(s.subrange(c + 2, vr));
                parse_headers(s, vr + 2, crate::strmap::sv_insert(acc, key, value))
            }
        }
    }
}

/// Reads header fields, executed; see [`parse_headers`].
fn read_headers(v: &Vec<u8>, p: usize, acc: StringMap) -> (r: Result<(StringMap, usize), Error>)
    requires
        acc.wf(),
    ensures
        match r {
            Ok(out) => out.0.wf() && out.1 <= v@.len() && parse_headers(
                v@,
                p as int,
                acc.entries_seq(),
            ) == Ok::<(Seq<(Seq<char>, Seq<char>)>, int), Error>((
                out.0.entries_seq(),
                out.1 as int,
            )),
            Err(e) => parse_headers(v@, p as int, acc.entries_seq()) == Err::<
                (Seq<(Seq<char>, Seq<char>)>, int),
                Error,
            >(e),
        },
    decreases v@.len() - p,
{
    if p >= v.len() {
        return Err(Error::StreamReadError);
    }
    if v[p] == 13 {
        return Ok((acc, p + 1));
    }
    match find_byte_from(v, 58, p) {
        None => Err(Error::StreamReadError),
        Some(c) => {
            if c >= v.len() - 1 {
                proof {
                    assert(find_byte(v@, 13, c + 2) == -1);
                }
                return Err(Error::StreamReadError);
            }
            match find_byte_from(v, 13, c + 2) {
                None => Err(Error::StreamReadError),
                Some(vr) => {
                    if v.len() - vr < 2 {
                        return Err(Error::StreamReadError);
                    }
                    let key = bytes_to_string(v, p, c);
                    let value = bytes_to_string(v, c + 2, vr);
                    let mut acc2 = acc;
                    acc2.insert(key.as_str(), value);
                    read_headers(v, vr + 2, acc2)
                },
            }
        },
    }
}

/// What a response parse yields: the parsed fields, as mathematical
/// values.
pub struct ResponseModel {
    /// The five protocol-tag bytes as read, `HTTP/`.
    pub httptag: Seq<u8>,
    /// The one-digit major and minor version.
    pub httpversion: (int, int),
    /// The parsed status.
    pub statuscode: HttpStatusCodes,
    /// The reason bytes, up to the line end.
    pub reason: Seq<u8>,
    /// The header fields, in order of first appearance.
    pub headers: Seq<(Seq<char>, Seq<char>)>,
    /// The body, as many bytes as the content length named.
    pub content: Seq<u8>,
}

/// Reads a response from the front of `s`: the protocol tag, a
/// one-digit.dot.one-digit version, a space, a three-byte status code,
/// the reason up to the line end, the header fields, and a body of as
/// many bytes as the `Content-Length` field names (a missing field is an
/// error, a negative value an empty body).  Returns the model and how
/// many bytes the message took.
pub open spec fn parse_response(s: Seq<u8>) -> Result<(ResponseModel, int), Error> {
    if s.len() < 5 {
        Err(Error::StreamReadError)
    } else if s.subrange(0, 5) != http_slash() {
        Err(Error::NotHTTP)
    } else if s.len() < 8 {
        Err(Error::StreamReadError)
    } else if s[6] != 46 {
        Err(Error::InvalidVersionError)
    } else if !byte_digit(s[5]) {
        Err(Error::InvalidVersionError)
    } else if !byte_digit(s[7]) {
        Err(Error::InvalidVersionError)
    } else if s.len() < 12 {
        Err(Error::StreamReadError)
    } else {
        match parse_int_spec(chars_of_bytes(s.subrange(9, 12))) {
            None => Err(Error::UnreadableStatusCode),
            Some(code) => match status_from_code(code) {
                None => Err(Error::UnknownStatusError),
                Some(status) => {
                    let rr = find_byte(s, 13, 12);
                    if rr < 12 {
                        Err(Error::StreamReadError)
                    } else {
                        match parse_headers(s, rr + 2, Seq::empty()) {
                            Err(e) => Err(e),
                            Ok((hs, q)) => {
                                if !sv_has_key(hs, content_length_key()) {
                                    Err(
                                        Error::InvalidContentLength(
                                            InvalidContentLengthReason::MissingContentLength,
                                        ),
                                    )
                                } else {
                                    match parse_int_spec(sv_map(hs)[content_length_key()]) {
                                        None => Err(
                                            Error::InvalidContentLength(
                                                InvalidContentLengthReason::MalformedContentLength,
                                            ),
                                        ),
                                        Some(v) => {
                                            let n = if v > 0 {
                                                v
                                            } else {
                                                0
                                            };
                                            if q + n > s.len() {
                                                Err(Error::StreamReadError)
                                            } else {
                                                Ok(
                                                    (
                                                        ResponseModel {
                                                            httptag: s.subrange(0, 5),
                                                            httpversion: (
                                                                (s[5] - 48) as int,
                                                                (s[7] - 48) as int,
                                                            ),
                                                            statuscode: status,
                                                            reason: s.subrange(12, rr),
                                                            headers: hs,
                                                            content: s.subrange(q, q + n),
                                                        },
                                                        q + n,
                                                    ),
                                                )
                                            }
                                        },
                                    }
                                }
                            },
                        }
                    }
                },
            },
        }
    }
}

/// Whether the typed response carries exactly the parsed fields.
pub open spec fn response_models(resp: HTTPResponse, m: ResponseModel) -> bool {
    &&& resp.httptag@ == m.httptag
    &&& resp.httpversion.0 == m.httpversion.0
    &&& resp.httpversion.1 == m.httpversion.1
    &&& resp.statuscode == m.statuscode
    &&& resp.reason@ == m.reason
    &&& resp.headers.wf()
    &&& resp.headers.entries_seq() == m.headers
    &&& resp.content@ == m.content
}


impl HTTPResponse {
    /// Reads a response from the stream's bytes; see [`parse_response`].
    /// A successful read consumes the message's bytes; a failed one
    /// leaves the stream as it was.
    pub fn read_http_response(stream: &mut ReadableVec) -> (r: Result<HTTPResponse, Error>)
        ensures
            match r {
                Ok(resp) => match parse_response(old(stream).vector@) {
                    Ok(out) => response_models(resp, out.0) && final(stream).vector@ == old(
                        stream,
                    ).vector@.skip(out.1),
                    Err(_) => false,
                },
                Err(e) => parse_response(old(stream).vector@) == Err::<
                    (ResponseModel, int),
                    Error,
                >(e) && final(stream).vector@ == old(stream).vector@,
            },
    {
        let n = stream.vector.len();
        if n < 5 {
            return Err(Error::StreamReadError);
        }
        if !(stream.vector[0] == 72 && stream.vector[1] == 84 && stream.vector[2] == 84
            && stream.vector[3] == 80 && stream.vector[4] == 47) {
            proof {
                assert(stream.vector@.subrange(0, 5) != http_slash()) by {
                    if stream.vector@.subrange(0, 5) == http_slash() {
                        assert(stream.vector@.subrange(0, 5)[0] == 72u8);
                        assert(stream.vector@.subrange(0, 5)[1] == 84u8);
                        assert(stream.vector@.subrange(0, 5)[2] == 84u8);
                        assert(stream.vector@.subrange(0, 5)[3] == 80u8);
                        assert(stream.vector@.subrange(0, 5)[4] == 47u8);
                    }
                }
            }
            return Err(Error::NotHTTP);
        }
        proof {
            assert(stream.vector@.subrange(0, 5) =~= http_slash());
        }
        if n < 8 {
            return Err(Error::StreamReadError);
        }
        if stream.vector[6] != 46 {
            return Err(Error::InvalidVersionError);
        }
        let b5 = stream.vector[5];
        if b5 < 48 || b5 > 57 {
            return Err(Error::InvalidVersionError);
        }
        let b7 = stream.vector[7];
        if b7 < 48 || b7 > 57 {
            return Err(Error::InvalidVersionError);
        }
        if n < 12 {
            return Err(Error::StreamReadError);
        }
        let status_s = bytes_to_string(&stream.vector, 9, 12);
        let code = match parse_i32(status_s.as_str()) {
            None => {
                return Err(Error::UnreadableStatusCode);
            },
            Some(c) => c,
        };
        let status = match HttpStatusCodes::from_i32(code) {
            None => {
                return Err(Error::UnknownStatusError);
            },
            Some(st) => st,
        };
        let rr = match find_byte_from(&stream.vector, 13, 12) {
            None => {
                return Err(Error::StreamReadError);
            },
            Some(rr) => rr,
        };
        if n - rr < 2 {
            proof {
                assert(parse_headers(stream.vector@, rr + 2, Seq::empty()) == Err::<
                    (Seq<(Seq<char>, Seq<char>)>, int),
                    Error,
                >(Error::StreamReadError));
            }
            return Err(Error::StreamReadError);
        }
        let hq = match read_headers(&stream.vector, rr + 2, StringMap::new()) {
            Err(e) => {
                return Err(e);
            },
            Ok(hq) => hq,
        };
        let headers = hq.0;
        let q = hq.1;
        let clkey = "Content-Length";
        proof {
            reveal_strlit("Content-Length");
            assert(clkey@ =~= content_length_key());
        }
        let lenv = match headers.get(clkey) {
            None => {
                return Err(
                    Error::InvalidContentLength(InvalidContentLengthReason::MissingContentLength),
                );
            },
            Some(val) => match parse_i32(val.as_str()) {
                None => {
                    return Err(
                        Error::InvalidContentLength(
                            InvalidContentLengthReason::MalformedContentLength,
                        ),
                    );
                },
                Some(x) => x,
            },
        };
        let nlen: usize = if lenv > 0 {
            lenv as usize
        } else {
            0
        };
        if nlen > n - q {
            return Err(Error::StreamReadError);
        }
        let content = copy_range(&stream.vector, q, q + nlen);
        let used = q + nlen;
        let resp = HTTPResponse {
            httptag: copy_range(&stream.vector, 0, 5),
            httpversion: ((b5 - 48) as i32, (b7 - 48) as i32),
            statuscode: status,
            reason: copy_range(&stream.vector, 12, rr),
            headers,
            content,
        };
        let rest = stream.vector.split_off(used);
        stream.vector = rest;
        Ok(resp)
    }
}


/// What a request parse yields: the parsed fields, as mathematical
/// values.
pub struct RequestModel {
    /// The method bytes, up to the first space.
    pub method: Seq<u8>,
    /// The path bytes, up to the next space.
    pub path: Seq<u8>,
    /// The five protocol-tag bytes as read, `HTTP/`.
    pub httptag: Seq<u8>,
    /// The one-digit major and minor version.
    pub httpversion: (int, int),
    /// The header fields, in order of first appearance.
    pub headers: Seq<(Seq<char>, Seq<char>)>,
    /// The body, as many bytes as the content length named, empty
    /// without one.
    pub content: Seq<u8>,
}

/// Reads a request from the front of `s`: the method and path up to
/// their spaces, the protocol tag, a one-digit.dot.one-digit version,
/// one separator byte, the header fields, and a body of as many bytes
/// as the `Content-Length` field names; without that field the body is
/// empty.  Returns the model and how many bytes the message took.
pub open spec fn parse_request(s: Seq<u8>) -> Result<(RequestModel, int), Error> {
    let sp1 = find_byte(s, 32, 0);
    if sp1 < 0 {
        Err(Error::StreamReadError)
    } else {
        let sp2 = find_byte(s, 32, sp1 + 1);
        if sp2 < sp1 + 1 {
            Err(Error::StreamReadError)
        } else {
            let p0 = sp2 + 1;
            if p0 + 8 > s.len() {
                Err(Error::StreamReadError)
            } else if s.subrange(p0, p0 + 5) != http_slash() {
                Err(Error::NotHTTP)
            } else if s[p0 + 6] != 46 {
                Err(Error::InvalidVersionError)
            } else if !byte_digit(s[p0 + 5]) {
                Err(Error::InvalidVersionError)
            } else if !byte_digit(s[p0 + 7]) {
                Err(Error::InvalidVersionError)
            } else {
                match parse_headers(s, p0 + 9, Seq::empty()) {
                    Err(e) => Err(e),
                    Ok((hs, q)) => {
                        let model = RequestModel {
                            method: s.subrange(0, sp1),
                            path: s.subrange(sp1 + 1, sp2),
                            httptag: s.subrange(p0, p0 + 5),
                            httpversion: ((s[p0 + 5] - 48) as int, (s[p0 + 7] - 48) as int),
                            headers: hs,
                            content: Seq::empty(),
                        };
                        if !sv_has_key(hs, content_length_key()) {
                            Ok((model, q))
                        } else {
                            match parse_int_spec(sv_map(hs)[content_length_key()]) {
                                None => Err(
                                    Error::InvalidContentLength(
                                        InvalidContentLengthReason::MalformedContentLength,
                                    ),
                                ),
                                Some(v) => {
                                    let n = if v > 0 {
                                        v
                                    } else {
                                        0
                                    };
                                    if q + n > s.len() {
                                        Err(Error::StreamReadError)
                                    } else {
                                        Ok(
                                            (
                                                RequestModel {
                                                    content: s.subrange(q, q + n),
                                                    ..model
                                                },
                                                q + n,
                                            ),
                                        )
                                    }
                                },
                            }
                        }
                    },
                }
            }
        }
    }
}

/// Whether the typed request carries exactly the parsed fields.
pub open spec fn request_models(req: HTTPRequest, m: RequestModel) -> bool {
    &&& req.method@ == m.method
    &&& req.path@ == m.path
    &&& req.httptag@ == m.httptag
    &&& req.httpversion.0 == m.httpversion.0
    &&& req.httpversion.1 == m.httpversion.1
    &&& req.headers.wf()
    &&& req.headers.entries_seq() == m.headers
    &&& req.content@ == m.content
}

impl HTTPRequest {
    /// Reads a request from the stream's bytes; see [`parse_request`].
    /// A successful read consumes the message's bytes; a failed one
    /// leaves the stream as it was.
    pub fn read_http_request(stream: &mut ReadableVec) -> (r: Result<HTTPRequest, Error>)
        ensures
            match r {
                Ok(req) => match parse_request(old(stream).vector@) {
                    Ok(out) => request_models(req, out.0) && final(stream).vector@ == old(
                        stream,
                    ).vector@.skip(out.1),
                    Err(_) => false,
                },
                Err(e) => parse_request(old(stream).vector@) == Err::<
                    (RequestModel, int),
                    Error,
                >(e) && final(stream).vector@ == old(stream).vector@,
            },
    {
        let n = stream.vector.len();
        let sp1 = match find_byte_from(&stream.vector, 32, 0) {
            None => {
                return Err(Error::StreamReadError);
            },
            Some(i) => i,
        };
        let sp2 = match find_byte_from(&stream.vector, 32, sp1 + 1) {
            None => {
                return Err(Error::StreamReadError);
            },
            Some(i) => i,
        };
        let p0 = sp2 + 1;
        if n - p0 < 8 {
            return Err(Error::StreamReadError);
        }
        if !(stream.vector[p0] == 72 && stream.vector[p0 + 1] == 84 && stream.vector[p0 + 2]
            == 84 && stream.vector[p0 + 3] == 80 && stream.vector[p0 + 4] == 47) {
            proof {
                assert(stream.vector@.subrange(p0 as int, p0 + 5) != http_slash()) by {
                    if stream.vector@.subrange(p0 as int, p0 + 5) == http_slash() {
                        assert(stream.vector@.subrange(p0 as int, p0 + 5)[0] == 72u8);
                        assert(stream.vector@.subrange(p0 as int, p0 + 5)[1] == 84u8);
                        assert(stream.vector@.subrange(p0 as int, p0 + 5)[2] == 84u8);
                        assert(stream.vector@.subrange(p0 as int, p0 + 5)[3] == 80u8);
                        assert(stream.vector@.subrange(p0 as int, p0 + 5)[4] == 47u8);
                    }
                }
            }
            return Err(Error::NotHTTP);
        }
        proof {
            assert(stream.vector@.subrange(p0 as int, p0 + 5) =~= http_slash());
        }
        if stream.vector[p0 + 6] != 46 {
            return Err(Error::InvalidVersionError);
        }
        let b5 = stream.vector[p0 + 5];
        if b5 < 48 || b5 > 57 {
            return Err(Error::InvalidVersionError);
        }
        let b7 = stream.vector[p0 + 7];
        if b7 < 48 || b7 > 57 {
            return Err(Error::InvalidVersionError);
        }
        if n - p0 == 8 {
            proof {
                assert(parse_headers(stream.vector@, p0 + 9, Seq::empty()) == Err::<
                    (Seq<(Seq<char>, Seq<char>)>, int),
                    Error,
                >(Error::StreamReadError));
            }
            return Err(Error::StreamReadError);
        }
        let hq = match read_headers(&stream.vector, p0 + 9, StringMap::new()) {
            Err(e) => {
                return Err(e);
            },
            Ok(hq) => hq,
        };
        let headers = hq.0;
        let q = hq.1;
        let clkey = "Content-Length";
        proof {
            reveal_strlit("Content-Length");
            assert(clkey@ =~= content_length_key());
        }
        let mut nlen: usize = 0;
        match headers.get(clkey) {
            None => {},
            Some(val) => match parse_i32(val.as_str()) {
                None => {
                    return Err(
                        Error::InvalidContentLength(
                            InvalidContentLengthReason::MalformedContentLength,
                        ),
                    );
                },
                Some(x) => {
                    if x > 0 {
                        nlen = x as usize;
                    }
                },
            },
        };
        if nlen > n - q {
            return Err(Error::StreamReadError);
        }
        let content = copy_range(&stream.vector, q, q + nlen);
        proof {
            assert(stream.vector@.subrange(q as int, q as int) =~= Seq::<u8>::empty());
        }
        let used = q + nlen;
        let req = HTTPRequest {
            method: copy_range(&stream.vector, 0, sp1),
            path: copy_range(&stream.vector, sp1 + 1, sp2),
            httptag: copy_range(&stream.vector, p0, p0 + 5),
            httpversion: ((b5 - 48) as i32, (b7 - 48) as i32),
            headers,
            content,
        };
        let rest = stream.vector.split_off(used);
        stream.vector = rest;
        Ok(req)
    }
}


/// The decimal notation of `n` as a string.
fn usize_dec_string(n: usize) -> (s: String)
    ensures
        s@ == chars_of_bytes(dec_digits(n as nat)),
{
    let d = u64_dec(n as u64);
    let mut s = String::new();
    let mut i: usize = 0;
    while i < d.len()
        invariant
            d@ == dec_digits(n as nat),
            i <= d@.len(),
            s@ == chars_of_bytes(d@.take(i as int)),
        decreases d@.len() - i,
    {
        crate::text::push_char(&mut s, d[i] as char);
        i += 1;
        proof {
            assert(s@ =~= chars_of_bytes(d@.take(i as int)));
        }
    }
    proof {
        assert(d@.take(d@.len() as int) =~= d@);
    }
    s
}

impl HTTPResponse {
    /// A `200 OK` response that carries `value` as its body, with the
    /// `Content-Length` header set to the body's byte length.
    pub fn from(value: &str) -> (r: HTTPResponse)
        ensures
            r.httptag@ == http_tag(),
            r.httpversion.0 == 1 && r.httpversion.1 == 1,
            r.statuscode is Okay,
            r.reason@ == ok_reason(),
            r.headers.wf(),
            r.headers.entries_seq() == seq![
                (
                    content_length_key(),
                    chars_of_bytes(dec_digits(((encode_utf8(value@).len() as usize) as nat))),
                ),
            ],
            r.content@ == encode_utf8(value@),
    {
        let mut headers = StringMap::new();
        let clkey = "Content-Length";
        proof {
            reveal_strlit("Content-Length");
            assert(clkey@ =~= content_length_key());
        }
        let clval = usize_dec_string(value.len());
        proof {
            assert(value.spec_bytes() == encode_utf8(value@));
            assert(clval@ == chars_of_bytes(
                dec_digits(((encode_utf8(value@).len() as usize) as nat)),
            ));
        }
        let ghost empty_entries = headers.entries_seq();
        headers.insert(clkey, clval);
        proof {
            assert(!crate::strmap::sv_has_key(empty_entries, clkey@)) by {
                assert(empty_entries.len() == 0);
            }
            assert(headers.entries_seq() == empty_entries.push((clkey@, clval@)));
        }
        let base = HTTPResponse::new();
        let r = HTTPResponse { headers, content: value.as_bytes_vec(), ..base };
        proof {
            assert(r.headers.entries_seq() =~= seq![
                (
                    content_length_key(),
                    chars_of_bytes(dec_digits(((encode_utf8(value@).len() as usize) as nat))),
                ),
            ]);
        }
        r
    }
}

} // verus!
