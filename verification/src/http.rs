//! HTTP vocabulary: request methods, request lifecycle states, status codes
//! with their reason phrases, I/O failure kinds, and the MIME lookup tables.

use vstd::prelude::*;

use crate::bytes::{ascii_of, bytes_eq, str_bytes};

verus! {

/// A request method: the known verbs plus markers for an absent or an
/// unrecognized token.
#[derive(Clone, Copy, PartialEq, Eq, Structural, Debug, Default)]
pub enum Method {
    #[default]
    UNDEFINED,
    GET,
    POST,
    DELETE,
    OPTIONS,
    HEAD,
    PUT,
    PATCH,
    TRACE,
    CONNECT,
    UNKNOWN,
}

/// The wire token of each method; the two markers render as "UNKNOWN".
pub open spec fn spec_method_token(m: Method) -> Seq<char> {
    match m {
        Method::GET => "GET"@,
        Method::POST => "POST"@,
        Method::DELETE => "DELETE"@,
        Method::OPTIONS => "OPTIONS"@,
        Method::HEAD => "HEAD"@,
        Method::PUT => "PUT"@,
        Method::PATCH => "PATCH"@,
        Method::TRACE => "TRACE"@,
        Method::CONNECT => "CONNECT"@,
        Method::UNDEFINED => "UNKNOWN"@,
        Method::UNKNOWN => "UNKNOWN"@,
    }
}

/// The method a wire token denotes; anything unrecognized is `UNKNOWN`.
pub open spec fn spec_method_of(tok: Seq<u8>) -> Method {
    if tok == ascii_of("GET"@) {
        Method::GET
    } else if tok == ascii_of("POST"@) {
        Method::POST
    } else if tok == ascii_of("DELETE"@) {
        Method::DELETE
    } else if tok == ascii_of("OPTIONS"@) {
        Method::OPTIONS
    } else if tok == ascii_of("HEAD"@) {
        Method::HEAD
    } else if tok == ascii_of("PUT"@) {
        Method::PUT
    } else if tok == ascii_of("PATCH"@) {
        Method::PATCH
    } else if tok == ascii_of("TRACE"@) {
        Method::TRACE
    } else if tok == ascii_of("CONNECT"@) {
        Method::CONNECT
    } else {
        Method::UNKNOWN
    }
}

impl Method {
    /// Decodes a method token, rejecting anything not a known verb.
    pub fn try_from_str(method: &[u8]) -> (r: Result<Method, ()>)
        ensures
            match r {
                Ok(m) => m == spec_method_of(method@) && m != Method::UNKNOWN && m
                    != Method::UNDEFINED,
                Err(_) => spec_method_of(method@) == Method::UNKNOWN,
            },
    {
        let m = Self::from_token(method);
        match m {
            Method::UNKNOWN => Err(()),
            Method::UNDEFINED => Err(()),
            _ => Ok(m),
        }
    }

    /// Decodes a method token, mapping anything unrecognized to `UNKNOWN`.
    pub fn from_token(method: &[u8]) -> (r: Method)
        ensures
            r == spec_method_of(method@),
    {
        proof {
            reveal_strlit("GET");
            reveal_strlit("POST");
            reveal_strlit("DELETE");
            reveal_strlit("OPTIONS");
            reveal_strlit("HEAD");
            reveal_strlit("PUT");
            reveal_strlit("PATCH");
            reveal_strlit("TRACE");
            reveal_strlit("CONNECT");
        }
        if bytes_eq(method, str_bytes("GET").as_slice()) {
            Method::GET
        } else if bytes_eq(method, str_bytes("POST").as_slice()) {
            Method::POST
        } else if bytes_eq(method, str_bytes("DELETE").as_slice()) {
            Method::DELETE
        } else if bytes_eq(method, str_bytes("OPTIONS").as_slice()) {
            Method::OPTIONS
        } else if bytes_eq(method, str_bytes("HEAD").as_slice()) {
            Method::HEAD
        } else if bytes_eq(method, str_bytes("PUT").as_slice()) {
            Method::PUT
        } else if bytes_eq(method, str_bytes("PATCH").as_slice()) {
            Method::PATCH
        } else if bytes_eq(method, str_bytes("TRACE").as_slice()) {
            Method::TRACE
        } else if bytes_eq(method, str_bytes("CONNECT").as_slice()) {
            Method::CONNECT
        } else {
            Method::UNKNOWN
        }
    }

    /// The method's wire token as text.
    pub fn to_string(&self) -> (r: String)
        ensures
            r@ == spec_method_token(*self),
    {
        match self {
            Method::GET => "GET".to_owned(),
            Method::POST => "POST".to_owned(),
            Method::DELETE => "DELETE".to_owned(),
            Method::HEAD => "HEAD".to_owned(),
            Method::PUT => "PUT".to_owned(),
            Method::CONNECT => "CONNECT".to_owned(),
            Method::PATCH => "PATCH".to_owned(),
            Method::TRACE => "TRACE".to_owned(),
            Method::OPTIONS => "OPTIONS".to_owned(),
            Method::UNDEFINED => "UNKNOWN".to_owned(),
            Method::UNKNOWN => "UNKNOWN".to_owned(),
        }
    }
}

/// Where a request stands in its lifecycle.
#[derive(Clone, Copy, PartialEq, Eq, Structural, Debug, Default)]
pub enum State {
    #[default]
    Undefined,
    OnHeader,
    OnBody,
    Finished,
}

impl State {
    pub fn is(&self, other: Self) -> (r: bool)
        ensures
            r == (*self == other),
    {
        *self == other
    }

    pub fn is_not(&self, other: Self) -> (r: bool)
        ensures
            r == (*self != other),
    {
        !(*self == other)
    }
}

/// The failure kinds the connection driver reports to the library;
/// each stands for the stream or file error of the same name.
#[derive(Clone, Copy, PartialEq, Eq, Structural, Debug)]
pub enum IoErrorKind {
    NotFound,
    PermissionDenied,
    ConnectionRefused,
    TimedOut,
    WriteZero,
    Interrupted,
    UnexpectedEof,
    InvalidInput,
    InvalidData,
    BrokenPipe,
    Other,
}

/// The reason phrase of each status code this server emits; empty for a
/// code outside the table.
pub open spec fn spec_status_text(code: u16) -> Seq<u8> {
    if code == 100 {
        ascii_of("Continue"@)
    } else if code == 101 {
        ascii_of("Switching Protocols"@)
    } else if code == 200 {
        ascii_of("OK"@)
    } else if code == 201 {
        ascii_of("Created"@)
    } else if code == 202 {
        ascii_of("Accepted"@)
    } else if code == 204 {
        ascii_of("No Content"@)
    } else if code == 301 {
        ascii_of("Moved Permanently"@)
    } else if code == 302 {
        ascii_of("Found"@)
    } else if code == 303 {
        ascii_of("See Other"@)
    } else if code == 304 {
        ascii_of("Not Modified"@)
    } else if code == 307 {
        ascii_of("Temporary Redirect"@)
    } else if code == 308 {
        ascii_of("Permanent Redirect"@)
    } else if code == 400 {
        ascii_of("Bad Request"@)
    } else if code == 401 {
        ascii_of("Unauthorized"@)
    } else if code == 403 {
        ascii_of("Forbidden"@)
    } else if code == 404 {
        ascii_of("Not Found"@)
    } else if code == 405 {
        ascii_of("Method Not Allowed"@)
    } else if code == 406 {
        ascii_of("Not Acceptable"@)
    } else if code == 408 {
        ascii_of("Request Timeout"@)
    } else if code == 409 {
        ascii_of("Conflict"@)
    } else if code == 410 {
        ascii_of("Gone"@)
    } else if code == 411 {
        ascii_of("Length Required"@)
    } else if code == 413 {
        ascii_of("Payload Too Large"@)
    } else if code == 414 {
        ascii_of("URI Too Long"@)
    } else if code == 415 {
        ascii_of("Unsupported Media Type"@)
    } else if code == 431 {
        ascii_of("Request Header Fields Too Large"@)
    } else if code == 451 {
        ascii_of("Unavailable For Legal Reasons"@)
    } else if code == 500 {
        ascii_of("Internal Server Error"@)
    } else if code == 501 {
        ascii_of("Not Implemented"@)
    } else if code == 502 {
        ascii_of("Bad Gateway"@)
    } else if code == 503 {
        ascii_of("Service Unavailable"@)
    } else if code == 504 {
        ascii_of("Gateway Timeout"@)
    } else if code == 505 {
        ascii_of("HTTP Version Not Supported"@)
    } else if code == 524 {
        ascii_of("A Timeout Occurred"@)
    } else if code == 203 {
        ascii_of("Non-Authoritative Information"@)
    } else if code == 205 {
        ascii_of("Reset Content"@)
    } else if code == 206 {
        ascii_of("Partial Content"@)
    } else if code == 207 {
        ascii_of("Multi-Status"@)
    } else if code == 208 {
        ascii_of("Already Reported"@)
    } else if code == 226 {
        ascii_of("IM Used"@)
    } else if code == 300 {
        ascii_of("Multiple Choices"@)
    } else if code == 305 {
        ascii_of("Use Proxy"@)
    } else if code == 402 {
        ascii_of("Payment Required"@)
    } else if code == 407 {
        ascii_of("Proxy Authentication Required"@)
    } else if code == 412 {
        ascii_of("Precondition Failed"@)
    } else if code == 416 {
        ascii_of("Range Not Satisfiable"@)
    } else if code == 417 {
        ascii_of("Expectation Failed"@)
    } else if code == 418 {
        ascii_of("I'm a Teapot"@)
    } else if code == 421 {
        ascii_of("Misdirected Request"@)
    } else if code == 422 {
        ascii_of("Unprocessable Entity"@)
    } else if code == 423 {
        ascii_of("Locked"@)
    } else if code == 424 {
        ascii_of("Failed Dependency"@)
    } else if code == 425 {
        ascii_of("Too Early"@)
    } else if code == 426 {
        ascii_of("Upgrade Required"@)
    } else if code == 428 {
        ascii_of("Precondition Required"@)
    } else if code == 429 {
        ascii_of("Too Many Requests"@)
    } else if code == 506 {
        ascii_of("Variant Also Negotiates"@)
    } else if code == 507 {
        ascii_of("Insufficient Storage"@)
    } else if code == 508 {
        ascii_of("Loop Detected"@)
    } else if code == 510 {
        ascii_of("Not Extended"@)
    } else if code == 511 {
        ascii_of("Network Authentication Required"@)
    } else {
        Seq::empty()
    }
}

/// The reason phrase of `code`, empty when the code is not in the table.
pub fn status_text(code: u16) -> (r: Vec<u8>)
    ensures
        r@ == spec_status_text(code),
{
    if code == 100 {
        proof {
            reveal_strlit("Continue");
        }
        str_bytes("Continue")
    } else if code == 101 {
        proof {
            reveal_strlit("Switching Protocols");
        }
        str_bytes("Switching Protocols")
    } else if code == 200 {
        proof {
            reveal_strlit("OK");
        }
        str_bytes("OK")
    } else if code == 201 {
        proof {
            reveal_strlit("Created");
        }
        str_bytes("Created")
    } else if code == 202 {
        proof {
            reveal_strlit("Accepted");
        }
        str_bytes("Accepted")
    } else if code == 204 {
        proof {
            reveal_strlit("No Content");
        }
        str_bytes("No Content")
    } else if code == 301 {
        proof {
            reveal_strlit("Moved Permanently");
        }
        str_bytes("Moved Permanently")
    } else if code == 302 {
        proof {
            reveal_strlit("Found");
        }
        str_bytes("Found")
    } else if code == 303 {
        proof {
            reveal_strlit("See Other");
        }
        str_bytes("See Other")
    } else if code == 304 {
        proof {
            reveal_strlit("Not Modified");
        }
        str_bytes("Not Modified")
    } else if code == 307 {
        proof {
            reveal_strlit("Temporary Redirect");
        }
        str_bytes("Temporary Redirect")
    } else if code == 308 {
        proof {
            reveal_strlit("Permanent Redirect");
        }
        str_bytes("Permanent Redirect")
    } else if code == 400 {
        proof {
            reveal_strlit("Bad Request");
        }
        str_bytes("Bad Request")
    } else if code == 401 {
        proof {
            reveal_strlit("Unauthorized");
        }
        str_bytes("Unauthorized")
    } else if code == 403 {
        proof {
            reveal_strlit("Forbidden");
        }
        str_bytes("Forbidden")
    } else if code == 404 {
        proof {
            reveal_strlit("Not Found");
        }
        str_bytes("Not Found")
    } else if code == 405 {
        proof {
            reveal_strlit("Method Not Allowed");
        }
        str_bytes("Method Not Allowed")
    } else if code == 406 {
        proof {
            reveal_strlit("Not Acceptable");
        }
        str_bytes("Not Acceptable")
    } else if code == 408 {
        proof {
            reveal_strlit("Request Timeout");
        }
        str_bytes("Request Timeout")
    } else if code == 409 {
        proof {
            reveal_strlit("Conflict");
        }
        str_bytes("Conflict")
    } else if code == 410 {
        proof {
            reveal_strlit("Gone");
        }
        str_bytes("Gone")
    } else if code == 411 {
        proof {
            reveal_strlit("Length Required");
        }
        str_bytes("Length Required")
    } else if code == 413 {
        proof {
            reveal_strlit("Payload Too Large");
        }
        str_bytes("Payload Too Large")
    } else if code == 414 {
        proof {
            reveal_strlit("URI Too Long");
        }
        str_bytes("URI Too Long")
    } else if code == 415 {
        proof {
            reveal_strlit("Unsupported Media Type");
        }
        str_bytes("Unsupported Media Type")
    } else if code == 431 {
        proof {
            reveal_strlit("Request Header Fields Too Large");
        }
        str_bytes("Request Header Fields Too Large")
    } else if code == 451 {
        proof {
            reveal_strlit("Unavailable For Legal Reasons");
        }
        str_bytes("Unavailable For Legal Reasons")
    } else if code == 500 {
        proof {
            reveal_strlit("Internal Server Error");
        }
        str_bytes("Internal Server Error")
    } else if code == 501 {
        proof {
            reveal_strlit("Not Implemented");
        }
        str_bytes("Not Implemented")
    } else if code == 502 {
        proof {
            reveal_strlit("Bad Gateway");
        }
        str_bytes("Bad Gateway")
    } else if code == 503 {
        proof {
            reveal_strlit("Service Unavailable");
        }
        str_bytes("Service Unavailable")
    } else if code == 504 {
        proof {
            reveal_strlit("Gateway Timeout");
        }
        str_bytes("Gateway Timeout")
    } else if code == 505 {
        proof {
            reveal_strlit("HTTP Version Not Supported");
        }
        str_bytes("HTTP Version Not Supported")
    } else if code == 524 {
        proof {
            reveal_strlit("A Timeout Occurred");
        }
        str_bytes("A Timeout Occurred")
    } else if code == 203 {
        proof {
            reveal_strlit("Non-Authoritative Information");
        }
        str_bytes("Non-Authoritative Information")
    } else if code == 205 {
        proof {
            reveal_strlit("Reset Content");
        }
        str_bytes("Reset Content")
    } else if code == 206 {
        proof {
            reveal_strlit("Partial Content");
        }
        str_bytes("Partial Content")
    } else if code == 207 {
        proof {
            reveal_strlit("Multi-Status");
        }
        str_bytes("Multi-Status")
    } else if code == 208 {
        proof {
            reveal_strlit("Already Reported");
        }
        str_bytes("Already Reported")
    } else if code == 226 {
        proof {
            reveal_strlit("IM Used");
        }
        str_bytes("IM Used")
    } else if code == 300 {
        proof {
            reveal_strlit("Multiple Choices");
        }
        str_bytes("Multiple Choices")
    } else if code == 305 {
        proof {
            reveal_strlit("Use Proxy");
        }
        str_bytes("Use Proxy")
    } else if code == 402 {
        proof {
            reveal_strlit("Payment Required");
        }
        str_bytes("Payment Required")
    } else if code == 407 {
        proof {
            reveal_strlit("Proxy Authentication Required");
        }
        str_bytes("Proxy Authentication Required")
    } else if code == 412 {
        proof {
            reveal_strlit("Precondition Failed");
        }
        str_bytes("Precondition Failed")
    } else if code == 416 {
        proof {
            reveal_strlit("Range Not Satisfiable");
        }
        str_bytes("Range Not Satisfiable")
    } else if code == 417 {
        proof {
            reveal_strlit("Expectation Failed");
        }
        str_bytes("Expectation Failed")
    } else if code == 418 {
        proof {
            reveal_strlit("I'm a Teapot");
        }
        str_bytes("I'm a Teapot")
    } else if code == 421 {
        proof {
            reveal_strlit("Misdirected Request");
        }
        str_bytes("Misdirected Request")
    } else if code == 422 {
        proof {
            reveal_strlit("Unprocessable Entity");
        }
        str_bytes("Unprocessable Entity")
    } else if code == 423 {
        proof {
            reveal_strlit("Locked");
        }
        str_bytes("Locked")
    } else if code == 424 {
        proof {
            reveal_strlit("Failed Dependency");
        }
        str_bytes("Failed Dependency")
    } else if code == 425 {
        proof {
            reveal_strlit("Too Early");
        }
        str_bytes("Too Early")
    } else if code == 426 {
        proof {
            reveal_strlit("Upgrade Required");
        }
        str_bytes("Upgrade Required")
    } else if code == 428 {
        proof {
            reveal_strlit("Precondition Required");
        }
        str_bytes("Precondition Required")
    } else if code == 429 {
        proof {
            reveal_strlit("Too Many Requests");
        }
        str_bytes("Too Many Requests")
    } else if code == 506 {
        proof {
            reveal_strlit("Variant Also Negotiates");
        }
        str_bytes("Variant Also Negotiates")
    } else if code == 507 {
        proof {
            reveal_strlit("Insufficient Storage");
        }
        str_bytes("Insufficient Storage")
    } else if code == 508 {
        proof {
            reveal_strlit("Loop Detected");
        }
        str_bytes("Loop Detected")
    } else if code == 510 {
        proof {
            reveal_strlit("Not Extended");
        }
        str_bytes("Not Extended")
    } else if code == 511 {
        proof {
            reveal_strlit("Network Authentication Required");
        }
        str_bytes("Network Authentication Required")
    } else {
        let r: Vec<u8> = Vec::new();
        proof {
            assert(r@ =~= spec_status_text(code));
        }
        r
    }
}

/// Is `code` one of the redirect codes a `return` directive may carry a URL
/// for?
pub fn is_redirect_status_code(code: u16) -> (r: bool)
    ensures
        r == (code == 301 || code == 302 || code == 303 || code == 307),
{
    code == 301 || code == 302 || code == 303 || code == 307
}

/// A status line: numeric code, reason phrase, and, for redirects, the
/// target the `Location` header carries.
#[derive(Clone, Debug)]
pub struct ResponseCode {
    pub code: u16,
    pub redirect: Option<Vec<u8>>,
    pub msg: Vec<u8>,
}

impl ResponseCode {
    /// A status from a code and an explicit reason phrase.
    pub fn new(code: u16, msg: &[u8]) -> (r: ResponseCode)
        ensures
            r.code == code,
            r.msg@ == msg@,
            r.redirect.is_none(),
    {
        ResponseCode { code, redirect: None, msg: crate::bytes::subvec(msg, 0, msg.len()) }
    }

    /// A redirect status carrying the `Location` target.
    pub fn new_redirect(code: u16, msg: &[u8], redirect: Vec<u8>) -> (r: ResponseCode)
        ensures
            r.code == code,
            r.msg@ == msg@,
            r.redirect == Some(redirect),
    {
        ResponseCode { code, redirect: Some(redirect), msg: crate::bytes::subvec(msg, 0, msg.len()) }
    }

    /// A status from a code alone; the reason phrase comes from the table.
    pub fn from_code(code: u16) -> (r: ResponseCode)
        ensures
            r.code == code,
            r.msg@ == spec_status_text(code),
            r.redirect.is_none(),
    {
        ResponseCode { code, redirect: None, msg: status_text(code) }
    }

    /// The status a stream or file failure maps to.
    pub fn from_error(kind: IoErrorKind) -> (r: ResponseCode)
        ensures
            r.code == spec_code_of_error(kind),
            r.msg@ == spec_status_text(r.code),
            r.redirect.is_none(),
    {
        let code: u16 = match kind {
            IoErrorKind::NotFound => 404,
            IoErrorKind::PermissionDenied => 403,
            IoErrorKind::ConnectionRefused => 503,
            IoErrorKind::TimedOut => 524,
            _ => 500,
        };
        Self::from_code(code)
    }

    /// The failure kind this status reports back as.
    pub fn into_error(&self) -> (r: IoErrorKind)
        ensures
            r == if self.code == 404 {
                IoErrorKind::NotFound
            } else {
                IoErrorKind::Other
            },
    {
        if self.code == 404 {
            IoErrorKind::NotFound
        } else {
            IoErrorKind::Other
        }
    }

    /// The reason phrase.
    pub fn to_string(&self) -> (r: &Vec<u8>)
        ensures
            r@ == self.msg@,
    {
        &self.msg
    }

    pub fn code(&self) -> (r: u16)
        ensures
            r == self.code,
    {
        self.code
    }

    pub fn msg(&self) -> (r: &Vec<u8>)
        ensures
            r@ == self.msg@,
    {
        &self.msg
    }

    pub fn set_redirect(&mut self, redirect: Vec<u8>)
        ensures
            final(self).code == old(self).code,
            final(self).msg == old(self).msg,
            final(self).redirect == Some(redirect),
    {
        self.redirect = Some(redirect);
    }

    pub fn redirect(&self) -> (r: Option<&Vec<u8>>)
        ensures
            match r {
                Some(v) => self.redirect == Some(*v),
                None => self.redirect.is_none(),
            },
    {
        self.redirect.as_ref()
    }
}

/// The status code each failure kind maps to.
pub open spec fn spec_code_of_error(kind: IoErrorKind) -> u16 {
    match kind {
        IoErrorKind::NotFound => 404,
        IoErrorKind::PermissionDenied => 403,
        IoErrorKind::ConnectionRefused => 503,
        IoErrorKind::TimedOut => 524,
        _ => 500,
    }
}

/// The file extension a content type denotes.
pub open spec fn spec_ct_to_ext(ct: Seq<u8>) -> Option<Seq<char>> {
    if ct == ascii_of("application/json"@) {
        Some("json"@)
    } else if ct == ascii_of("application/javascript"@) {
        Some("js"@)
    } else if ct == ascii_of("text/html"@) {
        Some("html"@)
    } else if ct == ascii_of("text/css"@) {
        Some("css"@)
    } else if ct == ascii_of("text/plain"@) {
        Some("txt"@)
    } else if ct == ascii_of("text/csv"@) {
        Some("csv"@)
    } else if ct == ascii_of("image/jpeg"@) {
        Some("jpg"@)
    } else if ct == ascii_of("image/png"@) {
        Some("png"@)
    } else if ct == ascii_of("image/gif"@) {
        Some("gif"@)
    } else if ct == ascii_of("image/svg+xml"@) {
        Some("svg"@)
    } else if ct == ascii_of("audio/mpeg"@) {
        Some("mp3"@)
    } else if ct == ascii_of("audio/wav"@) {
        Some("wav"@)
    } else if ct == ascii_of("video/mp4"@) {
        Some("mp4"@)
    } else if ct == ascii_of("application/pdf"@) {
        Some("pdf"@)
    } else if ct == ascii_of("application/xml"@) {
        Some("xml"@)
    } else if ct == ascii_of("application/zip"@) {
        Some("zip"@)
    } else {
        None
    }
}

/// Converts a content type to a file extension; `None` when it is not
/// recognized.
pub fn content_type_to_extension(content_type: &[u8]) -> (r: Option<&'static str>)
    ensures
        match r {
            Some(e) => spec_ct_to_ext(content_type@) == Some(e@),
            None => spec_ct_to_ext(content_type@).is_none(),
        },
{
    proof {
        reveal_strlit("application/json");
        reveal_strlit("application/javascript");
        reveal_strlit("text/html");
        reveal_strlit("text/css");
        reveal_strlit("text/plain");
        reveal_strlit("text/csv");
        reveal_strlit("image/jpeg");
        reveal_strlit("image/png");
        reveal_strlit("image/gif");
        reveal_strlit("image/svg+xml");
        reveal_strlit("audio/mpeg");
        reveal_strlit("audio/wav");
        reveal_strlit("video/mp4");
        reveal_strlit("application/pdf");
        reveal_strlit("application/xml");
        reveal_strlit("application/zip");
    }
    if bytes_eq(content_type, str_bytes("application/json").as_slice()) {
        Some("json")
    } else if bytes_eq(content_type, str_bytes("application/javascript").as_slice()) {
        Some("js")
    } else if bytes_eq(content_type, str_bytes("text/html").as_slice()) {
        Some("html")
    } else if bytes_eq(content_type, str_bytes("text/css").as_slice()) {
        Some("css")
    } else if bytes_eq(content_type, str_bytes("text/plain").as_slice()) {
        Some("txt")
    } else if bytes_eq(content_type, str_bytes("text/csv").as_slice()) {
        Some("csv")
    } else if bytes_eq(content_type, str_bytes("image/jpeg").as_slice()) {
        Some("jpg")
    } else if bytes_eq(content_type, str_bytes("image/png").as_slice()) {
        Some("png")
    } else if bytes_eq(content_type, str_bytes("image/gif").as_slice()) {
        Some("gif")
    } else if bytes_eq(content_type, str_bytes("image/svg+xml").as_slice()) {
        Some("svg")
    } else if bytes_eq(content_type, str_bytes("audio/mpeg").as_slice()) {
        Some("mp3")
    } else if bytes_eq(content_type, str_bytes("audio/wav").as_slice()) {
        Some("wav")
    } else if bytes_eq(content_type, str_bytes("video/mp4").as_slice()) {
        Some("mp4")
    } else if bytes_eq(content_type, str_bytes("application/pdf").as_slice()) {
        Some("pdf")
    } else if bytes_eq(content_type, str_bytes("application/xml").as_slice()) {
        Some("xml")
    } else if bytes_eq(content_type, str_bytes("application/zip").as_slice()) {
        Some("zip")
    } else {
        None
    }
}

/// The content type of a file extension.
pub open spec fn spec_ext_to_ct(ext: Seq<u8>) -> Option<Seq<char>> {
    if ext == ascii_of("json"@) {
        Some("application/json"@)
    } else if ext == ascii_of("js"@) {
        Some("application/javascript"@)
    } else if ext == ascii_of("html"@) {
        Some("text/html"@)
    } else if ext == ascii_of("css"@) {
        Some("text/css"@)
    } else if ext == ascii_of("txt"@) {
        Some("text/plain"@)
    } else if ext == ascii_of("csv"@) {
        Some("text/csv"@)
    } else if ext == ascii_of("jpg"@) {
        Some("image/jpeg"@)
    } else if ext == ascii_of("png"@) {
        Some("image/png"@)
    } else if ext == ascii_of("gif"@) {
        Some("image/gif"@)
    } else if ext == ascii_of("svg"@) {
        Some("image/svg+xml"@)
    } else if ext == ascii_of("mp3"@) {
        Some("audio/mpeg"@)
    } else if ext == ascii_of("wav"@) {
        Some("audio/wav"@)
    } else if ext == ascii_of("mp4"@) {
        Some("video/mp4"@)
    } else if ext == ascii_of("pdf"@) {
        Some("application/pdf"@)
    } else if ext == ascii_of("xml"@) {
        Some("application/xml"@)
    } else if ext == ascii_of("zip"@) {
        Some("application/zip"@)
    } else {
        None
    }
}

/// The extension with every leading `.` removed.
pub open spec fn spec_strip_dots(ext: Seq<u8>) -> Seq<u8>
    decreases ext.len(),
{
    if ext.len() > 0 && ext[0] == 46 {
        spec_strip_dots(ext.drop_first())
    } else {
        ext
    }
}

pub proof fn lemma_strip_dots_at(s: Seq<u8>, i: int)
    requires
        0 <= i <= s.len(),
        forall|k: int| 0 <= k < i ==> s[k] == 46,
        i < s.len() ==> s[i] != 46,
    ensures
        spec_strip_dots(s) == s.subrange(i, s.len() as int),
    decreases i,
{
    if i == 0 {
        assert(s.subrange(0, s.len() as int) =~= s);
    } else {
        let t = s.drop_first();
        assert(forall|k: int| 0 <= k < i - 1 ==> t[k] == 46);
        lemma_strip_dots_at(t, i - 1);
        assert(t.subrange(i - 1, t.len() as int) =~= s.subrange(i, s.len() as int));
    }
}

/// Converts a file extension (leading dots ignored) to a content type;
/// `None` when it is not recognized.
pub fn extension_to_content_type(extension: &[u8]) -> (r: Option<&'static str>)
    ensures
        match r {
            Some(ct) => spec_ext_to_ct(spec_strip_dots(extension@)) == Some(ct@),
            None => spec_ext_to_ct(spec_strip_dots(extension@)).is_none(),
        },
{
    let mut i: usize = 0;
    while i < extension.len() && extension[i] == 46
        invariant
            i <= extension@.len(),
            forall|k: int| 0 <= k < i ==> extension@[k] == 46,
        decreases extension@.len() - i,
    {
        i = i + 1;
    }
    proof {
        lemma_strip_dots_at(extension@, i as int);
    }
    let ext = crate::bytes::subvec(extension, i, extension.len());
    proof {
        reveal_strlit("json");
        reveal_strlit("js");
        reveal_strlit("html");
        reveal_strlit("css");
        reveal_strlit("txt");
        reveal_strlit("csv");
        reveal_strlit("jpg");
        reveal_strlit("png");
        reveal_strlit("gif");
        reveal_strlit("svg");
        reveal_strlit("mp3");
        reveal_strlit("wav");
        reveal_strlit("mp4");
        reveal_strlit("pdf");
        reveal_strlit("xml");
        reveal_strlit("zip");
    }
    if bytes_eq(ext.as_slice(), str_bytes("json").as_slice()) {
        Some("application/json")
    } else if bytes_eq(ext.as_slice(), str_bytes("js").as_slice()) {
        Some("application/javascript")
    } else if bytes_eq(ext.as_slice(), str_bytes("html").as_slice()) {
        Some("text/html")
    } else if bytes_eq(ext.as_slice(), str_bytes("css").as_slice()) {
        Some("text/css")
    } else if bytes_eq(ext.as_slice(), str_bytes("txt").as_slice()) {
        Some("text/plain")
    } else if bytes_eq(ext.as_slice(), str_bytes("csv").as_slice()) {
        Some("text/csv")
    } else if bytes_eq(ext.as_slice(), str_bytes("jpg").as_slice()) {
        Some("image/jpeg")
    } else if bytes_eq(ext.as_slice(), str_bytes("png").as_slice()) {
        Some("image/png")
    } else if bytes_eq(ext.as_slice(), str_bytes("gif").as_slice()) {
        Some("image/gif")
    } else if bytes_eq(ext.as_slice(), str_bytes("svg").as_slice()) {
        Some("image/svg+xml")
    } else if bytes_eq(ext.as_slice(), str_bytes("mp3").as_slice()) {
        Some("audio/mpeg")
    } else if bytes_eq(ext.as_slice(), str_bytes("wav").as_slice()) {
        Some("audio/wav")
    } else if bytes_eq(ext.as_slice(), str_bytes("mp4").as_slice()) {
        Some("video/mp4")
    } else if bytes_eq(ext.as_slice(), str_bytes("pdf").as_slice()) {
        Some("application/pdf")
    } else if bytes_eq(ext.as_slice(), str_bytes("xml").as_slice()) {
        Some("application/xml")
    } else if bytes_eq(ext.as_slice(), str_bytes("zip").as_slice()) {
        Some("application/zip")
    } else {
        None
    }
}

} // verus!
