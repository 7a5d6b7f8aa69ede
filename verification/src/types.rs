//! HTTP methods, status codes, content types, header names and header values.

use vstd::prelude::*;
use vstd::utf8::*;
use crate::text::{ascii_chars, all_ascii, chars_of, is_ws, is_whitespace, lemma_ascii_encode, find_char_from, find_char, string_from_chars, str_eq};

verus! {

fn bytes_eq(a: &[u8], b: &[u8]) -> (r: bool)
    ensures
        r == (a@ == b@),
{
    if a.len() != b.len() {
        return false;
    }
    let mut i: usize = 0;
    while i < a.len()
        invariant
            i <= a@.len(),
            a@.len() == b@.len(),
            forall|j: int| 0 <= j < i ==> a@[j] == b@[j],
        decreases a@.len() - i,
    {
        if a[i] != b[i] {
            return false;
        }
        i = i + 1;
    }
    assert(a@ =~= b@);
    true
}

/// An HTTP request method.
#[derive(Debug, Clone, Copy, PartialEq, Eq, Structural)]
pub enum Method {
    GET,
    HEAD,
    POST,
    PUT,
    DELETE,
    CONNECT,
    OPTIONS,
    TRACE,
    PATCH,
}

impl Method {
    /// The method's name as bytes.
    pub open spec fn name_bytes(self) -> Seq<u8> {
        match self {
            Method::GET => seq![71u8, 69u8, 84u8],
            Method::HEAD => seq![72u8, 69u8, 65u8, 68u8],
            Method::POST => seq![80u8, 79u8, 83u8, 84u8],
            Method::PUT => seq![80u8, 85u8, 84u8],
            Method::DELETE => seq![68u8, 69u8, 76u8, 69u8, 84u8, 69u8],
            Method::CONNECT => seq![67u8, 79u8, 78u8, 78u8, 69u8, 67u8, 84u8],
            Method::OPTIONS => seq![79u8, 80u8, 84u8, 73u8, 79u8, 78u8, 83u8],
            Method::TRACE => seq![84u8, 82u8, 65u8, 67u8, 69u8],
            Method::PATCH => seq![80u8, 65u8, 84u8, 67u8, 72u8],
        }
    }

    /// Parses an HTTP method from its byte representation.
    pub fn from_bytes(s: &[u8]) -> (r: Option<Self>)
        ensures
            r matches Some(m) ==> s@ == m.name_bytes(),
            r is None ==> forall|m: Method| s@ != #[trigger] m.name_bytes(),
    {
        if bytes_eq(s, &[71u8, 69u8, 84u8]) {
            Some(Method::GET)
        } else if bytes_eq(s, &[72u8, 69u8, 65u8, 68u8]) {
            Some(Method::HEAD)
        } else if bytes_eq(s, &[80u8, 79u8, 83u8, 84u8]) {
            Some(Method::POST)
        } else if bytes_eq(s, &[80u8, 85u8, 84u8]) {
            Some(Method::PUT)
        } else if bytes_eq(s, &[68u8, 69u8, 76u8, 69u8, 84u8, 69u8]) {
            Some(Method::DELETE)
        } else if bytes_eq(s, &[67u8, 79u8, 78u8, 78u8, 69u8, 67u8, 84u8]) {
            Some(Method::CONNECT)
        } else if bytes_eq(s, &[79u8, 80u8, 84u8, 73u8, 79u8, 78u8, 83u8]) {
            Some(Method::OPTIONS)
        } else if bytes_eq(s, &[84u8, 82u8, 65u8, 67u8, 69u8]) {
            Some(Method::TRACE)
        } else if bytes_eq(s, &[80u8, 65u8, 84u8, 67u8, 72u8]) {
            Some(Method::PATCH)
        } else {
            proof {
                assert forall|m: Method| s@ != #[trigger] m.name_bytes() by {
                    match m {
                        Method::GET => { assert([71u8, 69u8, 84u8]@ =~= seq![71u8, 69u8, 84u8]); }
                        Method::HEAD => { assert([72u8, 69u8, 65u8, 68u8]@ =~= seq![72u8, 69u8, 65u8, 68u8]); }
                        Method::POST => { assert([80u8, 79u8, 83u8, 84u8]@ =~= seq![80u8, 79u8, 83u8, 84u8]); }
                        Method::PUT => { assert([80u8, 85u8, 84u8]@ =~= seq![80u8, 85u8, 84u8]); }
                        Method::DELETE => { assert([68u8, 69u8, 76u8, 69u8, 84u8, 69u8]@ =~= seq![68u8, 69u8, 76u8, 69u8, 84u8, 69u8]); }
                        Method::CONNECT => { assert([67u8, 79u8, 78u8, 78u8, 69u8, 67u8, 84u8]@ =~= seq![67u8, 79u8, 78u8, 78u8, 69u8, 67u8, 84u8]); }
                        Method::OPTIONS => { assert([79u8, 80u8, 84u8, 73u8, 79u8, 78u8, 83u8]@ =~= seq![79u8, 80u8, 84u8, 73u8, 79u8, 78u8, 83u8]); }
                        Method::TRACE => { assert([84u8, 82u8, 65u8, 67u8, 69u8]@ =~= seq![84u8, 82u8, 65u8, 67u8, 69u8]); }
                        Method::PATCH => { assert([80u8, 65u8, 84u8, 67u8, 72u8]@ =~= seq![80u8, 65u8, 84u8, 67u8, 72u8]); }
                    }
                }
            }
            None
        }
    }

    /// Returns the string representation of the HTTP method.
    pub fn as_str(self) -> (s: &'static str)
        ensures
            s@ == ascii_chars(self.name_bytes()),
    {
        match self {
            Method::GET => {
                proof {
                    reveal_strlit("GET");
                    assert("GET"@ =~= ascii_chars(seq![71u8, 69u8, 84u8]));
                }
                "GET"
            }
            Method::HEAD => {
                proof {
                    reveal_strlit("HEAD");
                    assert("HEAD"@ =~= ascii_chars(seq![72u8, 69u8, 65u8, 68u8]));
                }
                "HEAD"
            }
            Method::POST => {
                proof {
                    reveal_strlit("POST");
                    assert("POST"@ =~= ascii_chars(seq![80u8, 79u8, 83u8, 84u8]));
                }
                "POST"
            }
            Method::PUT => {
                proof {
                    reveal_strlit("PUT");
                    assert("PUT"@ =~= ascii_chars(seq![80u8, 85u8, 84u8]));
                }
                "PUT"
            }
            Method::DELETE => {
                proof {
                    reveal_strlit("DELETE");
                    assert("DELETE"@ =~= ascii_chars(seq![68u8, 69u8, 76u8, 69u8, 84u8, 69u8]));
                }
                "DELETE"
            }
            Method::CONNECT => {
                proof {
                    reveal_strlit("CONNECT");
                    assert("CONNECT"@ =~= ascii_chars(seq![67u8, 79u8, 78u8, 78u8, 69u8, 67u8, 84u8]));
                }
                "CONNECT"
            }
            Method::OPTIONS => {
                proof {
                    reveal_strlit("OPTIONS");
                    assert("OPTIONS"@ =~= ascii_chars(seq![79u8, 80u8, 84u8, 73u8, 79u8, 78u8, 83u8]));
                }
                "OPTIONS"
            }
            Method::TRACE => {
                proof {
                    reveal_strlit("TRACE");
                    assert("TRACE"@ =~= ascii_chars(seq![84u8, 82u8, 65u8, 67u8, 69u8]));
                }
                "TRACE"
            }
            Method::PATCH => {
                proof {
                    reveal_strlit("PATCH");
                    assert("PATCH"@ =~= ascii_chars(seq![80u8, 65u8, 84u8, 67u8, 72u8]));
                }
                "PATCH"
            }
        }
    }
}

/// The method whose name is `b`, if any.
pub open spec fn parse_method(b: Seq<u8>) -> Option<Method> {
    if exists|m: Method| #[trigger] m.name_bytes() == b {
        Some(choose|m: Method| #[trigger] m.name_bytes() == b)
    } else {
        None
    }
}

/// `Method::from_bytes` computes `parse_method`.
pub proof fn lemma_from_bytes_is_parse(s: Seq<u8>, r: Option<Method>)
    requires
        r matches Some(m) ==> s == m.name_bytes(),
        r is None ==> forall|m: Method| s != #[trigger] m.name_bytes(),
    ensures
        r == parse_method(s),
{
    if let Some(m) = r {
        let c = choose|m2: Method| #[trigger] m2.name_bytes() == s;
        lemma_method_name_roundtrip(m, c);
    }
}

/// Parsing the name of a method gives the method back.
pub proof fn lemma_method_name_roundtrip(m1: Method, m2: Method)
    ensures
        m1.name_bytes() == m2.name_bytes() ==> m1 == m2,
{
    if m1.name_bytes() == m2.name_bytes() {
        match m1 {
            Method::GET => { assert(m1.name_bytes()[0] == m2.name_bytes()[0]); assert(m1.name_bytes().len() == m2.name_bytes().len()); }
            Method::HEAD => { assert(m1.name_bytes()[0] == m2.name_bytes()[0]); assert(m1.name_bytes().len() == m2.name_bytes().len()); }
            Method::POST => { assert(m1.name_bytes()[0] == m2.name_bytes()[0]); assert(m1.name_bytes().len() == m2.name_bytes().len()); }
            Method::PUT => { assert(m1.name_bytes()[0] == m2.name_bytes()[0]); assert(m1.name_bytes().len() == m2.name_bytes().len()); }
            Method::DELETE => { assert(m1.name_bytes()[0] == m2.name_bytes()[0]); assert(m1.name_bytes().len() == m2.name_bytes().len()); }
            Method::CONNECT => { assert(m1.name_bytes()[0] == m2.name_bytes()[0]); assert(m1.name_bytes().len() == m2.name_bytes().len()); }
            Method::OPTIONS => { assert(m1.name_bytes()[0] == m2.name_bytes()[0]); assert(m1.name_bytes().len() == m2.name_bytes().len()); }
            Method::TRACE => { assert(m1.name_bytes()[0] == m2.name_bytes()[0]); assert(m1.name_bytes().len() == m2.name_bytes().len()); }
            Method::PATCH => { assert(m1.name_bytes()[0] == m2.name_bytes()[0]); assert(m1.name_bytes().len() == m2.name_bytes().len()); }
        }
        if m1 != m2 {
            assert(m1.name_bytes()[1] == m2.name_bytes()[1]);
        }
    }
}

/// An HTTP status code.
#[derive(Debug, Clone, Copy, PartialEq, Eq, Structural)]
pub enum StatusCode {
    /// HTTP/1.1 100 Continue
    Continue,
    /// HTTP/1.1 101 Switching Protocols
    SwitchingProtocols,
    /// HTTP/1.1 200 OK
    OK,
    /// HTTP/1.1 201 Created
    Created,
    /// HTTP/1.1 202 Accepted
    Accepted,
    /// HTTP/1.1 204 No Content
    NoContent,
    /// HTTP/1.1 205 Reset Content
    ResetContent,
    /// HTTP/1.1 206 Partial Content
    PartialContent,
    /// HTTP/1.1 300 Multiple Choices
    MultipleChoices,
    /// HTTP/1.1 301 Moved Permanently
    MovedPermanently,
    /// HTTP/1.1 302 Found
    Found,
    /// HTTP/1.1 303 See Other
    SeeOther,
    /// HTTP/1.1 304 Not Modified
    NotModified,
    /// HTTP/1.1 307 Temporary Redirect
    TemporaryRedirect,
    /// HTTP/1.1 308 Permanent Redirect
    PermanentRedirect,
    /// HTTP/1.1 400 Bad Request
    BadRequest,
    /// HTTP/1.1 401 Unauthorized
    Unauthorized,
    /// HTTP/1.1 402 Payment Required
    PaymentRequired,
    /// HTTP/1.1 403 Forbidden
    Forbidden,
    /// HTTP/1.1 404 Not Found
    NotFound,
    /// HTTP/1.1 405 Method Not Allowed
    MethodNotAllowed,
    /// HTTP/1.1 406 Not Acceptable
    NotAcceptable,
    /// HTTP/1.1 407 Proxy Authentication Required
    ProxyAuthenticationRequired,
    /// HTTP/1.1 408 Request Timeout
    RequestTimeout,
    /// HTTP/1.1 409 Conflict
    Conflict,
    /// HTTP/1.1 410 Gone
    Gone,
    /// HTTP/1.1 411 Length Required
    LengthRequired,
    /// HTTP/1.1 412 Precondition Failed
    PreconditionFailed,
    /// HTTP/1.1 413 Content Too Large
    ContentTooLarge,
    /// HTTP/1.1 414 URI Too Long
    URITooLong,
    /// HTTP/1.1 415 Unsupported Media Type
    UnsupportedMediaType,
    /// HTTP/1.1 416 Range Not Satisfiable
    RangeNotSatisfiable,
    /// HTTP/1.1 417 Expectation Failed
    ExpectationFailed,
    /// HTTP/1.1 421 Misdirected Request
    MisdirectedRequest,
    /// HTTP/1.1 422 Unprocessable Content
    UnprocessableContent,
    /// HTTP/1.1 426 Upgrade Required
    UpgradeRequired,
    /// HTTP/1.1 428 Precondition Required
    PreconditionRequired,
    /// HTTP/1.1 429 Too Many Requests
    TooManyRequests,
    /// HTTP/1.1 431 Request Header Fields Too Large
    RequestHeaderFieldsTooLarge,
    /// HTTP/1.1 451 Unavailable For Legal Reasons
    UnavailableForLegalReasons,
    /// HTTP/1.1 500 Internal Server Error
    InternalServerError,
    /// HTTP/1.1 501 Not Implemented
    NotImplemented,
    /// HTTP/1.1 502 Bad Gateway
    BadGateway,
    /// HTTP/1.1 503 Service Unavailable
    ServiceUnavailable,
    /// HTTP/1.1 504 Gateway Timeout
    GatewayTimeout,
    /// HTTP/1.1 505 HTTP Version Not Supported
    HTTPVersionNotSupported,
}

impl StatusCode {
    /// The numeric code.
    pub open spec fn code(self) -> u16 {
        match self {
            StatusCode::Continue => 100,
            StatusCode::SwitchingProtocols => 101,
            StatusCode::OK => 200,
            StatusCode::Created => 201,
            StatusCode::Accepted => 202,
            StatusCode::NoContent => 204,
            StatusCode::ResetContent => 205,
            StatusCode::PartialContent => 206,
            StatusCode::MultipleChoices => 300,
            StatusCode::MovedPermanently => 301,
            StatusCode::Found => 302,
            StatusCode::SeeOther => 303,
            StatusCode::NotModified => 304,
            StatusCode::TemporaryRedirect => 307,
            StatusCode::PermanentRedirect => 308,
            StatusCode::BadRequest => 400,
            StatusCode::Unauthorized => 401,
            StatusCode::PaymentRequired => 402,
            StatusCode::Forbidden => 403,
            StatusCode::NotFound => 404,
            StatusCode::MethodNotAllowed => 405,
            StatusCode::NotAcceptable => 406,
            StatusCode::ProxyAuthenticationRequired => 407,
            StatusCode::RequestTimeout => 408,
            StatusCode::Conflict => 409,
            StatusCode::Gone => 410,
            StatusCode::LengthRequired => 411,
            StatusCode::PreconditionFailed => 412,
            StatusCode::ContentTooLarge => 413,
            StatusCode::URITooLong => 414,
            StatusCode::UnsupportedMediaType => 415,
            StatusCode::RangeNotSatisfiable => 416,
            StatusCode::ExpectationFailed => 417,
            StatusCode::MisdirectedRequest => 421,
            StatusCode::UnprocessableContent => 422,
            StatusCode::UpgradeRequired => 426,
            StatusCode::PreconditionRequired => 428,
            StatusCode::TooManyRequests => 429,
            StatusCode::RequestHeaderFieldsTooLarge => 431,
            StatusCode::UnavailableForLegalReasons => 451,
            StatusCode::InternalServerError => 500,
            StatusCode::NotImplemented => 501,
            StatusCode::BadGateway => 502,
            StatusCode::ServiceUnavailable => 503,
            StatusCode::GatewayTimeout => 504,
            StatusCode::HTTPVersionNotSupported => 505,
        }
    }

    /// The reason phrase as bytes.
    pub open spec fn reason_bytes(self) -> Seq<u8> {
        match self {
            StatusCode::Continue => seq![67u8, 111u8, 110u8, 116u8, 105u8, 110u8, 117u8, 101u8],
            StatusCode::SwitchingProtocols => seq![83u8, 119u8, 105u8, 116u8, 99u8, 104u8, 105u8, 110u8, 103u8, 32u8, 80u8, 114u8, 111u8, 116u8, 111u8, 99u8, 111u8, 108u8, 115u8],
            StatusCode::OK => seq![79u8, 75u8],
            StatusCode::Created => seq![67u8, 114u8, 101u8, 97u8, 116u8, 101u8, 100u8],
            StatusCode::Accepted => seq![65u8, 99u8, 99u8, 101u8, 112u8, 116u8, 101u8, 100u8],
            StatusCode::NoContent => seq![78u8, 111u8, 32u8, 67u8, 111u8, 110u8, 116u8, 101u8, 110u8, 116u8],
            StatusCode::ResetContent => seq![82u8, 101u8, 115u8, 101u8, 116u8, 32u8, 67u8, 111u8, 110u8, 116u8, 101u8, 110u8, 116u8],
            StatusCode::PartialContent => seq![80u8, 97u8, 114u8, 116u8, 105u8, 97u8, 108u8, 32u8, 67u8, 111u8, 110u8, 116u8, 101u8, 110u8, 116u8],
            StatusCode::MultipleChoices => seq![77u8, 117u8, 108u8, 116u8, 105u8, 112u8, 108u8, 101u8, 32u8, 67u8, 104u8, 111u8, 105u8, 99u8, 101u8, 115u8],
            StatusCode::MovedPermanently => seq![77u8, 111u8, 118u8, 101u8, 100u8, 32u8, 80u8, 101u8, 114u8, 109u8, 97u8, 110u8, 101u8, 110u8, 116u8, 108u8, 121u8],
            StatusCode::Found => seq![70u8, 111u8, 117u8, 110u8, 100u8],
            StatusCode::SeeOther => seq![83u8, 101u8, 101u8, 32u8, 79u8, 116u8, 104u8, 101u8, 114u8],
            StatusCode::NotModified => seq![78u8, 111u8, 116u8, 32u8, 77u8, 111u8, 100u8, 105u8, 102u8, 105u8, 101u8, 100u8],
            StatusCode::TemporaryRedirect => seq![84u8, 101u8, 109u8, 112u8, 111u8, 114u8, 97u8, 114u8, 121u8, 32u8, 82u8, 101u8, 100u8, 105u8, 114u8, 101u8, 99u8, 116u8],
            StatusCode::PermanentRedirect => seq![80u8, 101u8, 114u8, 109u8, 97u8, 110u8, 101u8, 110u8, 116u8, 32u8, 82u8, 101u8, 100u8, 105u8, 114u8, 101u8, 99u8, 116u8],
            StatusCode::BadRequest => seq![66u8, 97u8, 100u8, 32u8, 82u8, 101u8, 113u8, 117u8, 101u8, 115u8, 116u8],
            StatusCode::Unauthorized => seq![85u8, 110u8, 97u8, 117u8, 116u8, 104u8, 111u8, 114u8, 105u8, 122u8, 101u8, 100u8],
            StatusCode::PaymentRequired => seq![80u8, 97u8, 121u8, 109u8, 101u8, 110u8, 116u8, 32u8, 82u8, 101u8, 113u8, 117u8, 105u8, 114u8, 101u8, 100u8],
            StatusCode::Forbidden => seq![70u8, 111u8, 114u8, 98u8, 105u8, 100u8, 100u8, 101u8, 110u8],
            StatusCode::NotFound => seq![78u8, 111u8, 116u8, 32u8, 70u8, 111u8, 117u8, 110u8, 100u8],
            StatusCode::MethodNotAllowed => seq![77u8, 101u8, 116u8, 104u8, 111u8, 100u8, 32u8, 78u8, 111u8, 116u8, 32u8, 65u8, 108u8, 108u8, 111u8, 119u8, 101u8, 100u8],
            StatusCode::NotAcceptable => seq![78u8, 111u8, 116u8, 32u8, 65u8, 99u8, 99u8, 101u8, 112u8, 116u8, 97u8, 98u8, 108u8, 101u8],
            StatusCode::ProxyAuthenticationRequired => seq![80u8, 114u8, 111u8, 120u8, 121u8, 32u8, 65u8, 117u8, 116u8, 104u8, 101u8, 110u8, 116u8, 105u8, 99u8, 97u8, 116u8, 105u8, 111u8, 110u8, 32u8, 82u8, 101u8, 113u8, 117u8, 105u8, 114u8, 101u8, 100u8],
            StatusCode::RequestTimeout => seq![82u8, 101u8, 113u8, 117u8, 101u8, 115u8, 116u8, 32u8, 84u8, 105u8, 109u8, 101u8, 111u8, 117u8, 116u8],
            StatusCode::Conflict => seq![67u8, 111u8, 110u8, 102u8, 108u8, 105u8, 99u8, 116u8],
            StatusCode::Gone => seq![71u8, 111u8, 110u8, 101u8],
            StatusCode::LengthRequired => seq![76u8, 101u8, 110u8, 103u8, 116u8, 104u8, 32u8, 82u8, 101u8, 113u8, 117u8, 105u8, 114u8, 101u8, 100u8],
            StatusCode::PreconditionFailed => seq![80u8, 114u8, 101u8, 99u8, 111u8, 110u8, 100u8, 105u8, 116u8, 105u8, 111u8, 110u8, 32u8, 70u8, 97u8, 105u8, 108u8, 101u8, 100u8],
            StatusCode::ContentTooLarge => seq![67u8, 111u8, 110u8, 116u8, 101u8, 110u8, 116u8, 32u8, 84u8, 111u8, 111u8, 32u8, 76u8, 97u8, 114u8, 103u8, 101u8],
            StatusCode::URITooLong => seq![85u8, 82u8, 73u8, 32u8, 84u8, 111u8, 111u8, 32u8, 76u8, 111u8, 110u8, 103u8],
            StatusCode::UnsupportedMediaType => seq![85u8, 110u8, 115u8, 117u8, 112u8, 112u8, 111u8, 114u8, 116u8, 101u8, 100u8, 32u8, 77u8, 101u8, 100u8, 105u8, 97u8, 32u8, 84u8, 121u8, 112u8, 101u8],
            StatusCode::RangeNotSatisfiable => seq![82u8, 97u8, 110u8, 103u8, 101u8, 32u8, 78u8, 111u8, 116u8, 32u8, 83u8, 97u8, 116u8, 105u8, 115u8, 102u8, 105u8, 97u8, 98u8, 108u8, 101u8],
            StatusCode::ExpectationFailed => seq![69u8, 120u8, 112u8, 101u8, 99u8, 116u8, 97u8, 116u8, 105u8, 111u8, 110u8, 32u8, 70u8, 97u8, 105u8, 108u8, 101u8, 100u8],
            StatusCode::MisdirectedRequest => seq![77u8, 105u8, 115u8, 100u8, 105u8, 114u8, 101u8, 99u8, 116u8, 101u8, 100u8, 32u8, 82u8, 101u8, 113u8, 117u8, 101u8, 115u8, 116u8],
            StatusCode::UnprocessableContent => seq![85u8, 110u8, 112u8, 114u8, 111u8, 99u8, 101u8, 115u8, 115u8, 97u8, 98u8, 108u8, 101u8, 32u8, 67u8, 111u8, 110u8, 116u8, 101u8, 110u8, 116u8],
            StatusCode::UpgradeRequired => seq![85u8, 112u8, 103u8, 114u8, 97u8, 100u8, 101u8, 32u8, 82u8, 101u8, 113u8, 117u8, 105u8, 114u8, 101u8, 100u8],
            StatusCode::PreconditionRequired => seq![80u8, 114u8, 101u8, 99u8, 111u8, 110u8, 100u8, 105u8, 116u8, 105u8, 111u8, 110u8, 32u8, 82u8, 101u8, 113u8, 117u8, 105u8, 114u8, 101u8, 100u8],
            StatusCode::TooManyRequests => seq![84u8, 111u8, 111u8, 32u8, 77u8, 97u8, 110u8, 121u8, 32u8, 82u8, 101u8, 113u8, 117u8, 101u8, 115u8, 116u8, 115u8],
            StatusCode::RequestHeaderFieldsTooLarge => seq![82u8, 101u8, 113u8, 117u8, 101u8, 115u8, 116u8, 32u8, 72u8, 101u8, 97u8, 100u8, 101u8, 114u8, 32u8, 70u8, 105u8, 101u8, 108u8, 100u8, 115u8, 32u8, 84u8, 111u8, 111u8, 32u8, 76u8, 97u8, 114u8, 103u8, 101u8],
            StatusCode::UnavailableForLegalReasons => seq![85u8, 110u8, 97u8, 118u8, 97u8, 105u8, 108u8, 97u8, 98u8, 108u8, 101u8, 32u8, 70u8, 111u8, 114u8, 32u8, 76u8, 101u8, 103u8, 97u8, 108u8, 32u8, 82u8, 101u8, 97u8, 115u8, 111u8, 110u8, 115u8],
            StatusCode::InternalServerError => seq![73u8, 110u8, 116u8, 101u8, 114u8, 110u8, 97u8, 108u8, 32u8, 83u8, 101u8, 114u8, 118u8, 101u8, 114u8, 32u8, 69u8, 114u8, 114u8, 111u8, 114u8],
            StatusCode::NotImplemented => seq![78u8, 111u8, 116u8, 32u8, 73u8, 109u8, 112u8, 108u8, 101u8, 109u8, 101u8, 110u8, 116u8, 101u8, 100u8],
            StatusCode::BadGateway => seq![66u8, 97u8, 100u8, 32u8, 71u8, 97u8, 116u8, 101u8, 119u8, 97u8, 121u8],
            StatusCode::ServiceUnavailable => seq![83u8, 101u8, 114u8, 118u8, 105u8, 99u8, 101u8, 32u8, 85u8, 110u8, 97u8, 118u8, 97u8, 105u8, 108u8, 97u8, 98u8, 108u8, 101u8],
            StatusCode::GatewayTimeout => seq![71u8, 97u8, 116u8, 101u8, 119u8, 97u8, 121u8, 32u8, 84u8, 105u8, 109u8, 101u8, 111u8, 117u8, 116u8],
            StatusCode::HTTPVersionNotSupported => seq![72u8, 84u8, 84u8, 80u8, 32u8, 86u8, 101u8, 114u8, 115u8, 105u8, 111u8, 110u8, 32u8, 78u8, 111u8, 116u8, 32u8, 83u8, 117u8, 112u8, 112u8, 111u8, 114u8, 116u8, 101u8, 100u8],
        }
    }

    /// Returns the numeric status code.
    pub fn as_u16(self) -> (n: u16)
        ensures
            n == self.code(),
            100 <= n <= 599,
    {
        match self {
            StatusCode::Continue => 100,
            StatusCode::SwitchingProtocols => 101,
            StatusCode::OK => 200,
            StatusCode::Created => 201,
            StatusCode::Accepted => 202,
            StatusCode::NoContent => 204,
            StatusCode::ResetContent => 205,
            StatusCode::PartialContent => 206,
            StatusCode::MultipleChoices => 300,
            StatusCode::MovedPermanently => 301,
            StatusCode::Found => 302,
            StatusCode::SeeOther => 303,
            StatusCode::NotModified => 304,
            StatusCode::TemporaryRedirect => 307,
            StatusCode::PermanentRedirect => 308,
            StatusCode::BadRequest => 400,
            StatusCode::Unauthorized => 401,
            StatusCode::PaymentRequired => 402,
            StatusCode::Forbidden => 403,
            StatusCode::NotFound => 404,
            StatusCode::MethodNotAllowed => 405,
            StatusCode::NotAcceptable => 406,
            StatusCode::ProxyAuthenticationRequired => 407,
            StatusCode::RequestTimeout => 408,
            StatusCode::Conflict => 409,
            StatusCode::Gone => 410,
            StatusCode::LengthRequired => 411,
            StatusCode::PreconditionFailed => 412,
            StatusCode::ContentTooLarge => 413,
            StatusCode::URITooLong => 414,
            StatusCode::UnsupportedMediaType => 415,
            StatusCode::RangeNotSatisfiable => 416,
            StatusCode::ExpectationFailed => 417,
            StatusCode::MisdirectedRequest => 421,
            StatusCode::UnprocessableContent => 422,
            StatusCode::UpgradeRequired => 426,
            StatusCode::PreconditionRequired => 428,
            StatusCode::TooManyRequests => 429,
            StatusCode::RequestHeaderFieldsTooLarge => 431,
            StatusCode::UnavailableForLegalReasons => 451,
            StatusCode::InternalServerError => 500,
            StatusCode::NotImplemented => 501,
            StatusCode::BadGateway => 502,
            StatusCode::ServiceUnavailable => 503,
            StatusCode::GatewayTimeout => 504,
            StatusCode::HTTPVersionNotSupported => 505,
        }
    }

    /// Returns the reason phrase (e.g. `"OK"`, `"Not Found"`).
    pub fn as_str(self) -> (s: &'static str)
        ensures
            s@ == ascii_chars(self.reason_bytes()),
    {
        match self {
            StatusCode::Continue => {
                proof {
                    reveal_strlit("Continue");
                    assert("Continue"@ =~= ascii_chars(seq![67u8, 111u8, 110u8, 116u8, 105u8, 110u8, 117u8, 101u8]));
                }
                "Continue"
            }
            StatusCode::SwitchingProtocols => {
                proof {
                    reveal_strlit("Switching Protocols");
                    assert("Switching Protocols"@ =~= ascii_chars(seq![83u8, 119u8, 105u8, 116u8, 99u8, 104u8, 105u8, 110u8, 103u8, 32u8, 80u8, 114u8, 111u8, 116u8, 111u8, 99u8, 111u8, 108u8, 115u8]));
                }
                "Switching Protocols"
            }
            StatusCode::OK => {
                proof {
                    reveal_strlit("OK");
                    assert("OK"@ =~= ascii_chars(seq![79u8, 75u8]));
                }
                "OK"
            }
            StatusCode::Created => {
                proof {
                    reveal_strlit("Created");
                    assert("Created"@ =~= ascii_chars(seq![67u8, 114u8, 101u8, 97u8, 116u8, 101u8, 100u8]));
                }
                "Created"
            }
            StatusCode::Accepted => {
                proof {
                    reveal_strlit("Accepted");
                    assert("Accepted"@ =~= ascii_chars(seq![65u8, 99u8, 99u8, 101u8, 112u8, 116u8, 101u8, 100u8]));
                }
                "Accepted"
            }
            StatusCode::NoContent => {
                proof {
                    reveal_strlit("No Content");
                    assert("No Content"@ =~= ascii_chars(seq![78u8, 111u8, 32u8, 67u8, 111u8, 110u8, 116u8, 101u8, 110u8, 116u8]));
                }
                "No Content"
            }
            StatusCode::ResetContent => {
                proof {
                    reveal_strlit("Reset Content");
                    assert("Reset Content"@ =~= ascii_chars(seq![82u8, 101u8, 115u8, 101u8, 116u8, 32u8, 67u8, 111u8, 110u8, 116u8, 101u8, 110u8, 116u8]));
                }
                "Reset Content"
            }
            StatusCode::PartialContent => {
                proof {
                    reveal_strlit("Partial Content");
                    assert("Partial Content"@ =~= ascii_chars(seq![80u8, 97u8, 114u8, 116u8, 105u8, 97u8, 108u8, 32u8, 67u8, 111u8, 110u8, 116u8, 101u8, 110u8, 116u8]));
                }
                "Partial Content"
            }
            StatusCode::MultipleChoices => {
                proof {
                    reveal_strlit("Multiple Choices");
                    assert("Multiple Choices"@ =~= ascii_chars(seq![77u8, 117u8, 108u8, 116u8, 105u8, 112u8, 108u8, 101u8, 32u8, 67u8, 104u8, 111u8, 105u8, 99u8, 101u8, 115u8]));
                }
                "Multiple Choices"
            }
            StatusCode::MovedPermanently => {
                proof {
                    reveal_strlit("Moved Permanently");
                    assert("Moved Permanently"@ =~= ascii_chars(seq![77u8, 111u8, 118u8, 101u8, 100u8, 32u8, 80u8, 101u8, 114u8, 109u8, 97u8, 110u8, 101u8, 110u8, 116u8, 108u8, 121u8]));
                }
                "Moved Permanently"
            }
            StatusCode::Found => {
                proof {
                    reveal_strlit("Found");
                    assert("Found"@ =~= ascii_chars(seq![70u8, 111u8, 117u8, 110u8, 100u8]));
                }
                "Found"
            }
            StatusCode::SeeOther => {
                proof {
                    reveal_strlit("See Other");
                    assert("See Other"@ =~= ascii_chars(seq![83u8, 101u8, 101u8, 32u8, 79u8, 116u8, 104u8, 101u8, 114u8]));
                }
                "See Other"
            }
            StatusCode::NotModified => {
                proof {
                    reveal_strlit("Not Modified");
                    assert("Not Modified"@ =~= ascii_chars(seq![78u8, 111u8, 116u8, 32u8, 77u8, 111u8, 100u8, 105u8, 102u8, 105u8, 101u8, 100u8]));
                }
                "Not Modified"
            }
            StatusCode::TemporaryRedirect => {
                proof {
                    reveal_strlit("Temporary Redirect");
                    assert("Temporary Redirect"@ =~= ascii_chars(seq![84u8, 101u8, 109u8, 112u8, 111u8, 114u8, 97u8, 114u8, 121u8, 32u8, 82u8, 101u8, 100u8, 105u8, 114u8, 101u8, 99u8, 116u8]));
                }
                "Temporary Redirect"
            }
            StatusCode::PermanentRedirect => {
                proof {
                    reveal_strlit("Permanent Redirect");
                    assert("Permanent Redirect"@ =~= ascii_chars(seq![80u8, 101u8, 114u8, 109u8, 97u8, 110u8, 101u8, 110u8, 116u8, 32u8, 82u8, 101u8, 100u8, 105u8, 114u8, 101u8, 99u8, 116u8]));
                }
                "Permanent Redirect"
            }
            StatusCode::BadRequest => {
                proof {
                    reveal_strlit("Bad Request");
                    assert("Bad Request"@ =~= ascii_chars(seq![66u8, 97u8, 100u8, 32u8, 82u8, 101u8, 113u8, 117u8, 101u8, 115u8, 116u8]));
                }
                "Bad Request"
            }
            StatusCode::Unauthorized => {
                proof {
                    reveal_strlit("Unauthorized");
                    assert("Unauthorized"@ =~= ascii_chars(seq![85u8, 110u8, 97u8, 117u8, 116u8, 104u8, 111u8, 114u8, 105u8, 122u8, 101u8, 100u8]));
                }
                "Unauthorized"
            }
            StatusCode::PaymentRequired => {
                proof {
                    reveal_strlit("Payment Required");
                    assert("Payment Required"@ =~= ascii_chars(seq![80u8, 97u8, 121u8, 109u8, 101u8, 110u8, 116u8, 32u8, 82u8, 101u8, 113u8, 117u8, 105u8, 114u8, 101u8, 100u8]));
                }
                "Payment Required"
            }
            StatusCode::Forbidden => {
                proof {
                    reveal_strlit("Forbidden");
                    assert("Forbidden"@ =~= ascii_chars(seq![70u8, 111u8, 114u8, 98u8, 105u8, 100u8, 100u8, 101u8, 110u8]));
                }
                "Forbidden"
            }
            StatusCode::NotFound => {
                proof {
                    reveal_strlit("Not Found");
                    assert("Not Found"@ =~= ascii_chars(seq![78u8, 111u8, 116u8, 32u8, 70u8, 111u8, 117u8, 110u8, 100u8]));
                }
                "Not Found"
            }
            StatusCode::MethodNotAllowed => {
                proof {
                    reveal_strlit("Method Not Allowed");
                    assert("Method Not Allowed"@ =~= ascii_chars(seq![77u8, 101u8, 116u8, 104u8, 111u8, 100u8, 32u8, 78u8, 111u8, 116u8, 32u8, 65u8, 108u8, 108u8, 111u8, 119u8, 101u8, 100u8]));
                }
                "Method Not Allowed"
            }
            StatusCode::NotAcceptable => {
                proof {
                    reveal_strlit("Not Acceptable");
                    assert("Not Acceptable"@ =~= ascii_chars(seq![78u8, 111u8, 116u8, 32u8, 65u8, 99u8, 99u8, 101u8, 112u8, 116u8, 97u8, 98u8, 108u8, 101u8]));
                }
                "Not Acceptable"
            }
            StatusCode::ProxyAuthenticationRequired => {
                proof {
                    reveal_strlit("Proxy Authentication Required");
                    assert("Proxy Authentication Required"@ =~= ascii_chars(seq![80u8, 114u8, 111u8, 120u8, 121u8, 32u8, 65u8, 117u8, 116u8, 104u8, 101u8, 110u8, 116u8, 105u8, 99u8, 97u8, 116u8, 105u8, 111u8, 110u8, 32u8, 82u8, 101u8, 113u8, 117u8, 105u8, 114u8, 101u8, 100u8]));
                }
                "Proxy Authentication Required"
            }
            StatusCode::RequestTimeout => {
                proof {
                    reveal_strlit("Request Timeout");
                    assert("Request Timeout"@ =~= ascii_chars(seq![82u8, 101u8, 113u8, 117u8, 101u8, 115u8, 116u8, 32u8, 84u8, 105u8, 109u8, 101u8, 111u8, 117u8, 116u8]));
                }
                "Request Timeout"
            }
            StatusCode::Conflict => {
                proof {
                    reveal_strlit("Conflict");
                    assert("Conflict"@ =~= ascii_chars(seq![67u8, 111u8, 110u8, 102u8, 108u8, 105u8, 99u8, 116u8]));
                }
                "Conflict"
            }
            StatusCode::Gone => {
                proof {
                    reveal_strlit("Gone");
                    assert("Gone"@ =~= ascii_chars(seq![71u8, 111u8, 110u8, 101u8]));
                }
                "Gone"
            }
            StatusCode::LengthRequired => {
                proof {
                    reveal_strlit("Length Required");
                    assert("Length Required"@ =~= ascii_chars(seq![76u8, 101u8, 110u8, 103u8, 116u8, 104u8, 32u8, 82u8, 101u8, 113u8, 117u8, 105u8, 114u8, 101u8, 100u8]));
                }
                "Length Required"
            }
            StatusCode::PreconditionFailed => {
                proof {
                    reveal_strlit("Precondition Failed");
                    assert("Precondition Failed"@ =~= ascii_chars(seq![80u8, 114u8, 101u8, 99u8, 111u8, 110u8, 100u8, 105u8, 116u8, 105u8, 111u8, 110u8, 32u8, 70u8, 97u8, 105u8, 108u8, 101u8, 100u8]));
                }
                "Precondition Failed"
            }
            StatusCode::ContentTooLarge => {
                proof {
                    reveal_strlit("Content Too Large");
                    assert("Content Too Large"@ =~= ascii_chars(seq![67u8, 111u8, 110u8, 116u8, 101u8, 110u8, 116u8, 32u8, 84u8, 111u8, 111u8, 32u8, 76u8, 97u8, 114u8, 103u8, 101u8]));
                }
                "Content Too Large"
            }
            StatusCode::URITooLong => {
                proof {
                    reveal_strlit("URI Too Long");
                    assert("URI Too Long"@ =~= ascii_chars(seq![85u8, 82u8, 73u8, 32u8, 84u8, 111u8, 111u8, 32u8, 76u8, 111u8, 110u8, 103u8]));
                }
                "URI Too Long"
            }
            StatusCode::UnsupportedMediaType => {
                proof {
                    reveal_strlit("Unsupported Media Type");
                    assert("Unsupported Media Type"@ =~= ascii_chars(seq![85u8, 110u8, 115u8, 117u8, 112u8, 112u8, 111u8, 114u8, 116u8, 101u8, 100u8, 32u8, 77u8, 101u8, 100u8, 105u8, 97u8, 32u8, 84u8, 121u8, 112u8, 101u8]));
                }
                "Unsupported Media Type"
            }
            StatusCode::RangeNotSatisfiable => {
                proof {
                    reveal_strlit("Range Not Satisfiable");
                    assert("Range Not Satisfiable"@ =~= ascii_chars(seq![82u8, 97u8, 110u8, 103u8, 101u8, 32u8, 78u8, 111u8, 116u8, 32u8, 83u8, 97u8, 116u8, 105u8, 115u8, 102u8, 105u8, 97u8, 98u8, 108u8, 101u8]));
                }
                "Range Not Satisfiable"
            }
            StatusCode::ExpectationFailed => {
                proof {
                    reveal_strlit("Expectation Failed");
                    assert("Expectation Failed"@ =~= ascii_chars(seq![69u8, 120u8, 112u8, 101u8, 99u8, 116u8, 97u8, 116u8, 105u8, 111u8, 110u8, 32u8, 70u8, 97u8, 105u8, 108u8, 101u8, 100u8]));
                }
                "Expectation Failed"
            }
            StatusCode::MisdirectedRequest => {
                proof {
                    reveal_strlit("Misdirected Request");
                    assert("Misdirected Request"@ =~= ascii_chars(seq![77u8, 105u8, 115u8, 100u8, 105u8, 114u8, 101u8, 99u8, 116u8, 101u8, 100u8, 32u8, 82u8, 101u8, 113u8, 117u8, 101u8, 115u8, 116u8]));
                }
                "Misdirected Request"
            }
            StatusCode::UnprocessableContent => {
                proof {
                    reveal_strlit("Unprocessable Content");
                    assert("Unprocessable Content"@ =~= ascii_chars(seq![85u8, 110u8, 112u8, 114u8, 111u8, 99u8, 101u8, 115u8, 115u8, 97u8, 98u8, 108u8, 101u8, 32u8, 67u8, 111u8, 110u8, 116u8, 101u8, 110u8, 116u8]));
                }
                "Unprocessable Content"
            }
            StatusCode::UpgradeRequired => {
                proof {
                    reveal_strlit("Upgrade Required");
                    assert("Upgrade Required"@ =~= ascii_chars(seq![85u8, 112u8, 103u8, 114u8, 97u8, 100u8, 101u8, 32u8, 82u8, 101u8, 113u8, 117u8, 105u8, 114u8, 101u8, 100u8]));
                }
                "Upgrade Required"
            }
            StatusCode::PreconditionRequired => {
                proof {
                    reveal_strlit("Precondition Required");
                    assert("Precondition Required"@ =~= ascii_chars(seq![80u8, 114u8, 101u8, 99u8, 111u8, 110u8, 100u8, 105u8, 116u8, 105u8, 111u8, 110u8, 32u8, 82u8, 101u8, 113u8, 117u8, 105u8, 114u8, 101u8, 100u8]));
                }
                "Precondition Required"
            }
            StatusCode::TooManyRequests => {
                proof {
                    reveal_strlit("Too Many Requests");
                    assert("Too Many Requests"@ =~= ascii_chars(seq![84u8, 111u8, 111u8, 32u8, 77u8, 97u8, 110u8, 121u8, 32u8, 82u8, 101u8, 113u8, 117u8, 101u8, 115u8, 116u8, 115u8]));
                }
                "Too Many Requests"
            }
            StatusCode::RequestHeaderFieldsTooLarge => {
                proof {
                    reveal_strlit("Request Header Fields Too Large");
                    assert("Request Header Fields Too Large"@ =~= ascii_chars(seq![82u8, 101u8, 113u8, 117u8, 101u8, 115u8, 116u8, 32u8, 72u8, 101u8, 97u8, 100u8, 101u8, 114u8, 32u8, 70u8, 105u8, 101u8, 108u8, 100u8, 115u8, 32u8, 84u8, 111u8, 111u8, 32u8, 76u8, 97u8, 114u8, 103u8, 101u8]));
                }
                "Request Header Fields Too Large"
            }
            StatusCode::UnavailableForLegalReasons => {
                proof {
                    reveal_strlit("Unavailable For Legal Reasons");
                    assert("Unavailable For Legal Reasons"@ =~= ascii_chars(seq![85u8, 110u8, 97u8, 118u8, 97u8, 105u8, 108u8, 97u8, 98u8, 108u8, 101u8, 32u8, 70u8, 111u8, 114u8, 32u8, 76u8, 101u8, 103u8, 97u8, 108u8, 32u8, 82u8, 101u8, 97u8, 115u8, 111u8, 110u8, 115u8]));
                }
                "Unavailable For Legal Reasons"
            }
            StatusCode::InternalServerError => {
                proof {
                    reveal_strlit("Internal Server Error");
                    assert("Internal Server Error"@ =~= ascii_chars(seq![73u8, 110u8, 116u8, 101u8, 114u8, 110u8, 97u8, 108u8, 32u8, 83u8, 101u8, 114u8, 118u8, 101u8, 114u8, 32u8, 69u8, 114u8, 114u8, 111u8, 114u8]));
                }
                "Internal Server Error"
            }
            StatusCode::NotImplemented => {
                proof {
                    reveal_strlit("Not Implemented");
                    assert("Not Implemented"@ =~= ascii_chars(seq![78u8, 111u8, 116u8, 32u8, 73u8, 109u8, 112u8, 108u8, 101u8, 109u8, 101u8, 110u8, 116u8, 101u8, 100u8]));
                }
                "Not Implemented"
            }
            StatusCode::BadGateway => {
                proof {
                    reveal_strlit("Bad Gateway");
                    assert("Bad Gateway"@ =~= ascii_chars(seq![66u8, 97u8, 100u8, 32u8, 71u8, 97u8, 116u8, 101u8, 119u8, 97u8, 121u8]));
                }
                "Bad Gateway"
            }
            StatusCode::ServiceUnavailable => {
                proof {
                    reveal_strlit("Service Unavailable");
                    assert("Service Unavailable"@ =~= ascii_chars(seq![83u8, 101u8, 114u8, 118u8, 105u8, 99u8, 101u8, 32u8, 85u8, 110u8, 97u8, 118u8, 97u8, 105u8, 108u8, 97u8, 98u8, 108u8, 101u8]));
                }
                "Service Unavailable"
            }
            StatusCode::GatewayTimeout => {
                proof {
                    reveal_strlit("Gateway Timeout");
                    assert("Gateway Timeout"@ =~= ascii_chars(seq![71u8, 97u8, 116u8, 101u8, 119u8, 97u8, 121u8, 32u8, 84u8, 105u8, 109u8, 101u8, 111u8, 117u8, 116u8]));
                }
                "Gateway Timeout"
            }
            StatusCode::HTTPVersionNotSupported => {
                proof {
                    reveal_strlit("HTTP Version Not Supported");
                    assert("HTTP Version Not Supported"@ =~= ascii_chars(seq![72u8, 84u8, 84u8, 80u8, 32u8, 86u8, 101u8, 114u8, 115u8, 105u8, 111u8, 110u8, 32u8, 78u8, 111u8, 116u8, 32u8, 83u8, 117u8, 112u8, 112u8, 111u8, 114u8, 116u8, 101u8, 100u8]));
                }
                "HTTP Version Not Supported"
            }
        }
    }
}

/// The status registered (RFC 9110 and the IANA registry) under the
/// number `n`, among those this library knows.
pub open spec fn registered_status(n: int) -> Option<StatusCode> {
    if n == 100 {
        Some(StatusCode::Continue)
    } else if n == 101 {
        Some(StatusCode::SwitchingProtocols)
    } else if n == 200 {
        Some(StatusCode::OK)
    } else if n == 201 {
        Some(StatusCode::Created)
    } else if n == 202 {
        Some(StatusCode::Accepted)
    } else if n == 204 {
        Some(StatusCode::NoContent)
    } else if n == 205 {
        Some(StatusCode::ResetContent)
    } else if n == 206 {
        Some(StatusCode::PartialContent)
    } else if n == 300 {
        Some(StatusCode::MultipleChoices)
    } else if n == 301 {
        Some(StatusCode::MovedPermanently)
    } else if n == 302 {
        Some(StatusCode::Found)
    } else if n == 303 {
        Some(StatusCode::SeeOther)
    } else if n == 304 {
        Some(StatusCode::NotModified)
    } else if n == 307 {
        Some(StatusCode::TemporaryRedirect)
    } else if n == 308 {
        Some(StatusCode::PermanentRedirect)
    } else if n == 400 {
        Some(StatusCode::BadRequest)
    } else if n == 401 {
        Some(StatusCode::Unauthorized)
    } else if n == 402 {
        Some(StatusCode::PaymentRequired)
    } else if n == 403 {
        Some(StatusCode::Forbidden)
    } else if n == 404 {
        Some(StatusCode::NotFound)
    } else if n == 405 {
        Some(StatusCode::MethodNotAllowed)
    } else if n == 406 {
        Some(StatusCode::NotAcceptable)
    } else if n == 407 {
        Some(StatusCode::ProxyAuthenticationRequired)
    } else if n == 408 {
        Some(StatusCode::RequestTimeout)
    } else if n == 409 {
        Some(StatusCode::Conflict)
    } else if n == 410 {
        Some(StatusCode::Gone)
    } else if n == 411 {
        Some(StatusCode::LengthRequired)
    } else if n == 412 {
        Some(StatusCode::PreconditionFailed)
    } else if n == 413 {
        Some(StatusCode::ContentTooLarge)
    } else if n == 414 {
        Some(StatusCode::URITooLong)
    } else if n == 415 {
        Some(StatusCode::UnsupportedMediaType)
    } else if n == 416 {
        Some(StatusCode::RangeNotSatisfiable)
    } else if n == 417 {
        Some(StatusCode::ExpectationFailed)
    } else if n == 421 {
        Some(StatusCode::MisdirectedRequest)
    } else if n == 422 {
        Some(StatusCode::UnprocessableContent)
    } else if n == 426 {
        Some(StatusCode::UpgradeRequired)
    } else if n == 428 {
        Some(StatusCode::PreconditionRequired)
    } else if n == 429 {
        Some(StatusCode::TooManyRequests)
    } else if n == 431 {
        Some(StatusCode::RequestHeaderFieldsTooLarge)
    } else if n == 451 {
        Some(StatusCode::UnavailableForLegalReasons)
    } else if n == 500 {
        Some(StatusCode::InternalServerError)
    } else if n == 501 {
        Some(StatusCode::NotImplemented)
    } else if n == 502 {
        Some(StatusCode::BadGateway)
    } else if n == 503 {
        Some(StatusCode::ServiceUnavailable)
    } else if n == 504 {
        Some(StatusCode::GatewayTimeout)
    } else if n == 505 {
        Some(StatusCode::HTTPVersionNotSupported)
    } else {
        None
    }
}

/// Every status is written with its registered number: the number a
/// status is sent with names that same status in the registry, so no two
/// statuses share a number and each lies in its class (1xx to 5xx).
pub proof fn lemma_status_code_registered(c: StatusCode)
    ensures
        registered_status(c.code() as int) == Some(c),
        100 <= c.code() <= 599,
{
}

/// Two statuses sent with the same number are the same status.
pub proof fn lemma_status_codes_distinct(c1: StatusCode, c2: StatusCode)
    ensures
        c1.code() == c2.code() ==> c1 == c2,
{
    lemma_status_code_registered(c1);
    lemma_status_code_registered(c2);
}

/// The reason phrase registered for the number `n`.
pub open spec fn registered_reason(n: int) -> Seq<char> {
    if n == 100 {
        seq!['C', 'o', 'n', 't', 'i', 'n', 'u', 'e']
    } else if n == 101 {
        seq!['S', 'w', 'i', 't', 'c', 'h', 'i', 'n', 'g', ' ', 'P', 'r', 'o', 't', 'o', 'c', 'o', 'l', 's']
    } else if n == 200 {
        seq!['O', 'K']
    } else if n == 201 {
        seq!['C', 'r', 'e', 'a', 't', 'e', 'd']
    } else if n == 202 {
        seq!['A', 'c', 'c', 'e', 'p', 't', 'e', 'd']
    } else if n == 204 {
        seq!['N', 'o', ' ', 'C', 'o', 'n', 't', 'e', 'n', 't']
    } else if n == 205 {
        seq!['R', 'e', 's', 'e', 't', ' ', 'C', 'o', 'n', 't', 'e', 'n', 't']
    } else if n == 206 {
        seq!['P', 'a', 'r', 't', 'i', 'a', 'l', ' ', 'C', 'o', 'n', 't', 'e', 'n', 't']
    } else if n == 300 {
        seq!['M', 'u', 'l', 't', 'i', 'p', 'l', 'e', ' ', 'C', 'h', 'o', 'i', 'c', 'e', 's']
    } else if n == 301 {
        seq!['M', 'o', 'v', 'e', 'd', ' ', 'P', 'e', 'r', 'm', 'a', 'n', 'e', 'n', 't', 'l', 'y']
    } else if n == 302 {
        seq!['F', 'o', 'u', 'n', 'd']
    } else if n == 303 {
        seq!['S', 'e', 'e', ' ', 'O', 't', 'h', 'e', 'r']
    } else if n == 304 {
        seq!['N', 'o', 't', ' ', 'M', 'o', 'd', 'i', 'f', 'i', 'e', 'd']
    } else if n == 307 {
        seq!['T', 'e', 'm', 'p', 'o', 'r', 'a', 'r', 'y', ' ', 'R', 'e', 'd', 'i', 'r', 'e', 'c', 't']
    } else if n == 308 {
        seq!['P', 'e', 'r', 'm', 'a', 'n', 'e', 'n', 't', ' ', 'R', 'e', 'd', 'i', 'r', 'e', 'c', 't']
    } else if n == 400 {
        seq!['B', 'a', 'd', ' ', 'R', 'e', 'q', 'u', 'e', 's', 't']
    } else if n == 401 {
        seq!['U', 'n', 'a', 'u', 't', 'h', 'o', 'r', 'i', 'z', 'e', 'd']
    } else if n == 402 {
        seq!['P', 'a', 'y', 'm', 'e', 'n', 't', ' ', 'R', 'e', 'q', 'u', 'i', 'r', 'e', 'd']
    } else if n == 403 {
        seq!['F', 'o', 'r', 'b', 'i', 'd', 'd', 'e', 'n']
    } else if n == 404 {
        seq!['N', 'o', 't', ' ', 'F', 'o', 'u', 'n', 'd']
    } else if n == 405 {
        seq!['M', 'e', 't', 'h', 'o', 'd', ' ', 'N', 'o', 't', ' ', 'A', 'l', 'l', 'o', 'w', 'e', 'd']
    } else if n == 406 {
        seq!['N', 'o', 't', ' ', 'A', 'c', 'c', 'e', 'p', 't', 'a', 'b', 'l', 'e']
    } else if n == 407 {
        seq!['P', 'r', 'o', 'x', 'y', ' ', 'A', 'u', 't', 'h', 'e', 'n', 't', 'i', 'c', 'a', 't', 'i', 'o', 'n', ' ', 'R', 'e', 'q', 'u', 'i', 'r', 'e', 'd']
    } else if n == 408 {
        seq!['R', 'e', 'q', 'u', 'e', 's', 't', ' ', 'T', 'i', 'm', 'e', 'o', 'u', 't']
    } else if n == 409 {
        seq!['C', 'o', 'n', 'f', 'l', 'i', 'c', 't']
    } else if n == 410 {
        seq!['G', 'o', 'n', 'e']
    } else if n == 411 {
        seq!['L', 'e', 'n', 'g', 't', 'h', ' ', 'R', 'e', 'q', 'u', 'i', 'r', 'e', 'd']
    } else if n == 412 {
        seq!['P', 'r', 'e', 'c', 'o', 'n', 'd', 'i', 't', 'i', 'o', 'n', ' ', 'F', 'a', 'i', 'l', 'e', 'd']
    } else if n == 413 {
        seq!['C', 'o', 'n', 't', 'e', 'n', 't', ' ', 'T', 'o', 'o', ' ', 'L', 'a', 'r', 'g', 'e']
    } else if n == 414 {
        seq!['U', 'R', 'I', ' ', 'T', 'o', 'o', ' ', 'L', 'o', 'n', 'g']
    } else if n == 415 {
        seq!['U', 'n', 's', 'u', 'p', 'p', 'o', 'r', 't', 'e', 'd', ' ', 'M', 'e', 'd', 'i', 'a', ' ', 'T', 'y', 'p', 'e']
    } else if n == 416 {
        seq!['R', 'a', 'n', 'g', 'e', ' ', 'N', 'o', 't', ' ', 'S', 'a', 't', 'i', 's', 'f', 'i', 'a', 'b', 'l', 'e']
    } else if n == 417 {
        seq!['E', 'x', 'p', 'e', 'c', 't', 'a', 't', 'i', 'o', 'n', ' ', 'F', 'a', 'i', 'l', 'e', 'd']
    } else if n == 421 {
        seq!['M', 'i', 's', 'd', 'i', 'r', 'e', 'c', 't', 'e', 'd', ' ', 'R', 'e', 'q', 'u', 'e', 's', 't']
    } else if n == 422 {
        seq!['U', 'n', 'p', 'r', 'o', 'c', 'e', 's', 's', 'a', 'b', 'l', 'e', ' ', 'C', 'o', 'n', 't', 'e', 'n', 't']
    } else if n == 426 {
        seq!['U', 'p', 'g', 'r', 'a', 'd', 'e', ' ', 'R', 'e', 'q', 'u', 'i', 'r', 'e', 'd']
    } else if n == 428 {
        seq!['P', 'r', 'e', 'c', 'o', 'n', 'd', 'i', 't', 'i', 'o', 'n', ' ', 'R', 'e', 'q', 'u', 'i', 'r', 'e', 'd']
    } else if n == 429 {
        seq!['T', 'o', 'o', ' ', 'M', 'a', 'n', 'y', ' ', 'R', 'e', 'q', 'u', 'e', 's', 't', 's']
    } else if n == 431 {
        seq!['R', 'e', 'q', 'u', 'e', 's', 't', ' ', 'H', 'e', 'a', 'd', 'e', 'r', ' ', 'F', 'i', 'e', 'l', 'd', 's', ' ', 'T', 'o', 'o', ' ', 'L', 'a', 'r', 'g', 'e']
    } else if n == 451 {
        seq!['U', 'n', 'a', 'v', 'a', 'i', 'l', 'a', 'b', 'l', 'e', ' ', 'F', 'o', 'r', ' ', 'L', 'e', 'g', 'a', 'l', ' ', 'R', 'e', 'a', 's', 'o', 'n', 's']
    } else if n == 500 {
        seq!['I', 'n', 't', 'e', 'r', 'n', 'a', 'l', ' ', 'S', 'e', 'r', 'v', 'e', 'r', ' ', 'E', 'r', 'r', 'o', 'r']
    } else if n == 501 {
        seq!['N', 'o', 't', ' ', 'I', 'm', 'p', 'l', 'e', 'm', 'e', 'n', 't', 'e', 'd']
    } else if n == 502 {
        seq!['B', 'a', 'd', ' ', 'G', 'a', 't', 'e', 'w', 'a', 'y']
    } else if n == 503 {
        seq!['S', 'e', 'r', 'v', 'i', 'c', 'e', ' ', 'U', 'n', 'a', 'v', 'a', 'i', 'l', 'a', 'b', 'l', 'e']
    } else if n == 504 {
        seq!['G', 'a', 't', 'e', 'w', 'a', 'y', ' ', 'T', 'i', 'm', 'e', 'o', 'u', 't']
    } else if n == 505 {
        seq!['H', 'T', 'T', 'P', ' ', 'V', 'e', 'r', 's', 'i', 'o', 'n', ' ', 'N', 'o', 't', ' ', 'S', 'u', 'p', 'p', 'o', 'r', 't', 'e', 'd']
    } else {
        Seq::empty()
    }
}

/// Every status is written with the reason phrase registered for its number.
pub proof fn lemma_reason_registered(c: StatusCode)
    ensures
        ascii_chars(c.reason_bytes()) == registered_reason(c.code() as int),
{
    assert(ascii_chars(c.reason_bytes()) =~= registered_reason(c.code() as int));
}

/// Reason phrases are printable ASCII.
pub proof fn lemma_reason_ascii(c: StatusCode)
    ensures
        all_ascii(c.reason_bytes()),
        forall|i: int| 0 <= i < c.reason_bytes().len() ==> 32 <= #[trigger] c.reason_bytes()[i] < 127,
{
}

/// Whether `s` holds a CR, LF or NUL character.
pub open spec fn has_ctl(s: Seq<char>) -> bool {
    exists|i: int| 0 <= i < s.len() && (s[i] == '\r' || s[i] == '\n' || s[i] == '\0')
}

/// The index of the first `/` of a MIME type, or its length.
pub open spec fn slash_pos(s: Seq<char>) -> int {
    find_char_from(s, '/', 0)
}

/// Whether the subtype (from after the first `/` to the first `;` after it)
/// holds a character other than white space.
pub open spec fn has_subtype(s: Seq<char>) -> bool {
    exists|i: int| slash_pos(s) < i < find_char_from(s, ';', slash_pos(s) + 1) && !is_ws(#[trigger] s[i])
}

#[derive(Debug)]
enum ContentTypeInner {
    Html,
    Htm,
    Css,
    Js,
    Mjs,
    Json,
    Plain,
    Markdown,
    Csv,
    Xml,
    Png,
    Jpg,
    Jpeg,
    Gif,
    Svg,
    Ico,
    Webp,
    Avif,
    Woff,
    Woff2,
    Ttf,
    Otf,
    Pdf,
    Wasm,
    Mp3,
    Wav,
    Ogg,
    Mp4,
    Webm,
    Zip,
    Gz,
    Default,
    Custom(String),
}

/// A MIME type for the `Content-Type` header.
#[derive(Debug)]
pub struct ContentType(ContentTypeInner);
impl Clone for ContentTypeInner {
    fn clone(&self) -> (r: Self)
        ensures
            r == *self,
    {
        match self {
            ContentTypeInner::Html => ContentTypeInner::Html,
            ContentTypeInner::Htm => ContentTypeInner::Htm,
            ContentTypeInner::Css => ContentTypeInner::Css,
            ContentTypeInner::Js => ContentTypeInner::Js,
            ContentTypeInner::Mjs => ContentTypeInner::Mjs,
            ContentTypeInner::Json => ContentTypeInner::Json,
            ContentTypeInner::Plain => ContentTypeInner::Plain,
            ContentTypeInner::Markdown => ContentTypeInner::Markdown,
            ContentTypeInner::Csv => ContentTypeInner::Csv,
            ContentTypeInner::Xml => ContentTypeInner::Xml,
            ContentTypeInner::Png => ContentTypeInner::Png,
            ContentTypeInner::Jpg => ContentTypeInner::Jpg,
            ContentTypeInner::Jpeg => ContentTypeInner::Jpeg,
            ContentTypeInner::Gif => ContentTypeInner::Gif,
            ContentTypeInner::Svg => ContentTypeInner::Svg,
            ContentTypeInner::Ico => ContentTypeInner::Ico,
            ContentTypeInner::Webp => ContentTypeInner::Webp,
            ContentTypeInner::Avif => ContentTypeInner::Avif,
            ContentTypeInner::Woff => ContentTypeInner::Woff,
            ContentTypeInner::Woff2 => ContentTypeInner::Woff2,
            ContentTypeInner::Ttf => ContentTypeInner::Ttf,
            ContentTypeInner::Otf => ContentTypeInner::Otf,
            ContentTypeInner::Pdf => ContentTypeInner::Pdf,
            ContentTypeInner::Wasm => ContentTypeInner::Wasm,
            ContentTypeInner::Mp3 => ContentTypeInner::Mp3,
            ContentTypeInner::Wav => ContentTypeInner::Wav,
            ContentTypeInner::Ogg => ContentTypeInner::Ogg,
            ContentTypeInner::Mp4 => ContentTypeInner::Mp4,
            ContentTypeInner::Webm => ContentTypeInner::Webm,
            ContentTypeInner::Zip => ContentTypeInner::Zip,
            ContentTypeInner::Gz => ContentTypeInner::Gz,
            ContentTypeInner::Default => ContentTypeInner::Default,
            ContentTypeInner::Custom(s) => ContentTypeInner::Custom(s.clone()),
        }
    }
}

impl Clone for ContentType {
    fn clone(&self) -> (r: Self)
        ensures
            r.mime() == self.mime(),
    {
        proof {
            use_type_invariant(self);
        }
        ContentType(self.0.clone())
    }
}


/// The MIME type of a known kind of content, as bytes.
pub open spec fn known_mime(k: int) -> Seq<u8> {
    if k == 0 {
        seq![116u8, 101u8, 120u8, 116u8, 47u8, 104u8, 116u8, 109u8, 108u8, 59u8, 32u8, 99u8, 104u8, 97u8, 114u8, 115u8, 101u8, 116u8, 61u8, 117u8, 116u8, 102u8, 45u8, 56u8]
    } else if k == 1 {
        seq![116u8, 101u8, 120u8, 116u8, 47u8, 104u8, 116u8, 109u8, 108u8, 59u8, 32u8, 99u8, 104u8, 97u8, 114u8, 115u8, 101u8, 116u8, 61u8, 117u8, 116u8, 102u8, 45u8, 56u8]
    } else if k == 2 {
        seq![116u8, 101u8, 120u8, 116u8, 47u8, 99u8, 115u8, 115u8, 59u8, 32u8, 99u8, 104u8, 97u8, 114u8, 115u8, 101u8, 116u8, 61u8, 117u8, 116u8, 102u8, 45u8, 56u8]
    } else if k == 3 {
        seq![116u8, 101u8, 120u8, 116u8, 47u8, 106u8, 97u8, 118u8, 97u8, 115u8, 99u8, 114u8, 105u8, 112u8, 116u8, 59u8, 32u8, 99u8, 104u8, 97u8, 114u8, 115u8, 101u8, 116u8, 61u8, 117u8, 116u8, 102u8, 45u8, 56u8]
    } else if k == 4 {
        seq![116u8, 101u8, 120u8, 116u8, 47u8, 106u8, 97u8, 118u8, 97u8, 115u8, 99u8, 114u8, 105u8, 112u8, 116u8, 59u8, 32u8, 99u8, 104u8, 97u8, 114u8, 115u8, 101u8, 116u8, 61u8, 117u8, 116u8, 102u8, 45u8, 56u8]
    } else if k == 5 {
        seq![97u8, 112u8, 112u8, 108u8, 105u8, 99u8, 97u8, 116u8, 105u8, 111u8, 110u8, 47u8, 106u8, 115u8, 111u8, 110u8]
    } else if k == 6 {
        seq![116u8, 101u8, 120u8, 116u8, 47u8, 112u8, 108u8, 97u8, 105u8, 110u8, 59u8, 32u8, 99u8, 104u8, 97u8, 114u8, 115u8, 101u8, 116u8, 61u8, 117u8, 116u8, 102u8, 45u8, 56u8]
    } else if k == 7 {
        seq![116u8, 101u8, 120u8, 116u8, 47u8, 109u8, 97u8, 114u8, 107u8, 100u8, 111u8, 119u8, 110u8, 59u8, 32u8, 99u8, 104u8, 97u8, 114u8, 115u8, 101u8, 116u8, 61u8, 117u8, 116u8, 102u8, 45u8, 56u8]
    } else if k == 8 {
        seq![116u8, 101u8, 120u8, 116u8, 47u8, 99u8, 115u8, 118u8, 59u8, 32u8, 99u8, 104u8, 97u8, 114u8, 115u8, 101u8, 116u8, 61u8, 117u8, 116u8, 102u8, 45u8, 56u8]
    } else if k == 9 {
        seq![97u8, 112u8, 112u8, 108u8, 105u8, 99u8, 97u8, 116u8, 105u8, 111u8, 110u8, 47u8, 120u8, 109u8, 108u8]
    } else if k == 10 {
        seq![105u8, 109u8, 97u8, 103u8, 101u8, 47u8, 112u8, 110u8, 103u8]
    } else if k == 11 {
        seq![105u8, 109u8, 97u8, 103u8, 101u8, 47u8, 106u8, 112u8, 101u8, 103u8]
    } else if k == 12 {
        seq![105u8, 109u8, 97u8, 103u8, 101u8, 47u8, 106u8, 112u8, 101u8, 103u8]
    } else if k == 13 {
        seq![105u8, 109u8, 97u8, 103u8, 101u8, 47u8, 103u8, 105u8, 102u8]
    } else if k == 14 {
        seq![105u8, 109u8, 97u8, 103u8, 101u8, 47u8, 115u8, 118u8, 103u8, 43u8, 120u8, 109u8, 108u8]
    } else if k == 15 {
        seq![105u8, 109u8, 97u8, 103u8, 101u8, 47u8, 120u8, 45u8, 105u8, 99u8, 111u8, 110u8]
    } else if k == 16 {
        seq![105u8, 109u8, 97u8, 103u8, 101u8, 47u8, 119u8, 101u8, 98u8, 112u8]
    } else if k == 17 {
        seq![105u8, 109u8, 97u8, 103u8, 101u8, 47u8, 97u8, 118u8, 105u8, 102u8]
    } else if k == 18 {
        seq![102u8, 111u8, 110u8, 116u8, 47u8, 119u8, 111u8, 102u8, 102u8]
    } else if k == 19 {
        seq![102u8, 111u8, 110u8, 116u8, 47u8, 119u8, 111u8, 102u8, 102u8, 50u8]
    } else if k == 20 {
        seq![102u8, 111u8, 110u8, 116u8, 47u8, 116u8, 116u8, 102u8]
    } else if k == 21 {
        seq![102u8, 111u8, 110u8, 116u8, 47u8, 111u8, 116u8, 102u8]
    } else if k == 22 {
        seq![97u8, 112u8, 112u8, 108u8, 105u8, 99u8, 97u8, 116u8, 105u8, 111u8, 110u8, 47u8, 112u8, 100u8, 102u8]
    } else if k == 23 {
        seq![97u8, 112u8, 112u8, 108u8, 105u8, 99u8, 97u8, 116u8, 105u8, 111u8, 110u8, 47u8, 119u8, 97u8, 115u8, 109u8]
    } else if k == 24 {
        seq![97u8, 117u8, 100u8, 105u8, 111u8, 47u8, 109u8, 112u8, 101u8, 103u8]
    } else if k == 25 {
        seq![97u8, 117u8, 100u8, 105u8, 111u8, 47u8, 119u8, 97u8, 118u8]
    } else if k == 26 {
        seq![97u8, 117u8, 100u8, 105u8, 111u8, 47u8, 111u8, 103u8, 103u8]
    } else if k == 27 {
        seq![118u8, 105u8, 100u8, 101u8, 111u8, 47u8, 109u8, 112u8, 52u8]
    } else if k == 28 {
        seq![118u8, 105u8, 100u8, 101u8, 111u8, 47u8, 119u8, 101u8, 98u8, 109u8]
    } else if k == 29 {
        seq![97u8, 112u8, 112u8, 108u8, 105u8, 99u8, 97u8, 116u8, 105u8, 111u8, 110u8, 47u8, 122u8, 105u8, 112u8]
    } else if k == 30 {
        seq![97u8, 112u8, 112u8, 108u8, 105u8, 99u8, 97u8, 116u8, 105u8, 111u8, 110u8, 47u8, 103u8, 122u8, 105u8, 112u8]
    } else {
        seq![97u8, 112u8, 112u8, 108u8, 105u8, 99u8, 97u8, 116u8, 105u8, 111u8, 110u8, 47u8, 111u8, 99u8, 116u8, 101u8, 116u8, 45u8, 115u8, 116u8, 114u8, 101u8, 97u8, 109u8]
    }
}

/// The file extension of a known kind of content, as bytes.
pub open spec fn known_ext(k: int) -> Seq<u8> {
    if k == 0 {
        seq![104u8, 116u8, 109u8, 108u8]
    } else if k == 1 {
        seq![104u8, 116u8, 109u8]
    } else if k == 2 {
        seq![99u8, 115u8, 115u8]
    } else if k == 3 {
        seq![106u8, 115u8]
    } else if k == 4 {
        seq![109u8, 106u8, 115u8]
    } else if k == 5 {
        seq![106u8, 115u8, 111u8, 110u8]
    } else if k == 6 {
        seq![116u8, 120u8, 116u8]
    } else if k == 7 {
        seq![109u8, 100u8]
    } else if k == 8 {
        seq![99u8, 115u8, 118u8]
    } else if k == 9 {
        seq![120u8, 109u8, 108u8]
    } else if k == 10 {
        seq![112u8, 110u8, 103u8]
    } else if k == 11 {
        seq![106u8, 112u8, 103u8]
    } else if k == 12 {
        seq![106u8, 112u8, 101u8, 103u8]
    } else if k == 13 {
        seq![103u8, 105u8, 102u8]
    } else if k == 14 {
        seq![115u8, 118u8, 103u8]
    } else if k == 15 {
        seq![105u8, 99u8, 111u8]
    } else if k == 16 {
        seq![119u8, 101u8, 98u8, 112u8]
    } else if k == 17 {
        seq![97u8, 118u8, 105u8, 102u8]
    } else if k == 18 {
        seq![119u8, 111u8, 102u8, 102u8]
    } else if k == 19 {
        seq![119u8, 111u8, 102u8, 102u8, 50u8]
    } else if k == 20 {
        seq![116u8, 116u8, 102u8]
    } else if k == 21 {
        seq![111u8, 116u8, 102u8]
    } else if k == 22 {
        seq![112u8, 100u8, 102u8]
    } else if k == 23 {
        seq![119u8, 97u8, 115u8, 109u8]
    } else if k == 24 {
        seq![109u8, 112u8, 51u8]
    } else if k == 25 {
        seq![119u8, 97u8, 118u8]
    } else if k == 26 {
        seq![111u8, 103u8, 103u8]
    } else if k == 27 {
        seq![109u8, 112u8, 52u8]
    } else if k == 28 {
        seq![119u8, 101u8, 98u8, 109u8]
    } else if k == 29 {
        seq![122u8, 105u8, 112u8]
    } else if k == 30 {
        seq![103u8, 122u8]
    } else {
        seq![]
    }
}

/// The number of file extensions with a known content type.
pub open spec fn known_count() -> int {
    31
}

proof fn lemma_clean_bytes(b: Seq<u8>)
    requires
        forall|i: int| 0 <= i < b.len() ==> 32 <= #[trigger] b[i] < 127,
    ensures
        !has_ctl(ascii_chars(b)),
{
    assert forall|i: int| 0 <= i < ascii_chars(b).len() implies ascii_chars(b)[i] != '\r' && ascii_chars(b)[i] != '\n' && ascii_chars(b)[i] != '\0' by {
        assert(32 <= b[i] < 127);
    }
}

proof fn lemma_known_mimes_clean()
    ensures
        forall|k: int| 0 <= k <= known_count() ==> !has_ctl(#[trigger] ascii_chars(known_mime(k))),
{
    assert forall|k: int| 0 <= k <= known_count() implies !has_ctl(#[trigger] ascii_chars(known_mime(k))) by {
        let b = known_mime(k);
        assert(forall|i: int| 0 <= i < b.len() ==> 32 <= #[trigger] b[i] < 127);
        lemma_clean_bytes(b);
    }
}

impl ContentType {
    #[verifier::type_invariant]
    pub(crate) open spec fn inv(self) -> bool {
        !has_ctl(self.mime())
    }


    /// The MIME type string.
    pub closed spec fn mime(&self) -> Seq<char> {
        match self.0 {
            ContentTypeInner::Html => ascii_chars(known_mime(0)),
            ContentTypeInner::Htm => ascii_chars(known_mime(1)),
            ContentTypeInner::Css => ascii_chars(known_mime(2)),
            ContentTypeInner::Js => ascii_chars(known_mime(3)),
            ContentTypeInner::Mjs => ascii_chars(known_mime(4)),
            ContentTypeInner::Json => ascii_chars(known_mime(5)),
            ContentTypeInner::Plain => ascii_chars(known_mime(6)),
            ContentTypeInner::Markdown => ascii_chars(known_mime(7)),
            ContentTypeInner::Csv => ascii_chars(known_mime(8)),
            ContentTypeInner::Xml => ascii_chars(known_mime(9)),
            ContentTypeInner::Png => ascii_chars(known_mime(10)),
            ContentTypeInner::Jpg => ascii_chars(known_mime(11)),
            ContentTypeInner::Jpeg => ascii_chars(known_mime(12)),
            ContentTypeInner::Gif => ascii_chars(known_mime(13)),
            ContentTypeInner::Svg => ascii_chars(known_mime(14)),
            ContentTypeInner::Ico => ascii_chars(known_mime(15)),
            ContentTypeInner::Webp => ascii_chars(known_mime(16)),
            ContentTypeInner::Avif => ascii_chars(known_mime(17)),
            ContentTypeInner::Woff => ascii_chars(known_mime(18)),
            ContentTypeInner::Woff2 => ascii_chars(known_mime(19)),
            ContentTypeInner::Ttf => ascii_chars(known_mime(20)),
            ContentTypeInner::Otf => ascii_chars(known_mime(21)),
            ContentTypeInner::Pdf => ascii_chars(known_mime(22)),
            ContentTypeInner::Wasm => ascii_chars(known_mime(23)),
            ContentTypeInner::Mp3 => ascii_chars(known_mime(24)),
            ContentTypeInner::Wav => ascii_chars(known_mime(25)),
            ContentTypeInner::Ogg => ascii_chars(known_mime(26)),
            ContentTypeInner::Mp4 => ascii_chars(known_mime(27)),
            ContentTypeInner::Webm => ascii_chars(known_mime(28)),
            ContentTypeInner::Zip => ascii_chars(known_mime(29)),
            ContentTypeInner::Gz => ascii_chars(known_mime(30)),
            ContentTypeInner::Default => ascii_chars(known_mime(31)),
            ContentTypeInner::Custom(s) => s@,
        }
    }

    /// Returns the MIME type string (e.g. `"text/html; charset=utf-8"`).
    pub fn as_str(&self) -> (s: &str)
        ensures
            s@ == self.mime(),
    {
        match &self.0 {
            ContentTypeInner::Html => {
                proof {
                    reveal_strlit("text/html; charset=utf-8");
                    assert("text/html; charset=utf-8"@ =~= ascii_chars(known_mime(0)));
                }
                "text/html; charset=utf-8"
            }
            ContentTypeInner::Htm => {
                proof {
                    reveal_strlit("text/html; charset=utf-8");
                    assert("text/html; charset=utf-8"@ =~= ascii_chars(known_mime(1)));
                }
                "text/html; charset=utf-8"
            }
            ContentTypeInner::Css => {
                proof {
                    reveal_strlit("text/css; charset=utf-8");
                    assert("text/css; charset=utf-8"@ =~= ascii_chars(known_mime(2)));
                }
                "text/css; charset=utf-8"
            }
            ContentTypeInner::Js => {
                proof {
                    reveal_strlit("text/javascript; charset=utf-8");
                    assert("text/javascript; charset=utf-8"@ =~= ascii_chars(known_mime(3)));
                }
                "text/javascript; charset=utf-8"
            }
            ContentTypeInner::Mjs => {
                proof {
                    reveal_strlit("text/javascript; charset=utf-8");
                    assert("text/javascript; charset=utf-8"@ =~= ascii_chars(known_mime(4)));
                }
                "text/javascript; charset=utf-8"
            }
            ContentTypeInner::Json => {
                proof {
                    reveal_strlit("application/json");
                    assert("application/json"@ =~= ascii_chars(known_mime(5)));
                }
                "application/json"
            }
            ContentTypeInner::Plain => {
                proof {
                    reveal_strlit("text/plain; charset=utf-8");
                    assert("text/plain; charset=utf-8"@ =~= ascii_chars(known_mime(6)));
                }
                "text/plain; charset=utf-8"
            }
            ContentTypeInner::Markdown => {
                proof {
                    reveal_strlit("text/markdown; charset=utf-8");
                    assert("text/markdown; charset=utf-8"@ =~= ascii_chars(known_mime(7)));
                }
                "text/markdown; charset=utf-8"
            }
            ContentTypeInner::Csv => {
                proof {
                    reveal_strlit("text/csv; charset=utf-8");
                    assert("text/csv; charset=utf-8"@ =~= ascii_chars(known_mime(8)));
                }
                "text/csv; charset=utf-8"
            }
            ContentTypeInner::Xml => {
                proof {
                    reveal_strlit("application/xml");
                    assert("application/xml"@ =~= ascii_chars(known_mime(9)));
                }
                "application/xml"
            }
            ContentTypeInner::Png => {
                proof {
                    reveal_strlit("image/png");
                    assert("image/png"@ =~= ascii_chars(known_mime(10)));
                }
                "image/png"
            }
            ContentTypeInner::Jpg => {
                proof {
                    reveal_strlit("image/jpeg");
                    assert("image/jpeg"@ =~= ascii_chars(known_mime(11)));
                }
                "image/jpeg"
            }
            ContentTypeInner::Jpeg => {
                proof {
                    reveal_strlit("image/jpeg");
                    assert("image/jpeg"@ =~= ascii_chars(known_mime(12)));
                }
                "image/jpeg"
            }
            ContentTypeInner::Gif => {
                proof {
                    reveal_strlit("image/gif");
                    assert("image/gif"@ =~= ascii_chars(known_mime(13)));
                }
                "image/gif"
            }
            ContentTypeInner::Svg => {
                proof {
                    reveal_strlit("image/svg+xml");
                    assert("image/svg+xml"@ =~= ascii_chars(known_mime(14)));
                }
                "image/svg+xml"
            }
            ContentTypeInner::Ico => {
                proof {
                    reveal_strlit("image/x-icon");
                    assert("image/x-icon"@ =~= ascii_chars(known_mime(15)));
                }
                "image/x-icon"
            }
            ContentTypeInner::Webp => {
                proof {
                    reveal_strlit("image/webp");
                    assert("image/webp"@ =~= ascii_chars(known_mime(16)));
                }
                "image/webp"
            }
            ContentTypeInner::Avif => {
                proof {
                    reveal_strlit("image/avif");
                    assert("image/avif"@ =~= ascii_chars(known_mime(17)));
                }
                "image/avif"
            }
            ContentTypeInner::Woff => {
                proof {
                    reveal_strlit("font/woff");
                    assert("font/woff"@ =~= ascii_chars(known_mime(18)));
                }
                "font/woff"
            }
            ContentTypeInner::Woff2 => {
                proof {
                    reveal_strlit("font/woff2");
                    assert("font/woff2"@ =~= ascii_chars(known_mime(19)));
                }
                "font/woff2"
            }
            ContentTypeInner::Ttf => {
                proof {
                    reveal_strlit("font/ttf");
                    assert("font/ttf"@ =~= ascii_chars(known_mime(20)));
                }
                "font/ttf"
            }
            ContentTypeInner::Otf => {
                proof {
                    reveal_strlit("font/otf");
                    assert("font/otf"@ =~= ascii_chars(known_mime(21)));
                }
                "font/otf"
            }
            ContentTypeInner::Pdf => {
                proof {
                    reveal_strlit("application/pdf");
                    assert("application/pdf"@ =~= ascii_chars(known_mime(22)));
                }
                "application/pdf"
            }
            ContentTypeInner::Wasm => {
                proof {
                    reveal_strlit("application/wasm");
                    assert("application/wasm"@ =~= ascii_chars(known_mime(23)));
                }
                "application/wasm"
            }
            ContentTypeInner::Mp3 => {
                proof {
                    reveal_strlit("audio/mpeg");
                    assert("audio/mpeg"@ =~= ascii_chars(known_mime(24)));
                }
                "audio/mpeg"
            }
            ContentTypeInner::Wav => {
                proof {
                    reveal_strlit("audio/wav");
                    assert("audio/wav"@ =~= ascii_chars(known_mime(25)));
                }
                "audio/wav"
            }
            ContentTypeInner::Ogg => {
                proof {
                    reveal_strlit("audio/ogg");
                    assert("audio/ogg"@ =~= ascii_chars(known_mime(26)));
                }
                "audio/ogg"
            }
            ContentTypeInner::Mp4 => {
                proof {
                    reveal_strlit("video/mp4");
                    assert("video/mp4"@ =~= ascii_chars(known_mime(27)));
                }
                "video/mp4"
            }
            ContentTypeInner::Webm => {
                proof {
                    reveal_strlit("video/webm");
                    assert("video/webm"@ =~= ascii_chars(known_mime(28)));
                }
                "video/webm"
            }
            ContentTypeInner::Zip => {
                proof {
                    reveal_strlit("application/zip");
                    assert("application/zip"@ =~= ascii_chars(known_mime(29)));
                }
                "application/zip"
            }
            ContentTypeInner::Gz => {
                proof {
                    reveal_strlit("application/gzip");
                    assert("application/gzip"@ =~= ascii_chars(known_mime(30)));
                }
                "application/gzip"
            }
            ContentTypeInner::Default => {
                proof {
                    reveal_strlit("application/octet-stream");
                    assert("application/octet-stream"@ =~= ascii_chars(known_mime(31)));
                }
                "application/octet-stream"
            }
            ContentTypeInner::Custom(s) => s.as_str(),
        }
    }

    /// Returns the content type for the given file extension (without leading dot),
    /// or `None` if the extension is not recognised.
    pub fn from_extension(ext: Option<&str>) -> (r: Option<Self>)
        ensures
            r matches Some(t) ==> exists|k: int| 0 <= k < known_count() && (ext matches Some(e) && e@ == ascii_chars(#[trigger] known_ext(k)) && t.mime() == ascii_chars(known_mime(k))),
            r is None ==> forall|k: int| 0 <= k < known_count() ==> !(ext matches Some(e) && e@ == ascii_chars(#[trigger] known_ext(k))),
    {
        match ext {
            None => None,
            Some(e) => {
                proof {
                    lemma_known_mimes_clean();
                }
                let b = e.as_bytes();
                if bytes_eq(b, &[104u8, 116u8, 109u8, 108u8]) {
                    proof { assert([104u8, 116u8, 109u8, 108u8]@ =~= known_ext(0)); lemma_ascii_encode(e@, known_ext(0)); }
                    Some(ContentType(ContentTypeInner::Html))
                } else if bytes_eq(b, &[104u8, 116u8, 109u8]) {
                    proof { assert([104u8, 116u8, 109u8]@ =~= known_ext(1)); lemma_ascii_encode(e@, known_ext(1)); }
                    Some(ContentType(ContentTypeInner::Htm))
                } else if bytes_eq(b, &[99u8, 115u8, 115u8]) {
                    proof { assert([99u8, 115u8, 115u8]@ =~= known_ext(2)); lemma_ascii_encode(e@, known_ext(2)); }
                    Some(ContentType(ContentTypeInner::Css))
                } else if bytes_eq(b, &[106u8, 115u8]) {
                    proof { assert([106u8, 115u8]@ =~= known_ext(3)); lemma_ascii_encode(e@, known_ext(3)); }
                    Some(ContentType(ContentTypeInner::Js))
                } else if bytes_eq(b, &[109u8, 106u8, 115u8]) {
                    proof { assert([109u8, 106u8, 115u8]@ =~= known_ext(4)); lemma_ascii_encode(e@, known_ext(4)); }
                    Some(ContentType(ContentTypeInner::Mjs))
                } else if bytes_eq(b, &[106u8, 115u8, 111u8, 110u8]) {
                    proof { assert([106u8, 115u8, 111u8, 110u8]@ =~= known_ext(5)); lemma_ascii_encode(e@, known_ext(5)); }
                    Some(ContentType(ContentTypeInner::Json))
                } else if bytes_eq(b, &[116u8, 120u8, 116u8]) {
                    proof { assert([116u8, 120u8, 116u8]@ =~= known_ext(6)); lemma_ascii_encode(e@, known_ext(6)); }
                    Some(ContentType(ContentTypeInner::Plain))
                } else if bytes_eq(b, &[109u8, 100u8]) {
                    proof { assert([109u8, 100u8]@ =~= known_ext(7)); lemma_ascii_encode(e@, known_ext(7)); }
                    Some(ContentType(ContentTypeInner::Markdown))
                } else if bytes_eq(b, &[99u8, 115u8, 118u8]) {
                    proof { assert([99u8, 115u8, 118u8]@ =~= known_ext(8)); lemma_ascii_encode(e@, known_ext(8)); }
                    Some(ContentType(ContentTypeInner::Csv))
                } else if bytes_eq(b, &[120u8, 109u8, 108u8]) {
                    proof { assert([120u8, 109u8, 108u8]@ =~= known_ext(9)); lemma_ascii_encode(e@, known_ext(9)); }
                    Some(ContentType(ContentTypeInner::Xml))
                } else if bytes_eq(b, &[112u8, 110u8, 103u8]) {
                    proof { assert([112u8, 110u8, 103u8]@ =~= known_ext(10)); lemma_ascii_encode(e@, known_ext(10)); }
                    Some(ContentType(ContentTypeInner::Png))
                } else if bytes_eq(b, &[106u8, 112u8, 103u8]) {
                    proof { assert([106u8, 112u8, 103u8]@ =~= known_ext(11)); lemma_ascii_encode(e@, known_ext(11)); }
                    Some(ContentType(ContentTypeInner::Jpg))
                } else if bytes_eq(b, &[106u8, 112u8, 101u8, 103u8]) {
                    proof { assert([106u8, 112u8, 101u8, 103u8]@ =~= known_ext(12)); lemma_ascii_encode(e@, known_ext(12)); }
                    Some(ContentType(ContentTypeInner::Jpeg))
                } else if bytes_eq(b, &[103u8, 105u8, 102u8]) {
                    proof { assert([103u8, 105u8, 102u8]@ =~= known_ext(13)); lemma_ascii_encode(e@, known_ext(13)); }
                    Some(ContentType(ContentTypeInner::Gif))
                } else if bytes_eq(b, &[115u8, 118u8, 103u8]) {
                    proof { assert([115u8, 118u8, 103u8]@ =~= known_ext(14)); lemma_ascii_encode(e@, known_ext(14)); }
                    Some(ContentType(ContentTypeInner::Svg))
                } else if bytes_eq(b, &[105u8, 99u8, 111u8]) {
                    proof { assert([105u8, 99u8, 111u8]@ =~= known_ext(15)); lemma_ascii_encode(e@, known_ext(15)); }
                    Some(ContentType(ContentTypeInner::Ico))
                } else if bytes_eq(b, &[119u8, 101u8, 98u8, 112u8]) {
                    proof { assert([119u8, 101u8, 98u8, 112u8]@ =~= known_ext(16)); lemma_ascii_encode(e@, known_ext(16)); }
                    Some(ContentType(ContentTypeInner::Webp))
                } else if bytes_eq(b, &[97u8, 118u8, 105u8, 102u8]) {
                    proof { assert([97u8, 118u8, 105u8, 102u8]@ =~= known_ext(17)); lemma_ascii_encode(e@, known_ext(17)); }
                    Some(ContentType(ContentTypeInner::Avif))
                } else if bytes_eq(b, &[119u8, 111u8, 102u8, 102u8]) {
                    proof { assert([119u8, 111u8, 102u8, 102u8]@ =~= known_ext(18)); lemma_ascii_encode(e@, known_ext(18)); }
                    Some(ContentType(ContentTypeInner::Woff))
                } else if bytes_eq(b, &[119u8, 111u8, 102u8, 102u8, 50u8]) {
                    proof { assert([119u8, 111u8, 102u8, 102u8, 50u8]@ =~= known_ext(19)); lemma_ascii_encode(e@, known_ext(19)); }
                    Some(ContentType(ContentTypeInner::Woff2))
                } else if bytes_eq(b, &[116u8, 116u8, 102u8]) {
                    proof { assert([116u8, 116u8, 102u8]@ =~= known_ext(20)); lemma_ascii_encode(e@, known_ext(20)); }
                    Some(ContentType(ContentTypeInner::Ttf))
                } else if bytes_eq(b, &[111u8, 116u8, 102u8]) {
                    proof { assert([111u8, 116u8, 102u8]@ =~= known_ext(21)); lemma_ascii_encode(e@, known_ext(21)); }
                    Some(ContentType(ContentTypeInner::Otf))
                } else if bytes_eq(b, &[112u8, 100u8, 102u8]) {
                    proof { assert([112u8, 100u8, 102u8]@ =~= known_ext(22)); lemma_ascii_encode(e@, known_ext(22)); }
                    Some(ContentType(ContentTypeInner::Pdf))
                } else if bytes_eq(b, &[119u8, 97u8, 115u8, 109u8]) {
                    proof { assert([119u8, 97u8, 115u8, 109u8]@ =~= known_ext(23)); lemma_ascii_encode(e@, known_ext(23)); }
                    Some(ContentType(ContentTypeInner::Wasm))
                } else if bytes_eq(b, &[109u8, 112u8, 51u8]) {
                    proof { assert([109u8, 112u8, 51u8]@ =~= known_ext(24)); lemma_ascii_encode(e@, known_ext(24)); }
                    Some(ContentType(ContentTypeInner::Mp3))
                } else if bytes_eq(b, &[119u8, 97u8, 118u8]) {
                    proof { assert([119u8, 97u8, 118u8]@ =~= known_ext(25)); lemma_ascii_encode(e@, known_ext(25)); }
                    Some(ContentType(ContentTypeInner::Wav))
                } else if bytes_eq(b, &[111u8, 103u8, 103u8]) {
                    proof { assert([111u8, 103u8, 103u8]@ =~= known_ext(26)); lemma_ascii_encode(e@, known_ext(26)); }
                    Some(ContentType(ContentTypeInner::Ogg))
                } else if bytes_eq(b, &[109u8, 112u8, 52u8]) {
                    proof { assert([109u8, 112u8, 52u8]@ =~= known_ext(27)); lemma_ascii_encode(e@, known_ext(27)); }
                    Some(ContentType(ContentTypeInner::Mp4))
                } else if bytes_eq(b, &[119u8, 101u8, 98u8, 109u8]) {
                    proof { assert([119u8, 101u8, 98u8, 109u8]@ =~= known_ext(28)); lemma_ascii_encode(e@, known_ext(28)); }
                    Some(ContentType(ContentTypeInner::Webm))
                } else if bytes_eq(b, &[122u8, 105u8, 112u8]) {
                    proof { assert([122u8, 105u8, 112u8]@ =~= known_ext(29)); lemma_ascii_encode(e@, known_ext(29)); }
                    Some(ContentType(ContentTypeInner::Zip))
                } else if bytes_eq(b, &[103u8, 122u8]) {
                    proof { assert([103u8, 122u8]@ =~= known_ext(30)); lemma_ascii_encode(e@, known_ext(30)); }
                    Some(ContentType(ContentTypeInner::Gz))
                } else {
                    proof {
                        assert forall|k: int| 0 <= k < known_count() implies e@ != ascii_chars(#[trigger] known_ext(k)) by {
                            if k == 0 { assert([104u8, 116u8, 109u8, 108u8]@ =~= known_ext(0)); lemma_ascii_encode(e@, known_ext(0)); 
                            } else if k == 1 { assert([104u8, 116u8, 109u8]@ =~= known_ext(1)); lemma_ascii_encode(e@, known_ext(1)); 
                            } else if k == 2 { assert([99u8, 115u8, 115u8]@ =~= known_ext(2)); lemma_ascii_encode(e@, known_ext(2)); 
                            } else if k == 3 { assert([106u8, 115u8]@ =~= known_ext(3)); lemma_ascii_encode(e@, known_ext(3)); 
                            } else if k == 4 { assert([109u8, 106u8, 115u8]@ =~= known_ext(4)); lemma_ascii_encode(e@, known_ext(4)); 
                            } else if k == 5 { assert([106u8, 115u8, 111u8, 110u8]@ =~= known_ext(5)); lemma_ascii_encode(e@, known_ext(5)); 
                            } else if k == 6 { assert([116u8, 120u8, 116u8]@ =~= known_ext(6)); lemma_ascii_encode(e@, known_ext(6)); 
                            } else if k == 7 { assert([109u8, 100u8]@ =~= known_ext(7)); lemma_ascii_encode(e@, known_ext(7)); 
                            } else if k == 8 { assert([99u8, 115u8, 118u8]@ =~= known_ext(8)); lemma_ascii_encode(e@, known_ext(8)); 
                            } else if k == 9 { assert([120u8, 109u8, 108u8]@ =~= known_ext(9)); lemma_ascii_encode(e@, known_ext(9)); 
                            } else if k == 10 { assert([112u8, 110u8, 103u8]@ =~= known_ext(10)); lemma_ascii_encode(e@, known_ext(10)); 
                            } else if k == 11 { assert([106u8, 112u8, 103u8]@ =~= known_ext(11)); lemma_ascii_encode(e@, known_ext(11)); 
                            } else if k == 12 { assert([106u8, 112u8, 101u8, 103u8]@ =~= known_ext(12)); lemma_ascii_encode(e@, known_ext(12)); 
                            } else if k == 13 { assert([103u8, 105u8, 102u8]@ =~= known_ext(13)); lemma_ascii_encode(e@, known_ext(13)); 
                            } else if k == 14 { assert([115u8, 118u8, 103u8]@ =~= known_ext(14)); lemma_ascii_encode(e@, known_ext(14)); 
                            } else if k == 15 { assert([105u8, 99u8, 111u8]@ =~= known_ext(15)); lemma_ascii_encode(e@, known_ext(15)); 
                            } else if k == 16 { assert([119u8, 101u8, 98u8, 112u8]@ =~= known_ext(16)); lemma_ascii_encode(e@, known_ext(16)); 
                            } else if k == 17 { assert([97u8, 118u8, 105u8, 102u8]@ =~= known_ext(17)); lemma_ascii_encode(e@, known_ext(17)); 
                            } else if k == 18 { assert([119u8, 111u8, 102u8, 102u8]@ =~= known_ext(18)); lemma_ascii_encode(e@, known_ext(18)); 
                            } else if k == 19 { assert([119u8, 111u8, 102u8, 102u8, 50u8]@ =~= known_ext(19)); lemma_ascii_encode(e@, known_ext(19)); 
                            } else if k == 20 { assert([116u8, 116u8, 102u8]@ =~= known_ext(20)); lemma_ascii_encode(e@, known_ext(20)); 
                            } else if k == 21 { assert([111u8, 116u8, 102u8]@ =~= known_ext(21)); lemma_ascii_encode(e@, known_ext(21)); 
                            } else if k == 22 { assert([112u8, 100u8, 102u8]@ =~= known_ext(22)); lemma_ascii_encode(e@, known_ext(22)); 
                            } else if k == 23 { assert([119u8, 97u8, 115u8, 109u8]@ =~= known_ext(23)); lemma_ascii_encode(e@, known_ext(23)); 
                            } else if k == 24 { assert([109u8, 112u8, 51u8]@ =~= known_ext(24)); lemma_ascii_encode(e@, known_ext(24)); 
                            } else if k == 25 { assert([119u8, 97u8, 118u8]@ =~= known_ext(25)); lemma_ascii_encode(e@, known_ext(25)); 
                            } else if k == 26 { assert([111u8, 103u8, 103u8]@ =~= known_ext(26)); lemma_ascii_encode(e@, known_ext(26)); 
                            } else if k == 27 { assert([109u8, 112u8, 52u8]@ =~= known_ext(27)); lemma_ascii_encode(e@, known_ext(27)); 
                            } else if k == 28 { assert([119u8, 101u8, 98u8, 109u8]@ =~= known_ext(28)); lemma_ascii_encode(e@, known_ext(28)); 
                            } else if k == 29 { assert([122u8, 105u8, 112u8]@ =~= known_ext(29)); lemma_ascii_encode(e@, known_ext(29)); 
                            } else if k == 30 { assert([103u8, 122u8]@ =~= known_ext(30)); lemma_ascii_encode(e@, known_ext(30)); 
                            }
                        }
                    }
                    None
                }
            }
        }
    }

    /// The `text/html; charset=utf-8` content type.
    pub fn html() -> (t: Self)
        ensures
            t.mime() == ascii_chars(known_mime(0)),
    {
        proof {
            lemma_known_mimes_clean();
        }
        ContentType(ContentTypeInner::Html)
    }

    /// The `text/html; charset=utf-8` content type.
    pub fn htm() -> (t: Self)
        ensures
            t.mime() == ascii_chars(known_mime(1)),
    {
        proof {
            lemma_known_mimes_clean();
        }
        ContentType(ContentTypeInner::Htm)
    }

    /// The `text/css; charset=utf-8` content type.
    pub fn css() -> (t: Self)
        ensures
            t.mime() == ascii_chars(known_mime(2)),
    {
        proof {
            lemma_known_mimes_clean();
        }
        ContentType(ContentTypeInner::Css)
    }

    /// The `text/javascript; charset=utf-8` content type.
    pub fn js() -> (t: Self)
        ensures
            t.mime() == ascii_chars(known_mime(3)),
    {
        proof {
            lemma_known_mimes_clean();
        }
        ContentType(ContentTypeInner::Js)
    }

    /// The `text/javascript; charset=utf-8` content type.
    pub fn mjs() -> (t: Self)
        ensures
            t.mime() == ascii_chars(known_mime(4)),
    {
        proof {
            lemma_known_mimes_clean();
        }
        ContentType(ContentTypeInner::Mjs)
    }

    /// The `application/json` content type.
    pub fn json() -> (t: Self)
        ensures
            t.mime() == ascii_chars(known_mime(5)),
    {
        proof {
            lemma_known_mimes_clean();
        }
        ContentType(ContentTypeInner::Json)
    }

    /// The `text/plain; charset=utf-8` content type.
    pub fn plain() -> (t: Self)
        ensures
            t.mime() == ascii_chars(known_mime(6)),
    {
        proof {
            lemma_known_mimes_clean();
        }
        ContentType(ContentTypeInner::Plain)
    }

    /// The `text/markdown; charset=utf-8` content type.
    pub fn markdown() -> (t: Self)
        ensures
            t.mime() == ascii_chars(known_mime(7)),
    {
        proof {
            lemma_known_mimes_clean();
        }
        ContentType(ContentTypeInner::Markdown)
    }

    /// The `text/csv; charset=utf-8` content type.
    pub fn csv() -> (t: Self)
        ensures
            t.mime() == ascii_chars(known_mime(8)),
    {
        proof {
            lemma_known_mimes_clean();
        }
        ContentType(ContentTypeInner::Csv)
    }

    /// The `application/xml` content type.
    pub fn xml() -> (t: Self)
        ensures
            t.mime() == ascii_chars(known_mime(9)),
    {
        proof {
            lemma_known_mimes_clean();
        }
        ContentType(ContentTypeInner::Xml)
    }

    /// The `image/png` content type.
    pub fn png() -> (t: Self)
        ensures
            t.mime() == ascii_chars(known_mime(10)),
    {
        proof {
            lemma_known_mimes_clean();
        }
        ContentType(ContentTypeInner::Png)
    }

    /// The `image/jpeg` content type.
    pub fn jpg() -> (t: Self)
        ensures
            t.mime() == ascii_chars(known_mime(11)),
    {
        proof {
            lemma_known_mimes_clean();
        }
        ContentType(ContentTypeInner::Jpg)
    }

    /// The `image/jpeg` content type.
    pub fn jpeg() -> (t: Self)
        ensures
            t.mime() == ascii_chars(known_mime(12)),
    {
        proof {
            lemma_known_mimes_clean();
        }
        ContentType(ContentTypeInner::Jpeg)
    }

    /// The `image/gif` content type.
    pub fn gif() -> (t: Self)
        ensures
            t.mime() == ascii_chars(known_mime(13)),
    {
        proof {
            lemma_known_mimes_clean();
        }
        ContentType(ContentTypeInner::Gif)
    }

    /// The `image/svg+xml` content type.
    pub fn svg() -> (t: Self)
        ensures
            t.mime() == ascii_chars(known_mime(14)),
    {
        proof {
            lemma_known_mimes_clean();
        }
        ContentType(ContentTypeInner::Svg)
    }

    /// The `image/x-icon` content type.
    pub fn ico() -> (t: Self)
        ensures
            t.mime() == ascii_chars(known_mime(15)),
    {
        proof {
            lemma_known_mimes_clean();
        }
        ContentType(ContentTypeInner::Ico)
    }

    /// The `image/webp` content type.
    pub fn webp() -> (t: Self)
        ensures
            t.mime() == ascii_chars(known_mime(16)),
    {
        proof {
            lemma_known_mimes_clean();
        }
        ContentType(ContentTypeInner::Webp)
    }

    /// The `image/avif` content type.
    pub fn avif() -> (t: Self)
        ensures
            t.mime() == ascii_chars(known_mime(17)),
    {
        proof {
            lemma_known_mimes_clean();
        }
        ContentType(ContentTypeInner::Avif)
    }

    /// The `font/woff` content type.
    pub fn woff() -> (t: Self)
        ensures
            t.mime() == ascii_chars(known_mime(18)),
    {
        proof {
            lemma_known_mimes_clean();
        }
        ContentType(ContentTypeInner::Woff)
    }

    /// The `font/woff2` content type.
    pub fn woff2() -> (t: Self)
        ensures
            t.mime() == ascii_chars(known_mime(19)),
    {
        proof {
            lemma_known_mimes_clean();
        }
        ContentType(ContentTypeInner::Woff2)
    }

    /// The `font/ttf` content type.
    pub fn ttf() -> (t: Self)
        ensures
            t.mime() == ascii_chars(known_mime(20)),
    {
        proof {
            lemma_known_mimes_clean();
        }
        ContentType(ContentTypeInner::Ttf)
    }

    /// The `font/otf` content type.
    pub fn otf() -> (t: Self)
        ensures
            t.mime() == ascii_chars(known_mime(21)),
    {
        proof {
            lemma_known_mimes_clean();
        }
        ContentType(ContentTypeInner::Otf)
    }

    /// The `application/pdf` content type.
    pub fn pdf() -> (t: Self)
        ensures
            t.mime() == ascii_chars(known_mime(22)),
    {
        proof {
            lemma_known_mimes_clean();
        }
        ContentType(ContentTypeInner::Pdf)
    }

    /// The `application/wasm` content type.
    pub fn wasm() -> (t: Self)
        ensures
            t.mime() == ascii_chars(known_mime(23)),
    {
        proof {
            lemma_known_mimes_clean();
        }
        ContentType(ContentTypeInner::Wasm)
    }

    /// The `audio/mpeg` content type.
    pub fn mp3() -> (t: Self)
        ensures
            t.mime() == ascii_chars(known_mime(24)),
    {
        proof {
            lemma_known_mimes_clean();
        }
        ContentType(ContentTypeInner::Mp3)
    }

    /// The `audio/wav` content type.
    pub fn wav() -> (t: Self)
        ensures
            t.mime() == ascii_chars(known_mime(25)),
    {
        proof {
            lemma_known_mimes_clean();
        }
        ContentType(ContentTypeInner::Wav)
    }

    /// The `audio/ogg` content type.
    pub fn ogg() -> (t: Self)
        ensures
            t.mime() == ascii_chars(known_mime(26)),
    {
        proof {
            lemma_known_mimes_clean();
        }
        ContentType(ContentTypeInner::Ogg)
    }

    /// The `video/mp4` content type.
    pub fn mp4() -> (t: Self)
        ensures
            t.mime() == ascii_chars(known_mime(27)),
    {
        proof {
            lemma_known_mimes_clean();
        }
        ContentType(ContentTypeInner::Mp4)
    }

    /// The `video/webm` content type.
    pub fn webm() -> (t: Self)
        ensures
            t.mime() == ascii_chars(known_mime(28)),
    {
        proof {
            lemma_known_mimes_clean();
        }
        ContentType(ContentTypeInner::Webm)
    }

    /// The `application/zip` content type.
    pub fn zip() -> (t: Self)
        ensures
            t.mime() == ascii_chars(known_mime(29)),
    {
        proof {
            lemma_known_mimes_clean();
        }
        ContentType(ContentTypeInner::Zip)
    }

    /// The `application/gzip` content type.
    pub fn gz() -> (t: Self)
        ensures
            t.mime() == ascii_chars(known_mime(30)),
    {
        proof {
            lemma_known_mimes_clean();
        }
        ContentType(ContentTypeInner::Gz)
    }

    /// The default (`application/octet-stream`) content type.
    pub fn default_type() -> (t: Self)
        ensures
            t.mime() == ascii_chars(known_mime(31)),
    {
        proof {
            lemma_known_mimes_clean();
        }
        ContentType(ContentTypeInner::Default)
    }

    /// Whether `ContentType::new` accepts `value`.
    pub open spec fn acceptable(value: Seq<char>) -> bool {
        &&& value.len() > 0
        &&& !has_ctl(value)
        &&& 0 < slash_pos(value) < value.len()
        &&& has_subtype(value)
    }

    /// Returns a new content type from a MIME type string.
    ///
    /// Returns `Err` if `value` is empty, contains CR (`\r`), LF (`\n`), or
    /// NUL (`\0`), or does not have the required `type/subtype` structure.
    pub fn new(value: String) -> (r: Result<Self, &'static str>)
        ensures
            value@.len() == 0 ==> r == Err::<Self, &str>("MIME type must not be empty"),
            value@.len() > 0 && has_ctl(value@) ==> r == Err::<Self, &str>("MIME type must not contain CR, LF, or NUL"),
            value@.len() > 0 && !has_ctl(value@) && slash_pos(value@) == value@.len() ==> r == Err::<Self, &str>("MIME type must contain '/'"),
            value@.len() > 0 && !has_ctl(value@) && slash_pos(value@) == 0 ==> r == Err::<Self, &str>("MIME type must have a non-empty type before '/'"),
            value@.len() > 0 && !has_ctl(value@) && 0 < slash_pos(value@) < value@.len() && !has_subtype(value@)
                ==> r == Err::<Self, &str>("MIME type must have a non-empty subtype after '/'"),
            r matches Ok(t) ==> Self::acceptable(value@) && t.mime() == value@,
            Self::acceptable(value@) ==> r is Ok,
    {
        let v = chars_of(value.as_str());
        if v.len() == 0 {
            return Err("MIME type must not be empty");
        }
        let mut i: usize = 0;
        while i < v.len()
            invariant
                i <= v@.len(),
                v@ == value@,
                v@.len() > 0,
                forall|j: int| 0 <= j < i ==> v@[j] != '\r' && v@[j] != '\n' && v@[j] != '\0',
            decreases v@.len() - i,
        {
            if v[i] == '\r' || v[i] == '\n' || v[i] == '\0' {
                return Err("MIME type must not contain CR, LF, or NUL");
            }
            i = i + 1;
        }
        let slash = find_char(&v, '/', 0);
        if slash == v.len() {
            return Err("MIME type must contain '/'");
        }
        if slash == 0 {
            return Err("MIME type must have a non-empty type before '/'");
        }
        let end = find_char(&v, ';', slash + 1);
        let mut k = slash + 1;
        while k < end && is_whitespace(v[k])
            invariant
                slash + 1 <= k <= end,
                end <= v@.len(),
                forall|j: int| slash < j < k ==> is_ws(#[trigger] v@[j]),
            decreases end - k,
        {
            k = k + 1;
        }
        if k == end {
            return Err("MIME type must have a non-empty subtype after '/'");
        }
        Ok(ContentType(ContentTypeInner::Custom(value)))
    }

    /// Converts the content type into an owned string.
    pub fn into_string(self) -> (s: String)
        ensures
            s@ == self.mime(),
    {
        match self.0 {
            ContentTypeInner::Custom(s) => s,
            _ => self.as_str().to_owned(),
        }
    }
}

#[derive(Debug, PartialEq, Eq)]
enum HeaderNameInner {
    Accept,
    AcceptEncoding,
    AcceptLanguage,
    AcceptRanges,
    AccessControlAllowHeaders,
    AccessControlAllowMethods,
    AccessControlAllowOrigin,
    Age,
    Allow,
    Authorization,
    CacheControl,
    ContentDisposition,
    ContentEncoding,
    ContentLanguage,
    ContentLocation,
    ContentRange,
    ContentSecurityPolicy,
    ContentType,
    Cookie,
    ETag,
    Expires,
    LastModified,
    Link,
    Location,
    Pragma,
    ReferrerPolicy,
    RetryAfter,
    Server,
    SetCookie,
    StrictTransportSecurity,
    Vary,
    WWWAuthenticate,
    XContentTypeOptions,
    XFrameOptions,
    Custom(String),
}

/// The name of a well-known header, as bytes.
pub open spec fn known_header(k: int) -> Seq<u8> {
    if k == 0 {
        seq![65u8, 99u8, 99u8, 101u8, 112u8, 116u8]
    } else if k == 1 {
        seq![65u8, 99u8, 99u8, 101u8, 112u8, 116u8, 45u8, 69u8, 110u8, 99u8, 111u8, 100u8, 105u8, 110u8, 103u8]
    } else if k == 2 {
        seq![65u8, 99u8, 99u8, 101u8, 112u8, 116u8, 45u8, 76u8, 97u8, 110u8, 103u8, 117u8, 97u8, 103u8, 101u8]
    } else if k == 3 {
        seq![65u8, 99u8, 99u8, 101u8, 112u8, 116u8, 45u8, 82u8, 97u8, 110u8, 103u8, 101u8, 115u8]
    } else if k == 4 {
        seq![65u8, 99u8, 99u8, 101u8, 115u8, 115u8, 45u8, 67u8, 111u8, 110u8, 116u8, 114u8, 111u8, 108u8, 45u8, 65u8, 108u8, 108u8, 111u8, 119u8, 45u8, 72u8, 101u8, 97u8, 100u8, 101u8, 114u8, 115u8]
    } else if k == 5 {
        seq![65u8, 99u8, 99u8, 101u8, 115u8, 115u8, 45u8, 67u8, 111u8, 110u8, 116u8, 114u8, 111u8, 108u8, 45u8, 65u8, 108u8, 108u8, 111u8, 119u8, 45u8, 77u8, 101u8, 116u8, 104u8, 111u8, 100u8, 115u8]
    } else if k == 6 {
        seq![65u8, 99u8, 99u8, 101u8, 115u8, 115u8, 45u8, 67u8, 111u8, 110u8, 116u8, 114u8, 111u8, 108u8, 45u8, 65u8, 108u8, 108u8, 111u8, 119u8, 45u8, 79u8, 114u8, 105u8, 103u8, 105u8, 110u8]
    } else if k == 7 {
        seq![65u8, 103u8, 101u8]
    } else if k == 8 {
        seq![65u8, 108u8, 108u8, 111u8, 119u8]
    } else if k == 9 {
        seq![65u8, 117u8, 116u8, 104u8, 111u8, 114u8, 105u8, 122u8, 97u8, 116u8, 105u8, 111u8, 110u8]
    } else if k == 10 {
        seq![67u8, 97u8, 99u8, 104u8, 101u8, 45u8, 67u8, 111u8, 110u8, 116u8, 114u8, 111u8, 108u8]
    } else if k == 11 {
        seq![67u8, 111u8, 110u8, 116u8, 101u8, 110u8, 116u8, 45u8, 68u8, 105u8, 115u8, 112u8, 111u8, 115u8, 105u8, 116u8, 105u8, 111u8, 110u8]
    } else if k == 12 {
        seq![67u8, 111u8, 110u8, 116u8, 101u8, 110u8, 116u8, 45u8, 69u8, 110u8, 99u8, 111u8, 100u8, 105u8, 110u8, 103u8]
    } else if k == 13 {
        seq![67u8, 111u8, 110u8, 116u8, 101u8, 110u8, 116u8, 45u8, 76u8, 97u8, 110u8, 103u8, 117u8, 97u8, 103u8, 101u8]
    } else if k == 14 {
        seq![67u8, 111u8, 110u8, 116u8, 101u8, 110u8, 116u8, 45u8, 76u8, 111u8, 99u8, 97u8, 116u8, 105u8, 111u8, 110u8]
    } else if k == 15 {
        seq![67u8, 111u8, 110u8, 116u8, 101u8, 110u8, 116u8, 45u8, 82u8, 97u8, 110u8, 103u8, 101u8]
    } else if k == 16 {
        seq![67u8, 111u8, 110u8, 116u8, 101u8, 110u8, 116u8, 45u8, 83u8, 101u8, 99u8, 117u8, 114u8, 105u8, 116u8, 121u8, 45u8, 80u8, 111u8, 108u8, 105u8, 99u8, 121u8]
    } else if k == 17 {
        seq![67u8, 111u8, 110u8, 116u8, 101u8, 110u8, 116u8, 45u8, 84u8, 121u8, 112u8, 101u8]
    } else if k == 18 {
        seq![67u8, 111u8, 111u8, 107u8, 105u8, 101u8]
    } else if k == 19 {
        seq![69u8, 84u8, 97u8, 103u8]
    } else if k == 20 {
        seq![69u8, 120u8, 112u8, 105u8, 114u8, 101u8, 115u8]
    } else if k == 21 {
        seq![76u8, 97u8, 115u8, 116u8, 45u8, 77u8, 111u8, 100u8, 105u8, 102u8, 105u8, 101u8, 100u8]
    } else if k == 22 {
        seq![76u8, 105u8, 110u8, 107u8]
    } else if k == 23 {
        seq![76u8, 111u8, 99u8, 97u8, 116u8, 105u8, 111u8, 110u8]
    } else if k == 24 {
        seq![80u8, 114u8, 97u8, 103u8, 109u8, 97u8]
    } else if k == 25 {
        seq![82u8, 101u8, 102u8, 101u8, 114u8, 114u8, 101u8, 114u8, 45u8, 80u8, 111u8, 108u8, 105u8, 99u8, 121u8]
    } else if k == 26 {
        seq![82u8, 101u8, 116u8, 114u8, 121u8, 45u8, 65u8, 102u8, 116u8, 101u8, 114u8]
    } else if k == 27 {
        seq![83u8, 101u8, 114u8, 118u8, 101u8, 114u8]
    } else if k == 28 {
        seq![83u8, 101u8, 116u8, 45u8, 67u8, 111u8, 111u8, 107u8, 105u8, 101u8]
    } else if k == 29 {
        seq![83u8, 116u8, 114u8, 105u8, 99u8, 116u8, 45u8, 84u8, 114u8, 97u8, 110u8, 115u8, 112u8, 111u8, 114u8, 116u8, 45u8, 83u8, 101u8, 99u8, 117u8, 114u8, 105u8, 116u8, 121u8]
    } else if k == 30 {
        seq![86u8, 97u8, 114u8, 121u8]
    } else if k == 31 {
        seq![87u8, 87u8, 87u8, 45u8, 65u8, 117u8, 116u8, 104u8, 101u8, 110u8, 116u8, 105u8, 99u8, 97u8, 116u8, 101u8]
    } else if k == 32 {
        seq![88u8, 45u8, 67u8, 111u8, 110u8, 116u8, 101u8, 110u8, 116u8, 45u8, 84u8, 121u8, 112u8, 101u8, 45u8, 79u8, 112u8, 116u8, 105u8, 111u8, 110u8, 115u8]
    } else if k == 33 {
        seq![88u8, 45u8, 70u8, 114u8, 97u8, 109u8, 101u8, 45u8, 79u8, 112u8, 116u8, 105u8, 111u8, 110u8, 115u8]
    } else {
        seq![]
    }
}


/// Whether a byte is an RFC 7230 `tchar`: `A-Z`, `a-z`, `0-9` or one of ``!#$%&'*+-.^_`|~``.
pub open spec fn is_tchar(b: u8) -> bool {
    (65 <= b <= 90) || (97 <= b <= 122) || (48 <= b <= 57) || b == 33 || b == 35 || b == 36 || b == 37 || b == 38
        || b == 39 || b == 42 || b == 43 || b == 45 || b == 46 || b == 94 || b == 95 || b == 96 || b == 124 || b == 126
}

/// Whether `name` is a valid header name: non-empty, all bytes `tchar`.
pub open spec fn valid_header_name(name: Seq<char>) -> bool {
    &&& name.len() > 0
    &&& forall|i: int| 0 <= i < encode_utf8(name).len() ==> is_tchar(#[trigger] encode_utf8(name)[i])
}

proof fn lemma_known_header_tchar(k: int)
    requires
        0 <= k < 34,
    ensures
        valid_header_name(ascii_chars(known_header(k))),
{
    let b = known_header(k);
    assert(all_ascii(b));
    lemma_ascii_encode(ascii_chars(b), b);
    assert(forall|i: int| 0 <= i < b.len() ==> is_tchar(#[trigger] b[i]));
}

/// An HTTP header name.
#[derive(Debug, PartialEq, Eq)]
pub struct HeaderName(HeaderNameInner);
impl Clone for HeaderNameInner {
    fn clone(&self) -> (r: Self)
        ensures
            r == *self,
    {
        match self {
            HeaderNameInner::Accept => HeaderNameInner::Accept,
            HeaderNameInner::AcceptEncoding => HeaderNameInner::AcceptEncoding,
            HeaderNameInner::AcceptLanguage => HeaderNameInner::AcceptLanguage,
            HeaderNameInner::AcceptRanges => HeaderNameInner::AcceptRanges,
            HeaderNameInner::AccessControlAllowHeaders => HeaderNameInner::AccessControlAllowHeaders,
            HeaderNameInner::AccessControlAllowMethods => HeaderNameInner::AccessControlAllowMethods,
            HeaderNameInner::AccessControlAllowOrigin => HeaderNameInner::AccessControlAllowOrigin,
            HeaderNameInner::Age => HeaderNameInner::Age,
            HeaderNameInner::Allow => HeaderNameInner::Allow,
            HeaderNameInner::Authorization => HeaderNameInner::Authorization,
            HeaderNameInner::CacheControl => HeaderNameInner::CacheControl,
            HeaderNameInner::ContentDisposition => HeaderNameInner::ContentDisposition,
            HeaderNameInner::ContentEncoding => HeaderNameInner::ContentEncoding,
            HeaderNameInner::ContentLanguage => HeaderNameInner::ContentLanguage,
            HeaderNameInner::ContentLocation => HeaderNameInner::ContentLocation,
            HeaderNameInner::ContentRange => HeaderNameInner::ContentRange,
            HeaderNameInner::ContentSecurityPolicy => HeaderNameInner::ContentSecurityPolicy,
            HeaderNameInner::ContentType => HeaderNameInner::ContentType,
            HeaderNameInner::Cookie => HeaderNameInner::Cookie,
            HeaderNameInner::ETag => HeaderNameInner::ETag,
            HeaderNameInner::Expires => HeaderNameInner::Expires,
            HeaderNameInner::LastModified => HeaderNameInner::LastModified,
            HeaderNameInner::Link => HeaderNameInner::Link,
            HeaderNameInner::Location => HeaderNameInner::Location,
            HeaderNameInner::Pragma => HeaderNameInner::Pragma,
            HeaderNameInner::ReferrerPolicy => HeaderNameInner::ReferrerPolicy,
            HeaderNameInner::RetryAfter => HeaderNameInner::RetryAfter,
            HeaderNameInner::Server => HeaderNameInner::Server,
            HeaderNameInner::SetCookie => HeaderNameInner::SetCookie,
            HeaderNameInner::StrictTransportSecurity => HeaderNameInner::StrictTransportSecurity,
            HeaderNameInner::Vary => HeaderNameInner::Vary,
            HeaderNameInner::WWWAuthenticate => HeaderNameInner::WWWAuthenticate,
            HeaderNameInner::XContentTypeOptions => HeaderNameInner::XContentTypeOptions,
            HeaderNameInner::XFrameOptions => HeaderNameInner::XFrameOptions,
            HeaderNameInner::Custom(s) => HeaderNameInner::Custom(s.clone()),
        }
    }
}

impl Clone for HeaderName {
    fn clone(&self) -> (r: Self)
        ensures
            r.name() == self.name(),
    {
        proof {
            use_type_invariant(self);
        }
        HeaderName(self.0.clone())
    }
}


impl HeaderName {
    /// The header name string.
    pub closed spec fn name(&self) -> Seq<char> {
        match self.0 {
            HeaderNameInner::Accept => ascii_chars(known_header(0)),
            HeaderNameInner::AcceptEncoding => ascii_chars(known_header(1)),
            HeaderNameInner::AcceptLanguage => ascii_chars(known_header(2)),
            HeaderNameInner::AcceptRanges => ascii_chars(known_header(3)),
            HeaderNameInner::AccessControlAllowHeaders => ascii_chars(known_header(4)),
            HeaderNameInner::AccessControlAllowMethods => ascii_chars(known_header(5)),
            HeaderNameInner::AccessControlAllowOrigin => ascii_chars(known_header(6)),
            HeaderNameInner::Age => ascii_chars(known_header(7)),
            HeaderNameInner::Allow => ascii_chars(known_header(8)),
            HeaderNameInner::Authorization => ascii_chars(known_header(9)),
            HeaderNameInner::CacheControl => ascii_chars(known_header(10)),
            HeaderNameInner::ContentDisposition => ascii_chars(known_header(11)),
            HeaderNameInner::ContentEncoding => ascii_chars(known_header(12)),
            HeaderNameInner::ContentLanguage => ascii_chars(known_header(13)),
            HeaderNameInner::ContentLocation => ascii_chars(known_header(14)),
            HeaderNameInner::ContentRange => ascii_chars(known_header(15)),
            HeaderNameInner::ContentSecurityPolicy => ascii_chars(known_header(16)),
            HeaderNameInner::ContentType => ascii_chars(known_header(17)),
            HeaderNameInner::Cookie => ascii_chars(known_header(18)),
            HeaderNameInner::ETag => ascii_chars(known_header(19)),
            HeaderNameInner::Expires => ascii_chars(known_header(20)),
            HeaderNameInner::LastModified => ascii_chars(known_header(21)),
            HeaderNameInner::Link => ascii_chars(known_header(22)),
            HeaderNameInner::Location => ascii_chars(known_header(23)),
            HeaderNameInner::Pragma => ascii_chars(known_header(24)),
            HeaderNameInner::ReferrerPolicy => ascii_chars(known_header(25)),
            HeaderNameInner::RetryAfter => ascii_chars(known_header(26)),
            HeaderNameInner::Server => ascii_chars(known_header(27)),
            HeaderNameInner::SetCookie => ascii_chars(known_header(28)),
            HeaderNameInner::StrictTransportSecurity => ascii_chars(known_header(29)),
            HeaderNameInner::Vary => ascii_chars(known_header(30)),
            HeaderNameInner::WWWAuthenticate => ascii_chars(known_header(31)),
            HeaderNameInner::XContentTypeOptions => ascii_chars(known_header(32)),
            HeaderNameInner::XFrameOptions => ascii_chars(known_header(33)),
            HeaderNameInner::Custom(s) => s@,
        }
    }

    #[verifier::type_invariant]
    pub(crate) open spec fn inv(self) -> bool {
        valid_header_name(self.name())
    }


    /// Returns a new header name.
    ///
    /// Returns `Err` if `name` is empty or contains a character outside the
    /// RFC 7230 `tchar` set (`A-Z`, `a-z`, `0-9`, ``!#$%&'*+-.^_`|~``).
    pub fn new(name: String) -> (r: Result<Self, &'static str>)
        ensures
            valid_header_name(name@) ==> (r matches Ok(n) && n.name() == name@),
            !valid_header_name(name@) ==> r == Err::<Self, &str>("header name contains invalid characters"),
    {
        let b = name.as_str().as_bytes();
        if b.len() == 0 {
            proof {
                if name@.len() > 0 {
                    assert(encode_utf8(name@).len() > 0);
                }
            }
            return Err("header name contains invalid characters");
        }
        let mut i: usize = 0;
        while i < b.len()
            invariant
                i <= b@.len(),
                b@ == encode_utf8(name@),
                forall|j: int| 0 <= j < i ==> is_tchar(#[trigger] b@[j]),
            decreases b@.len() - i,
        {
            let c = b[i];
            if !((65 <= c && c <= 90) || (97 <= c && c <= 122) || (48 <= c && c <= 57) || c == 33 || c == 35 || c == 36
                || c == 37 || c == 38 || c == 39 || c == 42 || c == 43 || c == 45 || c == 46 || c == 94 || c == 95
                || c == 96 || c == 124 || c == 126) {
                return Err("header name contains invalid characters");
            }
            i = i + 1;
        }
        proof {
            if name@.len() == 0 {
                assert(encode_utf8(name@).len() == 0);
            }
        }
        Ok(HeaderName(HeaderNameInner::Custom(name)))
    }

    /// Returns the header name string (e.g. `"Cache-Control"`).
    pub fn as_str(&self) -> (s: &str)
        ensures
            s@ == self.name(),
    {
        match &self.0 {
            HeaderNameInner::Accept => {
                proof {
                    reveal_strlit("Accept");
                    assert("Accept"@ =~= ascii_chars(known_header(0)));
                }
                "Accept"
            }
            HeaderNameInner::AcceptEncoding => {
                proof {
                    reveal_strlit("Accept-Encoding");
                    assert("Accept-Encoding"@ =~= ascii_chars(known_header(1)));
                }
                "Accept-Encoding"
            }
            HeaderNameInner::AcceptLanguage => {
                proof {
                    reveal_strlit("Accept-Language");
                    assert("Accept-Language"@ =~= ascii_chars(known_header(2)));
                }
                "Accept-Language"
            }
            HeaderNameInner::AcceptRanges => {
                proof {
                    reveal_strlit("Accept-Ranges");
                    assert("Accept-Ranges"@ =~= ascii_chars(known_header(3)));
                }
                "Accept-Ranges"
            }
            HeaderNameInner::AccessControlAllowHeaders => {
                proof {
                    reveal_strlit("Access-Control-Allow-Headers");
                    assert("Access-Control-Allow-Headers"@ =~= ascii_chars(known_header(4)));
                }
                "Access-Control-Allow-Headers"
            }
            HeaderNameInner::AccessControlAllowMethods => {
                proof {
                    reveal_strlit("Access-Control-Allow-Methods");
                    assert("Access-Control-Allow-Methods"@ =~= ascii_chars(known_header(5)));
                }
                "Access-Control-Allow-Methods"
            }
            HeaderNameInner::AccessControlAllowOrigin => {
                proof {
                    reveal_strlit("Access-Control-Allow-Origin");
                    assert("Access-Control-Allow-Origin"@ =~= ascii_chars(known_header(6)));
                }
                "Access-Control-Allow-Origin"
            }
            HeaderNameInner::Age => {
                proof {
                    reveal_strlit("Age");
                    assert("Age"@ =~= ascii_chars(known_header(7)));
                }
                "Age"
            }
            HeaderNameInner::Allow => {
                proof {
                    reveal_strlit("Allow");
                    assert("Allow"@ =~= ascii_chars(known_header(8)));
                }
                "Allow"
            }
            HeaderNameInner::Authorization => {
                proof {
                    reveal_strlit("Authorization");
                    assert("Authorization"@ =~= ascii_chars(known_header(9)));
                }
                "Authorization"
            }
            HeaderNameInner::CacheControl => {
                proof {
                    reveal_strlit("Cache-Control");
                    assert("Cache-Control"@ =~= ascii_chars(known_header(10)));
                }
                "Cache-Control"
            }
            HeaderNameInner::ContentDisposition => {
                proof {
                    reveal_strlit("Content-Disposition");
                    assert("Content-Disposition"@ =~= ascii_chars(known_header(11)));
                }
                "Content-Disposition"
            }
            HeaderNameInner::ContentEncoding => {
                proof {
                    reveal_strlit("Content-Encoding");
                    assert("Content-Encoding"@ =~= ascii_chars(known_header(12)));
                }
                "Content-Encoding"
            }
            HeaderNameInner::ContentLanguage => {
                proof {
                    reveal_strlit("Content-Language");
                    assert("Content-Language"@ =~= ascii_chars(known_header(13)));
                }
                "Content-Language"
            }
            HeaderNameInner::ContentLocation => {
                proof {
                    reveal_strlit("Content-Location");
                    assert("Content-Location"@ =~= ascii_chars(known_header(14)));
                }
                "Content-Location"
            }
            HeaderNameInner::ContentRange => {
                proof {
                    reveal_strlit("Content-Range");
                    assert("Content-Range"@ =~= ascii_chars(known_header(15)));
                }
                "Content-Range"
            }
            HeaderNameInner::ContentSecurityPolicy => {
                proof {
                    reveal_strlit("Content-Security-Policy");
                    assert("Content-Security-Policy"@ =~= ascii_chars(known_header(16)));
                }
                "Content-Security-Policy"
            }
            HeaderNameInner::ContentType => {
                proof {
                    reveal_strlit("Content-Type");
                    assert("Content-Type"@ =~= ascii_chars(known_header(17)));
                }
                "Content-Type"
            }
            HeaderNameInner::Cookie => {
                proof {
                    reveal_strlit("Cookie");
                    assert("Cookie"@ =~= ascii_chars(known_header(18)));
                }
                "Cookie"
            }
            HeaderNameInner::ETag => {
                proof {
                    reveal_strlit("ETag");
                    assert("ETag"@ =~= ascii_chars(known_header(19)));
                }
                "ETag"
            }
            HeaderNameInner::Expires => {
                proof {
                    reveal_strlit("Expires");
                    assert("Expires"@ =~= ascii_chars(known_header(20)));
                }
                "Expires"
            }
            HeaderNameInner::LastModified => {
                proof {
                    reveal_strlit("Last-Modified");
                    assert("Last-Modified"@ =~= ascii_chars(known_header(21)));
                }
                "Last-Modified"
            }
            HeaderNameInner::Link => {
                proof {
                    reveal_strlit("Link");
                    assert("Link"@ =~= ascii_chars(known_header(22)));
                }
                "Link"
            }
            HeaderNameInner::Location => {
                proof {
                    reveal_strlit("Location");
                    assert("Location"@ =~= ascii_chars(known_header(23)));
                }
                "Location"
            }
            HeaderNameInner::Pragma => {
                proof {
                    reveal_strlit("Pragma");
                    assert("Pragma"@ =~= ascii_chars(known_header(24)));
                }
                "Pragma"
            }
            HeaderNameInner::ReferrerPolicy => {
                proof {
                    reveal_strlit("Referrer-Policy");
                    assert("Referrer-Policy"@ =~= ascii_chars(known_header(25)));
                }
                "Referrer-Policy"
            }
            HeaderNameInner::RetryAfter => {
                proof {
                    reveal_strlit("Retry-After");
                    assert("Retry-After"@ =~= ascii_chars(known_header(26)));
                }
                "Retry-After"
            }
            HeaderNameInner::Server => {
                proof {
                    reveal_strlit("Server");
                    assert("Server"@ =~= ascii_chars(known_header(27)));
                }
                "Server"
            }
            HeaderNameInner::SetCookie => {
                proof {
                    reveal_strlit("Set-Cookie");
                    assert("Set-Cookie"@ =~= ascii_chars(known_header(28)));
                }
                "Set-Cookie"
            }
            HeaderNameInner::StrictTransportSecurity => {
                proof {
                    reveal_strlit("Strict-Transport-Security");
                    assert("Strict-Transport-Security"@ =~= ascii_chars(known_header(29)));
                }
                "Strict-Transport-Security"
            }
            HeaderNameInner::Vary => {
                proof {
                    reveal_strlit("Vary");
                    assert("Vary"@ =~= ascii_chars(known_header(30)));
                }
                "Vary"
            }
            HeaderNameInner::WWWAuthenticate => {
                proof {
                    reveal_strlit("WWW-Authenticate");
                    assert("WWW-Authenticate"@ =~= ascii_chars(known_header(31)));
                }
                "WWW-Authenticate"
            }
            HeaderNameInner::XContentTypeOptions => {
                proof {
                    reveal_strlit("X-Content-Type-Options");
                    assert("X-Content-Type-Options"@ =~= ascii_chars(known_header(32)));
                }
                "X-Content-Type-Options"
            }
            HeaderNameInner::XFrameOptions => {
                proof {
                    reveal_strlit("X-Frame-Options");
                    assert("X-Frame-Options"@ =~= ascii_chars(known_header(33)));
                }
                "X-Frame-Options"
            }
            HeaderNameInner::Custom(s) => s.as_str(),
        }
    }

    /// Converts the header name into an owned string.
    pub fn into_string(self) -> (s: String)
        ensures
            s@ == self.name(),
    {
        match self.0 {
            HeaderNameInner::Custom(s) => s,
            _ => self.as_str().to_owned(),
        }
    }

    /// The `Accept` header.
    pub fn accept() -> (n: Self)
        ensures
            n.name() == ascii_chars(known_header(0)),
    {
        proof {
            lemma_known_header_tchar(0);
        }
        HeaderName(HeaderNameInner::Accept)
    }

    /// The `Accept-Encoding` header.
    pub fn accept_encoding() -> (n: Self)
        ensures
            n.name() == ascii_chars(known_header(1)),
    {
        proof {
            lemma_known_header_tchar(1);
        }
        HeaderName(HeaderNameInner::AcceptEncoding)
    }

    /// The `Accept-Language` header.
    pub fn accept_language() -> (n: Self)
        ensures
            n.name() == ascii_chars(known_header(2)),
    {
        proof {
            lemma_known_header_tchar(2);
        }
        HeaderName(HeaderNameInner::AcceptLanguage)
    }

    /// The `Accept-Ranges` header.
    pub fn accept_ranges() -> (n: Self)
        ensures
            n.name() == ascii_chars(known_header(3)),
    {
        proof {
            lemma_known_header_tchar(3);
        }
        HeaderName(HeaderNameInner::AcceptRanges)
    }

    /// The `Access-Control-Allow-Headers` header.
    pub fn access_control_allow_headers() -> (n: Self)
        ensures
            n.name() == ascii_chars(known_header(4)),
    {
        proof {
            lemma_known_header_tchar(4);
        }
        HeaderName(HeaderNameInner::AccessControlAllowHeaders)
    }

    /// The `Access-Control-Allow-Methods` header.
    pub fn access_control_allow_methods() -> (n: Self)
        ensures
            n.name() == ascii_chars(known_header(5)),
    {
        proof {
            lemma_known_header_tchar(5);
        }
        HeaderName(HeaderNameInner::AccessControlAllowMethods)
    }

    /// The `Access-Control-Allow-Origin` header.
    pub fn access_control_allow_origin() -> (n: Self)
        ensures
            n.name() == ascii_chars(known_header(6)),
    {
        proof {
            lemma_known_header_tchar(6);
        }
        HeaderName(HeaderNameInner::AccessControlAllowOrigin)
    }

    /// The `Age` header.
    pub fn age() -> (n: Self)
        ensures
            n.name() == ascii_chars(known_header(7)),
    {
        proof {
            lemma_known_header_tchar(7);
        }
        HeaderName(HeaderNameInner::Age)
    }

    /// The `Allow` header.
    pub fn allow() -> (n: Self)
        ensures
            n.name() == ascii_chars(known_header(8)),
    {
        proof {
            lemma_known_header_tchar(8);
        }
        HeaderName(HeaderNameInner::Allow)
    }

    /// The `Authorization` header.
    pub fn authorization() -> (n: Self)
        ensures
            n.name() == ascii_chars(known_header(9)),
    {
        proof {
            lemma_known_header_tchar(9);
        }
        HeaderName(HeaderNameInner::Authorization)
    }

    /// The `Cache-Control` header.
    pub fn cache_control() -> (n: Self)
        ensures
            n.name() == ascii_chars(known_header(10)),
    {
        proof {
            lemma_known_header_tchar(10);
        }
        HeaderName(HeaderNameInner::CacheControl)
    }

    /// The `Content-Disposition` header.
    pub fn content_disposition() -> (n: Self)
        ensures
            n.name() == ascii_chars(known_header(11)),
    {
        proof {
            lemma_known_header_tchar(11);
        }
        HeaderName(HeaderNameInner::ContentDisposition)
    }

    /// The `Content-Encoding` header.
    pub fn content_encoding() -> (n: Self)
        ensures
            n.name() == ascii_chars(known_header(12)),
    {
        proof {
            lemma_known_header_tchar(12);
        }
        HeaderName(HeaderNameInner::ContentEncoding)
    }

    /// The `Content-Language` header.
    pub fn content_language() -> (n: Self)
        ensures
            n.name() == ascii_chars(known_header(13)),
    {
        proof {
            lemma_known_header_tchar(13);
        }
        HeaderName(HeaderNameInner::ContentLanguage)
    }

    /// The `Content-Location` header.
    pub fn content_location() -> (n: Self)
        ensures
            n.name() == ascii_chars(known_header(14)),
    {
        proof {
            lemma_known_header_tchar(14);
        }
        HeaderName(HeaderNameInner::ContentLocation)
    }

    /// The `Content-Range` header.
    pub fn content_range() -> (n: Self)
        ensures
            n.name() == ascii_chars(known_header(15)),
    {
        proof {
            lemma_known_header_tchar(15);
        }
        HeaderName(HeaderNameInner::ContentRange)
    }

    /// The `Content-Security-Policy` header.
    pub fn content_security_policy() -> (n: Self)
        ensures
            n.name() == ascii_chars(known_header(16)),
    {
        proof {
            lemma_known_header_tchar(16);
        }
        HeaderName(HeaderNameInner::ContentSecurityPolicy)
    }

    /// The `Content-Type` header.
    pub fn content_type() -> (n: Self)
        ensures
            n.name() == ascii_chars(known_header(17)),
    {
        proof {
            lemma_known_header_tchar(17);
        }
        HeaderName(HeaderNameInner::ContentType)
    }

    /// The `Cookie` header.
    pub fn cookie() -> (n: Self)
        ensures
            n.name() == ascii_chars(known_header(18)),
    {
        proof {
            lemma_known_header_tchar(18);
        }
        HeaderName(HeaderNameInner::Cookie)
    }

    /// The `ETag` header.
    pub fn etag() -> (n: Self)
        ensures
            n.name() == ascii_chars(known_header(19)),
    {
        proof {
            lemma_known_header_tchar(19);
        }
        HeaderName(HeaderNameInner::ETag)
    }

    /// The `Expires` header.
    pub fn expires() -> (n: Self)
        ensures
            n.name() == ascii_chars(known_header(20)),
    {
        proof {
            lemma_known_header_tchar(20);
        }
        HeaderName(HeaderNameInner::Expires)
    }

    /// The `Last-Modified` header.
    pub fn last_modified() -> (n: Self)
        ensures
            n.name() == ascii_chars(known_header(21)),
    {
        proof {
            lemma_known_header_tchar(21);
        }
        HeaderName(HeaderNameInner::LastModified)
    }

    /// The `Link` header.
    pub fn link() -> (n: Self)
        ensures
            n.name() == ascii_chars(known_header(22)),
    {
        proof {
            lemma_known_header_tchar(22);
        }
        HeaderName(HeaderNameInner::Link)
    }

    /// The `Location` header.
    pub fn location() -> (n: Self)
        ensures
            n.name() == ascii_chars(known_header(23)),
    {
        proof {
            lemma_known_header_tchar(23);
        }
        HeaderName(HeaderNameInner::Location)
    }

    /// The `Pragma` header.
    pub fn pragma() -> (n: Self)
        ensures
            n.name() == ascii_chars(known_header(24)),
    {
        proof {
            lemma_known_header_tchar(24);
        }
        HeaderName(HeaderNameInner::Pragma)
    }

    /// The `Referrer-Policy` header.
    pub fn referrer_policy() -> (n: Self)
        ensures
            n.name() == ascii_chars(known_header(25)),
    {
        proof {
            lemma_known_header_tchar(25);
        }
        HeaderName(HeaderNameInner::ReferrerPolicy)
    }

    /// The `Retry-After` header.
    pub fn retry_after() -> (n: Self)
        ensures
            n.name() == ascii_chars(known_header(26)),
    {
        proof {
            lemma_known_header_tchar(26);
        }
        HeaderName(HeaderNameInner::RetryAfter)
    }

    /// The `Server` header.
    pub fn server() -> (n: Self)
        ensures
            n.name() == ascii_chars(known_header(27)),
    {
        proof {
            lemma_known_header_tchar(27);
        }
        HeaderName(HeaderNameInner::Server)
    }

    /// The `Set-Cookie` header.
    pub fn set_cookie() -> (n: Self)
        ensures
            n.name() == ascii_chars(known_header(28)),
    {
        proof {
            lemma_known_header_tchar(28);
        }
        HeaderName(HeaderNameInner::SetCookie)
    }

    /// The `Strict-Transport-Security` header.
    pub fn strict_transport_security() -> (n: Self)
        ensures
            n.name() == ascii_chars(known_header(29)),
    {
        proof {
            lemma_known_header_tchar(29);
        }
        HeaderName(HeaderNameInner::StrictTransportSecurity)
    }

    /// The `Vary` header.
    pub fn vary() -> (n: Self)
        ensures
            n.name() == ascii_chars(known_header(30)),
    {
        proof {
            lemma_known_header_tchar(30);
        }
        HeaderName(HeaderNameInner::Vary)
    }

    /// The `WWW-Authenticate` header.
    pub fn www_authenticate() -> (n: Self)
        ensures
            n.name() == ascii_chars(known_header(31)),
    {
        proof {
            lemma_known_header_tchar(31);
        }
        HeaderName(HeaderNameInner::WWWAuthenticate)
    }

    /// The `X-Content-Type-Options` header.
    pub fn x_content_type_options() -> (n: Self)
        ensures
            n.name() == ascii_chars(known_header(32)),
    {
        proof {
            lemma_known_header_tchar(32);
        }
        HeaderName(HeaderNameInner::XContentTypeOptions)
    }

    /// The `X-Frame-Options` header.
    pub fn x_frame_options() -> (n: Self)
        ensures
            n.name() == ascii_chars(known_header(33)),
    {
        proof {
            lemma_known_header_tchar(33);
        }
        HeaderName(HeaderNameInner::XFrameOptions)
    }
}

/// Whether `v` may be a header value: it holds no CR, LF or NUL.
pub open spec fn valid_header_value(v: Seq<char>) -> bool {
    !has_ctl(v)
}

fn validate_header_value(value: &str) -> (r: Result<(), &'static str>)
    ensures
        r is Ok <==> valid_header_value(value@),
        r is Err ==> r == Err::<(), &str>("header value must not contain CR, LF, or NUL"),
{
    let v = chars_of(value);
    let mut i: usize = 0;
    while i < v.len()
        invariant
            i <= v@.len(),
            v@ == value@,
            forall|j: int| 0 <= j < i ==> v@[j] != '\r' && v@[j] != '\n' && v@[j] != '\0',
        decreases v@.len() - i,
    {
        if v[i] == '\r' || v[i] == '\n' || v[i] == '\0' {
            return Err("header value must not contain CR, LF, or NUL");
        }
        i = i + 1;
    }
    Ok(())
}

#[derive(Debug)]
enum HeaderValueInner {
    Owned(String),
    Static(&'static str),
}

/// An HTTP header value: an owned string, or a static string borrowed
/// without allocating.
#[derive(Debug)]
pub struct HeaderValue(HeaderValueInner);

impl Clone for HeaderValue {
    fn clone(&self) -> (r: Self)
        ensures
            r.value() == self.value(),
    {
        proof {
            use_type_invariant(self);
        }
        match &self.0 {
            HeaderValueInner::Owned(s) => HeaderValue(HeaderValueInner::Owned(s.clone())),
            HeaderValueInner::Static(s) => HeaderValue(HeaderValueInner::Static(*s)),
        }
    }
}

impl PartialEq for HeaderValue {
    fn eq(&self, other: &Self) -> (r: bool) {
        str_eq(self.as_str(), other.as_str())
    }
}

impl Eq for HeaderValue {
}

impl vstd::std_specs::cmp::PartialEqSpecImpl for HeaderValue {
    open spec fn obeys_eq_spec() -> bool {
        true
    }

    open spec fn eq_spec(&self, other: &Self) -> bool {
        self.value() == other.value()
    }
}

impl HeaderValue {
    /// The header value string.
    pub closed spec fn value(&self) -> Seq<char> {
        match self.0 {
            HeaderValueInner::Owned(s) => s@,
            HeaderValueInner::Static(s) => s@,
        }
    }

    #[verifier::type_invariant]
    pub(crate) open spec fn inv(self) -> bool {
        valid_header_value(self.value())
    }


    /// Returns `Err` if `value` contains CR (`\r`), LF (`\n`), or NUL (`\0`).
    pub fn new(value: String) -> (r: Result<Self, &'static str>)
        ensures
            valid_header_value(value@) ==> (r matches Ok(h) && h.value() == value@),
            !valid_header_value(value@) ==> r == Err::<Self, &str>("header value must not contain CR, LF, or NUL"),
    {
        match validate_header_value(value.as_str()) {
            Ok(()) => Ok(HeaderValue(HeaderValueInner::Owned(value))),
            Err(e) => Err(e),
        }
    }

    /// Returns a `HeaderValue` from a static string.
    ///
    /// Returns `Err` if `value` contains CR (`\r`), LF (`\n`), or NUL (`\0`).
    pub fn from_static(value: &'static str) -> (r: Result<Self, &'static str>)
        ensures
            valid_header_value(value@) ==> (r matches Ok(h) && h.value() == value@),
            !valid_header_value(value@) ==> r == Err::<Self, &str>("header value must not contain CR, LF, or NUL"),
    {
        match validate_header_value(value) {
            Ok(()) => Ok(HeaderValue(HeaderValueInner::Static(value))),
            Err(e) => Err(e),
        }
    }

    /// Returns the header value as a string slice.
    pub fn as_str(&self) -> (s: &str)
        ensures
            s@ == self.value(),
    {
        match &self.0 {
            HeaderValueInner::Owned(s) => s.as_str(),
            HeaderValueInner::Static(s) => *s,
        }
    }

    /// Converts the header value into an owned string.
    pub fn into_string(self) -> (s: String)
        ensures
            s@ == self.value(),
    {
        match self.0 {
            HeaderValueInner::Owned(s) => s,
            HeaderValueInner::Static(s) => s.to_owned(),
        }
    }

    /// A header value holding the given MIME type.
    pub fn from_content_type(t: ContentType) -> (h: Self)
        ensures
            h.value() == t.mime(),
    {
        proof {
            use_type_invariant(&t);
        }
        HeaderValue(HeaderValueInner::Owned(t.into_string()))
    }
}

} // verus!
