//! The message model: methods, versions, statuses, errors, and the request
//! and response types, with their wire-token conversions.

use crate::headers::HttpHeaders;
use vstd::prelude::*;

verus! {

/// An HTTP request method. Unknown methods are a decode error, never a
/// variant of their own.
#[derive(Debug, Copy, Clone, PartialEq, Eq, Structural)]
pub enum HttpMethod {
    GET,
    POST,
}

/// The wire token of a method, as characters.
pub open spec fn method_chars(m: HttpMethod) -> Seq<char> {
    match m {
        HttpMethod::GET => seq!['G', 'E', 'T'],
        HttpMethod::POST => seq!['P', 'O', 'S', 'T'],
    }
}

impl HttpMethod {
    /// The wire token of this method.
    pub fn to_string(&self) -> (r: String)
        ensures
            r@ == method_chars(*self),
    {
        match self {
            HttpMethod::GET => {
                proof {
                    reveal_strlit("GET");
                }
                let r = String::from_str("GET");
                proof {
                    assert(r@ =~= method_chars(*self));
                }
                r
            },
            HttpMethod::POST => {
                proof {
                    reveal_strlit("POST");
                }
                let r = String::from_str("POST");
                proof {
                    assert(r@ =~= method_chars(*self));
                }
                r
            },
        }
    }
}

/// An HTTP protocol version. `UNSUPPORTED` is the sentinel that parsing an
/// unrecognized version token produces; it is never encoded, and a decoder
/// that meets it fails.
#[derive(Debug, Copy, Clone, PartialEq, Eq, Structural)]
pub enum HttpVersion {
    HTTP1_0,
    HTTP1_1,
    UNSUPPORTED,
}

/// The wire token of a version, as characters.
pub open spec fn version_chars(v: HttpVersion) -> Seq<char> {
    match v {
        HttpVersion::HTTP1_0 => seq!['H', 'T', 'T', 'P', '/', '1', '.', '0'],
        HttpVersion::HTTP1_1 => seq!['H', 'T', 'T', 'P', '/', '1', '.', '1'],
        HttpVersion::UNSUPPORTED => seq![
            'U', 'N', 'S', 'U', 'P', 'P', 'O', 'R', 'T', 'E', 'D',
        ],
    }
}

/// The version a token stands for; anything unrecognized is `UNSUPPORTED`.
pub open spec fn version_from_chars(s: Seq<char>) -> HttpVersion {
    if s == version_chars(HttpVersion::HTTP1_0) {
        HttpVersion::HTTP1_0
    } else if s == version_chars(HttpVersion::HTTP1_1) {
        HttpVersion::HTTP1_1
    } else {
        HttpVersion::UNSUPPORTED
    }
}

impl HttpVersion {
    /// Reads a version token; an unrecognized token is the sentinel, which
    /// callers must treat as a failure right away.
    pub fn from_token(t: &str) -> (v: HttpVersion)
        ensures
            v == version_from_chars(t@),
    {
        proof {
            reveal_strlit("HTTP/1.0");
            reveal_strlit("HTTP/1.1");
            assert("HTTP/1.0"@ =~= version_chars(HttpVersion::HTTP1_0));
            assert("HTTP/1.1"@ =~= version_chars(HttpVersion::HTTP1_1));
        }
        if crate::text::str_eq(t, "HTTP/1.0") {
            HttpVersion::HTTP1_0
        } else if crate::text::str_eq(t, "HTTP/1.1") {
            HttpVersion::HTTP1_1
        } else {
            HttpVersion::UNSUPPORTED
        }
    }

    /// The wire token of this version.
    pub fn string(&self) -> (r: &'static str)
        ensures
            r@ == version_chars(*self),
    {
        match self {
            HttpVersion::HTTP1_0 => {
                proof {
                    reveal_strlit("HTTP/1.0");
                    assert("HTTP/1.0"@ =~= version_chars(HttpVersion::HTTP1_0));
                }
                "HTTP/1.0"
            },
            HttpVersion::HTTP1_1 => {
                proof {
                    reveal_strlit("HTTP/1.1");
                    assert("HTTP/1.1"@ =~= version_chars(HttpVersion::HTTP1_1));
                }
                "HTTP/1.1"
            },
            HttpVersion::UNSUPPORTED => {
                proof {
                    reveal_strlit("UNSUPPORTED");
                    assert("UNSUPPORTED"@ =~= version_chars(HttpVersion::UNSUPPORTED));
                }
                "UNSUPPORTED"
            },
        }
    }
}

/// An HTTP response status. `Invalid` is the sentinel that parsing an
/// unrecognized status token produces; it is never encoded, and a decoder
/// that meets it fails.
#[derive(Debug, Copy, Clone, PartialEq, Eq, Structural)]
pub enum HttpStatus {
    OK,
    NotFound,
    Invalid,
}

/// The numeric code of a status; `Invalid` has no code and reads as zero.
pub open spec fn spec_status_code(s: HttpStatus) -> u32 {
    match s {
        HttpStatus::OK => 200,
        HttpStatus::NotFound => 404,
        HttpStatus::Invalid => 0,
    }
}

/// The reason phrase of a status; `Invalid` has none.
pub open spec fn status_reason_chars(s: HttpStatus) -> Seq<char> {
    match s {
        HttpStatus::OK => seq!['O', 'K'],
        HttpStatus::NotFound => seq!['N', 'o', 't', ' ', 'F', 'o', 'u', 'n', 'd'],
        HttpStatus::Invalid => Seq::empty(),
    }
}

/// The status a numeric code stands for; anything unrecognized is `Invalid`.
pub open spec fn status_from_code(c: u32) -> HttpStatus {
    if c == 200 {
        HttpStatus::OK
    } else if c == 404 {
        HttpStatus::NotFound
    } else {
        HttpStatus::Invalid
    }
}

/// The status a numeric token names; anything unrecognized is `Invalid`.
pub open spec fn status_from_chars(s: Seq<char>) -> HttpStatus {
    if s == crate::digits::dec_chars(200) {
        HttpStatus::OK
    } else if s == crate::digits::dec_chars(404) {
        HttpStatus::NotFound
    } else {
        HttpStatus::Invalid
    }
}

impl HttpStatus {
    /// Reads a numeric code; an unrecognized code is the sentinel, which
    /// callers must treat as a failure right away.
    pub fn from_code(c: u32) -> (r: HttpStatus)
        ensures
            r == status_from_code(c),
    {
        if c == 200 {
            HttpStatus::OK
        } else if c == 404 {
            HttpStatus::NotFound
        } else {
            HttpStatus::Invalid
        }
    }

    /// Reads a numeric status token, as a status line carries it.
    pub fn from_token(t: &str) -> (r: HttpStatus)
        ensures
            r == status_from_chars(t@),
    {
        proof {
            reveal_strlit("200");
            reveal_strlit("404");
            crate::digits::lemma_status_code_chars();
            assert("200"@ =~= crate::digits::dec_chars(200));
            assert("404"@ =~= crate::digits::dec_chars(404));
        }
        if crate::text::str_eq(t, "200") {
            HttpStatus::OK
        } else if crate::text::str_eq(t, "404") {
            HttpStatus::NotFound
        } else {
            HttpStatus::Invalid
        }
    }

    /// The numeric code of this status.
    pub fn code(&self) -> (r: u32)
        ensures
            r == spec_status_code(*self),
    {
        match self {
            HttpStatus::OK => 200,
            HttpStatus::NotFound => 404,
            HttpStatus::Invalid => 0,
        }
    }

    /// The reason phrase of this status.
    pub fn string(&self) -> (r: &'static str)
        ensures
            r@ == status_reason_chars(*self),
    {
        match self {
            HttpStatus::OK => {
                proof {
                    reveal_strlit("OK");
                    assert("OK"@ =~= status_reason_chars(HttpStatus::OK));
                }
                "OK"
            },
            HttpStatus::NotFound => {
                proof {
                    reveal_strlit("Not Found");
                    assert("Not Found"@ =~= status_reason_chars(HttpStatus::NotFound));
                }
                "Not Found"
            },
            HttpStatus::Invalid => {
                proof {
                    reveal_strlit("");
                    assert(""@ =~= status_reason_chars(HttpStatus::Invalid));
                }
                ""
            },
        }
    }
}

/// What can go wrong with an exchange: the peer sent malformed data, or the
/// transport failed. The two are kept apart so a caller can tell garbage
/// from a broken connection.
#[derive(Debug, Copy, Clone, PartialEq, Eq, Structural)]
pub enum HttpError {
    IOError,
    HttpSyntaxError,
}

/// One HTTP request: what the request line carries, its headers, and its
/// body bytes.
#[derive(Debug)]
pub struct HttpRequest {
    pub method: HttpMethod,
    pub path: String,
    pub version: HttpVersion,
    pub headers: HttpHeaders,
    pub body: Vec<u8>,
}

/// The mathematical content of a request.
#[verifier::ext_equal]
pub struct RequestView {
    pub method: HttpMethod,
    pub path: Seq<char>,
    pub version: HttpVersion,
    pub headers: Seq<(Seq<char>, Seq<char>)>,
    pub body: Seq<u8>,
}

impl View for HttpRequest {
    type V = RequestView;

    open spec fn view(&self) -> RequestView {
        RequestView {
            method: self.method,
            path: self.path@,
            version: self.version,
            headers: self.headers@,
            body: self.body@,
        }
    }
}

/// One HTTP response: what the status line carries, its headers, and its
/// body bytes.
#[derive(Debug)]
pub struct HttpResponse {
    pub version: HttpVersion,
    pub status: HttpStatus,
    pub headers: HttpHeaders,
    pub body: Vec<u8>,
}

/// The mathematical content of a response.
#[verifier::ext_equal]
pub struct ResponseView {
    pub version: HttpVersion,
    pub status: HttpStatus,
    pub headers: Seq<(Seq<char>, Seq<char>)>,
    pub body: Seq<u8>,
}

impl View for HttpResponse {
    type V = ResponseView;

    open spec fn view(&self) -> ResponseView {
        ResponseView {
            version: self.version,
            status: self.status,
            headers: self.headers@,
            body: self.body@,
        }
    }
}

/// The outcome of decoding from a buffer that may not yet hold a whole
/// message: the buffer is too short so far, the data is bad, or a value was
/// decoded and the buffer was consumed up to the returned position.
#[derive(Debug)]
pub enum DecodeStep<T> {
    /// The buffer holds no complete message yet; read more and retry.
    NeedMore,
    /// The data is malformed, or the stream ended inside a promised body.
    Fail(HttpError),
    /// A complete value, and the position just past the bytes it used.
    Done(T, usize),
}

/// The mathematical outcome of a decode: the ghost mirror of [`DecodeStep`].
#[verifier::ext_equal]
pub enum SpecStep<V> {
    NeedMore,
    Fail(HttpError),
    Done(V, int),
}

} // verus!
