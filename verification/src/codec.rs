//! The wire-format codec: encoding a message to its exact bytes, and
//! decoding a message from a byte buffer that may hold only part of it.

use crate::common::{
    method_chars, spec_status_code, status_reason_chars, version_chars, DecodeStep, HttpError,
    HttpMethod, HttpRequest, HttpResponse, HttpStatus, HttpVersion, RequestView, ResponseView,
    SpecStep,
};
use crate::digits::{dec_chars, push_dec};
use crate::headers::{
    cl_key, cl_key_str, spec_content_length, spec_has_key, spec_header_line, spec_headers_bytes,
    spec_read_headers, HttpHeaders,
};
use crate::text::{
    bytes_eq, find_byte, push_bytes, push_str, spec_find, spec_take_line, string_from_utf8,
    take_line, LineStep, TakenLine, CR, LF, SP,
};
use vstd::prelude::*;
use vstd::utf8::{decode_utf8, encode_utf8, valid_utf8};

verus! {

// ------------------------------------------------------------------
// What encoding produces
// ------------------------------------------------------------------
/// The bytes of a request line: method, path and version separated by
/// single spaces, ended by CRLF.
pub open spec fn spec_request_line_bytes(m: HttpMethod, path: Seq<char>, v: HttpVersion) -> Seq<
    u8,
> {
    encode_utf8(method_chars(m)) + seq![SP] + encode_utf8(path) + seq![SP] + encode_utf8(
        version_chars(v),
    ) + seq![CR, LF]
}

/// The bytes of a status line: version, numeric code and reason phrase
/// separated by single spaces, ended by CRLF.
pub open spec fn spec_status_line_bytes(v: HttpVersion, st: HttpStatus) -> Seq<u8> {
    encode_utf8(version_chars(v)) + seq![SP] + encode_utf8(
        dec_chars(spec_status_code(st) as nat),
    ) + seq![SP] + encode_utf8(status_reason_chars(st)) + seq![CR, LF]
}

/// The `content-length` line the codec adds itself: present exactly when
/// the caller set none, and then carrying the exact body byte count.
pub open spec fn spec_auto_cl_bytes(h: Seq<(Seq<char>, Seq<char>)>, n: nat) -> Seq<u8> {
    if spec_has_key(h, cl_key()) {
        seq![]
    } else {
        spec_header_line(cl_key(), dec_chars(n))
    }
}

/// The full wire bytes of a request: request line, the caller's headers,
/// the automatic `content-length`, a blank line, and the body.
pub open spec fn spec_encode_request(r: RequestView) -> Seq<u8> {
    spec_request_line_bytes(r.method, r.path, r.version) + spec_headers_bytes(r.headers)
        + spec_auto_cl_bytes(r.headers, r.body.len()) + seq![CR, LF] + r.body
}

/// The full wire bytes of a response: status line, the caller's headers,
/// the automatic `content-length`, a blank line, and the body.
pub open spec fn spec_encode_response(r: ResponseView) -> Seq<u8> {
    spec_status_line_bytes(r.version, r.status) + spec_headers_bytes(r.headers)
        + spec_auto_cl_bytes(r.headers, r.body.len()) + seq![CR, LF] + r.body
}

// ------------------------------------------------------------------
// What decoding accepts
// ------------------------------------------------------------------
/// The method a token names, if any.
pub open spec fn spec_method_from(t: Seq<u8>) -> Option<HttpMethod> {
    if t == encode_utf8(method_chars(HttpMethod::GET)) {
        Some(HttpMethod::GET)
    } else if t == encode_utf8(method_chars(HttpMethod::POST)) {
        Some(HttpMethod::POST)
    } else {
        None
    }
}

/// The version a token names; anything unrecognized is the sentinel.
pub open spec fn spec_version_from(t: Seq<u8>) -> HttpVersion {
    if t == encode_utf8(version_chars(HttpVersion::HTTP1_0)) {
        HttpVersion::HTTP1_0
    } else if t == encode_utf8(version_chars(HttpVersion::HTTP1_1)) {
        HttpVersion::HTTP1_1
    } else {
        HttpVersion::UNSUPPORTED
    }
}

/// The status a numeric token names; anything unrecognized is the sentinel.
pub open spec fn spec_status_from(t: Seq<u8>) -> HttpStatus {
    if t == encode_utf8(dec_chars(200)) {
        HttpStatus::OK
    } else if t == encode_utf8(dec_chars(404)) {
        HttpStatus::NotFound
    } else {
        HttpStatus::Invalid
    }
}

/// A request line split at its two separating spaces: the method must be
/// known, the path valid UTF-8, the version token (the whole rest of the
/// line) a supported version.
pub open spec fn spec_parse_request_line(content: Seq<u8>) -> Option<
    (HttpMethod, Seq<char>, HttpVersion),
> {
    match spec_find(content, 0, SP) {
        Option::None => None,
        Option::Some(a) => match spec_find(content, a + 1, SP) {
            Option::None => None,
            Option::Some(b) => {
                let mtok = content.subrange(0, a);
                let ptok = content.subrange(a + 1, b);
                let vtok = content.subrange(b + 1, content.len() as int);
                match spec_method_from(mtok) {
                    Option::None => None,
                    Option::Some(m) => {
                        if valid_utf8(ptok) && spec_version_from(vtok) != HttpVersion::UNSUPPORTED {
                            Some((m, decode_utf8(ptok), spec_version_from(vtok)))
                        } else {
                            None
                        }
                    },
                }
            },
        },
    }
}

/// A status line split at its first two spaces: the version and the status
/// token must be recognized; the reason after the second space is ignored,
/// but the second space must be there.
pub open spec fn spec_parse_status_line(content: Seq<u8>) -> Option<(HttpVersion, HttpStatus)> {
    match spec_find(content, 0, SP) {
        Option::None => None,
        Option::Some(a) => match spec_find(content, a + 1, SP) {
            Option::None => None,
            Option::Some(b) => {
                let vtok = content.subrange(0, a);
                let stok = content.subrange(a + 1, b);
                if spec_version_from(vtok) != HttpVersion::UNSUPPORTED && spec_status_from(stok)
                    != HttpStatus::Invalid {
                    Some((spec_version_from(vtok), spec_status_from(stok)))
                } else {
                    None
                }
            },
        },
    }
}

/// A request body: a declared positive length is read exactly, a declared
/// zero length or an absent or unusable declaration means an empty body
/// without reading further.
pub open spec fn spec_request_body(
    h: Seq<(Seq<char>, Seq<char>)>,
    s: Seq<u8>,
    from: int,
    eof: bool,
) -> SpecStep<Seq<u8>> {
    match spec_content_length(h) {
        Option::None => SpecStep::Done(Seq::empty(), from),
        Option::Some(n) => {
            if n == 0 {
                SpecStep::Done(Seq::empty(), from)
            } else if from + n <= s.len() {
                SpecStep::Done(s.subrange(from, from + n), from + n)
            } else if eof {
                SpecStep::Fail(HttpError::IOError)
            } else {
                SpecStep::NeedMore
            }
        },
    }
}

/// A response body: a declared length (zero included) is read exactly; with
/// none declared, the body is everything up to the end of the stream.
pub open spec fn spec_response_body(
    h: Seq<(Seq<char>, Seq<char>)>,
    s: Seq<u8>,
    from: int,
    eof: bool,
) -> SpecStep<Seq<u8>> {
    match spec_content_length(h) {
        Option::None => {
            if eof {
                SpecStep::Done(s.subrange(from, s.len() as int), s.len() as int)
            } else {
                SpecStep::NeedMore
            }
        },
        Option::Some(n) => {
            if n == 0 {
                SpecStep::Done(Seq::empty(), from)
            } else if from + n <= s.len() {
                SpecStep::Done(s.subrange(from, from + n), from + n)
            } else if eof {
                SpecStep::Fail(HttpError::IOError)
            } else {
                SpecStep::NeedMore
            }
        },
    }
}

/// Decoding a request from the front of a buffer: request line, header
/// block, body. `eof` says whether the buffer already holds everything the
/// peer will send.
pub open spec fn spec_decode_request(s: Seq<u8>, eof: bool) -> SpecStep<RequestView> {
    match spec_take_line(s, 0) {
        LineStep::More => if eof {
            SpecStep::Fail(HttpError::HttpSyntaxError)
        } else {
            SpecStep::NeedMore
        },
        LineStep::Bad => SpecStep::Fail(HttpError::HttpSyntaxError),
        LineStep::Line(content, next) => match spec_parse_request_line(content) {
            Option::None => SpecStep::Fail(HttpError::HttpSyntaxError),
            Option::Some(t) => match spec_read_headers(Seq::empty(), s, next, eof) {
                SpecStep::NeedMore => SpecStep::NeedMore,
                SpecStep::Fail(e) => SpecStep::Fail(e),
                SpecStep::Done(hs, hnext) => match spec_request_body(hs, s, hnext, eof) {
                    SpecStep::NeedMore => SpecStep::NeedMore,
                    SpecStep::Fail(e) => SpecStep::Fail(e),
                    SpecStep::Done(body, bnext) => SpecStep::Done(
                        RequestView {
                            method: t.0,
                            path: t.1,
                            version: t.2,
                            headers: hs,
                            body: body,
                        },
                        bnext,
                    ),
                },
            },
        },
    }
}

/// Decoding a response from the front of a buffer: status line, header
/// block, body.
pub open spec fn spec_decode_response(s: Seq<u8>, eof: bool) -> SpecStep<ResponseView> {
    match spec_take_line(s, 0) {
        LineStep::More => if eof {
            SpecStep::Fail(HttpError::HttpSyntaxError)
        } else {
            SpecStep::NeedMore
        },
        LineStep::Bad => SpecStep::Fail(HttpError::HttpSyntaxError),
        LineStep::Line(content, next) => match spec_parse_status_line(content) {
            Option::None => SpecStep::Fail(HttpError::HttpSyntaxError),
            Option::Some(t) => match spec_read_headers(Seq::empty(), s, next, eof) {
                SpecStep::NeedMore => SpecStep::NeedMore,
                SpecStep::Fail(e) => SpecStep::Fail(e),
                SpecStep::Done(hs, hnext) => match spec_response_body(hs, s, hnext, eof) {
                    SpecStep::NeedMore => SpecStep::NeedMore,
                    SpecStep::Fail(e) => SpecStep::Fail(e),
                    SpecStep::Done(body, bnext) => SpecStep::Done(
                        ResponseView { version: t.0, status: t.1, headers: hs, body: body },
                        bnext,
                    ),
                },
            },
        },
    }
}

// ------------------------------------------------------------------
// Token helpers
// ------------------------------------------------------------------
/// Recognizes a method token.
fn method_from_bytes(t: &[u8]) -> (r: Option<HttpMethod>)
    ensures
        r == spec_method_from(t@),
{
    proof {
        reveal_strlit("GET");
        reveal_strlit("POST");
        assert("GET"@ =~= method_chars(HttpMethod::GET));
        assert("POST"@ =~= method_chars(HttpMethod::POST));
    }
    if bytes_eq(t, "GET".as_bytes()) {
        Some(HttpMethod::GET)
    } else if bytes_eq(t, "POST".as_bytes()) {
        Some(HttpMethod::POST)
    } else {
        None
    }
}

/// Recognizes a version token.
fn version_from_bytes(t: &[u8]) -> (r: HttpVersion)
    ensures
        r == spec_version_from(t@),
{
    proof {
        reveal_strlit("HTTP/1.0");
        reveal_strlit("HTTP/1.1");
        assert("HTTP/1.0"@ =~= version_chars(HttpVersion::HTTP1_0));
        assert("HTTP/1.1"@ =~= version_chars(HttpVersion::HTTP1_1));
    }
    if bytes_eq(t, "HTTP/1.0".as_bytes()) {
        HttpVersion::HTTP1_0
    } else if bytes_eq(t, "HTTP/1.1".as_bytes()) {
        HttpVersion::HTTP1_1
    } else {
        HttpVersion::UNSUPPORTED
    }
}

/// Recognizes a numeric status token.
fn status_from_bytes(t: &[u8]) -> (r: HttpStatus)
    ensures
        r == spec_status_from(t@),
{
    proof {
        reveal_strlit("200");
        reveal_strlit("404");
        crate::digits::lemma_status_code_chars();
        assert("200"@ =~= dec_chars(200));
        assert("404"@ =~= dec_chars(404));
    }
    if bytes_eq(t, "200".as_bytes()) {
        HttpStatus::OK
    } else if bytes_eq(t, "404".as_bytes()) {
        HttpStatus::NotFound
    } else {
        HttpStatus::Invalid
    }
}

/// Parses one request line.
fn parse_request_line(content: &[u8]) -> (r: Option<(HttpMethod, String, HttpVersion)>)
    ensures
        match r {
            Option::Some(t) => spec_parse_request_line(content@) == Some((t.0, t.1@, t.2)),
            Option::None => spec_parse_request_line(content@) is None,
        },
{
    let n = content.len();
    match find_byte(content, 0, SP) {
        None => None,
        Some(a) => {
            match find_byte(content, a + 1, SP) {
                None => None,
                Some(b) => {
                    let mtok = vstd::slice::slice_subrange(content, 0, a);
                    match method_from_bytes(mtok) {
                        None => None,
                        Some(m) => {
                            let ptok = vstd::slice::slice_to_vec(
                                vstd::slice::slice_subrange(content, a + 1, b),
                            );
                            match string_from_utf8(ptok) {
                                None => None,
                                Some(path) => {
                                    let vtok = vstd::slice::slice_subrange(content, b + 1, n);
                                    let ver = version_from_bytes(vtok);
                                    match ver {
                                        HttpVersion::UNSUPPORTED => None,
                                        _ => Some((m, path, ver)),
                                    }
                                },
                            }
                        },
                    }
                },
            }
        },
    }
}

/// Parses one status line.
fn parse_status_line(content: &[u8]) -> (r: Option<(HttpVersion, HttpStatus)>)
    ensures
        r == spec_parse_status_line(content@),
{
    let n = content.len();
    match find_byte(content, 0, SP) {
        None => None,
        Some(a) => {
            match find_byte(content, a + 1, SP) {
                None => None,
                Some(b) => {
                    let vtok = vstd::slice::slice_subrange(content, 0, a);
                    let stok = vstd::slice::slice_subrange(content, a + 1, b);
                    let ver = version_from_bytes(vtok);
                    let status = status_from_bytes(stok);
                    match (ver, status) {
                        (HttpVersion::UNSUPPORTED, _) => None,
                        (_, HttpStatus::Invalid) => None,
                        _ => Some((ver, status)),
                    }
                },
            }
        },
    }
}

// ------------------------------------------------------------------
// Encoding
// ------------------------------------------------------------------
/// Encodes a request into its exact wire bytes. Unless the caller already
/// set a `content-length` header, one is written that counts the body
/// bytes.
pub fn encode_request(req: &HttpRequest) -> (out: Vec<u8>)
    requires
        req.version != HttpVersion::UNSUPPORTED,
    ensures
        out@ == spec_encode_request(req@),
{
    let mut out: Vec<u8> = Vec::new();
    let method = req.method.to_string();
    push_str(&mut out, method.as_str());
    out.push(SP);
    push_str(&mut out, req.path.as_str());
    out.push(SP);
    push_str(&mut out, req.version.string());
    out.push(CR);
    out.push(LF);
    req.headers.write_to(&mut out);
    push_auto_cl(&mut out, &req.headers, req.body.len());
    out.push(CR);
    out.push(LF);
    push_bytes(&mut out, req.body.as_slice());
    proof {
        assert(out@ =~= spec_encode_request(req@));
    }
    out
}

/// Encodes a response into its exact wire bytes, with the same automatic
/// `content-length` rule as for requests.
pub fn encode_response(resp: &HttpResponse) -> (out: Vec<u8>)
    requires
        resp.version != HttpVersion::UNSUPPORTED,
        resp.status != HttpStatus::Invalid,
    ensures
        out@ == spec_encode_response(resp@),
{
    let mut out: Vec<u8> = Vec::new();
    push_str(&mut out, resp.version.string());
    out.push(SP);
    push_dec(&mut out, resp.status.code() as usize);
    proof {
        assert(spec_status_code(resp.status) as nat == (spec_status_code(resp.status) as usize) as nat);
    }
    out.push(SP);
    push_str(&mut out, resp.status.string());
    out.push(CR);
    out.push(LF);
    resp.headers.write_to(&mut out);
    push_auto_cl(&mut out, &resp.headers, resp.body.len());
    out.push(CR);
    out.push(LF);
    push_bytes(&mut out, resp.body.as_slice());
    proof {
        assert(out@ =~= spec_encode_response(resp@));
    }
    out
}

/// Writes the automatic `content-length` line if the headers carry none.
fn push_auto_cl(out: &mut Vec<u8>, headers: &HttpHeaders, body_len: usize)
    ensures
        final(out)@ == old(out)@ + spec_auto_cl_bytes(headers@, body_len as nat),
{
    let key = String::from_str(cl_key_str());
    if !headers.contains_key(&key) {
        push_str(out, cl_key_str());
        out.push(crate::text::COLON);
        out.push(SP);
        push_dec(out, body_len);
        out.push(CR);
        out.push(LF);
        proof {
            assert(out@ =~= old(out)@ + spec_header_line(cl_key(), dec_chars(body_len as nat)));
        }
    }
}

// ------------------------------------------------------------------
// Decoding
// ------------------------------------------------------------------
/// Decodes a request from the front of `input`. `eof` says the peer will
/// send nothing more. The successful outcome carries the position just past
/// the decoded message.
pub fn decode_request(input: &[u8], eof: bool) -> (r: DecodeStep<HttpRequest>)
    ensures
        match spec_decode_request(input@, eof) {
            SpecStep::NeedMore => r is NeedMore,
            SpecStep::Fail(e) => r == DecodeStep::<HttpRequest>::Fail(e),
            SpecStep::Done(rv, next) => r matches DecodeStep::Done(req, n) && req@ == rv && n
                == next && req.headers.wf(),
        },
{
    let n = input.len();
    match take_line(input, 0) {
        TakenLine::More => {
            if eof {
                DecodeStep::Fail(HttpError::HttpSyntaxError)
            } else {
                DecodeStep::NeedMore
            }
        },
        TakenLine::Bad => DecodeStep::Fail(HttpError::HttpSyntaxError),
        TakenLine::Line(content, next) => {
            proof {
                crate::text::lemma_take_line_bounds(input@, 0);
            }
            match parse_request_line(content.as_slice()) {
                None => DecodeStep::Fail(HttpError::HttpSyntaxError),
                Some(t) => {
                    let (method, path, version) = t;
                    let mut headers = HttpHeaders::new();
                    match headers.read_from(input, next, eof) {
                        DecodeStep::NeedMore => DecodeStep::NeedMore,
                        DecodeStep::Fail(e) => DecodeStep::Fail(e),
                        DecodeStep::Done(_, hnext) => {
                            proof {
                                crate::headers::lemma_read_headers_bounds(
                                    Seq::empty(),
                                    input@,
                                    next as int,
                                    eof,
                                );
                            }
                            match headers.content_length() {
                                None => {
                                    let req = HttpRequest {
                                        method,
                                        path,
                                        version,
                                        headers,
                                        body: Vec::new(),
                                    };
                                    DecodeStep::Done(req, hnext)
                                },
                                Some(0) => {
                                    let req = HttpRequest {
                                        method,
                                        path,
                                        version,
                                        headers,
                                        body: Vec::new(),
                                    };
                                    DecodeStep::Done(req, hnext)
                                },
                                Some(v) => {
                                    if v <= n - hnext {
                                        let body = vstd::slice::slice_to_vec(
                                            vstd::slice::slice_subrange(input, hnext, hnext + v),
                                        );
                                        let req = HttpRequest {
                                            method,
                                            path,
                                            version,
                                            headers,
                                            body,
                                        };
                                        DecodeStep::Done(req, hnext + v)
                                    } else if eof {
                                        DecodeStep::Fail(HttpError::IOError)
                                    } else {
                                        DecodeStep::NeedMore
                                    }
                                },
                            }
                        },
                    }
                },
            }
        },
    }
}

/// Decodes a response from the front of `input`. With no `content-length`
/// set, the body is everything the peer sent before closing, so the decode
/// waits for `eof`.
pub fn decode_response(input: &[u8], eof: bool) -> (r: DecodeStep<HttpResponse>)
    ensures
        match spec_decode_response(input@, eof) {
            SpecStep::NeedMore => r is NeedMore,
            SpecStep::Fail(e) => r == DecodeStep::<HttpResponse>::Fail(e),
            SpecStep::Done(rv, next) => r matches DecodeStep::Done(resp, n) && resp@ == rv && n
                == next && resp.headers.wf(),
        },
{
    let n = input.len();
    match take_line(input, 0) {
        TakenLine::More => {
            if eof {
                DecodeStep::Fail(HttpError::HttpSyntaxError)
            } else {
                DecodeStep::NeedMore
            }
        },
        TakenLine::Bad => DecodeStep::Fail(HttpError::HttpSyntaxError),
        TakenLine::Line(content, next) => {
            proof {
                crate::text::lemma_take_line_bounds(input@, 0);
            }
            match parse_status_line(content.as_slice()) {
                None => DecodeStep::Fail(HttpError::HttpSyntaxError),
                Some(t) => {
                    let (version, status) = t;
                    let mut headers = HttpHeaders::new();
                    match headers.read_from(input, next, eof) {
                        DecodeStep::NeedMore => DecodeStep::NeedMore,
                        DecodeStep::Fail(e) => DecodeStep::Fail(e),
                        DecodeStep::Done(_, hnext) => {
                            proof {
                                crate::headers::lemma_read_headers_bounds(
                                    Seq::empty(),
                                    input@,
                                    next as int,
                                    eof,
                                );
                            }
                            match headers.content_length() {
                                None => {
                                    if eof {
                                        let body = vstd::slice::slice_to_vec(
                                            vstd::slice::slice_subrange(input, hnext, n),
                                        );
                                        let resp = HttpResponse { version, status, headers, body };
                                        DecodeStep::Done(resp, n)
                                    } else {
                                        DecodeStep::NeedMore
                                    }
                                },
                                Some(0) => {
                                    let resp = HttpResponse {
                                        version,
                                        status,
                                        headers,
                                        body: Vec::new(),
                                    };
                                    DecodeStep::Done(resp, hnext)
                                },
                                Some(v) => {
                                    if v <= n - hnext {
                                        let body = vstd::slice::slice_to_vec(
                                            vstd::slice::slice_subrange(input, hnext, hnext + v),
                                        );
                                        let resp = HttpResponse { version, status, headers, body };
                                        DecodeStep::Done(resp, hnext + v)
                                    } else if eof {
                                        DecodeStep::Fail(HttpError::IOError)
                                    } else {
                                        DecodeStep::NeedMore
                                    }
                                },
                            }
                        },
                    }
                },
            }
        },
    }
}

} // verus!
