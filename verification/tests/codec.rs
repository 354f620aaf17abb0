use minihttp::codec::{decode_request, decode_response, encode_request, encode_response};
use minihttp::common::{
    DecodeStep, HttpError, HttpMethod, HttpRequest, HttpResponse, HttpStatus, HttpVersion,
};
use minihttp::headers::HttpHeaders;

fn request(method: HttpMethod, path: &str, version: HttpVersion, body: &[u8]) -> HttpRequest {
    HttpRequest {
        method,
        path: String::from(path),
        version,
        headers: HttpHeaders::new(),
        body: body.to_vec(),
    }
}

#[test]
fn encode_request_exact_bytes() {
    let req = request(HttpMethod::GET, "/index", HttpVersion::HTTP1_1, b"");
    let out = encode_request(&req);
    assert_eq!(b"GET /index HTTP/1.1\r\ncontent-length: 0\r\n\r\n".to_vec(), out);
}

#[test]
fn encode_request_with_body_counts_it() {
    let req = request(HttpMethod::POST, "/submit", HttpVersion::HTTP1_0, b"hello");
    let out = encode_request(&req);
    assert_eq!(b"POST /submit HTTP/1.0\r\ncontent-length: 5\r\n\r\nhello".to_vec(), out);
}

#[test]
fn encode_request_keeps_explicit_content_length() {
    let mut req = request(HttpMethod::GET, "/", HttpVersion::HTTP1_1, b"");
    req.headers.insert("Content-Length", String::from("0"));
    let out = encode_request(&req);
    assert_eq!(b"GET / HTTP/1.1\r\ncontent-length: 0\r\n\r\n".to_vec(), out);
}

#[test]
fn encode_response_exact_bytes() {
    let resp = HttpResponse {
        version: HttpVersion::HTTP1_1,
        status: HttpStatus::NotFound,
        headers: HttpHeaders::new(),
        body: Vec::new(),
    };
    let out = encode_response(&resp);
    assert_eq!(b"HTTP/1.1 404 Not Found\r\ncontent-length: 0\r\n\r\n".to_vec(), out);
}

#[test]
fn request_round_trips_through_codec() {
    let mut req = request(HttpMethod::POST, "/things", HttpVersion::HTTP1_1, b"payload");
    req.headers.insert("X-Tag", String::from("abc"));
    let bytes = encode_request(&req);

    match decode_request(&bytes, false) {
        DecodeStep::Done(back, used) => {
            assert_eq!(bytes.len(), used);
            assert_eq!(HttpMethod::POST, back.method);
            assert_eq!(String::from("/things"), back.path);
            assert_eq!(HttpVersion::HTTP1_1, back.version);
            assert_eq!(b"payload".to_vec(), back.body);
            assert_eq!(Some(&String::from("abc")), back.headers.get("x-tag"));
            assert_eq!(Some(7), back.headers.content_length());
            assert_eq!(2, back.headers.len());
        },
        _ => panic!("expected a complete request"),
    }
}

#[test]
fn decode_request_reads_exact_body() {
    let bytes = b"POST /a HTTP/1.1\r\ncontent-length: 3\r\n\r\nabcEXTRA";
    match decode_request(bytes, false) {
        DecodeStep::Done(req, used) => {
            assert_eq!(b"abc".to_vec(), req.body);
            assert_eq!(bytes.len() - 5, used);
        },
        _ => panic!("expected a complete request"),
    }
}

#[test]
fn decode_request_without_length_has_empty_body() {
    // No content-length: the server must not wait for more bytes.
    let bytes = b"GET /x HTTP/1.1\r\n\r\n";
    match decode_request(bytes, false) {
        DecodeStep::Done(req, used) => {
            assert!(req.body.is_empty());
            assert_eq!(bytes.len(), used);
        },
        _ => panic!("expected a complete request"),
    }
}

#[test]
fn decode_request_short_body_waits_then_fails() {
    let bytes = b"POST /a HTTP/1.1\r\ncontent-length: 9\r\n\r\nabc";
    assert!(matches!(decode_request(bytes, false), DecodeStep::NeedMore));
    assert!(matches!(decode_request(bytes, true), DecodeStep::Fail(HttpError::IOError)));
}

#[test]
fn decode_request_two_tokens_is_syntax_error() {
    let bytes = b"GET /\r\n\r\n";
    assert!(matches!(
        decode_request(bytes, true),
        DecodeStep::Fail(HttpError::HttpSyntaxError)
    ));
}

#[test]
fn decode_request_unknown_method_is_syntax_error() {
    let bytes = b"PUT / HTTP/1.1\r\n\r\n";
    assert!(matches!(
        decode_request(bytes, true),
        DecodeStep::Fail(HttpError::HttpSyntaxError)
    ));
}

#[test]
fn decode_request_bad_version_is_syntax_error() {
    let bytes = b"GET / FOO\r\n\r\n";
    assert!(matches!(
        decode_request(bytes, true),
        DecodeStep::Fail(HttpError::HttpSyntaxError)
    ));
}

#[test]
fn decode_request_empty_stream_is_syntax_error() {
    assert!(matches!(decode_request(b"", false), DecodeStep::NeedMore));
    assert!(matches!(decode_request(b"", true), DecodeStep::Fail(HttpError::HttpSyntaxError)));
}

#[test]
fn decode_request_header_without_colon_is_syntax_error() {
    let bytes = b"GET / HTTP/1.1\r\nbadline\r\n\r\n";
    assert!(matches!(
        decode_request(bytes, true),
        DecodeStep::Fail(HttpError::HttpSyntaxError)
    ));
}

#[test]
fn decode_request_unterminated_headers_fail_at_eof() {
    let bytes = b"GET / HTTP/1.1\r\nx: y\r\n";
    assert!(matches!(decode_request(bytes, false), DecodeStep::NeedMore));
    assert!(matches!(
        decode_request(bytes, true),
        DecodeStep::Fail(HttpError::HttpSyntaxError)
    ));
}

#[test]
fn decode_request_unusable_length_reads_as_absent() {
    let bytes = b"POST / HTTP/1.1\r\ncontent-length: 99999999999999999999999\r\n\r\n";
    match decode_request(bytes, false) {
        DecodeStep::Done(req, _) => {
            assert!(req.body.is_empty());
            assert_eq!(None, req.headers.content_length());
        },
        _ => panic!("expected a complete request"),
    }
}

#[test]
fn decode_response_zero_length_consumes_nothing_more() {
    let head = b"HTTP/1.1 200 OK\r\ncontent-length: 0\r\n\r\n";
    let mut bytes = head.to_vec();
    bytes.extend_from_slice(b"EXTRA");
    match decode_response(&bytes, false) {
        DecodeStep::Done(resp, used) => {
            assert!(resp.body.is_empty());
            assert_eq!(head.len(), used);
        },
        _ => panic!("expected a complete response"),
    }
}

#[test]
fn decode_response_without_length_reads_to_end() {
    let bytes = b"HTTP/1.0 200 OK\r\n\r\neverything left";
    assert!(matches!(decode_response(bytes, false), DecodeStep::NeedMore));
    match decode_response(bytes, true) {
        DecodeStep::Done(resp, used) => {
            assert_eq!(b"everything left".to_vec(), resp.body);
            assert_eq!(bytes.len(), used);
            assert_eq!(HttpVersion::HTTP1_0, resp.version);
            assert_eq!(HttpStatus::OK, resp.status);
        },
        _ => panic!("expected a complete response"),
    }
}

#[test]
fn decode_response_status_line_needs_reason_token() {
    let bytes = b"HTTP/1.1 200\r\n\r\n";
    assert!(matches!(
        decode_response(bytes, true),
        DecodeStep::Fail(HttpError::HttpSyntaxError)
    ));
}

#[test]
fn decode_response_invalid_status_is_syntax_error() {
    let bytes = b"HTTP/1.1 500 Oops\r\n\r\n";
    assert!(matches!(
        decode_response(bytes, true),
        DecodeStep::Fail(HttpError::HttpSyntaxError)
    ));
}

#[test]
fn decode_response_short_body_is_io_error_at_eof() {
    let bytes = b"HTTP/1.1 200 OK\r\ncontent-length: 5\r\n\r\nab";
    assert!(matches!(decode_response(bytes, false), DecodeStep::NeedMore));
    assert!(matches!(decode_response(bytes, true), DecodeStep::Fail(HttpError::IOError)));
}

#[test]
fn decode_request_lowercases_header_names() {
    let bytes = b"GET / HTTP/1.1\r\nX-Mixed-Case: Value\r\n\r\n";
    match decode_request(bytes, true) {
        DecodeStep::Done(req, _) => {
            assert_eq!(Some(&String::from("Value")), req.headers.get("x-mixed-case"));
            assert_eq!(Some(&String::from("Value")), req.headers.get("X-MIXED-CASE"));
        },
        _ => panic!("expected a complete request"),
    }
}

#[test]
fn decode_request_trims_leading_value_whitespace() {
    let bytes = b"GET / HTTP/1.1\r\nk:   \tspaced\r\n\r\n";
    match decode_request(bytes, true) {
        DecodeStep::Done(req, _) => {
            assert_eq!(Some(&String::from("spaced")), req.headers.get("k"));
        },
        _ => panic!("expected a complete request"),
    }
}

#[test]
fn response_round_trips_through_codec() {
    let mut resp = HttpResponse {
        version: HttpVersion::HTTP1_0,
        status: HttpStatus::OK,
        headers: HttpHeaders::new(),
        body: b"abc".to_vec(),
    };
    resp.headers.insert("Server", String::from("minihttp"));
    let bytes = encode_response(&resp);

    match decode_response(&bytes, false) {
        DecodeStep::Done(back, used) => {
            assert_eq!(bytes.len(), used);
            assert_eq!(HttpVersion::HTTP1_0, back.version);
            assert_eq!(HttpStatus::OK, back.status);
            assert_eq!(b"abc".to_vec(), back.body);
            assert_eq!(Some(&String::from("minihttp")), back.headers.get("server"));
            assert_eq!(Some(3), back.headers.content_length());
        },
        _ => panic!("expected a complete response"),
    }
}

#[test]
fn decode_request_carries_utf8_text() {
    let bytes = b"GET /caf\xc3\xa9 HTTP/1.1\r\nx: na\xc3\xafve\r\n\r\n";
    match decode_request(bytes, true) {
        DecodeStep::Done(req, _) => {
            assert_eq!(String::from("/caf\u{e9}"), req.path);
            assert_eq!(Some(&String::from("na\u{ef}ve")), req.headers.get("x"));
        },
        _ => panic!("expected a complete request"),
    }
}

#[test]
fn decode_request_invalid_utf8_is_syntax_error() {
    let bytes = b"GET /\xff HTTP/1.1\r\n\r\n";
    assert!(matches!(
        decode_request(bytes, true),
        DecodeStep::Fail(HttpError::HttpSyntaxError)
    ));
}

#[test]
fn tokens_parse_back() {
    assert_eq!(HttpVersion::HTTP1_0, HttpVersion::from_token("HTTP/1.0"));
    assert_eq!(HttpVersion::HTTP1_1, HttpVersion::from_token("HTTP/1.1"));
    assert_eq!(HttpVersion::UNSUPPORTED, HttpVersion::from_token("FOO"));
    assert_eq!(HttpStatus::OK, HttpStatus::from_code(200));
    assert_eq!(HttpStatus::NotFound, HttpStatus::from_code(404));
    assert_eq!(HttpStatus::Invalid, HttpStatus::from_code(500));
    assert_eq!(HttpStatus::OK, HttpStatus::from_token("200"));
    assert_eq!(HttpStatus::NotFound, HttpStatus::from_token("404"));
    assert_eq!(HttpStatus::Invalid, HttpStatus::from_token("999"));
}

#[test]
fn token_strings_are_exact() {
    assert_eq!(String::from("GET"), HttpMethod::GET.to_string());
    assert_eq!(String::from("POST"), HttpMethod::POST.to_string());
    assert_eq!("HTTP/1.0", HttpVersion::HTTP1_0.string());
    assert_eq!("HTTP/1.1", HttpVersion::HTTP1_1.string());
    assert_eq!("UNSUPPORTED", HttpVersion::UNSUPPORTED.string());
    assert_eq!(200, HttpStatus::OK.code());
    assert_eq!(404, HttpStatus::NotFound.code());
    assert_eq!(0, HttpStatus::Invalid.code());
    assert_eq!("OK", HttpStatus::OK.string());
    assert_eq!("Not Found", HttpStatus::NotFound.string());
    assert_eq!("", HttpStatus::Invalid.string());
}
