use minihttp::codec::{decode_request, decode_response, encode_response};
use minihttp::common::{
    DecodeStep, HttpError, HttpRequest, HttpResponse, HttpStatus, HttpVersion, HttpMethod,
};
use minihttp::headers::HttpHeaders;
use minihttp::router::{FnHandler, Handler, Router};

fn ok_router() -> Router<FnHandler<impl Fn(&HttpRequest) -> Result<HttpResponse, HttpError>>> {
    let mut router = Router::new();
    let handler = FnHandler::new(|_req: &HttpRequest| {
        Ok(HttpResponse {
            version: HttpVersion::HTTP1_1,
            status: HttpStatus::OK,
            headers: HttpHeaders::new(),
            body: Vec::new(),
        })
    });
    router.add(HttpMethod::GET, String::from("/ok"), handler);
    router
}

// One full server-side exchange, without the socket: decode the bytes the
// client sent, dispatch, encode the answer.
fn serve(router: &impl Handler, wire: &[u8]) -> Vec<u8> {
    match decode_request(wire, false) {
        DecodeStep::Done(req, _) => {
            let resp = router.handle(&req).expect("handler failed");
            encode_response(&resp)
        },
        _ => panic!("request did not decode"),
    }
}

#[test]
fn exchange_ok_route_answers_exact_bytes() {
    let router = ok_router();
    let out = serve(&router, b"GET /ok HTTP/1.1\r\n\r\n");
    assert_eq!(b"HTTP/1.1 200 OK\r\ncontent-length: 0\r\n\r\n".to_vec(), out);
}

#[test]
fn exchange_missing_route_answers_notfound() {
    let router = ok_router();
    let out = serve(&router, b"GET /missing HTTP/1.1\r\n\r\n");
    match decode_response(&out, true) {
        DecodeStep::Done(resp, _) => {
            assert_eq!(HttpStatus::NotFound, resp.status);
            assert_eq!(HttpVersion::HTTP1_1, resp.version);
            assert!(resp.body.is_empty());
        },
        _ => panic!("response did not decode"),
    }
    assert_eq!(b"HTTP/1.1 404 Not Found\r\ncontent-length: 0\r\n\r\n".to_vec(), out);
}
