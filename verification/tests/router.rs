use minihttp::common::{HttpError, HttpMethod, HttpRequest, HttpResponse, HttpStatus, HttpVersion};
use minihttp::headers::HttpHeaders;
use minihttp::router::{FnHandler, Router};

fn empty_request(method: HttpMethod, path: &str) -> HttpRequest {
    HttpRequest {
        method,
        path: String::from(path),
        version: HttpVersion::HTTP1_1,
        headers: HttpHeaders::new(),
        body: Vec::new(),
    }
}

#[test]
fn test_router_add() {
    let mut router = Router::new();

    let handler = FnHandler::new(|_req: &HttpRequest| Err(HttpError::HttpSyntaxError));
    router.add(HttpMethod::GET, String::from("/"), handler);

    assert_eq!(1, router.rules.len());
    assert_eq!(HttpMethod::GET, router.rules[0].method);
    assert_eq!(String::from("/"), router.rules[0].path);
}

fn test_router_handle_setup() -> Router<
    FnHandler<impl Fn(&HttpRequest) -> Result<HttpResponse, HttpError>>,
> {
    let mut router = Router::new();

    let handler = FnHandler::new(|_req: &HttpRequest| {
        Ok(HttpResponse {
            version: HttpVersion::HTTP1_1,
            status: HttpStatus::OK,
            headers: HttpHeaders::new(),
            body: Vec::new(),
        })
    });
    router.add(HttpMethod::GET, String::from("/ok"), handler);

    router
}

#[test]
fn test_router_handle_ok() {
    let router = test_router_handle_setup();

    let req = empty_request(HttpMethod::GET, "/ok");
    let expected = HttpResponse {
        version: HttpVersion::HTTP1_1,
        status: HttpStatus::OK,
        headers: HttpHeaders::new(),
        body: Vec::new(),
    };

    let actual = router.handle(&req).unwrap();

    assert_eq!(expected.version, actual.version);
    assert_eq!(expected.status, actual.status);
    assert_eq!(expected.body, actual.body);
}

#[test]
fn test_router_handle_notfound() {
    let router = test_router_handle_setup();

    let req = empty_request(HttpMethod::GET, "/");
    let expected = HttpResponse {
        version: HttpVersion::HTTP1_1,
        status: HttpStatus::NotFound,
        headers: HttpHeaders::new(),
        body: Vec::new(),
    };

    let actual = router.handle(&req).unwrap();

    assert_eq!(expected.version, actual.version);
    assert_eq!(expected.status, actual.status);
    assert_eq!(expected.body, actual.body);
}

#[test]
fn router_wrong_method_is_notfound() {
    let router = test_router_handle_setup();

    let req = empty_request(HttpMethod::POST, "/ok");
    let actual = router.handle(&req).unwrap();

    assert_eq!(HttpStatus::NotFound, actual.status);
    assert_eq!(HttpVersion::HTTP1_1, actual.version);
    assert_eq!(0, actual.headers.len());
    assert!(actual.body.is_empty());
}

#[test]
fn router_notfound_keeps_request_version() {
    let router = test_router_handle_setup();

    let req = HttpRequest {
        method: HttpMethod::GET,
        path: String::from("/missing"),
        version: HttpVersion::HTTP1_0,
        headers: HttpHeaders::new(),
        body: Vec::new(),
    };
    let actual = router.handle(&req).unwrap();

    assert_eq!(HttpStatus::NotFound, actual.status);
    assert_eq!(HttpVersion::HTTP1_0, actual.version);
}

type PlainHandler = fn(&HttpRequest) -> Result<HttpResponse, HttpError>;

fn first_handler(_req: &HttpRequest) -> Result<HttpResponse, HttpError> {
    Ok(HttpResponse {
        version: HttpVersion::HTTP1_1,
        status: HttpStatus::OK,
        headers: HttpHeaders::new(),
        body: b"first".to_vec(),
    })
}

fn second_handler(_req: &HttpRequest) -> Result<HttpResponse, HttpError> {
    Ok(HttpResponse {
        version: HttpVersion::HTTP1_1,
        status: HttpStatus::OK,
        headers: HttpHeaders::new(),
        body: b"second".to_vec(),
    })
}

#[test]
fn router_first_matching_rule_wins() {
    let mut router: Router<FnHandler<PlainHandler>> = Router::new();
    router.add(HttpMethod::GET, String::from("/dup"), FnHandler::new(first_handler as PlainHandler));
    router.add(
        HttpMethod::GET,
        String::from("/dup"),
        FnHandler::new(second_handler as PlainHandler),
    );

    let req = empty_request(HttpMethod::GET, "/dup");
    let actual = router.handle(&req).unwrap();
    assert_eq!(b"first".to_vec(), actual.body);
}

#[test]
fn router_handler_error_propagates() {
    let mut router = Router::new();
    let failing = FnHandler::new(|_req: &HttpRequest| Err(HttpError::HttpSyntaxError));
    router.add(HttpMethod::GET, String::from("/fail"), failing);

    let req = empty_request(HttpMethod::GET, "/fail");
    let actual = router.handle(&req);
    assert!(matches!(actual, Err(HttpError::HttpSyntaxError)));
}
