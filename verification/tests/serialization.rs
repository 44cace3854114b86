use http_server::Handler;
use http_server::ParseError;
use http_server::Request;
use http_server::Response;
use http_server::Server;
use http_server::StatusCode;

#[test]
fn response_with_body_serializes_exactly() {
    let res = Response::new(StatusCode::Okay, Some(String::from("hi")));
    let mut out: Vec<u8> = Vec::new();
    res.send(&mut out);
    assert_eq!(out, b"HTTP/1.1 200 Ok\r\n\r\nhi".to_vec());
}

#[test]
fn response_without_body_serializes_head_only() {
    let res = Response::new(StatusCode::NotFound, None);
    let mut out: Vec<u8> = Vec::new();
    res.send(&mut out);
    assert_eq!(out, b"HTTP/1.1 404 Not found\r\n\r\n".to_vec());
}

#[test]
fn response_appends_to_existing_sink() {
    let res = Response::new(StatusCode::Created, None);
    let mut out: Vec<u8> = b"x".to_vec();
    res.send(&mut out);
    assert_eq!(out, b"xHTTP/1.1 201 Created\r\n\r\n".to_vec());
}

#[test]
fn status_codes_and_reason_phrases() {
    assert_eq!(StatusCode::Okay.code(), 200);
    assert_eq!(StatusCode::Okay.reason_phrase(), "Ok");
    assert_eq!(StatusCode::Created.code(), 201);
    assert_eq!(StatusCode::PermanentlyMoved.code(), 301);
    assert_eq!(StatusCode::PermanentlyMoved.reason_phrase(), "Permanently moved");
    assert_eq!(StatusCode::NotModified.code(), 304);
    assert_eq!(StatusCode::BadRequest.code(), 400);
    assert_eq!(StatusCode::BadRequest.reason_phrase(), "Bad request");
    assert_eq!(StatusCode::Unauthorized.code(), 401);
    assert_eq!(StatusCode::Forbiden.code(), 403);
    assert_eq!(StatusCode::Forbiden.reason_phrase(), "Forbiden");
    assert_eq!(StatusCode::NotFound.code(), 404);
    assert_eq!(StatusCode::Conflict.code(), 409);
    assert_eq!(StatusCode::InternalServerError.code(), 500);
    assert_eq!(StatusCode::InternalServerError.reason_phrase(), "Internal server error");
    assert_eq!(StatusCode::NotImplemented.code(), 501);
    assert_eq!(StatusCode::NotImplemented.reason_phrase(), "Not implemented");
}

#[test]
fn internal_server_error_serializes_exactly() {
    let res = Response::new(StatusCode::InternalServerError, None);
    let mut out: Vec<u8> = Vec::new();
    res.send(&mut out);
    assert_eq!(out, b"HTTP/1.1 500 Internal server error\r\n\r\n".to_vec());
}

#[test]
fn server_stores_its_address() {
    let server = Server::new(String::from("127.0.0.1:8080"));
    assert_eq!(server.addr(), "127.0.0.1:8080");
}

struct EchoPathHandler;

impl Handler for EchoPathHandler {
    fn handle_request(&mut self, req: &Request<'_>) -> Response {
        Response::new(StatusCode::Okay, Some(String::from(req.path())))
    }
}

#[test]
fn handler_dispatch_produces_response() {
    let buf: &[u8] = b"GET /hello HTTP/1.1\r\n\r\n";
    let req = Request::try_from(buf).unwrap();
    let mut handler = EchoPathHandler;
    let res = handler.handle_request(&req);
    let mut out: Vec<u8> = Vec::new();
    res.send(&mut out);
    assert_eq!(out, b"HTTP/1.1 200 Ok\r\n\r\n/hello".to_vec());
}

#[test]
fn default_parse_error_fallback_is_bad_request() {
    let mut handler = EchoPathHandler;
    let res = handler.handle_parse_error(&ParseError::InvalidProtocol);
    let mut out: Vec<u8> = Vec::new();
    res.send(&mut out);
    assert_eq!(out, b"HTTP/1.1 400 Bad request\r\n\r\n".to_vec());
}

#[test]
fn non_ascii_body_serializes_as_utf8() {
    let res = Response::new(StatusCode::Okay, Some(String::from("h\u{e9}llo")));
    let mut out: Vec<u8> = Vec::new();
    res.send(&mut out);
    assert_eq!(out, "HTTP/1.1 200 Ok\r\n\r\nh\u{e9}llo".as_bytes().to_vec());
}
