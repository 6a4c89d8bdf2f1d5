use http_server::http::request::{ParseError, Request};
use http_server::http::response::Response;
use http_server::http::status_code::StatusCode;
use http_server::server::{Handler, Server};
use std::convert::TryFrom;

struct Echo {
    seen: usize,
}

impl Handler for Echo {
    fn handle_request(&mut self, request: &Request) -> Response {
        self.seen += 1;
        Response::new(StatusCode::OK, Some(request.path().to_string()))
    }
}

struct Strict;

impl Handler for Strict {
    fn handle_request(&mut self, _request: &Request) -> Response {
        Response::new(StatusCode::NotFound, None)
    }

    fn handle_bad_request(&mut self, e: &ParseError) -> Response {
        Response::new(StatusCode::BadRequest, Some(e.message().to_string()))
    }
}

#[test]
fn server_keeps_its_address() {
    let server = Server::new(String::from("127.0.0.1:8080"));
    assert_eq!(server.address(), "127.0.0.1:8080");
    assert_eq!(Server::new(String::new()).address(), "");
}

#[test]
fn status_codes_have_numbers_and_phrases() {
    assert_eq!(StatusCode::OK.code(), 200);
    assert_eq!(StatusCode::BadRequest.code(), 400);
    assert_eq!(StatusCode::NotFound.code(), 404);
    assert_eq!(StatusCode::OK.reason_phrase(), "OK");
    assert_eq!(StatusCode::BadRequest.reason_phrase(), "Bad Request");
    assert_eq!(StatusCode::NotFound.reason_phrase(), "Not Found");
}

#[test]
fn response_keeps_status_and_body() {
    let response = Response::new(StatusCode::NotFound, Some(String::from("<h1>gone</h1>")));
    assert_eq!(response.status_code(), StatusCode::NotFound);
    assert_eq!(response.body(), "<h1>gone</h1>");
    let response = Response::new(StatusCode::OK, None);
    assert_eq!(response.status_code(), StatusCode::OK);
    assert_eq!(response.body(), "");
}

#[test]
fn default_bad_request_answer_is_a_bare_400() {
    let mut handler = Echo { seen: 0 };
    let response = handler.handle_bad_request(&ParseError::InvalidProtocol);
    assert_eq!(response.status_code(), StatusCode::BadRequest);
    assert_eq!(response.body(), "");
    assert_eq!(handler.seen, 0);
}

#[test]
fn handler_may_answer_bad_requests_itself() {
    let mut handler = Strict;
    let response = handler.handle_bad_request(&ParseError::InvalidMethod);
    assert_eq!(response.status_code(), StatusCode::BadRequest);
    assert_eq!(response.body(), "Invalid Method");
}

#[test]
fn decoded_request_reaches_the_handler() {
    let mut handler = Echo { seen: 0 };
    let buffer = b"GET /hello?x=1 HTTP/1.1\r\n\r\n".to_vec();
    let response = match Request::try_from(&buffer[..]) {
        Ok(request) => handler.handle_request(&request),
        Err(e) => handler.handle_bad_request(&e),
    };
    assert_eq!(response.status_code(), StatusCode::OK);
    assert_eq!(response.body(), "/hello");
    assert_eq!(handler.seen, 1);

    let response = match Request::try_from(&b"GET /hello"[..]) {
        Ok(request) => handler.handle_request(&request),
        Err(e) => handler.handle_bad_request(&e),
    };
    assert_eq!(response.status_code(), StatusCode::BadRequest);
    assert_eq!(handler.seen, 1);
}
