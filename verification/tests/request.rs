use http_server::http::method::{Method, MethodError};
use http_server::http::query_string::Value;
use http_server::http::request::{get_next_word, ParseError, Request};
use std::convert::TryFrom;

fn decode(text: &str) -> Result<Request<'_>, ParseError> {
    Request::try_from(text.as_bytes())
}

fn error_of(text: &str) -> ParseError {
    match decode(text) {
        Ok(request) => panic!("{:?} was decoded", request),
        Err(e) => e,
    }
}

#[test]
fn tokenizer_yields_the_three_words_in_sequence() {
    let line = "GET /a HTTP/1.1\r\nHost: example\r\n\r\n";
    let (method, rest) = get_next_word(line).unwrap();
    assert_eq!(method, "GET");
    let (target, rest) = get_next_word(rest).unwrap();
    assert_eq!(target, "/a");
    let (protocol, rest) = get_next_word(rest).unwrap();
    assert_eq!(protocol, "HTTP/1.1");
    assert_eq!(rest, "\nHost: example\r\n\r\n");
}

#[test]
fn tokenizer_stops_at_space_or_carriage_return() {
    assert_eq!(get_next_word("ab cd"), Some(("ab", "cd")));
    assert_eq!(get_next_word("ab\rcd"), Some(("ab", "cd")));
    assert_eq!(get_next_word(" ab"), Some(("", "ab")));
    assert_eq!(get_next_word("ab "), Some(("ab", "")));
    assert_eq!(get_next_word("ab\ncd\tef"), None);
    assert_eq!(get_next_word("abc"), None);
    assert_eq!(get_next_word(""), None);
}

#[test]
fn tokenizer_splits_after_text_beyond_ascii() {
    assert_eq!(get_next_word("/café menu"), Some(("/café", "menu")));
    assert_eq!(get_next_word("日本語\rx"), Some(("日本語", "x")));
}

#[test]
fn request_line_decodes() {
    let request = decode("GET /a HTTP/1.1\r\nHost: example\r\n\r\n").unwrap();
    assert_eq!(request.method(), &Method::GET);
    assert_eq!(request.path(), "/a");
    assert!(request.query_string().is_none());
}

#[test]
fn what_follows_the_protocol_is_ignored() {
    let request = decode("POST /submit HTTP/1.1 anything at all, even \u{0}").unwrap();
    assert_eq!(request.method(), &Method::POST);
    assert_eq!(request.path(), "/submit");
    let request = decode("DELETE /x HTTP/1.1\r").unwrap();
    assert_eq!(request.method(), &Method::DELETE);
}

#[test]
fn target_splits_at_its_first_question_mark() {
    let request = decode("GET /search?name=abc&sort=1 HTTP/1.1\r\n").unwrap();
    assert_eq!(request.path(), "/search");
    let query = request.query_string().unwrap();
    assert!(matches!(query.get("name"), Some(Value::Single("abc"))));
    assert!(matches!(query.get("sort"), Some(Value::Single("1"))));
    assert!(query.get("other").is_none());

    let request = decode("GET /a?b?c=d?e HTTP/1.1\r\n").unwrap();
    assert_eq!(request.path(), "/a");
    let query = request.query_string().unwrap();
    assert!(matches!(query.get("b?c"), Some(Value::Single("d?e"))));
}

#[test]
fn target_ending_in_question_mark_has_an_empty_query() {
    let request = decode("GET /a? HTTP/1.1\r\n").unwrap();
    assert_eq!(request.path(), "/a");
    let query = request.query_string().unwrap();
    assert!(matches!(query.get(""), Some(Value::Single(""))));
}

#[test]
fn target_without_question_mark_has_no_query() {
    let request = decode("HEAD /a/b=c&d HTTP/1.1\r\n").unwrap();
    assert_eq!(request.path(), "/a/b=c&d");
    assert!(request.query_string().is_none());
    let request = decode("GET  HTTP/1.1 ").unwrap();
    assert_eq!(request.path(), "");
    assert!(request.query_string().is_none());
}

#[test]
fn repeated_query_keys_reach_the_request() {
    let request = decode("GET /p?d=&d=7&d=abc HTTP/1.1\r\n").unwrap();
    match request.query_string().unwrap().get("d") {
        Some(Value::Multiple(values)) => assert_eq!(values, &vec!["", "7", "abc"]),
        other => panic!("{:?}", other),
    }
}

#[test]
fn other_protocol_is_invalid_protocol() {
    assert_eq!(error_of("GET /a HTTP/1.0\r\n"), ParseError::InvalidProtocol);
    assert_eq!(error_of("GET /a HTTP/2\r\n"), ParseError::InvalidProtocol);
    assert_eq!(error_of("GET /a http/1.1\r\n"), ParseError::InvalidProtocol);
    assert_eq!(error_of("GET /a HTTP/1.1\n\r\n"), ParseError::InvalidProtocol);
    assert_eq!(error_of("GET /a  HTTP/1.1\r\n"), ParseError::InvalidProtocol);
}

#[test]
fn protocol_is_checked_before_the_method() {
    assert_eq!(error_of("FETCH /a HTTP/1.0\r\n"), ParseError::InvalidProtocol);
}

#[test]
fn unterminated_protocol_is_invalid_request() {
    assert_eq!(error_of("GET /a HTTP/1.1"), ParseError::InvalidRequest);
    assert_eq!(error_of("GET /a HTTP/1.0"), ParseError::InvalidRequest);
    assert_eq!(error_of("GET /a HTTP/1.1\n"), ParseError::InvalidRequest);
}

#[test]
fn missing_words_are_invalid_request() {
    assert_eq!(error_of(""), ParseError::InvalidRequest);
    assert_eq!(error_of("GET"), ParseError::InvalidRequest);
    assert_eq!(error_of("GET "), ParseError::InvalidRequest);
    assert_eq!(error_of("GET /a"), ParseError::InvalidRequest);
    assert_eq!(error_of("GET /a\r"), ParseError::InvalidRequest);
}

#[test]
fn unknown_method_is_invalid_method() {
    assert_eq!(error_of("FETCH /a HTTP/1.1\r\n"), ParseError::InvalidMethod);
    assert_eq!(error_of("get /a HTTP/1.1\r\n"), ParseError::InvalidMethod);
    assert_eq!(error_of(" /a HTTP/1.1\r\n"), ParseError::InvalidMethod);
}

#[test]
fn bytes_that_are_not_utf8_are_invalid_encoding() {
    let bad: [&[u8]; 5] = [
        b"GET /\xff HTTP/1.1\r\n",
        b"GET /a HTTP/1.1\r\n\x80",
        b"\xc0\x80",
        b"GET /\xed\xa0\x80 HTTP/1.1\r\n",
        b"GET /\xe2\x82 HTTP/1.1\r\n",
    ];
    for buf in bad {
        match Request::try_from(buf) {
            Err(e) => assert_eq!(e, ParseError::InvalidEncoding),
            Ok(request) => panic!("{:?} was decoded", request),
        }
    }
}

#[test]
fn encoding_is_checked_over_the_whole_buffer_first() {
    match Request::try_from(&b"FETCH /a HTTP/1.0\r\n\xfe"[..]) {
        Err(e) => assert_eq!(e, ParseError::InvalidEncoding),
        Ok(request) => panic!("{:?} was decoded", request),
    }
}

#[test]
fn zero_padded_buffer_decodes() {
    let mut buffer = [0u8; 1024];
    let line = b"GET /index.html?lang=en HTTP/1.1\r\nHost: x\r\n\r\n";
    buffer[..line.len()].copy_from_slice(line);
    let request = Request::try_from(&buffer[..]).unwrap();
    assert_eq!(request.method(), &Method::GET);
    assert_eq!(request.path(), "/index.html");
    assert!(matches!(
        request.query_string().unwrap().get("lang"),
        Some(Value::Single("en"))
    ));
}

#[test]
fn text_beyond_ascii_decodes() {
    let request = decode("PUT /café/日本?naïve=😀&naïve=ß HTTP/1.1\r\n").unwrap();
    assert_eq!(request.method(), &Method::PUT);
    assert_eq!(request.path(), "/café/日本");
    match request.query_string().unwrap().get("naïve") {
        Some(Value::Multiple(values)) => assert_eq!(values, &vec!["😀", "ß"]),
        other => panic!("{:?}", other),
    }
}

#[test]
fn slices_are_borrowed_from_the_buffer() {
    let buffer = b"GET /path?k=v HTTP/1.1\r\n".to_vec();
    let request = Request::try_from(&buffer[..]).unwrap();
    assert_eq!(request.path().as_ptr(), buffer[4..].as_ptr());
    match request.query_string().unwrap().get("k") {
        Some(Value::Single(value)) => assert_eq!(value.as_ptr(), buffer[12..].as_ptr()),
        other => panic!("{:?}", other),
    }
}

#[test]
fn decoding_twice_gives_equal_requests() {
    let buffer = b"GET /search?name=abc&sort=1&name=x HTTP/1.1\r\n".to_vec();
    let first = Request::try_from(&buffer[..]).unwrap();
    let second = Request::try_from(&buffer[..]).unwrap();
    assert_eq!(first.path(), second.path());
    assert_eq!(first.method(), second.method());
    assert_eq!(format!("{:?}", first), format!("{:?}", second));
    let bad = b"GET /a HTTP/1.0\r\n".to_vec();
    assert_eq!(
        Request::try_from(&bad[..]).unwrap_err(),
        Request::try_from(&bad[..]).unwrap_err()
    );
}

#[test]
fn every_error_has_its_message() {
    assert_eq!(ParseError::InvalidRequest.message(), "Invalid Request");
    assert_eq!(ParseError::InvalidEncoding.message(), "Invalid Encoding");
    assert_eq!(ParseError::InvalidProtocol.message(), "Invalid Protocol");
    assert_eq!(ParseError::InvalidMethod.message(), "Invalid Method");
}

#[test]
fn outside_errors_convert() {
    assert_eq!(ParseError::from(MethodError), ParseError::InvalidMethod);
    let e = std::str::from_utf8(b"\xff").unwrap_err();
    assert_eq!(ParseError::from(e), ParseError::InvalidEncoding);
}
