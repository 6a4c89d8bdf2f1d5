use http_server::http::method::{Method, MethodError};
use std::str::FromStr;

#[test]
fn every_method_is_named_by_its_token() {
    assert_eq!(Method::from_str("GET"), Ok(Method::GET));
    assert_eq!(Method::from_str("DELETE"), Ok(Method::DELETE));
    assert_eq!(Method::from_str("POST"), Ok(Method::POST));
    assert_eq!(Method::from_str("PUT"), Ok(Method::PUT));
    assert_eq!(Method::from_str("HEAD"), Ok(Method::HEAD));
    assert_eq!(Method::from_str("CONNECT"), Ok(Method::CONNECT));
    assert_eq!(Method::from_str("OPTIONS"), Ok(Method::OPTIONS));
    assert_eq!(Method::from_str("TRACE"), Ok(Method::TRACE));
    assert_eq!(Method::from_str("PATCH"), Ok(Method::PATCH));
}

#[test]
fn method_tokens_are_case_sensitive_and_exact() {
    assert_eq!(Method::from_str("get"), Err(MethodError));
    assert_eq!(Method::from_str("Get"), Err(MethodError));
    assert_eq!(Method::from_str("GET "), Err(MethodError));
    assert_eq!(Method::from_str(" GET"), Err(MethodError));
    assert_eq!(Method::from_str("GE"), Err(MethodError));
    assert_eq!(Method::from_str("GETS"), Err(MethodError));
    assert_eq!(Method::from_str(""), Err(MethodError));
    assert_eq!(Method::from_str("FETCH"), Err(MethodError));
}

#[test]
fn parse_resolves_methods() {
    assert_eq!("PATCH".parse::<Method>(), Ok(Method::PATCH));
    assert_eq!("patch".parse::<Method>(), Err(MethodError));
}
