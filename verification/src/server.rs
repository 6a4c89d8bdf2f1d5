//! The server's address and the interface of its handlers.

use vstd::prelude::*;
use crate::http::request::{ParseError, Request};
use crate::http::response::Response;
use crate::http::status_code::StatusCode;

verus! {

/// What answers requests. A server hands each decoded request to
/// `handle_request`, and each buffer that does not decode to
/// `handle_bad_request`, with the reason.
pub trait Handler {
    /// Answers a request.
    fn handle_request(&mut self, request: &Request) -> Response;

    /// Answers a buffer that held no request. Unless an implementation
    /// decides otherwise, the answer is a bare `400 Bad Request`.
    fn handle_bad_request(&mut self, e: &ParseError) -> (r: Response)
        default_ensures
            r@.status_code == StatusCode::BadRequest,
            r@.status_code.is_client_error(),
            r@.body is None,
    {
        Response::new(StatusCode::BadRequest, None)
    }
}

/// A server, known by the address it listens on.
#[derive(Debug)]
pub struct Server {
    address: String,
}

impl Server {
    /// The address that the server was made with.
    pub closed spec fn address_text(&self) -> Seq<char> {
        self.address@
    }

    /// A server for the address `addr`.
    pub fn new(addr: String) -> (r: Self)
        ensures
            r.address_text() == addr@,
    {
        Server { address: addr }
    }

    /// The address to listen on.
    pub fn address(&self) -> (r: &str)
        ensures
            r@ == self.address_text(),
    {
        self.address.as_str()
    }
}

} // verus!
