//! Responses: what a handler answers a request with.

use vstd::prelude::*;
use crate::http::status_code::StatusCode;

verus! {

/// A response as plain values.
pub ghost struct ResponseView {
    /// The status.
    pub status_code: StatusCode,
    /// The body, where there is one.
    pub body: Option<Seq<char>>,
}

/// A response: a status and, optionally, a body.
#[derive(Debug)]
pub struct Response {
    status_code: StatusCode,
    body: Option<String>,
}

impl View for Response {
    type V = ResponseView;

    closed spec fn view(&self) -> ResponseView {
        ResponseView {
            status_code: self.status_code,
            body: match self.body {
                Some(text) => Some(text@),
                None => None,
            },
        }
    }
}

impl Response {
    /// A response with the given status and body.
    pub fn new(status_code: StatusCode, body: Option<String>) -> (r: Self)
        ensures
            r@.status_code == status_code,
            r@.body == match body {
                Some(text) => Some(text@),
                None => None,
            },
    {
        Response { status_code, body }
    }

    /// The status.
    pub fn status_code(&self) -> (r: StatusCode)
        ensures
            r == self@.status_code,
    {
        self.status_code
    }

    /// The body, or the empty string where there is none.
    pub fn body(&self) -> (r: &str)
        ensures
            r@ == match self@.body {
                Some(text) => text,
                None => Seq::<char>::empty(),
            },
    {
        match &self.body {
            Some(text) => text.as_str(),
            None => {
                proof {
                    reveal_strlit("");
                    assert(""@ =~= Seq::<char>::empty());
                }
                ""
            },
        }
    }
}

} // verus!
