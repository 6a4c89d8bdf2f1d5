//! Status codes of responses.

use vstd::prelude::*;

verus! {

/// The status of a response.
#[derive(Clone, Copy, Debug, PartialEq, Eq, Structural)]
pub enum StatusCode {
    OK,
    BadRequest,
    NotFound,
}

impl StatusCode {
    /// The number of this status.
    pub open spec fn code_spec(self) -> u16 {
        match self {
            StatusCode::OK => 200,
            StatusCode::BadRequest => 400,
            StatusCode::NotFound => 404,
        }
    }

    /// The phrase that goes with this status.
    pub open spec fn reason_phrase_text(self) -> Seq<char> {
        match self {
            StatusCode::OK => "OK"@,
            StatusCode::BadRequest => "Bad Request"@,
            StatusCode::NotFound => "Not Found"@,
        }
    }

    /// Whether this status blames the client: a number from 400 to 499.
    pub open spec fn is_client_error(self) -> bool {
        400 <= self.code_spec() < 500
    }

    /// The number of this status.
    #[verifier::when_used_as_spec(code_spec)]
    pub fn code(self) -> (r: u16)
        ensures
            r == self.code_spec(),
    {
        match self {
            StatusCode::OK => 200,
            StatusCode::BadRequest => 400,
            StatusCode::NotFound => 404,
        }
    }

    /// The phrase that goes with this status.
    pub fn reason_phrase(&self) -> (r: &str)
        ensures
            r@ == self.reason_phrase_text(),
    {
        match self {
            StatusCode::OK => "OK",
            StatusCode::BadRequest => "Bad Request",
            StatusCode::NotFound => "Not Found",
        }
    }
}

} // verus!
