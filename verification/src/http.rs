//! Request parsing: text scanning, methods, query strings and requests, and
//! the responses that answer them.

pub mod method;
pub mod query_string;
pub mod request;
pub mod response;
pub mod status_code;
pub mod text;

pub use method::{Method, MethodError};
pub use query_string::{QueryString, Value};
pub use request::{ParseError, Request};
pub use response::Response;
pub use status_code::StatusCode;
