//! A minimal HTTP/1.1 request parser: a request line is decoded from a byte
//! buffer into borrowed slices, with every result stated over the characters
//! of the input. Beside it stand the responses and the interface between a
//! server and the handlers that answer its requests.

pub mod http;
pub mod server;

pub use server::{Handler, Server};
