//! A minimal HTTP/1.1 request-line parser and response writer.
//!
//! A buffer read from a connection is turned into a [`Request`]: a method,
//! a path and the parameters of the query string, all borrowed from the
//! buffer. A [`Response`] is turned into the bytes that go back. What lies
//! between, deciding on a response, is up to a [`Handler`].

pub mod method;
pub mod query;
pub mod request;
pub mod response;
pub mod server;
pub mod text;

pub use method::{HTTPMethod, MethodError};
pub use query::{QueryString, Value};
pub use request::{Request, RequestError};
pub use response::{Response, StatusCode};
pub use server::{Handler, HttpHandler, Plan, Server};
pub use text::next_word;
