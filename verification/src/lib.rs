//! A minimal HTTP/1.1 request parser and response serializer.
//!
//! The library parses a raw byte buffer into a structured request
//! (method, path, query parameters, with zero-copy string views into
//! the buffer), offers a pluggable handler contract, and serializes a
//! response into a byte sink.  All parsing and serialization logic is
//! verified against specification functions over character sequences.

pub mod laws;
pub mod request;
pub mod response;
pub mod server;

pub use request::get_next_word;
pub use request::Method;
pub use request::ParseError;
pub use request::QueryParam;
pub use request::QueryString;
pub use request::Request;
pub use request::UnknownMethodError;
pub use response::Response;
pub use response::StatusCode;
pub use server::Handler;
pub use server::Server;
