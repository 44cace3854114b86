//! The handler contract and the server's configuration.
//!
//! The connection loop itself performs blocking network I/O and lives
//! outside the library; it feeds each connection's bytes through
//! `Request::try_from`, dispatches through a `Handler`, and writes the
//! bytes `Response::send` produced back onto the wire.

use crate::request::ParseError;
use crate::request::Request;
use crate::response::Response;
use crate::response::StatusCode;
use vstd::prelude::*;

verus! {

/// The pluggable request-handling capability the connection loop
/// consumes: a handler turns a parsed request into a response, and a
/// parse failure into a fallback response (by default an empty
/// `400 Bad request`).
pub trait Handler {
    /// The normal path: a response for a parsed request.
    fn handle_request(&mut self, req: &Request<'_>) -> Response;

    /// The fallback path: a response for a buffer that failed to parse.
    /// By default, whatever the failure was: status 400 with no body,
    /// so no diagnostic detail reaches the client.
    fn handle_parse_error(&mut self, err: &ParseError) -> (r: Response)
        default_ensures
            r.status_code == StatusCode::BadRequest,
            r.body is None,
    {
        Response::new(StatusCode::BadRequest, None)
    }
}

/// The server's configuration: the single address it listens on.
pub struct Server {
    pub addr: String,
}

impl Server {
    /// A server configured to listen at the given address.
    pub fn new(addr: String) -> (r: Server)
        ensures
            r.addr == addr,
    {
        Server { addr }
    }

    /// The configured listening address.
    pub fn addr(&self) -> (r: &str)
        ensures
            r@ == self.addr@,
    {
        self.addr.as_str()
    }
}

} // verus!
