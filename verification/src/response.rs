//! The response side: status codes with fixed reason phrases, and the
//! serialization of a response onto a byte sink.
//!
//! A response owns its body, since it is constructed fresh per request
//! and may outlive the input buffer.  Serialization writes exactly
//! `HTTP/1.1 <code> <reason-phrase>\r\n\r\n<body-or-empty>`, with no
//! further headers.

use vstd::prelude::*;
use vstd::string::StringExecFns;
use vstd::string::StringSliceAdditionalSpecFns;

verus! {

/// The closed set of status codes a response can carry, each with a
/// fixed numeric code and reason phrase.
#[derive(Clone, Copy, Debug, PartialEq, Eq, Structural)]
pub enum StatusCode {
    Okay,
    Created,
    PermanentlyMoved,
    NotModified,
    BadRequest,
    Unauthorized,
    Forbiden,
    NotFound,
    Conflict,
    InternalServerError,
    NotImplemented,
}

/// The numeric value of each status code.
pub open spec fn spec_code(sc: StatusCode) -> u16 {
    match sc {
        StatusCode::Okay => 200,
        StatusCode::Created => 201,
        StatusCode::PermanentlyMoved => 301,
        StatusCode::NotModified => 304,
        StatusCode::BadRequest => 400,
        StatusCode::Unauthorized => 401,
        StatusCode::Forbiden => 403,
        StatusCode::NotFound => 404,
        StatusCode::Conflict => 409,
        StatusCode::InternalServerError => 500,
        StatusCode::NotImplemented => 501,
    }
}

/// The decimal digits of each status code, as written on the wire.
pub open spec fn spec_code_chars(sc: StatusCode) -> Seq<char> {
    match sc {
        StatusCode::Okay => "200"@,
        StatusCode::Created => "201"@,
        StatusCode::PermanentlyMoved => "301"@,
        StatusCode::NotModified => "304"@,
        StatusCode::BadRequest => "400"@,
        StatusCode::Unauthorized => "401"@,
        StatusCode::Forbiden => "403"@,
        StatusCode::NotFound => "404"@,
        StatusCode::Conflict => "409"@,
        StatusCode::InternalServerError => "500"@,
        StatusCode::NotImplemented => "501"@,
    }
}

/// The fixed reason phrase of each status code.
pub open spec fn spec_reason_phrase(sc: StatusCode) -> Seq<char> {
    match sc {
        StatusCode::Okay => "Ok"@,
        StatusCode::Created => "Created"@,
        StatusCode::PermanentlyMoved => "Permanently moved"@,
        StatusCode::NotModified => "Not modified"@,
        StatusCode::BadRequest => "Bad request"@,
        StatusCode::Unauthorized => "Unauthorized"@,
        StatusCode::Forbiden => "Forbiden"@,
        StatusCode::NotFound => "Not found"@,
        StatusCode::Conflict => "Conflict"@,
        StatusCode::InternalServerError => "Internal server error"@,
        StatusCode::NotImplemented => "Not implemented"@,
    }
}

impl StatusCode {
    /// The numeric status code, as it stands in the status line.
    pub fn code(&self) -> (r: u16)
        ensures
            r == spec_code(*self),
    {
        match self {
            StatusCode::Okay => 200,
            StatusCode::Created => 201,
            StatusCode::PermanentlyMoved => 301,
            StatusCode::NotModified => 304,
            StatusCode::BadRequest => 400,
            StatusCode::Unauthorized => 401,
            StatusCode::Forbiden => 403,
            StatusCode::NotFound => 404,
            StatusCode::Conflict => 409,
            StatusCode::InternalServerError => 500,
            StatusCode::NotImplemented => 501,
        }
    }

    /// The decimal digits of the status code.
    pub fn code_str(&self) -> (r: &'static str)
        ensures
            r@ == spec_code_chars(*self),
    {
        match self {
            StatusCode::Okay => "200",
            StatusCode::Created => "201",
            StatusCode::PermanentlyMoved => "301",
            StatusCode::NotModified => "304",
            StatusCode::BadRequest => "400",
            StatusCode::Unauthorized => "401",
            StatusCode::Forbiden => "403",
            StatusCode::NotFound => "404",
            StatusCode::Conflict => "409",
            StatusCode::InternalServerError => "500",
            StatusCode::NotImplemented => "501",
        }
    }

    /// The fixed reason phrase accompanying the status code.
    pub fn reason_phrase(&self) -> (r: &'static str)
        ensures
            r@ == spec_reason_phrase(*self),
    {
        match self {
            StatusCode::Okay => "Ok",
            StatusCode::Created => "Created",
            StatusCode::PermanentlyMoved => "Permanently moved",
            StatusCode::NotModified => "Not modified",
            StatusCode::BadRequest => "Bad request",
            StatusCode::Unauthorized => "Unauthorized",
            StatusCode::Forbiden => "Forbiden",
            StatusCode::NotFound => "Not found",
            StatusCode::Conflict => "Conflict",
            StatusCode::InternalServerError => "Internal server error",
            StatusCode::NotImplemented => "Not implemented",
        }
    }
}

/// A response: a status code and an optional body it owns.
#[derive(Clone, Debug, PartialEq)]
pub struct Response {
    pub status_code: StatusCode,
    pub body: Option<String>,
}

/// The full text of a response as written on the wire: the status line,
/// a blank line, and the body or nothing.
pub open spec fn spec_response_chars(r: Response) -> Seq<char> {
    "HTTP/1.1 "@ + spec_code_chars(r.status_code) + " "@ + spec_reason_phrase(r.status_code)
        + "\r\n\r\n"@ + match r.body {
        Some(b) => b@,
        None => Seq::<char>::empty(),
    }
}

impl Response {
    /// A response with the given status code and body.
    pub fn new(status_code: StatusCode, body: Option<String>) -> (r: Response)
        ensures
            r.status_code == status_code,
            r.body == body,
    {
        Response { status_code, body }
    }

    /// Serializes the response onto the byte sink: appends exactly the
    /// UTF-8 encoding of `HTTP/1.1 <code> <reason-phrase>\r\n\r\n<body>`.
    pub fn send(&self, stream: &mut Vec<u8>)
        ensures
            final(stream)@ == old(stream)@ + vstd::utf8::encode_utf8(spec_response_chars(*self)),
    {
        let mut text = String::new();
        text.append("HTTP/1.1 ");
        text.append(self.status_code.code_str());
        text.append(" ");
        text.append(self.status_code.reason_phrase());
        text.append("\r\n\r\n");
        match &self.body {
            Some(content) => text.append(content.as_str()),
            None => (),
        }
        proof {
            assert(text@ =~= spec_response_chars(*self));
        }
        let bytes = text.as_str().as_bytes();
        stream.extend_from_slice(bytes);
    }
}

} // verus!
