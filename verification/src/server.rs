//! Plain data of the HTTP boundary: request methods, the header names the
//! server cares about, and response status codes. The wire-level parsing and
//! encoding around them is an external collaborator of the ledger core and
//! lives outside the verified library.

use vstd::prelude::*;

verus! {

#[allow(non_camel_case_types)]
#[derive(Debug, Copy, Clone, PartialEq, Eq, Hash, Structural)]
pub enum Method {
    CONNECT,
    DELETE,
    GET,
    HEAD,
    POST,
    PUT,
}

#[allow(non_camel_case_types)]
#[derive(Debug, Copy, Clone, PartialEq, Eq, Hash, Structural)]
pub enum Header {
    HOST,
    USER_AGENT,
    ACCEPT,
    CONTENT_TYPE,
    CONTENT_LENGTH,
}

/// The response statuses the ledger's two routes can answer with.
#[derive(Debug, Copy, Clone, PartialEq, Eq, Hash, Structural)]
pub enum StatusCode {
    Okay,
    NotFound,
    UnprocessableEntity,
}

impl StatusCode {
    /// The numeric status on the wire.
    pub open spec fn spec_code(self) -> u16 {
        match self {
            StatusCode::Okay => 200u16,
            StatusCode::NotFound => 404u16,
            StatusCode::UnprocessableEntity => 422u16,
        }
    }

    pub fn code(self) -> (c: u16)
        ensures
            c == self.spec_code(),
    {
        match self {
            StatusCode::Okay => 200,
            StatusCode::NotFound => 404,
            StatusCode::UnprocessableEntity => 422,
        }
    }
}

} // verus!
