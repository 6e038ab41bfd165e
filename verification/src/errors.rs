//! Shared, typed error enums. Every error carries a stable client code that is
//! safe to send to a client; human-readable detail stays server-side.

use vstd::prelude::*;
use crate::text::push_str;

verus! {

/// A stable, wire-safe error code. The numeric value is part of the client
/// contract: never renumber an existing variant, only append.
#[derive(Debug, Clone, Copy, PartialEq, Eq, Hash, Structural)]
pub enum ClientCode {
    /// The request was malformed or failed validation.
    BadRequest,
    /// The caller is not authenticated.
    Unauthenticated,
    /// The caller is authenticated but not permitted.
    Forbidden,
    /// A referenced entity does not exist.
    NotFound,
    /// The action conflicts with current state.
    Conflict,
    /// The server hit an internal fault. No detail is exposed.
    Internal,
}

/// The numeric code sent on the wire for each client code.
pub open spec fn wire_code(c: ClientCode) -> u16 {
    match c {
        ClientCode::BadRequest => 1000,
        ClientCode::Unauthenticated => 1001,
        ClientCode::Forbidden => 1002,
        ClientCode::NotFound => 1003,
        ClientCode::Conflict => 1004,
        ClientCode::Internal => 2000,
    }
}

/// Distinct client codes go out as distinct numbers.
pub proof fn lemma_wire_codes_distinct(a: ClientCode, b: ClientCode)
    ensures
        wire_code(a) == wire_code(b) <==> a == b,
{
}

impl ClientCode {
    /// The numeric code sent on the wire.
    pub fn as_u16(self) -> (r: u16)
        ensures
            r == wire_code(self),
    {
        match self {
            ClientCode::BadRequest => 1000,
            ClientCode::Unauthenticated => 1001,
            ClientCode::Forbidden => 1002,
            ClientCode::NotFound => 1003,
            ClientCode::Conflict => 1004,
            ClientCode::Internal => 2000,
        }
    }
}

/// The canonical error type crossing service boundaries. `Internal`
/// deliberately hides its cause from clients.
#[derive(Debug)]
pub enum CoreError {
    /// The request was malformed; the string says how (server logs only).
    BadRequest(String),
    /// The caller is not authenticated.
    Unauthenticated,
    /// The caller is authenticated but not permitted.
    Forbidden,
    /// Something referenced does not exist.
    NotFound(String),
    /// The action conflicts with current state.
    Conflict(String),
    /// An internal fault.
    Internal,
}

/// The client code of each error.
pub open spec fn core_error_code(e: CoreError) -> ClientCode {
    match e {
        CoreError::BadRequest(_) => ClientCode::BadRequest,
        CoreError::Unauthenticated => ClientCode::Unauthenticated,
        CoreError::Forbidden => ClientCode::Forbidden,
        CoreError::NotFound(_) => ClientCode::NotFound,
        CoreError::Conflict(_) => ClientCode::Conflict,
        CoreError::Internal => ClientCode::Internal,
    }
}

/// The display text of each error.
pub open spec fn core_error_text(e: CoreError) -> Seq<char> {
    match e {
        CoreError::BadRequest(s) => "bad request: "@ + s@,
        CoreError::Unauthenticated => "unauthenticated"@,
        CoreError::Forbidden => "forbidden"@,
        CoreError::NotFound(s) => "not found: "@ + s@,
        CoreError::Conflict(s) => "conflict: "@ + s@,
        CoreError::Internal => "internal error"@,
    }
}

impl CoreError {
    /// The stable client code for this error — safe to send over the wire.
    pub fn code(&self) -> (c: ClientCode)
        ensures
            c == core_error_code(*self),
    {
        match self {
            CoreError::BadRequest(_) => ClientCode::BadRequest,
            CoreError::Unauthenticated => ClientCode::Unauthenticated,
            CoreError::Forbidden => ClientCode::Forbidden,
            CoreError::NotFound(_) => ClientCode::NotFound,
            CoreError::Conflict(_) => ClientCode::Conflict,
            CoreError::Internal => ClientCode::Internal,
        }
    }

    /// The human-readable description. `Internal` carries no cause text.
    pub fn to_string(&self) -> (s: String)
        ensures
            s@ == core_error_text(*self),
    {
        let mut s = String::new();
        match self {
            CoreError::BadRequest(d) => {
                push_str(&mut s, "bad request: ");
                push_str(&mut s, d.as_str());
            },
            CoreError::Unauthenticated => push_str(&mut s, "unauthenticated"),
            CoreError::Forbidden => push_str(&mut s, "forbidden"),
            CoreError::NotFound(d) => {
                push_str(&mut s, "not found: ");
                push_str(&mut s, d.as_str());
            },
            CoreError::Conflict(d) => {
                push_str(&mut s, "conflict: ");
                push_str(&mut s, d.as_str());
            },
            CoreError::Internal => push_str(&mut s, "internal error"),
        }
        assert(s@ =~= core_error_text(*self));
        s
    }
}

} // verus!
