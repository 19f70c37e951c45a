//! Persistence-and-consistency core of a chat service: a message ledger with
//! cursor pagination and channel pointer maintenance, an invite redemption
//! engine with bounded-use semantics, reaction and mention aggregation, an
//! access-control gate, and the configuration values the server is built from.

use vstd::prelude::*;

pub mod ambient;
pub mod gate;
pub mod invite;
pub mod ledger;
pub mod logger;
pub mod model;
pub mod paginate;
pub mod reactions;
pub mod requests;
pub mod strutil;
pub mod users;
pub mod wire;
pub mod workspace;

verus! {

/// Errors that the core's operations report to callers.
#[derive(Clone, Copy, Debug, PartialEq, Eq, Structural)]
pub enum ChatError {
    /// A referenced entity is absent.
    NotFound,
    /// A capability check failed.
    Forbidden,
    /// A uniqueness constraint was violated.
    Conflict,
    /// An invite's expiry time has passed.
    Expired,
    /// An invite's use cap has been reached.
    Exhausted,
    /// A caller-supplied value is malformed.
    Validation,
    /// The backing store failed transiently; safe to retry guarded operations.
    TransientStorage,
}

impl ChatError {
    /// The stable wire token for this error kind.
    pub fn code(&self) -> (r: &'static str)
        ensures
            r@ == self.spec_code(),
    {
        match self {
            ChatError::NotFound => "not_found",
            ChatError::Forbidden => "forbidden",
            ChatError::Conflict => "conflict",
            ChatError::Expired => "expired",
            ChatError::Exhausted => "exhausted",
            ChatError::Validation => "validation",
            ChatError::TransientStorage => "transient_storage",
        }
    }

    /// The token that `code` returns for each kind.
    pub open spec fn spec_code(&self) -> Seq<char> {
        match self {
            ChatError::NotFound => "not_found"@,
            ChatError::Forbidden => "forbidden"@,
            ChatError::Conflict => "conflict"@,
            ChatError::Expired => "expired"@,
            ChatError::Exhausted => "exhausted"@,
            ChatError::Validation => "validation"@,
            ChatError::TransientStorage => "transient_storage"@,
        }
    }
}

} // verus!
