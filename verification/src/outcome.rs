//! Result and error projection: every operation of the catalog ends in
//! exactly one of success, not-found, not-implemented or upstream-failure.

use vstd::prelude::*;

verus! {

/// The failure side of an operation's outcome.  `NotFound` means the queried
/// entity does not exist; `NotImplemented` marks a known, addressable gap;
/// `UpstreamFailure` stands for a data store that could not complete the
/// operation.  A legitimately absent aggregate is not an error: it is an
/// explicit "no value" inside a success payload.
#[derive(Clone, Copy, Debug, PartialEq, Eq, Structural)]
pub enum ErrorKind {
    NotFound,
    NotImplemented,
    UpstreamFailure,
}

/// A normalized operation failure: a kind plus a sanitized diagnostic
/// message.  The message never carries row-level data; producers hand in a
/// fixed description.
#[derive(Debug)]
pub struct AppError {
    pub kind: ErrorKind,
    pub message: String,
}

impl AppError {
    /// A failure for an entity that does not exist.
    pub fn not_found(message: &str) -> (r: AppError)
        ensures
            r.kind == ErrorKind::NotFound,
            r.message@ == message@,
    {
        AppError { kind: ErrorKind::NotFound, message: message.to_owned() }
    }

    /// A failure for a known but unimplemented capability.
    pub fn not_implemented(message: &str) -> (r: AppError)
        ensures
            r.kind == ErrorKind::NotImplemented,
            r.message@ == message@,
    {
        AppError { kind: ErrorKind::NotImplemented, message: message.to_owned() }
    }

    /// A failure of the underlying data store.
    pub fn upstream(message: &str) -> (r: AppError)
        ensures
            r.kind == ErrorKind::UpstreamFailure,
            r.message@ == message@,
    {
        AppError { kind: ErrorKind::UpstreamFailure, message: message.to_owned() }
    }

    /// Projects the failure onto a client-visible status code and message:
    /// not-found maps to 404, not-implemented to 501, an upstream failure
    /// to 500.  The transport layer serializes the pair; nothing else of
    /// the failure crosses the boundary.
    pub fn into_response(self) -> (r: (u16, String))
        ensures
            self.kind == ErrorKind::NotFound ==> r.0 == 404,
            self.kind == ErrorKind::NotImplemented ==> r.0 == 501,
            self.kind == ErrorKind::UpstreamFailure ==> r.0 == 500,
            r.1 == self.message,
    {
        let status: u16 = match self.kind {
            ErrorKind::NotFound => 404,
            ErrorKind::NotImplemented => 501,
            ErrorKind::UpstreamFailure => 500,
        };
        (status, self.message)
    }
}

} // verus!
