//! The failures that the library reports, each with a kind and a message.
use crate::decimal::{decimal_digits, push_decimal};
use vstd::prelude::*;
use vstd::string::*;

verus! {

/// The condition a failure falls under.
#[derive(Clone, Copy, Debug, PartialEq, Eq, Structural)]
pub enum ErrorKind {
    /// A buffer of the wrong size, text that is no decimal number, or an unknown
    /// session named on a read or write path.
    InvalidArgument,
    /// A session named for reset or commit that the registry does not hold.
    NotFound,
    /// An operation that needs the store before any location was opened.
    NotInitialized,
    /// A second location named while another is open.
    Conflict,
    /// A lock that guards the service state was left broken by an earlier
    /// failure; the call that found it so fails, later calls may succeed.
    LockInconsistent,
    /// The persistent store or an engine over it refused a read or a write.
    StoreFailure,
    /// Change recording asked of a session view.
    Unsupported,
}

/// A failure: its kind and a message for the caller.
#[derive(Debug, PartialEq, Eq)]
pub struct Error {
    pub kind: ErrorKind,
    pub message: String,
}

/// What an [`Error`] holds, with the message as a sequence of characters.
pub struct ErrorModel {
    pub kind: ErrorKind,
    pub message: Seq<char>,
}

impl View for Error {
    type V = ErrorModel;

    open spec fn view(&self) -> ErrorModel {
        ErrorModel { kind: self.kind, message: self.message@ }
    }
}

/// An outcome and its plain value say the same: the same success, or failures of
/// the same kind with the same message.
pub open spec fn agrees<T>(r: Result<T, Error>, m: Result<T, ErrorModel>) -> bool {
    match (r, m) {
        (Ok(a), Ok(b)) => a == b,
        (Err(e), Err(f)) => e@ == f,
        _ => false,
    }
}

/// A buffer that should hold 32 bytes holds `got`.
pub open spec fn invalid_length(got: nat) -> ErrorModel {
    ErrorModel {
        kind: ErrorKind::InvalidArgument,
        message: "expected 32 bytes, got "@ + decimal_digits(got),
    }
}

/// The text `value`, given for the field `name`, is no unsigned 64-bit decimal.
pub open spec fn invalid_decimal(name: Seq<char>, value: Seq<char>) -> ErrorModel {
    ErrorModel {
        kind: ErrorKind::InvalidArgument,
        message: "invalid "@ + name + " u64 decimal: "@ + value,
    }
}

/// No live session has the token `token`; `kind` depends on the path that asked.
pub open spec fn unknown_session(kind: ErrorKind, token: Seq<char>) -> ErrorModel {
    ErrorModel { kind, message: "unknown session: "@ + token }
}

/// The store was needed before a location was opened.
pub open spec fn not_opened() -> ErrorModel {
    ErrorModel { kind: ErrorKind::NotInitialized, message: "merkle db not opened"@ }
}

/// The store is open at `existing` and `requested` names another location.
pub open spec fn already_opened(existing: Seq<char>, requested: Seq<char>) -> ErrorModel {
    ErrorModel {
        kind: ErrorKind::Conflict,
        message: "merkle db already opened at "@ + existing + ", refusing "@ + requested,
    }
}

/// The lock named `lock` was found broken.
pub open spec fn lock_poisoned(lock: Seq<char>) -> ErrorModel {
    ErrorModel { kind: ErrorKind::LockInconsistent, message: lock + " lock poisoned"@ }
}

/// The store or an engine failed and described the failure as `detail`.
pub open spec fn store_failure(detail: Seq<char>) -> ErrorModel {
    ErrorModel { kind: ErrorKind::StoreFailure, message: detail }
}

/// Change recording was asked of a session view.
pub open spec fn recording_unsupported() -> ErrorModel {
    ErrorModel {
        kind: ErrorKind::Unsupported,
        message: "session views do not support change recording"@,
    }
}

impl Error {
    /// The failure for a buffer of `got` bytes where 32 are expected.
    pub fn invalid_length(got: usize) -> (e: Error)
        ensures
            e@ == invalid_length(got as nat),
    {
        let mut message = "expected 32 bytes, got ".to_owned();
        push_decimal(&mut message, got as u64);
        Error { kind: ErrorKind::InvalidArgument, message }
    }

    /// The failure for text that is no unsigned 64-bit decimal.
    pub fn invalid_decimal(name: &str, value: &str) -> (e: Error)
        ensures
            e@ == invalid_decimal(name@, value@),
    {
        let mut message = "invalid ".to_owned();
        message.append(name);
        message.append(" u64 decimal: ");
        message.append(value);
        Error { kind: ErrorKind::InvalidArgument, message }
    }

    /// The failure for a token that names no live session.
    pub fn unknown_session(kind: ErrorKind, token: &str) -> (e: Error)
        ensures
            e@ == unknown_session(kind, token@),
    {
        let mut message = "unknown session: ".to_owned();
        message.append(token);
        Error { kind, message }
    }

    /// The failure for an operation that came before the store was opened.
    pub fn not_opened() -> (e: Error)
        ensures
            e@ == not_opened(),
    {
        Error { kind: ErrorKind::NotInitialized, message: "merkle db not opened".to_owned() }
    }

    /// The failure for a second, different location.
    pub fn already_opened(existing: &str, requested: &str) -> (e: Error)
        ensures
            e@ == already_opened(existing@, requested@),
    {
        let mut message = "merkle db already opened at ".to_owned();
        message.append(existing);
        message.append(", refusing ");
        message.append(requested);
        Error { kind: ErrorKind::Conflict, message }
    }

    /// The failure for a lock that an earlier failure left broken. The library
    /// holds no lock itself: a caller that guards the service state with one
    /// reports a broken lock with this.
    pub fn lock_poisoned(lock: &str) -> (e: Error)
        ensures
            e@ == lock_poisoned(lock@),
    {
        let mut message = lock.to_owned();
        message.append(" lock poisoned");
        Error { kind: ErrorKind::LockInconsistent, message }
    }

    /// The failure that hands on what the store or an engine reported.
    pub fn store_failure(detail: &str) -> (e: Error)
        ensures
            e@ == store_failure(detail@),
    {
        Error { kind: ErrorKind::StoreFailure, message: detail.to_owned() }
    }

    /// The failure for change recording on a session view.
    pub fn recording_unsupported() -> (e: Error)
        ensures
            e@ == recording_unsupported(),
    {
        Error {
            kind: ErrorKind::Unsupported,
            message: "session views do not support change recording".to_owned(),
        }
    }
}

} // verus!
