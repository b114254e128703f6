//! The errors of the store.

use vstd::prelude::*;

verus! {

/// The conditions on which the library refuses an input. A failure of the
/// file itself is the caller's to report; it has no kind here.
#[derive(Debug, Clone, Copy, PartialEq, Eq, Structural)]
pub enum StoreErrorKind {
    /// The preamble is unreadable or is not this format's.
    InvalidDescriptor,
    /// Fewer bytes than a header takes where a header was expected.
    TruncatedHeader,
    /// The stored digest is not the digest of the payload.
    IntegrityError,
    /// A block index at or beyond the number of blocks.
    OutOfBounds,
    /// A size or an offset that the integer meant to hold it cannot hold.
    InvalidSize,
}

/// The message that goes with each kind of error.
pub open spec fn kind_message(kind: StoreErrorKind) -> Seq<char> {
    match kind {
        StoreErrorKind::InvalidDescriptor => "Invalid file descriptor."@,
        StoreErrorKind::TruncatedHeader => "Block header is truncated."@,
        StoreErrorKind::IntegrityError => "Block Hashes do not match."@,
        StoreErrorKind::OutOfBounds => "Value out of bounds."@,
        StoreErrorKind::InvalidSize => "Unexpected data size encountered."@,
    }
}

/// The message for a preamble whose tag is no text: there is no telling
/// which version wrote it.
pub open spec fn version_message() -> Seq<char> {
    "Unexpected version info."@
}

/// An error of the store: its kind and a short message for people.
#[derive(Debug)]
pub struct StoreError {
    /// Which condition failed.
    pub kind: StoreErrorKind,
    /// What to tell a person.
    pub error: String,
}

impl StoreError {
    /// Whether this is the library's error of the given kind, with the
    /// message of that kind.
    pub open spec fn is_kind(&self, kind: StoreErrorKind) -> bool {
        self.kind == kind && self.error@ == kind_message(kind)
    }

    /// Whether this is the error for a preamble whose tag is no text.
    pub open spec fn is_unreadable_version(&self) -> bool {
        self.kind == StoreErrorKind::InvalidDescriptor && self.error@ == version_message()
    }

    /// Create a new error with a message of the caller's.
    pub fn new(kind: StoreErrorKind, error: String) -> (e: StoreError)
        ensures
            e.kind == kind,
            e.error == error,
    {
        StoreError { kind, error }
    }

    /// The error of the given kind with the message of that kind.
    pub fn of(kind: StoreErrorKind) -> (e: StoreError)
        ensures
            e.is_kind(kind),
    {
        let error = match kind {
            StoreErrorKind::InvalidDescriptor => "Invalid file descriptor.".to_owned(),
            StoreErrorKind::TruncatedHeader => "Block header is truncated.".to_owned(),
            StoreErrorKind::IntegrityError => "Block Hashes do not match.".to_owned(),
            StoreErrorKind::OutOfBounds => "Value out of bounds.".to_owned(),
            StoreErrorKind::InvalidSize => "Unexpected data size encountered.".to_owned(),
        };
        StoreError { kind, error }
    }

    /// The error for a preamble whose tag is no text.
    pub fn unreadable_version() -> (e: StoreError)
        ensures
            e.is_unreadable_version(),
    {
        StoreError {
            kind: StoreErrorKind::InvalidDescriptor,
            error: "Unexpected version info.".to_owned(),
        }
    }

    /// The message, for display.
    pub fn message(&self) -> (text: String)
        ensures
            text@ == self.error@,
    {
        self.error.clone()
    }
}

} // verus!
