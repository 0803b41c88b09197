//! Error taxonomy: expected-but-absent external state, malformed metadata,
//! storage-engine failures, and plain I/O failures.

use vstd::prelude::*;

verus! {

/// The storage engine's own error type, carried through unchanged.
#[verifier::external_type_specification]
#[verifier::external_body]
pub struct ExRusqliteError(rusqlite::Error);

/// The property-list parser's own error type, carried through unchanged.
#[verifier::external_type_specification]
#[verifier::external_body]
pub struct ExPlistError(plist::Error);

/// The standard I/O error type, carried through unchanged.
#[verifier::external_type_specification]
#[verifier::external_body]
pub struct ExIoError(std::io::Error);

/// Every failure the library surfaces to its callers.
#[derive(Debug)]
pub enum StickyError {
    /// The notes directory is absent: fatal to the current operation.
    StickiesNotFound(String),
    /// The relational backend failed to open, prepare, or execute.
    Database(rusqlite::Error),
    /// The metadata file exists but could not be parsed.
    Plist(plist::Error),
    /// A file inside a bundle could not be read or written.
    Io(std::io::Error),
    /// The configuration, or a parsed document's shape, is unusable.
    Config(String),
    /// The rich-text payload could not be handled.
    RtfParse(String),
}

} // verus!
