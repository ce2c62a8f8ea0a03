//! The crate's error type.

use vstd::prelude::*;

verus! {

#[verifier::external_type_specification]
#[verifier::external_body]
pub struct ExIoError(std::io::Error);

/// Everything that can go wrong, one variant per cause.
#[derive(Debug)]
pub enum Error {
    /// The file could not be read from disk.
    Io(std::io::Error),
    /// The file is not a PDF or its cross-reference structure is beyond repair.
    Parse(String),
    /// The document is encrypted and the supplied password does not open it.
    Password,
    /// The document uses an encryption scheme this crate does not implement.
    UnsupportedEncryption(String),
    /// A page index past the end of the document.
    PageOutOfRange(usize),
    /// A page exists but its content could not be processed.
    Page { index: usize, message: String },
    /// Rendering failed (allocation, encoding).
    Render(String),
}

impl Error {
    /// This is a parse error whose message is `m`.
    pub open spec fn is_parse_with(&self, m: Seq<char>) -> bool {
        self matches Error::Parse(s) && s@ == m
    }

    /// This is an unsupported-encryption error whose message is `m`.
    pub open spec fn is_unsupported_with(&self, m: Seq<char>) -> bool {
        self matches Error::UnsupportedEncryption(s) && s@ == m
    }
}

} // verus!
