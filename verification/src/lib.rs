//! Fetch-resolve-decode-persist pipeline for versioned packages.
//!
//! The library parses `namespace:name` package references, resolves an
//! unspecified version to the latest non-yanked release, assembles streamed
//! content chunks, decides the output format, and computes the final output
//! path and overwrite decision. Registry transport and filesystem work stay
//! outside; the logic here is verified.

pub mod fetch;
pub mod format;
pub mod label;
pub mod package;
pub mod pipeline;
pub mod publish;
pub mod resolve;
pub mod version;

use vstd::prelude::*;

verus! {

/// The failures the pipeline can report.
#[derive(Debug)]
pub enum Error {
    /// The package reference text is malformed.
    InvalidReference(String),
    /// Version resolution found no non-yanked release.
    NoReleasesFound,
    /// The registry collaborator failed.
    RegistryError(String),
    /// The content stream ended with an error before completing.
    FetchIncomplete(String),
    /// Decoding the artifact failed while the format demanded text.
    DecodeError(String),
    /// The output path exists and overwriting was not permitted.
    OutputExists(String),
    /// A filesystem operation failed.
    IoError(String),
}

impl Error {
    /// A human-readable description of the failure: the failing stage,
    /// followed by its detail.
    pub fn message(&self) -> (r: String)
        ensures
            self matches Error::InvalidReference(m) ==> r@ == "invalid package reference: "@ + m@,
            self is NoReleasesFound ==> r@ == "no releases found"@,
            self matches Error::RegistryError(m) ==> r@ == "registry error: "@ + m@,
            self matches Error::FetchIncomplete(m) ==> r@ == "content stream ended early: "@ + m@,
            self matches Error::DecodeError(m) ==> r@ == "failed to decode package content: "@
                + m@,
            self matches Error::OutputExists(p) ==> r@ == "output path already exists: "@ + p@,
            self matches Error::IoError(m) ==> r@ == "filesystem failure: "@ + m@,
    {
        match self {
            Error::InvalidReference(m) => {
                let mut s = String::from_str("invalid package reference: ");
                s.append(m.as_str());
                s
            },
            Error::NoReleasesFound => String::from_str("no releases found"),
            Error::RegistryError(m) => {
                let mut s = String::from_str("registry error: ");
                s.append(m.as_str());
                s
            },
            Error::FetchIncomplete(m) => {
                let mut s = String::from_str("content stream ended early: ");
                s.append(m.as_str());
                s
            },
            Error::DecodeError(m) => {
                let mut s = String::from_str("failed to decode package content: ");
                s.append(m.as_str());
                s
            },
            Error::OutputExists(p) => {
                let mut s = String::from_str("output path already exists: ");
                s.append(p.as_str());
                s
            },
            Error::IoError(m) => {
                let mut s = String::from_str("filesystem failure: ");
                s.append(m.as_str());
                s
            },
        }
    }
}

} // verus!
