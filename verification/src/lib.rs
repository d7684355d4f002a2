use vstd::prelude::*;

pub mod catalog;
pub mod datetime;
pub mod decoder;
pub mod file_parser;
pub mod ingest;
pub mod json;
pub mod level;
pub mod line_parser;
pub mod patterns;
pub mod probe;
pub mod reduce;
pub mod stream;
pub mod text;
pub mod varint;
pub mod version;
pub mod viewer;

verus! {

/// A semantic version, the key by which pattern sets are selected.
#[derive(Clone, Copy, PartialEq, Eq, Structural, Debug)]
pub struct Version {
    pub major: u64,
    pub minor: u64,
    pub patch: u64,
}

/// Everything that can go wrong while probing, decoding or parsing logs.
///
/// Per-line kinds (`NoDomain`, `NoLevel`, `NoTimestamp`, `NoObject`,
/// `NoSuchLevel`, `UnknownEvent`, `IgnoredEvent`) never abort a file;
/// they are counted. The rest abort the file or the run.
#[derive(Clone, Debug)]
pub enum Error {
    NotLogs(String),
    UnsupportedVersion(Version),
    UnsupportedPlatform(String),
    InvalidFilename(String),
    CannotParse(String),
    NoSuchLevel(String),
    UnknownEvent,
    IgnoredEvent,
    NoTimestamp(String),
    NoDomain,
    NoObject,
    InvalidBinaryLogs(String, u64),
    InvalidVarint,
    NoLevel,
}

} // verus!
