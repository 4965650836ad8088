use vstd::prelude::*;

verus! {

/// An HTTP protocol version.
#[derive(Debug, Clone, Copy, PartialEq, Eq, Structural)]
pub enum Version {
    Http09,
    Http10,
    Http11,
    Http20,
    Http30,
}

/// The version as its number: major times ten plus minor.
pub open spec fn version_number(v: Version) -> int {
    match v {
        Version::Http09 => 9,
        Version::Http10 => 10,
        Version::Http11 => 11,
        Version::Http20 => 20,
        Version::Http30 => 30,
    }
}

impl Version {
    /// The version as its number: major times ten plus minor.
    pub fn number(self) -> (r: u32)
        ensures
            r == version_number(self),
    {
        match self {
            Version::Http09 => 9,
            Version::Http10 => 10,
            Version::Http11 => 11,
            Version::Http20 => 20,
            Version::Http30 => 30,
        }
    }

    /// The version that a number stands for, if any.
    pub fn from_number(n: u32) -> (r: Option<Version>)
        ensures
            r matches Some(v) ==> version_number(v) == n,
            r is None ==> (n != 9 && n != 10 && n != 11 && n != 20 && n != 30),
    {
        match n {
            9 => Some(Version::Http09),
            10 => Some(Version::Http10),
            11 => Some(Version::Http11),
            20 => Some(Version::Http20),
            30 => Some(Version::Http30),
            _ => None,
        }
    }

    /// The version as it is written on the wire.
    pub fn as_str(self) -> &'static str {
        match self {
            Version::Http09 => "HTTP/0.9",
            Version::Http10 => "HTTP/1.0",
            Version::Http11 => "HTTP/1.1",
            Version::Http20 => "HTTP/2.0",
            Version::Http30 => "HTTP/3.0",
        }
    }
}

/// The ways reading an HTTP response can fail.
#[derive(Debug, PartialEq, Eq)]
pub enum HttpError {
    HeadersTooLong,
    InvalidStatusLine(Vec<u8>),
    InvalidHeaderName(Vec<u8>),
    InvalidHeaderValue(Vec<u8>),
    /// A header whose value could not be read: its name and value.
    InvalidHeader(Vec<u8>, Vec<u8>),
    ChunkTooLarge,
    UnexpectedVersion(Version),
    /// A line that is not UTF-8.
    InvalidUtf8,
    /// The connection ended inside the response head.
    UnexpectedEof,
    /// The connection ended inside the body.
    PartialFile,
}

} // verus!
