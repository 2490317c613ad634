//! The errors with which decoding fails.

use vstd::prelude::*;
use vstd::string::*;

verus! {

/// The result of a decoding step.
pub type BmpResult<T> = Result<T, BmpError>;

/// The different kinds of decoding failure.
#[derive(Clone, Copy, Debug, PartialEq, Eq, Structural)]
pub enum BmpErrorKind {
    WrongMagicNumbers,
    UnsupportedBitsPerPixel,
    UnsupportedCompressionType,
    UnsupportedBmpVersion,
    UnsupportedHeader,
}

impl BmpErrorKind {
    /// The general description of each kind.
    pub open spec fn text(self) -> Seq<char> {
        match self {
            BmpErrorKind::WrongMagicNumbers => "Wrong magic numbers"@,
            BmpErrorKind::UnsupportedBitsPerPixel => "Unsupported bits per pixel"@,
            BmpErrorKind::UnsupportedCompressionType => "Unsupported compression type"@,
            BmpErrorKind::UnsupportedBmpVersion => "Unsupported BMP version"@,
            BmpErrorKind::UnsupportedHeader => "BMP Error"@,
        }
    }

    /// Returns the general description of this kind of error.
    pub fn as_str(&self) -> (s: &'static str)
        ensures
            s@ == self.text(),
    {
        match self {
            BmpErrorKind::WrongMagicNumbers => "Wrong magic numbers",
            BmpErrorKind::UnsupportedBitsPerPixel => "Unsupported bits per pixel",
            BmpErrorKind::UnsupportedCompressionType => "Unsupported compression type",
            BmpErrorKind::UnsupportedBmpVersion => "Unsupported BMP version",
            BmpErrorKind::UnsupportedHeader => "BMP Error",
        }
    }
}

/// The error returned when an image cannot be decoded: its kind, and a
/// sentence on what was found.
#[derive(Debug)]
pub struct BmpError {
    pub kind: BmpErrorKind,
    pub details: String,
}

impl BmpError {
    /// Creates an error of the given kind with the given details.
    pub fn new(kind: BmpErrorKind, details: &str) -> (e: BmpError)
        ensures
            e.kind == kind,
            e.details@ == details@,
    {
        BmpError { kind, details: String::from_str(details) }
    }
}

} // verus!
