//! The ways in which decoding a tag ends without a tag.

use crate::io::{advanced, Bytestream};
use vstd::prelude::*;

verus! {

#[verifier::external_type_specification]
#[verifier::external_body]
pub struct ExIoError(std::io::Error);

/// What was inconsistent in a tag that could not be decoded.
#[derive(Clone, Copy, Debug, PartialEq, Eq, Structural)]
pub enum DecodeFault {
    /// The major or the minor version byte is 0xFF.
    InvalidVersion,
    /// The extended header does not declare exactly one byte of flags.
    ExtendedFlagsLength,
    /// The data length of the "tag is an update" flag is not 1.
    IsUpdateLength,
    /// The data length of the CRC flag is not 5.
    Crc32Length,
    /// The data length of the restrictions flag is not 1.
    RestrictionsLength,
}

/// What was recognised in the input but is not handled.
#[derive(Clone, Copy, Debug, PartialEq, Eq, Structural)]
pub enum UnsupportedFeature {
    /// The input does not start with the marker "ID3".
    NotId3v2,
    /// The major version is not 2, 3 or 4.
    Version,
    /// An ID3v2.2 tag has its compression bit set.
    Compression,
}

/// The kind of an [`Error`], without the value an I/O failure carries.
#[derive(Clone, Copy, Debug, PartialEq, Eq, Structural)]
pub enum ErrorKind {
    /// The byte source failed; for the in-memory sources of this crate, it
    /// had fewer bytes left than a read asked for.
    Io,
    /// The data is malformed.
    Decode(DecodeFault),
    /// The data uses something that is not supported.
    Unsupported(UnsupportedFeature),
}

/// An error that ends the decoding of a tag. No kind is ever turned into
/// another, and none is recovered from.
#[derive(Debug)]
pub enum Error {
    /// The byte source failed; the failure is handed on as it came.
    IoError(std::io::Error),
    /// The data is malformed.
    DecodeError(DecodeFault),
    /// The data uses something that is not supported.
    Unsupported(UnsupportedFeature),
}

impl Error {
    /// The kind of this error.
    pub open spec fn spec_kind(&self) -> ErrorKind {
        match *self {
            Error::IoError(_) => ErrorKind::Io,
            Error::DecodeError(fault) => ErrorKind::Decode(fault),
            Error::Unsupported(feature) => ErrorKind::Unsupported(feature),
        }
    }

    /// The kind of this error.
    #[verifier::when_used_as_spec(spec_kind)]
    pub fn kind(&self) -> (kind: ErrorKind)
        ensures
            kind == self.spec_kind(),
    {
        match self {
            Error::IoError(_) => ErrorKind::Io,
            Error::DecodeError(fault) => ErrorKind::Decode(*fault),
            Error::Unsupported(feature) => ErrorKind::Unsupported(*feature),
        }
    }
}

/// The outcome of a decoding step as contracts speak of it: the value on
/// success, the kind of the error otherwise.
pub open spec fn outcome<T>(r: Result<T, Error>) -> Result<T, ErrorKind> {
    match r {
        Ok(value) => Ok(value),
        Err(e) => Err(e.spec_kind()),
    }
}

/// A decoding step went as `expected` says: on success it gave the value
/// and left the stream advanced to the bytes named there; else it failed
/// with the kind named there.
pub open spec fn parsed<T, B: Bytestream>(
    r: Result<T, Error>,
    before: B,
    after: B,
    expected: Result<(T, Seq<u8>), ErrorKind>,
) -> bool {
    match expected {
        Ok((value, rest)) => {
            &&& r == Ok::<T, Error>(value)
            &&& rest.len() <= before.remaining().len()
            &&& after.remaining() == rest
            &&& advanced(before, after, (before.remaining().len() - rest.len()) as nat)
        },
        Err(kind) => r is Err && r->Err_0.spec_kind() == kind,
    }
}

} // verus!
