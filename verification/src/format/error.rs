//! What can go wrong when a cache is read.

use core::str::Utf8Error;
use vstd::prelude::*;

verus! {

#[verifier::external_type_specification]
#[verifier::external_body]
pub struct ExUtf8Error(Utf8Error);

/// An error of the reader.
#[derive(Debug)]
pub enum Error {
    /// The buffer does not start at a multiple of eight bytes.
    BufferNotAligned,
    /// The buffer is shorter than a header.
    HeaderTooSmall,
    /// The magic bytes are those of a cache written in the other byte order.
    WrongEndianness,
    /// The buffer does not start with the magic bytes of a cache.
    WrongFormat,
    /// The version in the header is not the one this reader knows.
    WrongVersion,
    /// The buffer is shorter than the sections that its header announces.
    BadFormatLength,
    /// No file has this index.
    InvalidFileReference(u32),
    /// No function has this index.
    InvalidFunctionReference(u32),
    /// No source location has this index.
    InvalidSourceLocationReference(u32),
    /// No string has this index.
    InvalidStringReference(u32),
    /// The string that starts at this offset reaches beyond the string bytes.
    InvalidStringDataReference(u32),
    /// The string that starts at this offset is not valid UTF-8.
    InvalidStringData(u32, Utf8Error),
}

} // verus!
