//! Where the sections of a cache stand, and what its bytes mean.

use super::bytes::{u32_at, u64_at, ByteOrder};
use super::error::Error;
use super::raw;
use vstd::prelude::*;

verus! {

/// Everything a cache holds.
pub struct Tables {
    /// The absolute address that relative address zero stands for.
    pub range_threshold: u64,
    /// The sixteen bytes of the debug identifier.
    pub debug_id: Seq<u8>,
    /// The architecture tag.
    pub arch: u32,
    /// Where each string's bytes are.
    pub strings: Seq<raw::String>,
    /// The files.
    pub files: Seq<raw::File>,
    /// The functions.
    pub functions: Seq<raw::Function>,
    /// The source locations: first those that only other source locations
    /// refer to, then one for each range, in the order of the ranges.
    pub source_locations: Seq<raw::SourceLocation>,
    /// The relative start address of each range.
    pub ranges: Seq<u32>,
    /// The bytes of all strings.
    pub string_bytes: Seq<u8>,
}

/// The number of entries in each section.
pub struct Shape {
    /// The number of strings.
    pub strings: int,
    /// The number of files.
    pub files: int,
    /// The number of functions.
    pub functions: int,
    /// The number of source locations.
    pub source_locations: int,
    /// The number of ranges.
    pub ranges: int,
    /// The number of bytes of string data.
    pub string_bytes: int,
}

/// The number of zero bytes that follow a section of `len` bytes.
pub open spec fn padding(len: int) -> int {
    (8 - len % 8) % 8
}

/// The length of a section of `len` bytes together with its padding.
pub open spec fn padded(len: int) -> int {
    len + padding(len)
}

/// Where the string records start: behind the header.
pub open spec fn strings_start() -> int {
    64
}

/// Where the file records start.
pub open spec fn files_start(shape: Shape) -> int {
    strings_start() + padded(8 * shape.strings)
}

/// Where the function records start.
pub open spec fn functions_start(shape: Shape) -> int {
    files_start(shape) + padded(12 * shape.files)
}

/// Where the source location records start.
pub open spec fn source_locations_start(shape: Shape) -> int {
    functions_start(shape) + padded(12 * shape.functions)
}

/// Where the range addresses start.
pub open spec fn ranges_start(shape: Shape) -> int {
    source_locations_start(shape) + padded(16 * shape.source_locations)
}

/// Where the string bytes start.
pub open spec fn string_bytes_start(shape: Shape) -> int {
    ranges_start(shape) + padded(4 * shape.ranges)
}

/// The number of bytes up to the end of the string bytes.
pub open spec fn content_len(shape: Shape) -> int {
    string_bytes_start(shape) + shape.string_bytes
}

/// The shape that the header in `bytes` announces.
pub open spec fn shape_in(bytes: Seq<u8>, order: ByteOrder) -> Shape {
    Shape {
        strings: u32_at(bytes, 8, order) as int,
        files: u32_at(bytes, 12, order) as int,
        functions: u32_at(bytes, 16, order) as int,
        source_locations: u32_at(bytes, 20, order) as int,
        ranges: u32_at(bytes, 24, order) as int,
        string_bytes: u32_at(bytes, 28, order) as int,
    }
}

/// The string record that lies at `at`.
pub open spec fn string_in(bytes: Seq<u8>, at: int, order: ByteOrder) -> raw::String {
    raw::String {
        string_offset: u32_at(bytes, at, order),
        string_len: u32_at(bytes, at + 4, order),
    }
}

/// The file record that lies at `at`.
pub open spec fn file_in(bytes: Seq<u8>, at: int, order: ByteOrder) -> raw::File {
    raw::File {
        comp_dir_idx: u32_at(bytes, at, order),
        directory_idx: u32_at(bytes, at + 4, order),
        path_name_idx: u32_at(bytes, at + 8, order),
    }
}

/// The function record that lies at `at`; the three bytes behind its language
/// tag count for nothing.
pub open spec fn function_in(bytes: Seq<u8>, at: int, order: ByteOrder) -> raw::Function {
    raw::Function {
        name_idx: u32_at(bytes, at, order),
        entry_pc: u32_at(bytes, at + 4, order),
        lang: bytes[at + 8],
    }
}

/// The source location record that lies at `at`.
pub open spec fn source_location_in(bytes: Seq<u8>, at: int, order: ByteOrder) -> raw::SourceLocation {
    raw::SourceLocation {
        file_idx: u32_at(bytes, at, order),
        line: u32_at(bytes, at + 4, order),
        function_idx: u32_at(bytes, at + 8, order),
        inlined_into_idx: u32_at(bytes, at + 12, order),
    }
}

/// What the bytes of a cache hold, read in the given byte order.
pub open spec fn tables_in(bytes: Seq<u8>, order: ByteOrder) -> Tables {
    let shape = shape_in(bytes, order);
    Tables {
        range_threshold: u64_at(bytes, 32, order),
        debug_id: bytes.subrange(40, 56),
        arch: u32_at(bytes, 56, order),
        strings: Seq::new(
            shape.strings as nat,
            |i: int| string_in(bytes, strings_start() + 8 * i, order),
        ),
        files: Seq::new(
            shape.files as nat,
            |i: int| file_in(bytes, files_start(shape) + 12 * i, order),
        ),
        functions: Seq::new(
            shape.functions as nat,
            |i: int| function_in(bytes, functions_start(shape) + 12 * i, order),
        ),
        source_locations: Seq::new(
            shape.source_locations as nat,
            |i: int| source_location_in(bytes, source_locations_start(shape) + 16 * i, order),
        ),
        ranges: Seq::new(
            shape.ranges as nat,
            |i: int| u32_at(bytes, ranges_start(shape) + 4 * i, order),
        ),
        string_bytes: bytes.subrange(
            string_bytes_start(shape),
            string_bytes_start(shape) + shape.string_bytes,
        ),
    }
}

/// What reading `bytes` as a cache in the given byte order comes to: the
/// tables, or the first check that fails.
pub open spec fn parse_result(bytes: Seq<u8>, order: ByteOrder) -> Result<Tables, Error> {
    if bytes.len() < 64 {
        Err(Error::HeaderTooSmall)
    } else if u32_at(bytes, 0, order) == raw::SYMCACHE_MAGIC_FLIPPED {
        Err(Error::WrongEndianness)
    } else if u32_at(bytes, 0, order) != raw::SYMCACHE_MAGIC {
        Err(Error::WrongFormat)
    } else if u32_at(bytes, 4, order) != raw::SYMCACHE_VERSION {
        Err(Error::WrongVersion)
    } else if bytes.len() < content_len(shape_in(bytes, order)) || shape_in(
        bytes,
        order,
    ).source_locations < shape_in(bytes, order).ranges {
        Err(Error::BadFormatLength)
    } else {
        Ok(tables_in(bytes, order))
    }
}

} // verus!
