//! The records of a cache as they are laid out in its bytes.

use vstd::prelude::*;

verus! {

/// The first four bytes of a cache, read in the byte order it was written in.
pub const SYMCACHE_MAGIC: u32 = 0x434d_5953;

/// What the magic reads as in the other byte order.
pub const SYMCACHE_MAGIC_FLIPPED: u32 = 0x5359_4d43;

/// The version of the format.
pub const SYMCACHE_VERSION: u32 = 7;

/// The index that stands for "no entry".
pub const NO_INDEX: u32 = 0xffff_ffff;

/// The number of bytes a header takes, padding included.
pub const HEADER_SIZE: usize = 64;

/// The number of bytes of a debug identifier.
pub const DEBUG_ID_SIZE: usize = 16;

/// The fixed-size start of a cache.
#[derive(Clone, Copy, Debug)]
pub struct Header {
    /// The magic bytes.
    pub magic: u32,
    /// The version of the format.
    pub version: u32,
    /// Number of [`String`]s.
    pub num_strings: u32,
    /// Number of [`File`]s.
    pub num_files: u32,
    /// Number of [`Function`]s.
    pub num_functions: u32,
    /// Number of [`SourceLocation`]s.
    pub num_source_locations: u32,
    /// Number of [`Range`]s.
    pub num_ranges: u32,
    /// Number of bytes of string data.
    pub string_bytes: u32,
    /// The absolute address that relative address zero stands for.
    pub range_threshold: u64,
    /// The debug identifier of the object the cache was made from.
    pub debug_id: [u8; 16],
    /// The architecture tag of that object.
    pub arch: u32,
}

/// Where a string's bytes are.
#[derive(Clone, Copy, Debug, PartialEq, Eq, Structural)]
pub struct String {
    /// The offset into the string bytes.
    pub string_offset: u32,
    /// The length of the string in bytes.
    pub string_len: u32,
}

/// A source file.
#[derive(Clone, Copy, Debug, PartialEq, Eq, Structural)]
pub struct File {
    /// The compilation directory (index of a [`String`]), if any.
    pub comp_dir_idx: u32,
    /// The directory (index of a [`String`]), if any.
    pub directory_idx: u32,
    /// The path name (index of a [`String`]).
    pub path_name_idx: u32,
}

/// A function.
#[derive(Clone, Copy, Debug, PartialEq, Eq, Structural)]
pub struct Function {
    /// The name (index of a [`String`]), if any.
    pub name_idx: u32,
    /// The relative address of the first instruction, if known.
    pub entry_pc: u32,
    /// The language tag.
    pub lang: u8,
}

/// A place in the source, and the place it was inlined into.
#[derive(Clone, Copy, Debug, PartialEq, Eq, Structural)]
pub struct SourceLocation {
    /// The source file (index of a [`File`]), if any.
    pub file_idx: u32,
    /// The line number; zero where it is not known.
    pub line: u32,
    /// The function (index of a [`Function`]), if any.
    pub function_idx: u32,
    /// The call site this location was inlined into (index of another
    /// [`SourceLocation`]), if any.
    pub inlined_into_idx: u32,
}

/// The relative address at which a range of instructions starts.
#[derive(Clone, Copy, Debug, PartialEq, Eq, Structural)]
pub struct Range(pub u32);

/// The address relative to `threshold` that stands for the absolute address
/// `addr`: none where `addr` lies below the threshold or more than 32 bits
/// above it.
pub open spec fn relative_address(threshold: u64, addr: u64) -> Option<u32> {
    if threshold <= addr && addr - threshold <= 0xffff_ffff {
        Some((addr - threshold) as u32)
    } else {
        None
    }
}

/// Computes [`relative_address`].
pub fn offset_address(threshold: u64, addr: u64) -> (relative: Option<u32>)
    ensures
        relative == relative_address(threshold, addr),
{
    if addr < threshold {
        return None;
    }
    let offset: u64 = addr - threshold;
    if offset > 0xffff_ffff {
        None
    } else {
        Some(offset as u32)
    }
}

} // verus!
