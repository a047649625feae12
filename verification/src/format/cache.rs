//! Reading a cache out of a buffer of bytes.

use super::bytes::{native_order, read_u32, read_u64, u32_at, u64_at, ByteOrder};
use super::error::Error;
use super::layout::{
    content_len, file_in, files_start, function_in, functions_start, padded, padding,
    parse_result, ranges_start, shape_in, source_location_in, source_locations_start,
    string_bytes_start, string_in, strings_start, tables_in, Shape, Tables,
};
use super::raw;
use symbolic_common::{Arch, DebugId, Uuid};
use vstd::prelude::*;

verus! {

#[verifier::external_type_specification]
#[verifier::external_body]
pub struct ExArch(Arch);

#[verifier::external_type_specification]
#[verifier::external_body]
pub struct ExDebugId(DebugId);

/// The architecture that `Arch::from_u32` gives for a tag.
pub uninterp spec fn arch_of_tag(tag: u32) -> Arch;

/// The debug identifier that `DebugId::from_uuid` gives for the UUID with
/// these sixteen bytes.
pub uninterp spec fn debug_id_of_bytes(bytes: Seq<u8>) -> DebugId;

/// Calls `Arch::from_u32`, which maps the tags it knows to their
/// architecture and every other to `Arch::Unknown`.
#[verifier::external_body]
fn arch_from_u32(tag: u32) -> (arch: Arch)
    ensures
        arch == arch_of_tag(tag),
{
    Arch::from_u32(tag)
}

/// Calls `DebugId::from_uuid` on the UUID that `Uuid::from_bytes` makes of
/// the sixteen bytes: the identifier with that UUID and appendix zero.
#[verifier::external_body]
fn debug_id_from_bytes(bytes: [u8; 16]) -> (id: DebugId)
    ensures
        id == debug_id_of_bytes(bytes@),
{
    DebugId::from_uuid(Uuid::from_bytes(bytes))
}

/// Calls `<[u8]>::as_ptr` and hands the pointer out as a number: the address
/// at which the buffer starts. It depends on where the buffer lies, so the
/// contract is silent.
#[verifier::external_body]
pub(crate) fn address_of(data: &[u8]) -> (address: usize) {
    data.as_ptr() as usize
}

/// Whether an address is a multiple of eight.
pub fn is_multiple_of_eight(address: usize) -> (multiple: bool)
    ensures
        multiple == (address % 8 == 0),
{
    address % 8 == 0
}

/// Copies sixteen bytes out of `data`.
fn sixteen_bytes(data: &[u8], at: usize) -> (bytes: [u8; 16])
    requires
        at + 16 <= data@.len(),
    ensures
        bytes@ == data@.subrange(at as int, at + 16),
{
    let bytes: [u8; 16] = [
        data[at],
        data[at + 1],
        data[at + 2],
        data[at + 3],
        data[at + 4],
        data[at + 5],
        data[at + 6],
        data[at + 7],
        data[at + 8],
        data[at + 9],
        data[at + 10],
        data[at + 11],
        data[at + 12],
        data[at + 13],
        data[at + 14],
        data[at + 15],
    ];
    assert(bytes@ =~= data@.subrange(at as int, at + 16));
    bytes
}

/// The length of a section of `len` bytes together with its padding.
fn padded_len(len: u64) -> (r: u64)
    requires
        len <= 0x100_0000_0000,
    ensures
        r == padded(len as int),
{
    len + (8 - len % 8) % 8
}

/// A cache in a buffer of bytes, ready for lookups. Nothing is copied out of
/// the buffer: each record is read where it lies when it is asked for.
pub struct SymCache<'data> {
    data: &'data [u8],
    order: ByteOrder,
    num_strings: u32,
    num_files: u32,
    num_functions: u32,
    num_source_locations: u32,
    num_ranges: u32,
    string_bytes: u32,
    files_at: usize,
    functions_at: usize,
    source_locations_at: usize,
    ranges_at: usize,
    string_bytes_at: usize,
}

/// Another name for [`SymCache`].
pub type Format<'data> = SymCache<'data>;

impl<'data> View for SymCache<'data> {
    type V = Tables;

    closed spec fn view(&self) -> Tables {
        tables_in(self.data@, self.order)
    }
}

impl<'data> SymCache<'data> {
    #[verifier::type_invariant]
    spec fn inv(&self) -> bool {
        let shape = shape_in(self.data@, self.order);
        &&& parse_result(self.data@, self.order) is Ok
        &&& self.num_strings == shape.strings
        &&& self.num_files == shape.files
        &&& self.num_functions == shape.functions
        &&& self.num_source_locations == shape.source_locations
        &&& self.num_ranges == shape.ranges
        &&& self.string_bytes == shape.string_bytes
        &&& self.files_at == files_start(shape)
        &&& self.functions_at == functions_start(shape)
        &&& self.source_locations_at == source_locations_start(shape)
        &&& self.ranges_at == ranges_start(shape)
        &&& self.string_bytes_at == string_bytes_start(shape)
    }

    /// The bytes this cache reads from.
    pub closed spec fn bytes(&self) -> Seq<u8> {
        self.data@
    }

    /// The byte order this cache reads in.
    pub closed spec fn byte_order(&self) -> ByteOrder {
        self.order
    }

    /// Reads a cache in the byte order of this machine from a buffer that
    /// starts at a multiple of eight bytes.
    ///
    /// This is [`SymCache::parse_at`] at the address at which the buffer
    /// lies, in the byte order of this machine: a buffer that does not start
    /// at a multiple of eight bytes is refused as
    /// [`Error::BufferNotAligned`], and any other is read in one of the two
    /// orders.
    pub fn parse(data: &'data [u8]) -> (r: Result<SymCache<'data>, Error>)
        ensures
            match r {
                Ok(cache) => cache.bytes() == data@ && parse_result(data@, cache.byte_order())
                    == Ok::<Tables, Error>(cache@),
                Err(e) => e is BufferNotAligned || parse_result(data@, ByteOrder::Little)
                    == Err::<Tables, Error>(e) || parse_result(data@, ByteOrder::Big) == Err::<
                    Tables,
                    Error,
                >(e),
            },
            data@.len() < 64 ==> (r matches Err(e) && (e is BufferNotAligned || e is HeaderTooSmall)),
    {
        Self::parse_at(data, address_of(data), native_order())
    }

    /// Reads a cache from a buffer that starts at the address `address`, in
    /// the given byte order.
    ///
    /// A buffer that does not start at a multiple of eight bytes is refused
    /// as [`Error::BufferNotAligned`], whatever it holds; any other buffer is
    /// read as [`SymCache::parse_with_byte_order`] reads it.
    pub fn parse_at(data: &'data [u8], address: usize, order: ByteOrder) -> (r: Result<
        SymCache<'data>,
        Error,
    >)
        ensures
            address % 8 != 0 ==> r matches Err(Error::BufferNotAligned),
            address % 8 == 0 ==> match r {
                Ok(cache) => {
                    &&& parse_result(data@, order) == Ok::<Tables, Error>(cache@)
                    &&& cache.bytes() == data@
                    &&& cache.byte_order() == order
                },
                Err(e) => parse_result(data@, order) == Err::<Tables, Error>(e),
            },
    {
        if !is_multiple_of_eight(address) {
            return Err(Error::BufferNotAligned);
        }
        Self::parse_with_byte_order(data, order)
    }

    /// Reads a cache that was written in the given byte order, wherever the
    /// buffer starts.
    pub fn parse_with_byte_order(data: &'data [u8], order: ByteOrder) -> (r: Result<
        SymCache<'data>,
        Error,
    >)
        ensures
            match r {
                Ok(cache) => {
                    &&& parse_result(data@, order) == Ok::<Tables, Error>(cache@)
                    &&& cache.bytes() == data@
                    &&& cache.byte_order() == order
                },
                Err(e) => parse_result(data@, order) == Err::<Tables, Error>(e),
            },
    {
        let len: usize = data.len();
        if len < raw::HEADER_SIZE {
            return Err(Error::HeaderTooSmall);
        }
        let magic: u32 = read_u32(data, 0, order);
        if magic == raw::SYMCACHE_MAGIC_FLIPPED {
            return Err(Error::WrongEndianness);
        }
        if magic != raw::SYMCACHE_MAGIC {
            return Err(Error::WrongFormat);
        }
        let version: u32 = read_u32(data, 4, order);
        if version != raw::SYMCACHE_VERSION {
            return Err(Error::WrongVersion);
        }
        let num_strings: u32 = read_u32(data, 8, order);
        let num_files: u32 = read_u32(data, 12, order);
        let num_functions: u32 = read_u32(data, 16, order);
        let num_source_locations: u32 = read_u32(data, 20, order);
        let num_ranges: u32 = read_u32(data, 24, order);
        let string_bytes: u32 = read_u32(data, 28, order);

        let files_at: u64 = 64 + padded_len(8 * (num_strings as u64));
        let functions_at: u64 = files_at + padded_len(12 * (num_files as u64));
        let source_locations_at: u64 = functions_at + padded_len(12 * (num_functions as u64));
        let ranges_at: u64 = source_locations_at + padded_len(16 * (num_source_locations as u64));
        let string_bytes_at: u64 = ranges_at + padded_len(4 * (num_ranges as u64));
        let expected: u64 = string_bytes_at + string_bytes as u64;
        if (len as u64) < expected || num_source_locations < num_ranges {
            return Err(Error::BadFormatLength);
        }
        Ok(
            SymCache {
                data,
                order,
                num_strings,
                num_files,
                num_functions,
                num_source_locations,
                num_ranges,
                string_bytes,
                files_at: files_at as usize,
                functions_at: functions_at as usize,
                source_locations_at: source_locations_at as usize,
                ranges_at: ranges_at as usize,
                string_bytes_at: string_bytes_at as usize,
            },
        )
    }

    /// The version of the format that the cache was written in.
    pub fn version(&self) -> (version: u32)
        ensures
            version == raw::SYMCACHE_VERSION,
    {
        proof {
            use_type_invariant(self);
        }
        read_u32(self.data, 4, self.order)
    }

    /// Whether the cache is in the newest version of the format.
    pub fn is_latest(&self) -> (latest: bool)
        ensures
            latest,
    {
        self.version() == raw::SYMCACHE_VERSION
    }

    /// The absolute address that relative address zero stands for.
    pub fn range_threshold(&self) -> (threshold: u64)
        ensures
            threshold == self@.range_threshold,
    {
        proof {
            use_type_invariant(self);
        }
        read_u64(self.data, 32, self.order)
    }

    /// The architecture of the object the cache was made from.
    pub fn arch(&self) -> (arch: Arch)
        ensures
            arch == arch_of_tag(self@.arch),
    {
        proof {
            use_type_invariant(self);
        }
        arch_from_u32(read_u32(self.data, 56, self.order))
    }

    /// The debug identifier of the object the cache was made from.
    pub fn debug_id(&self) -> (id: DebugId)
        ensures
            id == debug_id_of_bytes(self@.debug_id),
    {
        proof {
            use_type_invariant(self);
        }
        let bytes: [u8; 16] = sixteen_bytes(self.data, 40);
        debug_id_from_bytes(bytes)
    }

    /// The number of strings.
    pub fn string_count(&self) -> (n: u32)
        ensures
            n == self@.strings.len(),
    {
        proof {
            use_type_invariant(self);
        }
        self.num_strings
    }

    /// The number of files.
    pub fn file_count(&self) -> (n: u32)
        ensures
            n == self@.files.len(),
    {
        proof {
            use_type_invariant(self);
        }
        self.num_files
    }

    /// The number of functions.
    pub fn function_count(&self) -> (n: u32)
        ensures
            n == self@.functions.len(),
    {
        proof {
            use_type_invariant(self);
        }
        self.num_functions
    }

    /// The number of source locations.
    pub fn source_location_count(&self) -> (n: u32)
        ensures
            n == self@.source_locations.len(),
            self@.ranges.len() <= n,
    {
        proof {
            use_type_invariant(self);
        }
        self.num_source_locations
    }

    /// The number of ranges.
    pub fn range_count(&self) -> (n: u32)
        ensures
            n == self@.ranges.len(),
    {
        proof {
            use_type_invariant(self);
        }
        self.num_ranges
    }

    /// The number of bytes of string data.
    pub fn string_bytes_len(&self) -> (n: u32)
        ensures
            n == self@.string_bytes.len(),
    {
        proof {
            use_type_invariant(self);
        }
        self.string_bytes
    }

    /// The record of the string with index `idx`.
    pub(crate) fn string_record(&self, idx: u32) -> (r: raw::String)
        requires
            idx < self@.strings.len(),
        ensures
            r == self@.strings[idx as int],
    {
        proof {
            use_type_invariant(self);
        }
        let at: usize = 64 + 8 * (idx as usize);
        raw::String {
            string_offset: read_u32(self.data, at, self.order),
            string_len: read_u32(self.data, at + 4, self.order),
        }
    }

    /// The record of the file with index `idx`.
    pub(crate) fn file_record(&self, idx: u32) -> (r: raw::File)
        requires
            idx < self@.files.len(),
        ensures
            r == self@.files[idx as int],
    {
        proof {
            use_type_invariant(self);
        }
        let at: usize = self.files_at + 12 * (idx as usize);
        raw::File {
            comp_dir_idx: read_u32(self.data, at, self.order),
            directory_idx: read_u32(self.data, at + 4, self.order),
            path_name_idx: read_u32(self.data, at + 8, self.order),
        }
    }

    /// The record of the function with index `idx`.
    pub(crate) fn function_record(&self, idx: u32) -> (r: raw::Function)
        requires
            idx < self@.functions.len(),
        ensures
            r == self@.functions[idx as int],
    {
        proof {
            use_type_invariant(self);
        }
        let at: usize = self.functions_at + 12 * (idx as usize);
        raw::Function {
            name_idx: read_u32(self.data, at, self.order),
            entry_pc: read_u32(self.data, at + 4, self.order),
            lang: self.data[at + 8],
        }
    }

    /// The record of the source location with index `idx`.
    pub(crate) fn source_location_record(&self, idx: u32) -> (r: raw::SourceLocation)
        requires
            idx < self@.source_locations.len(),
        ensures
            r == self@.source_locations[idx as int],
    {
        proof {
            use_type_invariant(self);
        }
        let at: usize = self.source_locations_at + 16 * (idx as usize);
        raw::SourceLocation {
            file_idx: read_u32(self.data, at, self.order),
            line: read_u32(self.data, at + 4, self.order),
            function_idx: read_u32(self.data, at + 8, self.order),
            inlined_into_idx: read_u32(self.data, at + 12, self.order),
        }
    }

    /// The relative address at which the range with index `idx` starts.
    pub(crate) fn range_start(&self, idx: u32) -> (start: u32)
        requires
            idx < self@.ranges.len(),
        ensures
            start == self@.ranges[idx as int],
    {
        proof {
            use_type_invariant(self);
        }
        read_u32(self.data, self.ranges_at + 4 * (idx as usize), self.order)
    }

    /// The string bytes from offset `from` up to offset `to`.
    pub(crate) fn string_bytes_between(&self, from: u32, to: u32) -> (bytes: &'data [u8])
        requires
            from <= to <= self@.string_bytes.len(),
        ensures
            bytes@ == self@.string_bytes.subrange(from as int, to as int),
    {
        let start: usize = self.string_bytes_at;
        let len: usize = self.data.len();
        proof {
            use_type_invariant(self);
            let shape = shape_in(self.data@, self.order);
            assert(start == string_bytes_start(shape));
            assert(start + shape.string_bytes <= len);
            assert(self@.string_bytes == self.data@.subrange(
                start as int,
                start + shape.string_bytes,
            ));
            assert(self@.string_bytes.len() == shape.string_bytes);
        }
        let a: usize = start + from as usize;
        let b: usize = start + to as usize;
        let bytes = vstd::slice::slice_subrange(self.data, a, b);
        proof {
            crate::format::round_trip::lemma_within(
                self.data@,
                start as int,
                start + self.string_bytes,
                from as int,
                to as int,
            );
        }
        bytes
    }

    /// Whether the cache has any range, and with it any line.
    pub fn has_line_info(&self) -> (has: bool)
        ensures
            has == (self@.ranges.len() > 0),
    {
        proof {
            use_type_invariant(self);
        }
        self.num_ranges > 0
    }

    /// Whether the cache has any file.
    pub fn has_file_info(&self) -> (has: bool)
        ensures
            has == (self@.files.len() > 0),
    {
        proof {
            use_type_invariant(self);
        }
        self.num_files > 0
    }
}

} // verus!
