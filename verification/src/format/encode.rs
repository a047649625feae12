//! The bytes that stand for the tables of a cache.

use super::bytes::{u32_bytes, u64_bytes, write_u32, ByteOrder};
use super::layout::{padding, Tables};
use super::raw;
use vstd::prelude::*;

verus! {

/// `n` zero bytes.
pub open spec fn zeros(n: int) -> Seq<u8> {
    Seq::new(n as nat, |i: int| 0u8)
}

/// A section together with the zero bytes that pad it to a multiple of
/// eight bytes.
pub open spec fn padded_bytes(section: Seq<u8>) -> Seq<u8> {
    section + zeros(padding(section.len() as int))
}

/// The parts one after the other.
pub open spec fn concat(parts: Seq<Seq<u8>>) -> Seq<u8>
    decreases parts.len(),
{
    if parts.len() == 0 {
        Seq::empty()
    } else {
        concat(parts.drop_last()) + parts.last()
    }
}

/// The eight bytes of a string record.
pub open spec fn string_bytes(s: raw::String, order: ByteOrder) -> Seq<u8> {
    u32_bytes(s.string_offset, order) + u32_bytes(s.string_len, order)
}

/// The twelve bytes of a file record.
pub open spec fn file_bytes(file: raw::File, order: ByteOrder) -> Seq<u8> {
    u32_bytes(file.comp_dir_idx, order) + u32_bytes(file.directory_idx, order) + u32_bytes(
        file.path_name_idx,
        order,
    )
}

/// The twelve bytes of a function record: the language tag is followed by
/// three zero bytes.
pub open spec fn function_bytes(function: raw::Function, order: ByteOrder) -> Seq<u8> {
    u32_bytes(function.name_idx, order) + u32_bytes(function.entry_pc, order) + seq![
        function.lang,
        0u8,
        0u8,
        0u8,
    ]
}

/// The sixteen bytes of a source location record.
pub open spec fn source_location_bytes(location: raw::SourceLocation, order: ByteOrder) -> Seq<u8> {
    u32_bytes(location.file_idx, order) + u32_bytes(location.line, order) + u32_bytes(
        location.function_idx,
        order,
    ) + u32_bytes(location.inlined_into_idx, order)
}

/// The sixty-four bytes of the header.
pub open spec fn header_bytes(tables: Tables, order: ByteOrder) -> Seq<u8> {
    u32_bytes(raw::SYMCACHE_MAGIC, order) + u32_bytes(raw::SYMCACHE_VERSION, order) + u32_bytes(
        tables.strings.len() as u32,
        order,
    ) + u32_bytes(tables.files.len() as u32, order) + u32_bytes(
        tables.functions.len() as u32,
        order,
    ) + u32_bytes(tables.source_locations.len() as u32, order) + u32_bytes(
        tables.ranges.len() as u32,
        order,
    ) + u32_bytes(tables.string_bytes.len() as u32, order) + u64_bytes(
        tables.range_threshold,
        order,
    ) + tables.debug_id + u32_bytes(tables.arch, order) + zeros(4)
}

/// The section of the string records, without its padding.
pub open spec fn strings_section(tables: Tables, order: ByteOrder) -> Seq<u8> {
    concat(tables.strings.map_values(|s: raw::String| string_bytes(s, order)))
}

/// The section of the file records, without its padding.
pub open spec fn files_section(tables: Tables, order: ByteOrder) -> Seq<u8> {
    concat(tables.files.map_values(|file: raw::File| file_bytes(file, order)))
}

/// The section of the function records, without its padding.
pub open spec fn functions_section(tables: Tables, order: ByteOrder) -> Seq<u8> {
    concat(tables.functions.map_values(|function: raw::Function| function_bytes(function, order)))
}

/// The section of the source location records, without its padding.
pub open spec fn source_locations_section(tables: Tables, order: ByteOrder) -> Seq<u8> {
    concat(
        tables.source_locations.map_values(
            |location: raw::SourceLocation| source_location_bytes(location, order),
        ),
    )
}

/// The section of the range addresses, without its padding.
pub open spec fn ranges_section(tables: Tables, order: ByteOrder) -> Seq<u8> {
    concat(tables.ranges.map_values(|start: u32| u32_bytes(start, order)))
}

/// The bytes of a cache that holds `tables`, written in the given byte
/// order: the header and then each section, padded to a multiple of eight
/// bytes.
pub open spec fn encoded(tables: Tables, order: ByteOrder) -> Seq<u8> {
    header_bytes(tables, order) + padded_bytes(strings_section(tables, order)) + padded_bytes(
        files_section(tables, order),
    ) + padded_bytes(functions_section(tables, order)) + padded_bytes(
        source_locations_section(tables, order),
    ) + padded_bytes(ranges_section(tables, order)) + padded_bytes(tables.string_bytes)
}

/// Whether the tables can be written: every count fits in 32 bits, no more
/// ranges than source locations, and a debug identifier of sixteen bytes.
pub open spec fn is_writable(tables: Tables) -> bool {
    &&& tables.debug_id.len() == 16
    &&& tables.strings.len() <= 0xffff_ffff
    &&& tables.files.len() <= 0xffff_ffff
    &&& tables.functions.len() <= 0xffff_ffff
    &&& tables.source_locations.len() <= 0xffff_ffff
    &&& tables.ranges.len() <= tables.source_locations.len()
    &&& tables.string_bytes.len() <= 0xffff_ffff
}

/// Appends the zero bytes that pad `len` bytes to a multiple of eight.
pub fn write_padding(out: &mut Vec<u8>, len: u64)
    ensures
        final(out)@ == old(out)@ + zeros(padding(len as int)),
{
    let count: u64 = (8 - len % 8) % 8;
    let mut i: u64 = 0;
    while i < count
        invariant
            i <= count,
            count == padding(len as int),
            out@ == old(out)@ + zeros(i as int),
        decreases count - i,
    {
        out.push(0u8);
        i = i + 1;
        assert(out@ =~= old(out)@ + zeros(i as int));
    }
    assert(zeros(0) =~= Seq::<u8>::empty());
    assert(old(out)@ + Seq::<u8>::empty() =~= old(out)@);
}

/// Appends a string record.
pub fn write_string(out: &mut Vec<u8>, s: raw::String, order: ByteOrder)
    ensures
        final(out)@ == old(out)@ + string_bytes(s, order),
{
    write_u32(out, s.string_offset, order);
    write_u32(out, s.string_len, order);
    assert(out@ =~= old(out)@ + string_bytes(s, order));
}

/// Appends a file record.
pub fn write_file(out: &mut Vec<u8>, file: raw::File, order: ByteOrder)
    ensures
        final(out)@ == old(out)@ + file_bytes(file, order),
{
    write_u32(out, file.comp_dir_idx, order);
    write_u32(out, file.directory_idx, order);
    write_u32(out, file.path_name_idx, order);
    assert(out@ =~= old(out)@ + file_bytes(file, order));
}

/// Appends a function record.
pub fn write_function(out: &mut Vec<u8>, function: raw::Function, order: ByteOrder)
    ensures
        final(out)@ == old(out)@ + function_bytes(function, order),
{
    write_u32(out, function.name_idx, order);
    write_u32(out, function.entry_pc, order);
    out.push(function.lang);
    out.push(0u8);
    out.push(0u8);
    out.push(0u8);
    assert(out@ =~= old(out)@ + function_bytes(function, order));
}

/// Appends a source location record.
pub fn write_source_location(out: &mut Vec<u8>, location: raw::SourceLocation, order: ByteOrder)
    ensures
        final(out)@ == old(out)@ + source_location_bytes(location, order),
{
    write_u32(out, location.file_idx, order);
    write_u32(out, location.line, order);
    write_u32(out, location.function_idx, order);
    write_u32(out, location.inlined_into_idx, order);
    assert(out@ =~= old(out)@ + source_location_bytes(location, order));
}

/// The parts up to the one with index `n`, one after the other, together
/// with that part, are the parts up to the next one.
pub proof fn lemma_concat_step(parts: Seq<Seq<u8>>, n: int)
    requires
        0 <= n < parts.len(),
    ensures
        concat(parts.subrange(0, n + 1)) == concat(parts.subrange(0, n)) + parts[n],
{
    let next = parts.subrange(0, n + 1);
    assert(next.drop_last() =~= parts.subrange(0, n));
    assert(next.last() == parts[n]);
}

/// Appending one after the other is appending both at once.
pub proof fn lemma_append_twice(start: Seq<u8>, done: Seq<u8>, next: Seq<u8>)
    ensures
        (start + done) + next == start + (done + next),
{
    assert((start + done) + next =~= start + (done + next));
}

/// Parts of `size` bytes each come to `size` bytes times their number.
pub proof fn lemma_concat_len(parts: Seq<Seq<u8>>, size: int)
    requires
        forall|i: int| 0 <= i < parts.len() ==> (#[trigger] parts[i]).len() == size,
    ensures
        concat(parts).len() == size * parts.len(),
    decreases parts.len(),
{
    if parts.len() > 0 {
        let rest = parts.drop_last();
        assert forall|i: int| 0 <= i < rest.len() implies (#[trigger] rest[i]).len() == size by {
            assert(rest[i] == parts[i]);
        }
        lemma_concat_len(rest, size);
        assert(size * rest.len() + size == size * parts.len()) by (nonlinear_arith)
            requires
                rest.len() + 1 == parts.len(),
        ;
    } else {
        assert(size * 0 == 0);
    }
}

} // verus!
