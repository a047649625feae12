//! Reading what was written gives the tables that were written.

use super::bytes::{
    lemma_u32_round_trip, lemma_u64_round_trip, u32_at, u32_bytes, u32_le, u64_at, u64_bytes,
    ByteOrder,
};
use super::encode::{
    concat, encoded, lemma_concat_len, file_bytes, files_section, function_bytes, functions_section, header_bytes,
    is_writable, padded_bytes, ranges_section, source_location_bytes, source_locations_section,
    string_bytes, strings_section, zeros,
};
use super::error::Error;
use super::layout::{
    content_len, file_in, files_start, function_in, functions_start, padded, padding,
    parse_result, ranges_start, shape_in, source_location_in, source_locations_start,
    string_bytes_start, string_in, strings_start, tables_in, Shape, Tables,
};
use super::raw;
use vstd::prelude::*;

verus! {

/// An integer takes four bytes.
pub proof fn lemma_u32_bytes_len(x: u32, order: ByteOrder)
    ensures
        u32_bytes(x, order).len() == 4,
{
    assert(u32_le(x).len() == 4);
    assert(u32_le(x).reverse().len() == 4);
}

/// A long integer takes eight bytes.
pub proof fn lemma_u64_bytes_len(x: u64, order: ByteOrder)
    ensures
        u64_bytes(x, order).len() == 8,
{
    lemma_u32_bytes_len((x % 0x1_0000_0000) as u32, order);
    lemma_u32_bytes_len((x / 0x1_0000_0000) as u32, order);
}

/// A part of a part of a sequence is a part of the sequence.
pub proof fn lemma_within<T>(s: Seq<T>, a: int, b: int, c: int, d: int)
    requires
        0 <= a <= b <= s.len(),
        0 <= c <= d <= b - a,
    ensures
        s.subrange(a, b).subrange(c, d) == s.subrange(a + c, a + d),
{
    assert(s.subrange(a, b).subrange(c, d) =~= s.subrange(a + c, a + d));
}

/// Where `piece` lies in `bytes` at `at`, and the integer `x` in `piece` at
/// `k`, the integer read from `bytes` at `at + k` is `x`.
pub proof fn lemma_u32_in_piece(
    bytes: Seq<u8>,
    at: int,
    piece: Seq<u8>,
    k: int,
    x: u32,
    order: ByteOrder,
)
    requires
        0 <= at,
        at + piece.len() <= bytes.len(),
        bytes.subrange(at, at + piece.len()) == piece,
        0 <= k,
        k + 4 <= piece.len(),
        piece.subrange(k, k + 4) == u32_bytes(x, order),
    ensures
        u32_at(bytes, at + k, order) == x,
{
    lemma_within(bytes, at, at + piece.len(), k, k + 4);
    lemma_u32_round_trip(bytes, at + k, x, order);
}

/// A string record is read back from its eight bytes.
pub proof fn lemma_string_round_trip(bytes: Seq<u8>, at: int, s: raw::String, order: ByteOrder)
    requires
        0 <= at,
        at + 8 <= bytes.len(),
        bytes.subrange(at, at + 8) == string_bytes(s, order),
    ensures
        string_in(bytes, at, order) == s,
{
    let piece = string_bytes(s, order);
    lemma_u32_bytes_len(s.string_offset, order);
    lemma_u32_bytes_len(s.string_len, order);
    assert(piece.subrange(0, 4) =~= u32_bytes(s.string_offset, order));
    assert(piece.subrange(4, 8) =~= u32_bytes(s.string_len, order));
    lemma_u32_in_piece(bytes, at, piece, 0, s.string_offset, order);
    lemma_u32_in_piece(bytes, at, piece, 4, s.string_len, order);
}

/// A file record is read back from its twelve bytes.
pub proof fn lemma_file_round_trip(bytes: Seq<u8>, at: int, file: raw::File, order: ByteOrder)
    requires
        0 <= at,
        at + 12 <= bytes.len(),
        bytes.subrange(at, at + 12) == file_bytes(file, order),
    ensures
        file_in(bytes, at, order) == file,
{
    let piece = file_bytes(file, order);
    lemma_u32_bytes_len(file.comp_dir_idx, order);
    lemma_u32_bytes_len(file.directory_idx, order);
    lemma_u32_bytes_len(file.path_name_idx, order);
    assert(piece.subrange(0, 4) =~= u32_bytes(file.comp_dir_idx, order));
    assert(piece.subrange(4, 8) =~= u32_bytes(file.directory_idx, order));
    assert(piece.subrange(8, 12) =~= u32_bytes(file.path_name_idx, order));
    lemma_u32_in_piece(bytes, at, piece, 0, file.comp_dir_idx, order);
    lemma_u32_in_piece(bytes, at, piece, 4, file.directory_idx, order);
    lemma_u32_in_piece(bytes, at, piece, 8, file.path_name_idx, order);
}

/// A function record is read back from its twelve bytes.
pub proof fn lemma_function_round_trip(
    bytes: Seq<u8>,
    at: int,
    function: raw::Function,
    order: ByteOrder,
)
    requires
        0 <= at,
        at + 12 <= bytes.len(),
        bytes.subrange(at, at + 12) == function_bytes(function, order),
    ensures
        function_in(bytes, at, order) == function,
{
    let piece = function_bytes(function, order);
    lemma_u32_bytes_len(function.name_idx, order);
    lemma_u32_bytes_len(function.entry_pc, order);
    assert(piece.subrange(0, 4) =~= u32_bytes(function.name_idx, order));
    assert(piece.subrange(4, 8) =~= u32_bytes(function.entry_pc, order));
    lemma_u32_in_piece(bytes, at, piece, 0, function.name_idx, order);
    lemma_u32_in_piece(bytes, at, piece, 4, function.entry_pc, order);
    assert(piece[8] == function.lang);
    assert(bytes.subrange(at, at + 12)[8] == bytes[at + 8]);
}

/// A source location record is read back from its sixteen bytes.
pub proof fn lemma_source_location_round_trip(
    bytes: Seq<u8>,
    at: int,
    location: raw::SourceLocation,
    order: ByteOrder,
)
    requires
        0 <= at,
        at + 16 <= bytes.len(),
        bytes.subrange(at, at + 16) == source_location_bytes(location, order),
    ensures
        source_location_in(bytes, at, order) == location,
{
    let piece = source_location_bytes(location, order);
    lemma_u32_bytes_len(location.file_idx, order);
    lemma_u32_bytes_len(location.line, order);
    lemma_u32_bytes_len(location.function_idx, order);
    lemma_u32_bytes_len(location.inlined_into_idx, order);
    assert(piece.subrange(0, 4) =~= u32_bytes(location.file_idx, order));
    assert(piece.subrange(4, 8) =~= u32_bytes(location.line, order));
    assert(piece.subrange(8, 12) =~= u32_bytes(location.function_idx, order));
    assert(piece.subrange(12, 16) =~= u32_bytes(location.inlined_into_idx, order));
    lemma_u32_in_piece(bytes, at, piece, 0, location.file_idx, order);
    lemma_u32_in_piece(bytes, at, piece, 4, location.line, order);
    lemma_u32_in_piece(bytes, at, piece, 8, location.function_idx, order);
    lemma_u32_in_piece(bytes, at, piece, 12, location.inlined_into_idx, order);
}

/// Parts of `size` bytes each come to `size` bytes times their number, and
/// part `j` lies at `j` times `size`.
pub proof fn lemma_concat_part(parts: Seq<Seq<u8>>, size: int, j: int)
    requires
        0 <= size,
        forall|i: int| 0 <= i < parts.len() ==> (#[trigger] parts[i]).len() == size,
        0 <= j < parts.len(),
    ensures
        concat(parts).len() == size * parts.len(),
        0 <= j * size,
        j * size + size <= concat(parts).len(),
        concat(parts).subrange(j * size, j * size + size) == parts[j],
    decreases parts.len(),
{
    let rest = parts.drop_last();
    let n = parts.len() as int;
    assert forall|i: int| 0 <= i < rest.len() implies (#[trigger] rest[i]).len() == size by {
        assert(rest[i] == parts[i]);
    }
    lemma_concat_len(rest, size);
    lemma_concat_len(parts, size);
    assert(size * (n - 1) + size == size * n) by (nonlinear_arith);
    assert(0 <= j * size && j * size + size <= size * n) by (nonlinear_arith)
        requires
            0 <= j < n,
            0 <= size,
    ;
    if j == n - 1 {
        assert(j * size == size * (n - 1)) by (nonlinear_arith)
            requires
                j == n - 1,
        ;
        assert(concat(parts).subrange(j * size, j * size + size) =~= parts[j]);
    } else {
        lemma_concat_part(rest, size, j);
        assert(rest[j] == parts[j]);
        assert(j * size + size <= size * (n - 1)) by (nonlinear_arith)
            requires
                0 <= j < n - 1,
                0 <= size,
        ;
        assert(concat(parts).subrange(j * size, j * size + size) =~= concat(rest).subrange(
            j * size,
            j * size + size,
        ));
    }
}

/// Where the sections of a cache lie in its bytes.
pub proof fn lemma_sections(
    h: Seq<u8>,
    s1: Seq<u8>,
    s2: Seq<u8>,
    s3: Seq<u8>,
    s4: Seq<u8>,
    s5: Seq<u8>,
    s6: Seq<u8>,
)
    ensures
        ({
            let b = h + padded_bytes(s1) + padded_bytes(s2) + padded_bytes(s3) + padded_bytes(s4)
                + padded_bytes(s5) + padded_bytes(s6);
            let o1 = h.len() as int;
            let o2 = o1 + padded(s1.len() as int);
            let o3 = o2 + padded(s2.len() as int);
            let o4 = o3 + padded(s3.len() as int);
            let o5 = o4 + padded(s4.len() as int);
            let o6 = o5 + padded(s5.len() as int);
            &&& b.len() == o6 + padded(s6.len() as int)
            &&& b.subrange(0, o1) == h
            &&& b.subrange(o1, o1 + s1.len()) == s1
            &&& b.subrange(o2, o2 + s2.len()) == s2
            &&& b.subrange(o3, o3 + s3.len()) == s3
            &&& b.subrange(o4, o4 + s4.len()) == s4
            &&& b.subrange(o5, o5 + s5.len()) == s5
            &&& b.subrange(o6, o6 + s6.len()) == s6
        }),
{
    let b = h + padded_bytes(s1) + padded_bytes(s2) + padded_bytes(s3) + padded_bytes(s4)
        + padded_bytes(s5) + padded_bytes(s6);
    let o1 = h.len() as int;
    let o2 = o1 + padded(s1.len() as int);
    let o3 = o2 + padded(s2.len() as int);
    let o4 = o3 + padded(s3.len() as int);
    let o5 = o4 + padded(s4.len() as int);
    let o6 = o5 + padded(s5.len() as int);
    assert(b.subrange(0, o1) =~= h);
    assert(b.subrange(o1, o1 + s1.len()) =~= s1);
    assert(b.subrange(o2, o2 + s2.len()) =~= s2);
    assert(b.subrange(o3, o3 + s3.len()) =~= s3);
    assert(b.subrange(o4, o4 + s4.len()) =~= s4);
    assert(b.subrange(o5, o5 + s5.len()) =~= s5);
    assert(b.subrange(o6, o6 + s6.len()) =~= s6);
}

/// Where the fields of a header lie in its bytes.
pub proof fn lemma_header_fields(
    f0: Seq<u8>,
    f1: Seq<u8>,
    f2: Seq<u8>,
    f3: Seq<u8>,
    f4: Seq<u8>,
    f5: Seq<u8>,
    f6: Seq<u8>,
    f7: Seq<u8>,
    f8: Seq<u8>,
    f9: Seq<u8>,
    f10: Seq<u8>,
    f11: Seq<u8>,
)
    requires
        f0.len() == 4,
        f1.len() == 4,
        f2.len() == 4,
        f3.len() == 4,
        f4.len() == 4,
        f5.len() == 4,
        f6.len() == 4,
        f7.len() == 4,
        f8.len() == 8,
        f9.len() == 16,
        f10.len() == 4,
        f11.len() == 4,
    ensures
        ({
            let h = f0 + f1 + f2 + f3 + f4 + f5 + f6 + f7 + f8 + f9 + f10 + f11;
            &&& h.len() == 64
            &&& h.subrange(0, 4) == f0
            &&& h.subrange(4, 8) == f1
            &&& h.subrange(8, 12) == f2
            &&& h.subrange(12, 16) == f3
            &&& h.subrange(16, 20) == f4
            &&& h.subrange(20, 24) == f5
            &&& h.subrange(24, 28) == f6
            &&& h.subrange(28, 32) == f7
            &&& h.subrange(32, 40) == f8
            &&& h.subrange(40, 56) == f9
            &&& h.subrange(56, 60) == f10
        }),
{
    let h = f0 + f1 + f2 + f3 + f4 + f5 + f6 + f7 + f8 + f9 + f10 + f11;
    assert(h.subrange(0, 4) =~= f0);
    assert(h.subrange(4, 8) =~= f1);
    assert(h.subrange(8, 12) =~= f2);
    assert(h.subrange(12, 16) =~= f3);
    assert(h.subrange(16, 20) =~= f4);
    assert(h.subrange(20, 24) =~= f5);
    assert(h.subrange(24, 28) =~= f6);
    assert(h.subrange(28, 32) =~= f7);
    assert(h.subrange(32, 40) =~= f8);
    assert(h.subrange(40, 56) =~= f9);
    assert(h.subrange(56, 60) =~= f10);
}

/// The string records are read back from their section.
pub proof fn lemma_strings_round_trip(bytes: Seq<u8>, at: int, strings: Seq<raw::String>, order: ByteOrder)
    requires
        0 <= at,
        at + 8 * strings.len() <= bytes.len(),
        bytes.subrange(at, at + 8 * strings.len()) == concat(
            strings.map_values(|s: raw::String| string_bytes(s, order)),
        ),
    ensures
        forall|i: int|
            0 <= i < strings.len() ==> #[trigger] string_in(bytes, at + 8 * i, order) == strings[i],
{
    let parts = strings.map_values(|s: raw::String| string_bytes(s, order));
    assert forall|i: int| 0 <= i < parts.len() implies (#[trigger] parts[i]).len() == 8 by {
        lemma_u32_bytes_len(strings[i].string_offset, order);
        lemma_u32_bytes_len(strings[i].string_len, order);
    }
    assert forall|i: int| 0 <= i < strings.len() implies #[trigger] string_in(
        bytes,
        at + 8 * i,
        order,
    ) == strings[i] by {
        lemma_concat_part(parts, 8, i);
        lemma_within(bytes, at, at + 8 * strings.len(), i * 8, i * 8 + 8);
        lemma_string_round_trip(bytes, at + 8 * i, strings[i], order);
    }
}

/// The file records are read back from their section.
pub proof fn lemma_files_round_trip(bytes: Seq<u8>, at: int, files: Seq<raw::File>, order: ByteOrder)
    requires
        0 <= at,
        at + 12 * files.len() <= bytes.len(),
        bytes.subrange(at, at + 12 * files.len()) == concat(
            files.map_values(|file: raw::File| file_bytes(file, order)),
        ),
    ensures
        forall|i: int|
            0 <= i < files.len() ==> #[trigger] file_in(bytes, at + 12 * i, order) == files[i],
{
    let parts = files.map_values(|file: raw::File| file_bytes(file, order));
    assert forall|i: int| 0 <= i < parts.len() implies (#[trigger] parts[i]).len() == 12 by {
        lemma_u32_bytes_len(files[i].comp_dir_idx, order);
        lemma_u32_bytes_len(files[i].directory_idx, order);
        lemma_u32_bytes_len(files[i].path_name_idx, order);
    }
    assert forall|i: int| 0 <= i < files.len() implies #[trigger] file_in(
        bytes,
        at + 12 * i,
        order,
    ) == files[i] by {
        lemma_concat_part(parts, 12, i);
        lemma_within(bytes, at, at + 12 * files.len(), i * 12, i * 12 + 12);
        lemma_file_round_trip(bytes, at + 12 * i, files[i], order);
    }
}

/// The function records are read back from their section.
pub proof fn lemma_functions_round_trip(
    bytes: Seq<u8>,
    at: int,
    functions: Seq<raw::Function>,
    order: ByteOrder,
)
    requires
        0 <= at,
        at + 12 * functions.len() <= bytes.len(),
        bytes.subrange(at, at + 12 * functions.len()) == concat(
            functions.map_values(|function: raw::Function| function_bytes(function, order)),
        ),
    ensures
        forall|i: int|
            0 <= i < functions.len() ==> #[trigger] function_in(bytes, at + 12 * i, order)
                == functions[i],
{
    let parts = functions.map_values(|function: raw::Function| function_bytes(function, order));
    assert forall|i: int| 0 <= i < parts.len() implies (#[trigger] parts[i]).len() == 12 by {
        lemma_u32_bytes_len(functions[i].name_idx, order);
        lemma_u32_bytes_len(functions[i].entry_pc, order);
    }
    assert forall|i: int| 0 <= i < functions.len() implies #[trigger] function_in(
        bytes,
        at + 12 * i,
        order,
    ) == functions[i] by {
        lemma_concat_part(parts, 12, i);
        lemma_within(bytes, at, at + 12 * functions.len(), i * 12, i * 12 + 12);
        lemma_function_round_trip(bytes, at + 12 * i, functions[i], order);
    }
}

/// The source location records are read back from their section.
pub proof fn lemma_source_locations_round_trip(
    bytes: Seq<u8>,
    at: int,
    locations: Seq<raw::SourceLocation>,
    order: ByteOrder,
)
    requires
        0 <= at,
        at + 16 * locations.len() <= bytes.len(),
        bytes.subrange(at, at + 16 * locations.len()) == concat(
            locations.map_values(
                |location: raw::SourceLocation| source_location_bytes(location, order),
            ),
        ),
    ensures
        forall|i: int|
            0 <= i < locations.len() ==> #[trigger] source_location_in(bytes, at + 16 * i, order)
                == locations[i],
{
    let parts = locations.map_values(
        |location: raw::SourceLocation| source_location_bytes(location, order),
    );
    assert forall|i: int| 0 <= i < parts.len() implies (#[trigger] parts[i]).len() == 16 by {
        lemma_u32_bytes_len(locations[i].file_idx, order);
        lemma_u32_bytes_len(locations[i].line, order);
        lemma_u32_bytes_len(locations[i].function_idx, order);
        lemma_u32_bytes_len(locations[i].inlined_into_idx, order);
    }
    assert forall|i: int| 0 <= i < locations.len() implies #[trigger] source_location_in(
        bytes,
        at + 16 * i,
        order,
    ) == locations[i] by {
        lemma_concat_part(parts, 16, i);
        lemma_within(bytes, at, at + 16 * locations.len(), i * 16, i * 16 + 16);
        lemma_source_location_round_trip(bytes, at + 16 * i, locations[i], order);
    }
}

/// The range addresses are read back from their section.
pub proof fn lemma_ranges_round_trip(bytes: Seq<u8>, at: int, ranges: Seq<u32>, order: ByteOrder)
    requires
        0 <= at,
        at + 4 * ranges.len() <= bytes.len(),
        bytes.subrange(at, at + 4 * ranges.len()) == concat(
            ranges.map_values(|start: u32| u32_bytes(start, order)),
        ),
    ensures
        forall|i: int| 0 <= i < ranges.len() ==> #[trigger] u32_at(bytes, at + 4 * i, order) == ranges[i],
{
    let parts = ranges.map_values(|start: u32| u32_bytes(start, order));
    assert forall|i: int| 0 <= i < parts.len() implies (#[trigger] parts[i]).len() == 4 by {
        lemma_u32_bytes_len(ranges[i], order);
    }
    assert forall|i: int| 0 <= i < ranges.len() implies #[trigger] u32_at(
        bytes,
        at + 4 * i,
        order,
    ) == ranges[i] by {
        lemma_concat_part(parts, 4, i);
        lemma_within(bytes, at, at + 4 * ranges.len(), i * 4, i * 4 + 4);
        lemma_u32_round_trip(bytes, at + 4 * i, ranges[i], order);
    }
}

/// The header is read back from the first sixty-four bytes.
pub proof fn lemma_header_round_trip(bytes: Seq<u8>, tables: Tables, order: ByteOrder)
    requires
        is_writable(tables),
        64 <= bytes.len(),
        bytes.subrange(0, 64) == header_bytes(tables, order),
    ensures
        u32_at(bytes, 0, order) == raw::SYMCACHE_MAGIC,
        u32_at(bytes, 4, order) == raw::SYMCACHE_VERSION,
        shape_in(bytes, order) == shape_of(tables),
        u64_at(bytes, 32, order) == tables.range_threshold,
        bytes.subrange(40, 56) == tables.debug_id,
        u32_at(bytes, 56, order) == tables.arch,
{
    let h = header_bytes(tables, order);
    let f0 = u32_bytes(raw::SYMCACHE_MAGIC, order);
    let f1 = u32_bytes(raw::SYMCACHE_VERSION, order);
    let f2 = u32_bytes(tables.strings.len() as u32, order);
    let f3 = u32_bytes(tables.files.len() as u32, order);
    let f4 = u32_bytes(tables.functions.len() as u32, order);
    let f5 = u32_bytes(tables.source_locations.len() as u32, order);
    let f6 = u32_bytes(tables.ranges.len() as u32, order);
    let f7 = u32_bytes(tables.string_bytes.len() as u32, order);
    let f8 = u64_bytes(tables.range_threshold, order);
    let f9 = tables.debug_id;
    let f10 = u32_bytes(tables.arch, order);
    let f11 = zeros(4);
    lemma_u32_bytes_len(raw::SYMCACHE_MAGIC, order);
    lemma_u32_bytes_len(raw::SYMCACHE_VERSION, order);
    lemma_u32_bytes_len(tables.strings.len() as u32, order);
    lemma_u32_bytes_len(tables.files.len() as u32, order);
    lemma_u32_bytes_len(tables.functions.len() as u32, order);
    lemma_u32_bytes_len(tables.source_locations.len() as u32, order);
    lemma_u32_bytes_len(tables.ranges.len() as u32, order);
    lemma_u32_bytes_len(tables.string_bytes.len() as u32, order);
    lemma_u64_bytes_len(tables.range_threshold, order);
    lemma_u32_bytes_len(tables.arch, order);
    lemma_header_fields(f0, f1, f2, f3, f4, f5, f6, f7, f8, f9, f10, f11);
    lemma_u32_in_piece(bytes, 0, h, 0, raw::SYMCACHE_MAGIC, order);
    lemma_u32_in_piece(bytes, 0, h, 4, raw::SYMCACHE_VERSION, order);
    lemma_u32_in_piece(bytes, 0, h, 8, tables.strings.len() as u32, order);
    lemma_u32_in_piece(bytes, 0, h, 12, tables.files.len() as u32, order);
    lemma_u32_in_piece(bytes, 0, h, 16, tables.functions.len() as u32, order);
    lemma_u32_in_piece(bytes, 0, h, 20, tables.source_locations.len() as u32, order);
    lemma_u32_in_piece(bytes, 0, h, 24, tables.ranges.len() as u32, order);
    lemma_u32_in_piece(bytes, 0, h, 28, tables.string_bytes.len() as u32, order);
    lemma_u32_in_piece(bytes, 0, h, 56, tables.arch, order);
    lemma_within(bytes, 0, 64, 32, 40);
    lemma_u64_round_trip(bytes, 32, tables.range_threshold, order);
    lemma_within(bytes, 0, 64, 40, 56);
}

/// The number of entries in each of the tables.
pub open spec fn shape_of(tables: Tables) -> Shape {
    Shape {
        strings: tables.strings.len() as int,
        files: tables.files.len() as int,
        functions: tables.functions.len() as int,
        source_locations: tables.source_locations.len() as int,
        ranges: tables.ranges.len() as int,
        string_bytes: tables.string_bytes.len() as int,
    }
}

/// Where the header and the sections lie in the bytes that stand for the
/// tables, and that the header is read back from them.
pub proof fn lemma_layout(tables: Tables, order: ByteOrder)
    requires
        is_writable(tables),
    ensures
        ({
            let b = encoded(tables, order);
            let shape = shape_of(tables);
            &&& 64 <= b.len()
            &&& content_len(shape) <= b.len()
            &&& u32_at(b, 0, order) == raw::SYMCACHE_MAGIC
            &&& u32_at(b, 4, order) == raw::SYMCACHE_VERSION
            &&& shape_in(b, order) == shape
            &&& u64_at(b, 32, order) == tables.range_threshold
            &&& b.subrange(40, 56) == tables.debug_id
            &&& u32_at(b, 56, order) == tables.arch
            &&& b.subrange(strings_start(), strings_start() + 8 * tables.strings.len())
                == strings_section(tables, order)
            &&& b.subrange(files_start(shape), files_start(shape) + 12 * tables.files.len())
                == files_section(tables, order)
            &&& b.subrange(
                functions_start(shape),
                functions_start(shape) + 12 * tables.functions.len(),
            ) == functions_section(tables, order)
            &&& b.subrange(
                source_locations_start(shape),
                source_locations_start(shape) + 16 * tables.source_locations.len(),
            ) == source_locations_section(tables, order)
            &&& b.subrange(ranges_start(shape), ranges_start(shape) + 4 * tables.ranges.len())
                == ranges_section(tables, order)
            &&& b.subrange(
                string_bytes_start(shape),
                string_bytes_start(shape) + tables.string_bytes.len(),
            ) == tables.string_bytes
        }),
{
    let b = encoded(tables, order);
    let h = header_bytes(tables, order);
    let s1 = strings_section(tables, order);
    let s2 = files_section(tables, order);
    let s3 = functions_section(tables, order);
    let s4 = source_locations_section(tables, order);
    let s5 = ranges_section(tables, order);
    let s6 = tables.string_bytes;
    lemma_section_lengths(tables, order);
    lemma_sections(h, s1, s2, s3, s4, s5, s6);
    lemma_header_round_trip(b, tables, order);
}

/// Reading a cache that was written gives the tables that were written:
/// whatever tables fit the format, the bytes that stand for them parse, in
/// the byte order they were written in, to those tables.
pub proof fn lemma_round_trip(tables: Tables, order: ByteOrder)
    requires
        is_writable(tables),
    ensures
        parse_result(encoded(tables, order), order) == Ok::<Tables, Error>(tables),
{
    let b = encoded(tables, order);
    let shape = shape_of(tables);
    lemma_layout(tables, order);
    lemma_tables_read_back(b, tables, order);
}

/// Bytes in which the header and the sections of the tables lie where the
/// layout says are read as those tables.
pub proof fn lemma_tables_read_back(b: Seq<u8>, tables: Tables, order: ByteOrder)
    requires
        is_writable(tables),
        64 <= b.len(),
        content_len(shape_of(tables)) <= b.len(),
        shape_in(b, order) == shape_of(tables),
        u64_at(b, 32, order) == tables.range_threshold,
        b.subrange(40, 56) == tables.debug_id,
        u32_at(b, 56, order) == tables.arch,
        b.subrange(strings_start(), strings_start() + 8 * tables.strings.len()) == strings_section(
            tables,
            order,
        ),
        b.subrange(
            files_start(shape_of(tables)),
            files_start(shape_of(tables)) + 12 * tables.files.len(),
        ) == files_section(tables, order),
        b.subrange(
            functions_start(shape_of(tables)),
            functions_start(shape_of(tables)) + 12 * tables.functions.len(),
        ) == functions_section(tables, order),
        b.subrange(
            source_locations_start(shape_of(tables)),
            source_locations_start(shape_of(tables)) + 16 * tables.source_locations.len(),
        ) == source_locations_section(tables, order),
        b.subrange(
            ranges_start(shape_of(tables)),
            ranges_start(shape_of(tables)) + 4 * tables.ranges.len(),
        ) == ranges_section(tables, order),
        b.subrange(
            string_bytes_start(shape_of(tables)),
            string_bytes_start(shape_of(tables)) + tables.string_bytes.len(),
        ) == tables.string_bytes,
    ensures
        tables_in(b, order) == tables,
{
    let shape = shape_of(tables);
    lemma_strings_round_trip(b, strings_start(), tables.strings, order);
    lemma_files_round_trip(b, files_start(shape), tables.files, order);
    lemma_functions_round_trip(b, functions_start(shape), tables.functions, order);
    lemma_source_locations_round_trip(
        b,
        source_locations_start(shape),
        tables.source_locations,
        order,
    );
    lemma_ranges_round_trip(b, ranges_start(shape), tables.ranges, order);
    let read = tables_in(b, order);
    assert(read.strings =~= tables.strings);
    assert(read.files =~= tables.files);
    assert(read.functions =~= tables.functions);
    assert(read.source_locations =~= tables.source_locations);
    assert(read.ranges =~= tables.ranges);
}

/// How long the header and the sections are.
pub proof fn lemma_section_lengths(tables: Tables, order: ByteOrder)
    requires
        is_writable(tables),
    ensures
        header_bytes(tables, order).len() == 64,
        strings_section(tables, order).len() == 8 * tables.strings.len(),
        files_section(tables, order).len() == 12 * tables.files.len(),
        functions_section(tables, order).len() == 12 * tables.functions.len(),
        source_locations_section(tables, order).len() == 16 * tables.source_locations.len(),
        ranges_section(tables, order).len() == 4 * tables.ranges.len(),
{
    lemma_u32_bytes_len(raw::SYMCACHE_MAGIC, order);
    lemma_u32_bytes_len(raw::SYMCACHE_VERSION, order);
    lemma_u32_bytes_len(tables.strings.len() as u32, order);
    lemma_u32_bytes_len(tables.files.len() as u32, order);
    lemma_u32_bytes_len(tables.functions.len() as u32, order);
    lemma_u32_bytes_len(tables.source_locations.len() as u32, order);
    lemma_u32_bytes_len(tables.ranges.len() as u32, order);
    lemma_u32_bytes_len(tables.string_bytes.len() as u32, order);
    lemma_u64_bytes_len(tables.range_threshold, order);
    lemma_u32_bytes_len(tables.arch, order);
    let strings = tables.strings.map_values(|s: raw::String| string_bytes(s, order));
    assert forall|i: int| 0 <= i < strings.len() implies (#[trigger] strings[i]).len() == 8 by {
        lemma_u32_bytes_len(tables.strings[i].string_offset, order);
        lemma_u32_bytes_len(tables.strings[i].string_len, order);
    }
    lemma_concat_len(strings, 8);
    let files = tables.files.map_values(|file: raw::File| file_bytes(file, order));
    assert forall|i: int| 0 <= i < files.len() implies (#[trigger] files[i]).len() == 12 by {
        lemma_u32_bytes_len(tables.files[i].comp_dir_idx, order);
        lemma_u32_bytes_len(tables.files[i].directory_idx, order);
        lemma_u32_bytes_len(tables.files[i].path_name_idx, order);
    }
    lemma_concat_len(files, 12);
    let functions = tables.functions.map_values(
        |function: raw::Function| function_bytes(function, order),
    );
    assert forall|i: int| 0 <= i < functions.len() implies (#[trigger] functions[i]).len()
        == 12 by {
        lemma_u32_bytes_len(tables.functions[i].name_idx, order);
        lemma_u32_bytes_len(tables.functions[i].entry_pc, order);
    }
    lemma_concat_len(functions, 12);
    let locations = tables.source_locations.map_values(
        |location: raw::SourceLocation| source_location_bytes(location, order),
    );
    assert forall|i: int| 0 <= i < locations.len() implies (#[trigger] locations[i]).len()
        == 16 by {
        lemma_u32_bytes_len(tables.source_locations[i].file_idx, order);
        lemma_u32_bytes_len(tables.source_locations[i].line, order);
        lemma_u32_bytes_len(tables.source_locations[i].function_idx, order);
        lemma_u32_bytes_len(tables.source_locations[i].inlined_into_idx, order);
    }
    lemma_concat_len(locations, 16);
    let ranges = tables.ranges.map_values(|start: u32| u32_bytes(start, order));
    assert forall|i: int| 0 <= i < ranges.len() implies (#[trigger] ranges[i]).len() == 4 by {
        lemma_u32_bytes_len(tables.ranges[i], order);
    }
    lemma_concat_len(ranges, 4);
}

} // verus!
