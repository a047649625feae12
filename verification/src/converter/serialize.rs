//! Writing a converter out as the bytes of a cache.

use super::intern::append_bytes;
use super::ranges::{keys, values, Entry};
use super::state::{
    entries_precede, entry_precedes, file_is_valid, fits, is_valid, refers_into, State,
};
use super::Converter;
use crate::error::ErrorSink;
use crate::format::bytes::{native_order, u32_bytes, u64_bytes, write_u32, write_u64, ByteOrder};
use crate::format::encode::{
    concat, encoded, file_bytes, files_section, function_bytes, functions_section, header_bytes,
    is_writable, lemma_append_twice, lemma_concat_len, lemma_concat_step, padded_bytes, ranges_section, source_location_bytes,
    source_locations_section, string_bytes, strings_section, write_file, write_function,
    write_padding, write_source_location, write_string, zeros,
};
use crate::format::error::Error;
use crate::format::layout::{padding, parse_result, Tables};
use crate::format::lookup::{
    is_absent_or_below, is_lookup_start, lemma_lookup_on_a_boundary, links_descend,
    references_exist, strictly_ascending,
};
use crate::format::raw::relative_address;
use crate::format::round_trip::lemma_round_trip;
use crate::format::raw;
use vstd::prelude::*;

verus! {

/// Some statistics about a cache that was written.
#[derive(Debug)]
#[non_exhaustive]
pub struct Stats {}

/// An error that can come up while a cache is written. None is raised so
/// far: what does not fit the format is refused when it is inserted.
#[derive(Debug)]
#[non_exhaustive]
pub enum SerializeError {
    /// The tables do not fit the format.
    Oversized,
}

/// The tables of the cache that a converter in this state is written as: the
/// source locations of the ranges follow the others, and the start addresses
/// of the ranges stand beside them.
pub open spec fn tables_of(state: State) -> Tables {
    Tables {
        range_threshold: state.range_threshold,
        debug_id: state.debug_id,
        arch: state.arch,
        strings: state.string_refs,
        files: state.files,
        functions: state.functions,
        source_locations: state.source_locations + values(state.ranges),
        ranges: keys(state.ranges),
        string_bytes: state.string_bytes,
    }
}

/// The tables of a valid state can be written.
pub proof fn lemma_tables_are_writable(state: State)
    requires
        is_valid(state),
    ensures
        is_writable(tables_of(state)),
{
}

/// A cache that a converter writes is read back as the tables of the
/// converter.
pub proof fn lemma_written_cache_is_read_back(state: State, order: ByteOrder)
    requires
        is_valid(state),
    ensures
        parse_result(encoded(tables_of(state), order), order) == Ok::<Tables, Error>(
            tables_of(state),
        ),
{
    lemma_tables_are_writable(state);
    lemma_round_trip(tables_of(state), order);
}

/// In a cache that a converter writes, each range starts behind the one
/// before it.
pub proof fn lemma_written_ranges_ascend(state: State)
    requires
        is_valid(state),
    ensures
        strictly_ascending(tables_of(state).ranges),
{
    let ranges = tables_of(state).ranges;
    assert forall|i: int, j: int| 0 <= i < j < ranges.len() implies ranges[i] < ranges[j] by {
        assert(state.ranges[i].0 < state.ranges[j].0);
    }
}

/// In a cache that a converter writes, every index is absent or names an
/// entry that exists, and every string lies within the string bytes.
pub proof fn lemma_written_references_exist(state: State)
    requires
        is_valid(state),
    ensures
        references_exist(tables_of(state)),
{
    let tables = tables_of(state);
    let base = state.source_locations.len() as int;
    assert forall|i: int| 0 <= i < tables.source_locations.len() implies {
        &&& is_absent_or_below((#[trigger] tables.source_locations[i]).file_idx, tables.files.len())
        &&& is_absent_or_below(tables.source_locations[i].function_idx, tables.functions.len())
        &&& is_absent_or_below(
            tables.source_locations[i].inlined_into_idx,
            tables.source_locations.len(),
        )
    } by {
        if i < base {
            assert(tables.source_locations[i] == state.source_locations[i]);
        } else {
            assert(tables.source_locations[i] == state.ranges[i - base].1);
        }
    }
    assert forall|i: int| 0 <= i < tables.files.len() implies {
        &&& is_absent_or_below((#[trigger] tables.files[i]).comp_dir_idx, tables.strings.len())
        &&& is_absent_or_below(tables.files[i].directory_idx, tables.strings.len())
        &&& is_absent_or_below(tables.files[i].path_name_idx, tables.strings.len())
    } by {
        assert(file_is_valid(state.files[i], state.strings.len() as int));
    }
    assert forall|i: int| 0 <= i < tables.functions.len() implies is_absent_or_below(
        (#[trigger] tables.functions[i]).name_idx,
        tables.strings.len(),
    ) by {
        assert(refers_into(state.functions[i].name_idx, state.strings.len() as int));
    }
}

/// In a cache that a converter writes, every source location was inlined
/// into one that stands before it, if into any: the frames of a lookup form
/// a chain that ends and has no cycle.
pub proof fn lemma_written_links_descend(state: State)
    requires
        is_valid(state),
    ensures
        links_descend(tables_of(state)),
{
    let tables = tables_of(state);
    let base = state.source_locations.len() as int;
    assert forall|i: int| 0 <= i < tables.source_locations.len() implies {
        ||| (#[trigger] tables.source_locations[i]).inlined_into_idx == raw::NO_INDEX
        ||| tables.source_locations[i].inlined_into_idx < i
    } by {
        if i < base {
            assert(tables.source_locations[i] == state.source_locations[i]);
        } else {
            assert(tables.source_locations[i] == state.ranges[i - base].1);
            assert(fits(state, state.ranges[i - base].1));
        }
    }
}

/// Where every range of a converter lies at or behind the first instruction
/// of its function, a lookup of an address at which a range starts, in the
/// cache that the converter writes, begins at the source location of that
/// range, and the function of that frame starts at or before the address.
pub proof fn lemma_lookup_finds_a_function_that_starts_before(
    state: State,
    addr: u64,
    idx: u32,
    k: int,
)
    requires
        is_valid(state),
        entries_precede(state),
        0 <= k < state.ranges.len(),
        relative_address(state.range_threshold, addr) == Some(state.ranges[k].0),
        is_lookup_start(tables_of(state), addr, idx),
        idx != raw::NO_INDEX ==> idx < tables_of(state).source_locations.len(),
    ensures
        idx == state.source_locations.len() + k,
        tables_of(state).source_locations[idx as int] == state.ranges[k].1,
        state.ranges[k].1.function_idx < state.functions.len() ==> tables_of(
            state,
        ).functions[state.ranges[k].1.function_idx as int].entry_pc <= state.ranges[k].0,
{
    lemma_written_ranges_ascend(state);
    lemma_lookup_on_a_boundary(tables_of(state), addr, idx, k);
    assert(entry_precedes(state, state.ranges[k]));
}

impl Converter {
    /// Appends the cache to `writer`, in the byte order of this machine.
    ///
    /// The bytes are those that [`Converter::serialize_with_byte_order`]
    /// writes in one of the two orders. Nothing is handed to `error_sink`.
    pub fn serialize<E: ErrorSink<SerializeError>>(self, writer: &mut Vec<u8>, error_sink: &mut E) -> (stats:
        Stats)
        requires
            self.wf(),
        ensures
            final(writer)@ == old(writer)@ + encoded(tables_of(self@), ByteOrder::Little)
                || final(writer)@ == old(writer)@ + encoded(tables_of(self@), ByteOrder::Big),
            *final(error_sink) == *old(error_sink),
    {
        self.serialize_with_byte_order(writer, native_order())
    }

    /// Appends the cache to `writer`, in the given byte order.
    pub fn serialize_with_byte_order(self, writer: &mut Vec<u8>, order: ByteOrder) -> (stats: Stats)
        requires
            self.wf(),
        ensures
            final(writer)@ == old(writer)@ + encoded(tables_of(self@), order),
    {
        let ghost tables = tables_of(self@);
        let ghost start = writer@;
        self.write_header(writer, order);
        let ghost done = header_bytes(tables, order);
        self.write_strings(writer, order);
        proof {
            lemma_append_twice(start, done, padded_bytes(strings_section(tables, order)));
        }
        let ghost done = done + padded_bytes(strings_section(tables, order));
        self.write_files(writer, order);
        proof {
            lemma_append_twice(start, done, padded_bytes(files_section(tables, order)));
        }
        let ghost done = done + padded_bytes(files_section(tables, order));
        self.write_functions(writer, order);
        proof {
            lemma_append_twice(start, done, padded_bytes(functions_section(tables, order)));
        }
        let ghost done = done + padded_bytes(functions_section(tables, order));
        self.write_source_locations(writer, order);
        proof {
            lemma_append_twice(start, done, padded_bytes(source_locations_section(tables, order)));
        }
        let ghost done = done + padded_bytes(source_locations_section(tables, order));
        self.write_ranges(writer, order);
        proof {
            lemma_append_twice(start, done, padded_bytes(ranges_section(tables, order)));
        }
        let ghost done = done + padded_bytes(ranges_section(tables, order));
        self.write_string_bytes(writer);
        proof {
            lemma_append_twice(start, done, padded_bytes(tables.string_bytes));
        }
        Stats {  }
    }

    /// Appends the string bytes and their padding.
    fn write_string_bytes(&self, writer: &mut Vec<u8>)
        ensures
            final(writer)@ == old(writer)@ + padded_bytes(tables_of(self@).string_bytes),
    {
        let bytes = self.strings.as_bytes();
        append_bytes(writer, bytes);
        write_padding(writer, bytes.len() as u64);
        proof {
            lemma_append_twice(old(writer)@, bytes@, zeros(padding(bytes@.len() as int)));
        }
    }

    /// Appends the header.
    fn write_header(&self, writer: &mut Vec<u8>, order: ByteOrder)
        requires
            self.wf(),
        ensures
            final(writer)@ == old(writer)@ + header_bytes(tables_of(self@), order),
    {
        proof {
            self.strings.lemma_wf();
        }
        let ghost start = writer@;
        let num_strings: u32 = self.strings.len();
        let num_files: u32 = self.files.len();
        let num_functions: u32 = self.functions.len();
        let num_locations: u32 = self.source_locations.len();
        let num_ranges: usize = self.ranges.len();
        let string_bytes_len: usize = self.strings.as_bytes().len();
        let total: u32 = num_locations + num_ranges as u32;
        write_u32(writer, raw::SYMCACHE_MAGIC, order);
        let ghost done = u32_bytes(raw::SYMCACHE_MAGIC, order);
        write_u32(writer, raw::SYMCACHE_VERSION, order);
        proof {
            lemma_append_twice(start, done, u32_bytes(raw::SYMCACHE_VERSION, order));
        }
        let ghost done = done + u32_bytes(raw::SYMCACHE_VERSION, order);
        write_u32(writer, num_strings, order);
        proof {
            lemma_append_twice(start, done, u32_bytes(num_strings, order));
        }
        let ghost done = done + u32_bytes(num_strings, order);
        write_u32(writer, num_files, order);
        proof {
            lemma_append_twice(start, done, u32_bytes(num_files, order));
        }
        let ghost done = done + u32_bytes(num_files, order);
        write_u32(writer, num_functions, order);
        proof {
            lemma_append_twice(start, done, u32_bytes(num_functions, order));
        }
        let ghost done = done + u32_bytes(num_functions, order);
        write_u32(writer, total, order);
        proof {
            lemma_append_twice(start, done, u32_bytes(total, order));
        }
        let ghost done = done + u32_bytes(total, order);
        write_u32(writer, num_ranges as u32, order);
        proof {
            lemma_append_twice(start, done, u32_bytes(num_ranges as u32, order));
        }
        let ghost done = done + u32_bytes(num_ranges as u32, order);
        write_u32(writer, string_bytes_len as u32, order);
        proof {
            lemma_append_twice(start, done, u32_bytes(string_bytes_len as u32, order));
        }
        let ghost done = done + u32_bytes(string_bytes_len as u32, order);
        write_u64(writer, self.range_threshold, order);
        proof {
            lemma_append_twice(start, done, u64_bytes(self.range_threshold, order));
        }
        let ghost done = done + u64_bytes(self.range_threshold, order);
        append_bytes(writer, self.debug_id.as_slice());
        proof {
            lemma_append_twice(start, done, self.debug_id@);
        }
        let ghost done = done + self.debug_id@;
        write_u32(writer, self.arch, order);
        proof {
            lemma_append_twice(start, done, u32_bytes(self.arch, order));
        }
        let ghost done = done + u32_bytes(self.arch, order);
        write_padding(writer, 60);
        proof {
            lemma_append_twice(start, done, zeros(4));
            assert(tables_of(self@).source_locations.len() == total);
            assert(tables_of(self@).ranges.len() == num_ranges);
        }
    }

    /// Appends the section of the string records.
    fn write_strings(&self, writer: &mut Vec<u8>, order: ByteOrder)
        requires
            self.wf(),
        ensures
            final(writer)@ == old(writer)@ + padded_bytes(strings_section(tables_of(self@), order)),
    {
        let count: u32 = self.strings.len();
        let ghost parts = self.strings.refs().map_values(|s: raw::String| string_bytes(s, order));
        let mut i: u32 = 0;
        while i < count
            invariant
                i <= count,
                count == self.strings.refs().len(),
                parts == self.strings.refs().map_values(|s: raw::String| string_bytes(s, order)),
                writer@ == old(writer)@ + concat(parts.subrange(0, i as int)),
            decreases count - i,
        {
            let s = self.strings.get(i).unwrap();
            write_string(writer, s, order);
            proof {
                lemma_concat_step(parts, i as int);
                assert(writer@ =~= old(writer)@ + concat(parts.subrange(0, i + 1)));
            }
            i = i + 1;
        }
        assert(parts.subrange(0, i as int) =~= parts);
        write_padding(writer, 8 * (count as u64));
        proof {
            lemma_concat_len(parts, 8);
            assert(writer@ =~= old(writer)@ + padded_bytes(concat(parts)));
        }
    }

    /// Appends the section of the file records.
    fn write_files(&self, writer: &mut Vec<u8>, order: ByteOrder)
        requires
            self.wf(),
        ensures
            final(writer)@ == old(writer)@ + padded_bytes(files_section(tables_of(self@), order)),
    {
        let count: u32 = self.files.len();
        let ghost parts = self.files@.map_values(|file: raw::File| file_bytes(file, order));
        let mut i: u32 = 0;
        while i < count
            invariant
                i <= count,
                count == self.files@.len(),
                parts == self.files@.map_values(|file: raw::File| file_bytes(file, order)),
                writer@ == old(writer)@ + concat(parts.subrange(0, i as int)),
            decreases count - i,
        {
            let file = self.files.get(i).unwrap();
            write_file(writer, file, order);
            proof {
                lemma_concat_step(parts, i as int);
                assert(writer@ =~= old(writer)@ + concat(parts.subrange(0, i + 1)));
            }
            i = i + 1;
        }
        assert(parts.subrange(0, i as int) =~= parts);
        write_padding(writer, 12 * (count as u64));
        proof {
            lemma_concat_len(parts, 12);
            assert(writer@ =~= old(writer)@ + padded_bytes(concat(parts)));
        }
    }

    /// Appends the section of the function records.
    fn write_functions(&self, writer: &mut Vec<u8>, order: ByteOrder)
        requires
            self.wf(),
        ensures
            final(writer)@ == old(writer)@ + padded_bytes(
                functions_section(tables_of(self@), order),
            ),
    {
        let count: u32 = self.functions.len();
        let ghost parts = self.functions@.map_values(
            |function: raw::Function| function_bytes(function, order),
        );
        let mut i: u32 = 0;
        while i < count
            invariant
                i <= count,
                count == self.functions@.len(),
                parts == self.functions@.map_values(
                    |function: raw::Function| function_bytes(function, order),
                ),
                writer@ == old(writer)@ + concat(parts.subrange(0, i as int)),
            decreases count - i,
        {
            let function = self.functions.get(i).unwrap();
            write_function(writer, function, order);
            proof {
                lemma_concat_step(parts, i as int);
                assert(writer@ =~= old(writer)@ + concat(parts.subrange(0, i + 1)));
            }
            i = i + 1;
        }
        assert(parts.subrange(0, i as int) =~= parts);
        write_padding(writer, 12 * (count as u64));
        proof {
            lemma_concat_len(parts, 12);
            assert(writer@ =~= old(writer)@ + padded_bytes(concat(parts)));
        }
    }

    /// Appends the section of the source location records: first those of
    /// the table, then those of the ranges.
    fn write_source_locations(&self, writer: &mut Vec<u8>, order: ByteOrder)
        requires
            self.wf(),
        ensures
            final(writer)@ == old(writer)@ + padded_bytes(
                source_locations_section(tables_of(self@), order),
            ),
    {
        let num_locations: u32 = self.source_locations.len();
        let num_ranges: usize = self.ranges.len();
        let ghost parts = tables_of(self@).source_locations.map_values(
            |location: raw::SourceLocation| source_location_bytes(location, order),
        );
        let mut i: u32 = 0;
        while i < num_locations
            invariant
                i <= num_locations,
                num_locations == self.source_locations@.len(),
                parts.len() == num_locations + num_ranges,
                forall|k: int|
                    0 <= k < num_locations ==> #[trigger] parts[k] == source_location_bytes(
                        self.source_locations@[k],
                        order,
                    ),
                writer@ == old(writer)@ + concat(parts.subrange(0, i as int)),
            decreases num_locations - i,
        {
            let location = self.source_locations.get(i).unwrap();
            write_source_location(writer, location, order);
            proof {
                lemma_concat_step(parts, i as int);
                assert(writer@ =~= old(writer)@ + concat(parts.subrange(0, i + 1)));
            }
            i = i + 1;
        }
        let mut j: usize = 0;
        while j < num_ranges
            invariant
                j <= num_ranges,
                num_ranges == self.ranges@.len(),
                parts.len() == num_locations + num_ranges,
                forall|k: int|
                    0 <= k < num_ranges ==> #[trigger] parts[num_locations + k]
                        == source_location_bytes(self.ranges@[k].1, order),
                writer@ == old(writer)@ + concat(parts.subrange(0, num_locations + j)),
            decreases num_ranges - j,
        {
            let entry: Entry = self.ranges.get(j);
            write_source_location(writer, entry.1, order);
            proof {
                lemma_concat_step(parts, num_locations + j);
                assert(writer@ =~= old(writer)@ + concat(parts.subrange(0, num_locations + j + 1)));
            }
            j = j + 1;
        }
        assert(parts.subrange(0, num_locations + j) =~= parts);
        write_padding(writer, 16 * (num_locations as u64 + num_ranges as u64));
        proof {
            lemma_concat_len(parts, 16);
            assert(writer@ =~= old(writer)@ + padded_bytes(concat(parts)));
        }
    }

    /// Appends the section of the range addresses.
    fn write_ranges(&self, writer: &mut Vec<u8>, order: ByteOrder)
        requires
            self.wf(),
        ensures
            final(writer)@ == old(writer)@ + padded_bytes(ranges_section(tables_of(self@), order)),
    {
        let count: usize = self.ranges.len();
        let ghost parts = keys(self.ranges@).map_values(|start: u32| u32_bytes(start, order));
        let mut j: usize = 0;
        while j < count
            invariant
                j <= count,
                count == self.ranges@.len(),
                parts == keys(self.ranges@).map_values(|start: u32| u32_bytes(start, order)),
                writer@ == old(writer)@ + concat(parts.subrange(0, j as int)),
            decreases count - j,
        {
            let entry: Entry = self.ranges.get(j);
            write_u32(writer, entry.0, order);
            proof {
                lemma_concat_step(parts, j as int);
                assert(writer@ =~= old(writer)@ + concat(parts.subrange(0, j + 1)));
            }
            j = j + 1;
        }
        assert(parts.subrange(0, j as int) =~= parts);
        write_padding(writer, 4 * (count as u64));
        proof {
            lemma_concat_len(parts, 4);
            assert(writer@ =~= old(writer)@ + padded_bytes(concat(parts)));
        }
    }
}

} // verus!
