//! Lookups that resolve every frame to its names.

use crate::converter::breakpad::{with_breakpad, BreakpadSymbols};
use crate::converter::dwarf::unit::{unit_errors, with_units};
use crate::converter::dwarf::{CompilationUnit, DwarfError};
use crate::converter::serialize::tables_of;
use crate::converter::{empty_state, Converter};
use crate::error::{took_all, ErrorSink};
use crate::format::bytes::ByteOrder;
use crate::format::cache::SymCache;
use crate::format::encode::encoded;
use crate::format::error::Error;
use crate::format::layout::Tables;
use crate::format::lookup::{
    fragment, full_path_of, is_full_path, is_lookup_start, is_string_error, string_at,
    SourceLocation, StringAt,
};
use crate::format::raw;
use std::ops::Range;
use vstd::prelude::*;

verus! {

/// A frame of a lookup with its names resolved.
#[derive(Debug, PartialEq)]
pub struct ResolvedFrame {
    /// The name of the function; empty where the frame has none.
    pub function: String,
    /// The full path of the file; empty where the frame has none.
    pub file: String,
    /// The line; zero where it is not known.
    pub line: u32,
}

/// What asking for the name of the function of a source location comes to.
pub open spec fn function_name_at(tables: Tables, location: raw::SourceLocation) -> StringAt {
    if location.function_idx != raw::NO_INDEX && location.function_idx < tables.functions.len() {
        string_at(tables, tables.functions[location.function_idx as int].name_idx)
    } else {
        StringAt::Absent
    }
}

/// Whether a string can be read, or is absent.
pub open spec fn is_readable(at: StringAt) -> bool {
    at is Absent || at is Found
}

/// Whether the three fragments of the path of a file can be read.
pub open spec fn path_is_readable(tables: Tables, file: raw::File) -> bool {
    &&& is_readable(string_at(tables, file.comp_dir_idx))
    &&& is_readable(string_at(tables, file.directory_idx))
    &&& is_readable(string_at(tables, file.path_name_idx))
}

/// Whether everything that a source location names can be read.
pub open spec fn resolves(tables: Tables, location: raw::SourceLocation) -> bool {
    &&& location.function_idx == raw::NO_INDEX || location.function_idx < tables.functions.len()
    &&& location.file_idx == raw::NO_INDEX || location.file_idx < tables.files.len()
    &&& is_readable(function_name_at(tables, location))
    &&& location.file_idx != raw::NO_INDEX && location.file_idx < tables.files.len()
        ==> path_is_readable(tables, tables.files[location.file_idx as int])
}

/// The full path of the file of a source location; empty where it has none.
pub open spec fn file_path_at(tables: Tables, location: raw::SourceLocation) -> Seq<char> {
    if location.file_idx != raw::NO_INDEX && location.file_idx < tables.files.len() {
        full_path_of(tables, tables.files[location.file_idx as int])
    } else {
        Seq::empty()
    }
}

/// Whether `frame` is the source location `location` with its names
/// resolved.
pub open spec fn is_frame(frame: ResolvedFrame, tables: Tables, location: raw::SourceLocation) -> bool {
    &&& resolves(tables, location)
    &&& frame.function@ == fragment(function_name_at(tables, location))
    &&& frame.file@ == file_path_at(tables, location)
    &&& frame.line == location.line
}

/// Whether `e` is the error that resolving the source location `location`
/// fails with: that of the first of these that cannot be had, the function,
/// the file, the name of the function, the path of the file.
pub open spec fn is_frame_error(e: Error, tables: Tables, location: raw::SourceLocation) -> bool {
    let function = location.function_idx;
    let file = location.file_idx;
    if function != raw::NO_INDEX && function >= tables.functions.len() {
        e == Error::InvalidFunctionReference(function)
    } else if file != raw::NO_INDEX && file >= tables.files.len() {
        e == Error::InvalidFileReference(file)
    } else if !is_readable(function_name_at(tables, location)) {
        is_string_error(
            e,
            tables.functions[function as int].name_idx,
            function_name_at(tables, location),
        )
    } else {
        &&& file != raw::NO_INDEX
        &&& file < tables.files.len()
        &&& !path_is_readable(tables, tables.files[file as int])
        &&& is_full_path(Err::<Option<String>, Error>(e), tables, tables.files[file as int])
    }
}

/// Whether `frames` are the frames of the chain from the source location
/// `idx`, all of them resolved, where the chain has at most `limit` frames.
pub open spec fn is_frames(frames: Seq<ResolvedFrame>, tables: Tables, idx: u32, limit: nat) -> bool
    decreases limit,
{
    if idx == raw::NO_INDEX || limit == 0 {
        frames.len() == 0
    } else if idx >= tables.source_locations.len() {
        false
    } else {
        &&& frames.len() > 0
        &&& is_frame(frames[0], tables, tables.source_locations[idx as int])
        &&& is_frames(
            frames.skip(1),
            tables,
            tables.source_locations[idx as int].inlined_into_idx,
            (limit - 1) as nat,
        )
    }
}

/// Whether `e` is the error that resolving the chain from the source
/// location `idx` fails with: that of the first frame that cannot be
/// resolved, or that of a link to a source location that does not exist.
pub open spec fn is_chain_error(e: Error, tables: Tables, idx: u32, limit: nat) -> bool
    decreases limit,
{
    if idx == raw::NO_INDEX || limit == 0 {
        false
    } else if idx >= tables.source_locations.len() {
        e == Error::InvalidSourceLocationReference(idx)
    } else if resolves(tables, tables.source_locations[idx as int]) {
        is_chain_error(
            e,
            tables,
            tables.source_locations[idx as int].inlined_into_idx,
            (limit - 1) as nat,
        )
    } else {
        is_frame_error(e, tables, tables.source_locations[idx as int])
    }
}

/// Whether `r` is what resolving the chain from the source location `idx`
/// gives.
pub open spec fn is_chain_answer(
    r: Result<Vec<ResolvedFrame>, Error>,
    tables: Tables,
    idx: u32,
    limit: nat,
) -> bool {
    match r {
        Ok(frames) => is_frames(frames@, tables, idx, limit),
        Err(e) => is_chain_error(e, tables, idx, limit),
    }
}

/// Whether `r` is what a lookup of the absolute address `addr` gives: the
/// resolved frames of the chain from a source location that the lookup may
/// start at. A chain is followed for as many frames as there are source
/// locations, which is all of it unless it has a cycle.
pub open spec fn is_lookup_answer(r: Result<Vec<ResolvedFrame>, Error>, tables: Tables, addr: u64) -> bool {
    exists|start: u32|
        {
            &&& is_lookup_start(tables, addr, start)
            &&& #[trigger] is_chain_answer(r, tables, start, tables.source_locations.len())
        }
}

/// Resolves the names of a source location.
pub fn resolve_frame(location: &SourceLocation<'_>) -> (r: Result<ResolvedFrame, Error>)
    ensures
        match r {
            Ok(frame) => is_frame(frame, location.tables(), location.record()),
            Err(e) => !resolves(location.tables(), location.record()) && is_frame_error(
                e,
                location.tables(),
                location.record(),
            ),
        },
{
    proof {
        reveal_strlit("");
    }
    let function = match location.function() {
        Ok(function) => function,
        Err(e) => {
            return Err(e);
        },
    };
    let file = match location.file() {
        Ok(file) => file,
        Err(e) => {
            return Err(e);
        },
    };
    let name: &str = match function {
        Some(function) => match function.name() {
            Ok(Some(name)) => name,
            Ok(None) => "",
            Err(e) => {
                return Err(e);
            },
        },
        None => "",
    };
    assert(""@ =~= Seq::<char>::empty());
    let path: String = match file {
        Some(file) => match file.full_path() {
            Ok(Some(path)) => path,
            Ok(None) => String::new(),
            Err(e) => {
                return Err(e);
            },
        },
        None => String::new(),
    };
    assert(path@ =~= file_path_at(location.tables(), location.record()));
    Ok(ResolvedFrame { function: name.to_owned(), file: path, line: location.line() })
}

/// Looks up an absolute address and resolves the names of every frame,
/// innermost first.
pub fn resolve_lookup(symcache: &SymCache<'_>, addr: u64) -> (r: Result<Vec<ResolvedFrame>, Error>)
    ensures
        is_lookup_answer(r, symcache@, addr),
{
    let ghost tables = symcache@;
    let mut lookup = symcache.lookup(addr);
    let ghost start = lookup.index();
    let limit: u32 = symcache.source_location_count();
    let mut resolved: Vec<ResolvedFrame> = Vec::new();
    let mut steps: u32 = 0;
    while steps < limit
        invariant
            steps <= limit,
            limit == tables.source_locations.len(),
            tables == symcache@,
            lookup.tables() == tables,
            is_lookup_start(tables, addr, start),
            forall|rest: Seq<ResolvedFrame>| #[trigger]
                is_frames(rest, tables, lookup.index(), (limit - steps) as nat) ==> is_frames(
                    resolved@ + rest,
                    tables,
                    start,
                    limit as nat,
                ),
            forall|e: Error| #[trigger]
                is_chain_error(e, tables, lookup.index(), (limit - steps) as nat)
                    ==> is_chain_error(e, tables, start, limit as nat),
        decreases limit - steps,
    {
        let ghost idx = lookup.index();
        let ghost before = resolved@;
        let location = match lookup.next() {
            Ok(Some(location)) => location,
            Ok(None) => {
                assert(is_frames(Seq::<ResolvedFrame>::empty(), tables, idx, (limit - steps) as nat));
                assert(resolved@ + Seq::<ResolvedFrame>::empty() =~= resolved@);
                assert(is_lookup_start(tables, addr, start));
                assert(is_chain_answer(Ok(resolved), tables, start, tables.source_locations.len()));
                assert(is_lookup_answer(Ok(resolved), tables, addr));
                return Ok(resolved);
            },
            Err(e) => {
                assert(is_chain_error(e, tables, idx, (limit - steps) as nat));
                assert(is_lookup_start(tables, addr, start));
                assert(is_chain_answer(
                    Err::<Vec<ResolvedFrame>, Error>(e),
                    tables,
                    start,
                    tables.source_locations.len(),
                ));
                assert(is_lookup_answer(Err::<Vec<ResolvedFrame>, Error>(e), tables, addr));
                return Err(e);
            },
        };
        let frame = match resolve_frame(&location) {
            Ok(frame) => frame,
            Err(e) => {
                assert(is_chain_error(e, tables, idx, (limit - steps) as nat));
                assert(is_lookup_start(tables, addr, start));
                assert(is_chain_answer(
                    Err::<Vec<ResolvedFrame>, Error>(e),
                    tables,
                    start,
                    tables.source_locations.len(),
                ));
                assert(is_lookup_answer(Err::<Vec<ResolvedFrame>, Error>(e), tables, addr));
                return Err(e);
            },
        };
        let ghost model = frame;
        resolved.push(frame);
        steps = steps + 1;
        proof {
            let next = lookup.index();
            assert forall|rest: Seq<ResolvedFrame>| #[trigger]
                is_frames(rest, tables, next, (limit - steps) as nat) implies is_frames(
                resolved@ + rest,
                tables,
                start,
                limit as nat,
            ) by {
                let longer = seq![model] + rest;
                assert(longer.skip(1) =~= rest);
                assert(longer[0] == model);
                assert(is_frames(longer, tables, idx, (limit - steps + 1) as nat));
                assert(before + longer =~= resolved@ + rest);
            }
            assert forall|e: Error| #[trigger]
                is_chain_error(e, tables, next, (limit - steps) as nat) implies is_chain_error(
                e,
                tables,
                start,
                limit as nat,
            ) by {
                assert(resolves(tables, tables.source_locations[idx as int]));
                assert(is_chain_error(e, tables, idx, (limit - steps + 1) as nat));
            }
        }
    }
    assert(is_frames(
        Seq::<ResolvedFrame>::empty(),
        tables,
        lookup.index(),
        (limit - steps) as nat,
    ));
    assert(resolved@ + Seq::<ResolvedFrame>::empty() =~= resolved@);
    assert(is_lookup_start(tables, addr, start));
    assert(is_chain_answer(Ok(resolved), tables, start, tables.source_locations.len()));
    assert(is_lookup_answer(Ok(resolved), tables, addr));
    Ok(resolved)
}

/// The frames of a lookup.
#[derive(Debug, PartialEq)]
pub struct LookupResult {
    /// The frames, innermost first.
    pub frames: Vec<LookupFrame>,
}

/// A frame of a lookup.
#[derive(Debug, PartialEq)]
pub struct LookupFrame {
    /// The name of the function; empty where the frame has none.
    pub name: String,
    /// The full path of the file; empty where the frame has none.
    pub file: String,
    /// The line; zero where it is not known.
    pub line: u32,
}

/// The resolved frame that a frame of a lookup result stands for.
pub open spec fn frame_of(frame: LookupFrame) -> ResolvedFrame {
    ResolvedFrame { function: frame.name, file: frame.file, line: frame.line }
}

/// Looks up an absolute address, as [`resolve_lookup`] does, and hands the
/// frames out as a [`LookupResult`].
pub fn lookup_new_symcache(symcache: &SymCache<'_>, addr: u64) -> (r: Result<LookupResult, Error>)
    ensures
        match r {
            Ok(result) => exists|frames: Vec<ResolvedFrame>|
                {
                    &&& #[trigger] is_lookup_answer(Ok(frames), symcache@, addr)
                    &&& frames@ == result.frames@.map_values(|frame: LookupFrame| frame_of(frame))
                },
            Err(e) => is_lookup_answer(Err::<Vec<ResolvedFrame>, Error>(e), symcache@, addr),
        },
{
    let resolved: Vec<ResolvedFrame> = match resolve_lookup(symcache, addr) {
        Ok(resolved) => resolved,
        Err(e) => {
            return Err(e);
        },
    };
    let ghost all = resolved;
    let mut frames: Vec<LookupFrame> = Vec::new();
    for frame in it: resolved
        invariant
            it.seq() == all@,
            frames@.len() == it.index(),
            forall|i: int| 0 <= i < frames@.len() ==> frame_of(#[trigger] frames@[i]) == all@[i],
    {
        frames.push(LookupFrame { name: frame.function, file: frame.file, line: frame.line });
    }
    let result = LookupResult { frames };
    proof {
        assert(all@ =~= result.frames@.map_values(|frame: LookupFrame| frame_of(frame)));
        assert(is_lookup_answer(Ok(all), symcache@, addr));
    }
    Ok(result)
}

/// Makes the cache of the compilation units of DWARF debug information, in
/// the given byte order. The errors of the units are handed to `error_sink`.
pub fn create_new_symcache_dwarf<E: ErrorSink<DwarfError>>(
    units: &Vec<CompilationUnit>,
    order: ByteOrder,
    error_sink: &mut E,
) -> (buffer: Vec<u8>)
    ensures
        buffer@ == encoded(tables_of(with_units(empty_state(0), units@)), order),
        took_all(*old(error_sink), unit_errors(empty_state(0), units@), *final(error_sink)),
{
    let mut converter = Converter::new();
    converter.process_dwarf(units, error_sink);
    let mut buffer: Vec<u8> = Vec::new();
    converter.serialize_with_byte_order(&mut buffer, order);
    assert(Seq::<u8>::empty() + buffer@ =~= buffer@);
    buffer
}

/// Makes the cache of the records of a Breakpad symbol file, in the given
/// byte order.
pub fn create_new_symcache_breakpad(symbols: &BreakpadSymbols, order: ByteOrder) -> (buffer: Vec<u8>)
    ensures
        buffer@ == encoded(tables_of(with_breakpad(empty_state(0), *symbols)), order),
{
    let mut converter = Converter::new();
    converter.process_breakpad(symbols);
    let mut buffer: Vec<u8> = Vec::new();
    converter.serialize_with_byte_order(&mut buffer, order);
    assert(Seq::<u8>::empty() + buffer@ =~= buffer@);
    buffer
}

/// The flag of an ELF section that holds instructions.
pub const SHF_EXECINSTR: u64 = 0x4;

/// What is known of a section of an object file.
#[derive(Clone, Copy, Debug, PartialEq, Eq, Structural)]
pub struct SectionInfo {
    /// The flags of the section, where it is a section of an ELF file.
    pub elf_flags: Option<u64>,
    /// The address of the section.
    pub address: u64,
    /// The number of bytes of the section.
    pub size: u64,
}

/// Whether a section holds instructions.
pub open spec fn is_executable(section: SectionInfo) -> bool {
    section.elf_flags matches Some(flags) && (flags & SHF_EXECINSTR) == SHF_EXECINSTR
}

/// The lowest address of a section that holds instructions; the highest
/// address there is where no section does.
pub open spec fn smallest_executable_address(sections: Seq<SectionInfo>) -> u64
    decreases sections.len(),
{
    if sections.len() == 0 {
        0xffff_ffff_ffff_ffff
    } else {
        let before = smallest_executable_address(sections.drop_last());
        if is_executable(sections.last()) && sections.last().address < before {
            sections.last().address
        } else {
            before
        }
    }
}

/// The number of bytes of the sections that hold instructions, in 64 bits.
pub open spec fn executable_size(sections: Seq<SectionInfo>) -> u64
    decreases sections.len(),
{
    if sections.len() == 0 {
        0
    } else {
        let before = executable_size(sections.drop_last());
        if is_executable(sections.last()) {
            before.wrapping_add(sections.last().size)
        } else {
            before
        }
    }
}

/// The addresses to pick from for a lookup: from the lowest address of a
/// section that holds instructions, as many as those sections have bytes.
pub fn get_executable_range(sections: &Vec<SectionInfo>) -> (range: Range<u64>)
    ensures
        range.start == smallest_executable_address(sections@),
        range.end == smallest_executable_address(sections@).wrapping_add(executable_size(sections@)),
{
    let mut smallest_addr: u64 = 0xffff_ffff_ffff_ffff;
    let mut executable_range: u64 = 0;
    let mut i: usize = 0;
    while i < sections.len()
        invariant
            i <= sections@.len(),
            smallest_addr == smallest_executable_address(sections@.subrange(0, i as int)),
            executable_range == executable_size(sections@.subrange(0, i as int)),
        decreases sections@.len() - i,
    {
        proof {
            let next = sections@.subrange(0, i + 1);
            assert(next.drop_last() =~= sections@.subrange(0, i as int));
            assert(next.last() == sections@[i as int]);
        }
        let section: SectionInfo = sections[i];
        match section.elf_flags {
            Some(flags) => {
                if (flags & SHF_EXECINSTR) == SHF_EXECINSTR {
                    executable_range = executable_range.wrapping_add(section.size);
                    if section.address < smallest_addr {
                        smallest_addr = section.address;
                    }
                }
            },
            None => {},
        }
        i = i + 1;
    }
    assert(sections@.subrange(0, i as int) =~= sections@);
    smallest_addr..smallest_addr.wrapping_add(executable_range)
}

} // verus!
