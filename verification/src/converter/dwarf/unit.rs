//! Taking in one compilation unit.

use super::line_program::{parse_line_program, sequences_of, LineProgramRow, LineSequence, Sequence};
use super::{
    caller_info_of, entry_pc_of, find_caller_info, find_cu_lang, find_function_info,
    function_name_of, language_of, AddressRange, CallerInfo, CompilationUnit, Die, DieTag,
    DwarfError, FileEntry,
};
use crate::converter::breakpad::bare_location;
use crate::converter::ranges::{
    ascending, has_key, inserted, rank, replaced, select_end, Entry, RangeMap,
};
use crate::converter::state::{
    entries_precede, entry_precedes, extends, file_index_in, function_index_in, is_valid,
    lemma_extension_keeps_entries, lemma_insertions_extend, lemma_range_keeps_entries,
    location_index_in, rows_precede, with_file, with_function, with_location,
    with_optional_string, with_range, State,
};
use crate::converter::{option_chars, Converter};
use crate::error::{raise_all, took_all, ErrorSink};
use crate::format::raw;
use crate::format::raw::relative_address;
use std::collections::HashMap;
use vstd::prelude::*;

verus! {

broadcast use vstd::std_specs::hash::group_hash_axioms;

/// Maps that are emptied and used again for each compilation unit, so that
/// what they have allocated is used again.
pub struct ReusableCaches {
    file_mapping: HashMap<u64, u32>,
    function_mapping: HashMap<u64, u32>,
}

impl ReusableCaches {
    /// The index of the file that each file index of the unit was found to
    /// have.
    pub closed spec fn files(&self) -> Map<u64, u32> {
        self.file_mapping@
    }

    /// The index of the function that the entry at each offset was found to
    /// have.
    pub closed spec fn functions(&self) -> Map<u64, u32> {
        self.function_mapping@
    }

    /// Empty maps.
    pub fn new() -> (caches: Self)
        ensures
            caches.files() == Map::<u64, u32>::empty(),
            caches.functions() == Map::<u64, u32>::empty(),
    {
        ReusableCaches { file_mapping: HashMap::new(), function_mapping: HashMap::new() }
    }

    /// Empties the maps.
    pub fn clear(&mut self)
        ensures
            final(self).files() == Map::<u64, u32>::empty(),
            final(self).functions() == Map::<u64, u32>::empty(),
    {
        self.file_mapping.clear();
        self.function_mapping.clear();
    }
}

/// What belongs to the compilation unit that is being taken in.
pub struct PerCuCache {
    caches: ReusableCaches,
    lang: u8,
    rows: RangeMap,
    error: Option<DwarfError>,
}

/// How far a compilation unit has been taken in.
pub struct Progress {
    /// The state of the converter.
    pub state: State,
    /// The language tag of the unit.
    pub lang: u8,
    /// The index of the file that each file index of the unit was found to
    /// have.
    pub file_cache: Map<u64, u32>,
    /// The index of the function that the entry at each offset was found to
    /// have.
    pub function_cache: Map<u64, u32>,
    /// The ranges of the unit, in ascending order of their start.
    pub rows: Seq<Entry>,
    /// The error that stopped the work on the unit, if one did.
    pub error: Option<DwarfError>,
}

impl PerCuCache {
    /// What holds of every value that the functions below hand out.
    pub closed spec fn wf(&self) -> bool {
        self.rows.wf()
    }

    /// How far the unit has been taken in, together with the state of the
    /// converter.
    pub closed spec fn progress(&self, state: State) -> Progress {
        Progress {
            state,
            lang: self.lang,
            file_cache: self.caches.files(),
            function_cache: self.caches.functions(),
            rows: self.rows@,
            error: self.error,
        }
    }

    /// Starts on a unit with the language tag `lang`: the maps are emptied.
    pub fn new(caches: ReusableCaches, lang: u8) -> (cu: Self)
        ensures
            cu.wf(),
            forall|state: State| #[trigger] cu.progress(state) == start_of(state, lang),
    {
        let mut caches = caches;
        caches.clear();
        PerCuCache { caches, lang, rows: RangeMap::new(), error: None }
    }

    /// Hands the maps back for the next unit, as the work on this unit has
    /// left them.
    pub fn into_caches(self) -> (caches: ReusableCaches)
        ensures
            forall|state: State|
                (#[trigger] self.progress(state)).file_cache == caches.files() && self.progress(
                    state,
                ).function_cache == caches.functions(),
    {
        self.caches
    }
}

/// The progress at the start of a unit.
pub open spec fn start_of(state: State, lang: u8) -> Progress {
    Progress {
        state,
        lang,
        file_cache: Map::empty(),
        function_cache: Map::empty(),
        rows: Seq::empty(),
        error: None,
    }
}

/// The characters of an optional string.
pub open spec fn string_chars(s: Option<String>) -> Option<Seq<char>> {
    match s {
        Some(s) => Some(s@),
        None => None,
    }
}

/// The file that the header of the line program has at `index`.
pub open spec fn file_entry_at(unit: CompilationUnit, index: u64) -> Option<FileEntry> {
    if index < unit.files@.len() {
        unit.files@[index as int]
    } else {
        None
    }
}

/// The directory of a file: none where its directory index is zero, which
/// stands for the compilation directory.
pub open spec fn directory_chars(entry: FileEntry) -> Option<Seq<char>> {
    if entry.directory_index != 0 {
        string_chars(entry.directory)
    } else {
        None
    }
}

/// The index of the file that the file index `index` of the unit stands
/// for: absent where the header has no such file or the file cannot be
/// inserted.
pub open spec fn unit_file_index(p: Progress, unit: CompilationUnit, index: u64) -> u32 {
    if p.file_cache.contains_key(index) {
        p.file_cache[index]
    } else {
        match file_entry_at(unit, index) {
            None => raw::NO_INDEX,
            Some(entry) => match file_index_in(
                p.state,
                entry.path_name@,
                directory_chars(entry),
                string_chars(unit.comp_dir),
            ) {
                Some(idx) => idx,
                None => raw::NO_INDEX,
            },
        }
    }
}

/// The progress after the file index `index` of the unit was resolved: the
/// file is inserted with the compilation directory of the unit, and its index
/// is remembered.
pub open spec fn with_unit_file(p: Progress, unit: CompilationUnit, index: u64) -> Progress {
    if p.file_cache.contains_key(index) {
        p
    } else {
        match file_entry_at(unit, index) {
            None => p,
            Some(entry) => Progress {
                state: with_file(
                    p.state,
                    entry.path_name@,
                    directory_chars(entry),
                    string_chars(unit.comp_dir),
                ),
                file_cache: match file_index_in(
                    p.state,
                    entry.path_name@,
                    directory_chars(entry),
                    string_chars(unit.comp_dir),
                ) {
                    Some(idx) => p.file_cache.insert(index, idx),
                    None => p.file_cache,
                },
                ..p
            },
        }
    }
}

/// The lowest address at which one of the ranges begins.
pub open spec fn lowest_begin(ranges: Seq<AddressRange>) -> Option<u64>
    decreases ranges.len(),
{
    if ranges.len() == 0 {
        None
    } else {
        match lowest_begin(ranges.drop_last()) {
            None => Some(ranges.last().begin),
            Some(lowest) => if ranges.last().begin < lowest {
                Some(ranges.last().begin)
            } else {
                Some(lowest)
            },
        }
    }
}

/// The relative address of the first instruction of the function that an
/// entry describes: that of its `EntryPc` attribute where it has one, and
/// else that of the lowest address of its ranges.
pub open spec fn function_entry(state: State, die: Die) -> Option<u32> {
    match entry_pc_of(die.attributes@) {
        Some(entry_pc) => relative_address(state.range_threshold, entry_pc),
        None => match lowest_begin(die.ranges@) {
            Some(begin) => relative_address(state.range_threshold, begin),
            None => None,
        },
    }
}

/// The index of the function that the entry `die` describes: absent where
/// the function cannot be inserted.
pub open spec fn function_of(p: Progress, die: Die) -> u32 {
    if p.function_cache.contains_key(die.offset) {
        p.function_cache[die.offset]
    } else {
        match function_index_in(
            p.state,
            function_name_of(die.attributes@),
            function_entry(p.state, die),
            p.lang,
        ) {
            Some(idx) => idx,
            None => raw::NO_INDEX,
        }
    }
}

/// The progress after the function that the entry `die` describes was
/// inserted, and its index remembered by the offset of the entry.
pub open spec fn with_function_of(p: Progress, die: Die) -> Progress {
    if p.function_cache.contains_key(die.offset) {
        p
    } else {
        Progress {
            state: with_function(
                p.state,
                function_name_of(die.attributes@),
                function_entry(p.state, die),
                p.lang,
            ),
            function_cache: match function_index_in(
                p.state,
                function_name_of(die.attributes@),
                function_entry(p.state, die),
                p.lang,
            ) {
                Some(idx) => p.function_cache.insert(die.offset, idx),
                None => p.function_cache,
            },
            ..p
        }
    }
}

/// The index of the first entry at or behind `from` that has the offset
/// `offset`.
pub open spec fn position_of(dies: Seq<Die>, offset: u64, from: int) -> Option<int>
    decreases dies.len() - from,
{
    if from < 0 || from >= dies.len() {
        None
    } else if dies[from].offset == offset {
        Some(from)
    } else {
        position_of(dies, offset, from + 1)
    }
}

/// The index of the function that the entry at `offset` describes.
pub open spec fn function_at(p: Progress, unit: CompilationUnit, offset: u64) -> u32 {
    if p.function_cache.contains_key(offset) {
        p.function_cache[offset]
    } else {
        match position_of(unit.dies@, offset, 0) {
            None => raw::NO_INDEX,
            Some(k) => function_of(p, unit.dies@[k]),
        }
    }
}

/// The progress after the function that the entry at `offset` describes was
/// inserted. Where the unit has no entry there, the work on the unit stops
/// with an error.
pub open spec fn with_function_at(p: Progress, unit: CompilationUnit, offset: u64) -> Progress {
    if p.function_cache.contains_key(offset) {
        p
    } else {
        match position_of(unit.dies@, offset, 0) {
            None => Progress { error: Some(DwarfError::MissingEntry(offset)), ..p },
            Some(k) => with_function_of(p, unit.dies@[k]),
        }
    }
}

/// The progress after one row of a sequence was taken in: its file is
/// resolved, and where its address has a relative address, the range there is
/// set to the row's file and line.
pub open spec fn with_row(p: Progress, unit: CompilationUnit, row: LineProgramRow) -> Progress {
    let resolved = with_unit_file(p, unit, row.file_index);
    match relative_address(p.state.range_threshold, row.address) {
        None => resolved,
        Some(addr) => Progress {
            rows: replaced(
                resolved.rows,
                addr,
                raw::SourceLocation {
                    file_idx: unit_file_index(p, unit, row.file_index),
                    line: row.line,
                    function_idx: raw::NO_INDEX,
                    inlined_into_idx: raw::NO_INDEX,
                },
            ),
            ..resolved
        },
    }
}

/// The progress after rows of a sequence were taken in.
pub open spec fn with_rows(p: Progress, unit: CompilationUnit, rows: Seq<LineProgramRow>) -> Progress
    decreases rows.len(),
{
    if rows.len() == 0 {
        p
    } else {
        with_row(with_rows(p, unit, rows.drop_last()), unit, rows.last())
    }
}

/// The progress after sequences were taken in.
pub open spec fn with_sequences(p: Progress, unit: CompilationUnit, sequences: Seq<Sequence>) -> Progress
    decreases sequences.len(),
{
    if sequences.len() == 0 {
        p
    } else {
        with_rows(with_sequences(p, unit, sequences.drop_last()), unit, sequences.last().rows)
    }
}

/// The relative addresses of a range of addresses: none where its begin or
/// its end has no relative address.
pub open spec fn relative_range(state: State, range: AddressRange) -> Option<(u32, u32)> {
    match (
        relative_address(state.range_threshold, range.begin),
        relative_address(state.range_threshold, range.end),
    ) {
        (Some(begin), Some(end)) => Some((begin, end)),
        _ => None,
    }
}

/// The rows after those with the indices from `from` up to `to` were given
/// the function `function_idx`.
pub open spec fn with_function_set(rows: Seq<Entry>, from: int, to: int, function_idx: u32) -> Seq<Entry>
    decreases to - from,
{
    if to <= from {
        rows
    } else {
        let before = with_function_set(rows, from, to - 1, function_idx);
        before.update(
            to - 1,
            (before[to - 1].0, raw::SourceLocation { function_idx, ..before[to - 1].1 }),
        )
    }
}

/// The relative address at which the function with index `function_idx`
/// starts, if the function exists and its start is known.
pub open spec fn known_entry(state: State, function_idx: u32) -> Option<u32> {
    if function_idx < state.functions.len() && state.functions[function_idx as int].entry_pc
        != raw::NO_INDEX {
        Some(state.functions[function_idx as int].entry_pc)
    } else {
        None
    }
}

/// The progress after one range of a function was taken in. A range
/// without relative addresses is skipped. Otherwise the function is
/// inserted; where no row starts at its first instruction, one is added
/// there, so that an address in the function before its first line still
/// finds the function; and the rows of the range are given the function.
pub open spec fn with_subprogram_range(p: Progress, die: Die, range: AddressRange) -> Progress {
    match relative_range(p.state, range) {
        None => p,
        Some((begin, end)) => {
            let named = with_function_of(p, die);
            let function_idx = function_of(p, die);
            let rows = match known_entry(named.state, function_idx) {
                Some(entry_pc) => inserted(named.rows, entry_pc, bare_location(function_idx)),
                None => named.rows,
            };
            Progress {
                rows: with_function_set(
                    rows,
                    rank(rows, begin),
                    select_end(rows, begin, end),
                    function_idx,
                ),
                ..named
            }
        },
    }
}

/// The source location of the place an inlined function was called from:
/// that of the row, with the file and the line of the call.
pub open spec fn call_site(row: raw::SourceLocation, call_file: u32, call_line: u32) -> raw::SourceLocation {
    raw::SourceLocation { file_idx: call_file, line: call_line, ..row }
}

/// The progress after the row with index `i` was found to lie in an inlined
/// function: the place of the call is inserted as a source location, and the
/// row gets the inlined function and is inlined into that place. Where the
/// place cannot be inserted, the row stays as it is.
pub open spec fn with_inlined_row(
    p: Progress,
    i: int,
    call_file: u32,
    call_line: u32,
    function_idx: u32,
) -> Progress {
    let row = p.rows[i].1;
    let caller = call_site(row, call_file, call_line);
    Progress {
        state: with_location(p.state, caller),
        rows: match location_index_in(p.state, caller) {
            Some(inlined_into_idx) => p.rows.update(
                i,
                (p.rows[i].0, raw::SourceLocation { function_idx, inlined_into_idx, ..row }),
            ),
            None => p.rows,
        },
        ..p
    }
}

/// The progress after the rows with the indices from `from` up to `to` were
/// found to lie in an inlined function.
pub open spec fn with_inlined_rows(
    p: Progress,
    from: int,
    to: int,
    call_file: u32,
    call_line: u32,
    function_idx: u32,
) -> Progress
    decreases to - from,
{
    if to <= from {
        p
    } else {
        with_inlined_row(
            with_inlined_rows(p, from, to - 1, call_file, call_line, function_idx),
            to - 1,
            call_file,
            call_line,
            function_idx,
        )
    }
}

/// The progress after one range of an inlined call was taken in. A range
/// without relative addresses is skipped. Otherwise the file of the call and
/// the inlined function are resolved, which may stop the work with an error;
/// where the entry does not say where the call was and of which function,
/// they are absent. Then each row of the range is rewritten by
/// [`with_inlined_row`].
pub open spec fn with_inlined_range(
    p: Progress,
    unit: CompilationUnit,
    die: Die,
    range: AddressRange,
) -> Progress {
    match relative_range(p.state, range) {
        None => p,
        Some((begin, end)) => match caller_info_of(die.attributes@) {
            None => with_inlined_rows(
                p,
                rank(p.rows, begin),
                select_end(p.rows, begin, end),
                raw::NO_INDEX,
                0,
                raw::NO_INDEX,
            ),
            Some(info) => {
                let filed = with_unit_file(p, unit, info.call_file);
                let resolved = with_function_at(filed, unit, info.abstract_origin);
                if resolved.error is Some {
                    resolved
                } else {
                    with_inlined_rows(
                        resolved,
                        rank(p.rows, begin),
                        select_end(p.rows, begin, end),
                        unit_file_index(p, unit, info.call_file),
                        info.call_line,
                        function_at(filed, unit, info.abstract_origin),
                    )
                }
            },
        },
    }
}

/// The progress after one range of an entry was taken in; nothing is done
/// once an error has stopped the work.
pub open spec fn with_die_range(p: Progress, unit: CompilationUnit, die: Die, range: AddressRange) -> Progress {
    if p.error is Some {
        p
    } else {
        match die.tag {
            DieTag::Subprogram => with_subprogram_range(p, die, range),
            DieTag::InlinedSubroutine => with_inlined_range(p, unit, die, range),
            DieTag::Other => p,
        }
    }
}

/// The progress after ranges of an entry were taken in.
pub open spec fn with_die_ranges(
    p: Progress,
    unit: CompilationUnit,
    die: Die,
    ranges: Seq<AddressRange>,
) -> Progress
    decreases ranges.len(),
{
    if ranges.len() == 0 {
        p
    } else {
        with_die_range(with_die_ranges(p, unit, die, ranges.drop_last()), unit, die, ranges.last())
    }
}

/// The progress after entries were taken in, parents before their children.
pub open spec fn with_dies(p: Progress, unit: CompilationUnit, dies: Seq<Die>) -> Progress
    decreases dies.len(),
{
    if dies.len() == 0 {
        p
    } else {
        with_die_ranges(
            with_dies(p, unit, dies.drop_last()),
            unit,
            dies.last(),
            dies.last().ranges@,
        )
    }
}

/// The state after ranges of a unit were added to those of the converter;
/// the first range at an address stays.
pub open spec fn with_ranges(state: State, rows: Seq<Entry>) -> State
    decreases rows.len(),
{
    if rows.len() == 0 {
        state
    } else {
        with_range(with_ranges(state, rows.drop_last()), rows.last().0, rows.last().1)
    }
}

/// The language tag that is stored for the functions of a unit: the low
/// eight bits of the language of the unit, and zero where it has none.
pub open spec fn language_tag(unit: CompilationUnit) -> u8 {
    match language_of(unit.root@) {
        Some(lang) => (lang % 256) as u8,
        None => 0,
    }
}

/// How far a unit with a line program gets: its compilation directory is
/// interned, the rows of its line program are taken in, and then its
/// entries.
pub open spec fn unit_progress(state: State, unit: CompilationUnit) -> Progress
    recommends
        unit.rows is Some,
{
    with_dies(
        with_sequences(
            start_of(with_optional_string(state, string_chars(unit.comp_dir)), language_tag(unit)),
            unit,
            sequences_of(unit.rows->0@),
        ),
        unit,
        unit.dies@,
    )
}

/// The state after a compilation unit was taken in. A unit without a line
/// program changes nothing. Where an error stops the work, or the unit was
/// not read to its end, what was inserted stays, and the ranges of the unit
/// are dropped; otherwise they are added to those of the converter.
pub open spec fn with_unit(state: State, unit: CompilationUnit) -> State {
    if unit.rows is None {
        state
    } else {
        let p = unit_progress(state, unit);
        if p.error is Some || !unit.complete {
            p.state
        } else {
            with_ranges(p.state, p.rows)
        }
    }
}

/// Whether every range that a unit adds lies at or behind the first
/// instruction of the function that it names, where it names one. This
/// fails for a range in an inlined function of which the first instruction
/// is not known, and for one that lies before the entry address of its
/// function.
pub open spec fn unit_precedes(state: State, unit: CompilationUnit) -> bool {
    unit.rows is Some && unit_progress(state, unit).error is None && unit.complete ==> rows_precede(
        unit_progress(state, unit).state,
        unit_progress(state, unit).rows,
    )
}

/// The error that stops the work on a compilation unit, if one does.
pub open spec fn unit_error(state: State, unit: CompilationUnit) -> Option<DwarfError> {
    if unit.rows is None {
        None
    } else {
        unit_progress(state, unit).error
    }
}

/// Giving rows a function leaves their number and their addresses as they
/// are, gives the function to the rows that are meant, and leaves the others
/// as they are.
pub proof fn lemma_function_set(rows: Seq<Entry>, from: int, to: int, function_idx: u32)
    requires
        0 <= from,
        to <= rows.len(),
    ensures
        with_function_set(rows, from, to, function_idx).len() == rows.len(),
        forall|i: int|
            0 <= i < rows.len() ==> (#[trigger] with_function_set(rows, from, to, function_idx)[i])
                == if from <= i < to {
                (rows[i].0, raw::SourceLocation { function_idx, ..rows[i].1 })
            } else {
                rows[i]
            },
    decreases to - from,
{
    if from < to {
        lemma_function_set(rows, from, to - 1, function_idx);
    }
}

/// A function whose first instruction is known and lies where no row
/// starts gets a row of its own there when one of its ranges is taken in: a
/// lookup of that address finds the function, with line zero and no file.
/// The function is stored with that address as its entry.
pub proof fn lemma_subprogram_adds_entry_row(p: Progress, die: Die, range: AddressRange, entry_pc: u32)
    requires
        is_valid(p.state),
        ascending(p.rows),
        relative_range(p.state, range) is Some,
        !p.function_cache.contains_key(die.offset),
        function_entry(p.state, die) == Some(entry_pc),
        entry_pc != raw::NO_INDEX,
        function_index_in(p.state, function_name_of(die.attributes@), Some(entry_pc), p.lang) is Some,
        !has_key(p.rows, entry_pc),
    ensures
        ({
            let after = with_subprogram_range(p, die, range);
            let function_idx = function_of(p, die);
            &&& function_idx < after.state.functions.len()
            &&& after.state.functions[function_idx as int].entry_pc == entry_pc
            &&& ascending(after.rows)
            &&& has_key(after.rows, entry_pc)
            &&& after.rows[rank(after.rows, entry_pc)] == (entry_pc, bare_location(function_idx))
        }),
{
    let named = with_function_of(p, die);
    let function_idx = function_of(p, die);
    let (begin, end) = relative_range(p.state, range)->0;
    crate::converter::state::lemma_function_interned_once(
        p.state,
        function_name_of(die.attributes@),
        Some(entry_pc),
        p.lang,
    );
    assert(known_entry(named.state, function_idx) == Some(entry_pc));
    let rows = inserted(named.rows, entry_pc, bare_location(function_idx));
    crate::converter::ranges::lemma_inserted(p.rows, entry_pc, bare_location(function_idx));
    crate::converter::ranges::lemma_rank_splits(p.rows, entry_pc);
    let k = rank(p.rows, entry_pc);
    assert(rows[k] == (entry_pc, bare_location(function_idx)));
    crate::converter::ranges::lemma_rank_splits(rows, begin);
    crate::converter::ranges::lemma_rank_splits(rows, end);
    let after = with_subprogram_range(p, die, range);
    lemma_function_set(rows, rank(rows, begin), select_end(rows, begin, end), function_idx);
    assert(after.rows[k] == (entry_pc, bare_location(function_idx)));
    assert forall|i: int, j: int| 0 <= i < j < after.rows.len() implies after.rows[i].0
        < after.rows[j].0 by {
        assert(after.rows[i].0 == rows[i].0);
        assert(after.rows[j].0 == rows[j].0);
    }
    assert forall|i: int| 0 <= i < k implies (#[trigger] after.rows[i]).0 < entry_pc by {
        assert(after.rows[i].0 == rows[i].0);
        assert(rows[i].0 < rows[k].0);
    }
    assert forall|i: int| k <= i < after.rows.len() implies (#[trigger] after.rows[i]).0
        >= entry_pc by {
        assert(after.rows[i].0 == rows[i].0);
        if i > k {
            assert(rows[k].0 < rows[i].0);
        }
    }
    crate::converter::ranges::lemma_rank(after.rows, entry_pc, k);
}

/// A row that is found to lie in an inlined function becomes the frame of
/// that function, with the file and line it had, and is inlined into a source
/// location that holds the file and line of the call together with the
/// function and the call that the row had before: a lookup that finds the row
/// gives the inlined function first and then its caller. The other rows stay
/// as they are.
pub proof fn lemma_inlined_row(p: Progress, i: int, call_file: u32, call_line: u32, function_idx: u32)
    requires
        is_valid(p.state),
        0 <= i < p.rows.len(),
        location_index_in(p.state, call_site(p.rows[i].1, call_file, call_line)) is Some,
    ensures
        ({
            let after = with_inlined_row(p, i, call_file, call_line, function_idx);
            let row = p.rows[i].1;
            let caller = location_index_in(p.state, call_site(row, call_file, call_line))->0;
            &&& after.rows.len() == p.rows.len()
            &&& after.rows[i] == (
                p.rows[i].0,
                raw::SourceLocation {
                    file_idx: row.file_idx,
                    line: row.line,
                    function_idx,
                    inlined_into_idx: caller,
                },
            )
            &&& forall|j: int| 0 <= j < p.rows.len() && j != i ==> after.rows[j] == p.rows[j]
            &&& caller < after.state.source_locations.len()
            &&& after.state.source_locations[caller as int] == (raw::SourceLocation {
                file_idx: call_file,
                line: call_line,
                function_idx: row.function_idx,
                inlined_into_idx: row.inlined_into_idx,
            })
        }),
{
    let site = call_site(p.rows[i].1, call_file, call_line);
    if p.state.source_locations.contains(site) {
        let k = p.state.source_locations.index_of(site);
        assert(p.state.source_locations[k] == site);
    }
}

/// Finds the lowest address at which one of the ranges begins.
pub fn find_lowest_begin(ranges: &Vec<AddressRange>) -> (lowest: Option<u64>)
    ensures
        lowest == lowest_begin(ranges@),
{
    let mut lowest: Option<u64> = None;
    let mut i: usize = 0;
    while i < ranges.len()
        invariant
            i <= ranges@.len(),
            lowest == lowest_begin(ranges@.subrange(0, i as int)),
        decreases ranges@.len() - i,
    {
        proof {
            let next = ranges@.subrange(0, i + 1);
            assert(next.drop_last() =~= ranges@.subrange(0, i as int));
            assert(next.last() == ranges@[i as int]);
        }
        let begin: u64 = ranges[i].begin;
        lowest = match lowest {
            None => Some(begin),
            Some(low) => if begin < low {
                Some(begin)
            } else {
                Some(low)
            },
        };
        i = i + 1;
    }
    assert(ranges@.subrange(0, i as int) =~= ranges@);
    lowest
}

/// Whether `index` gives, for every offset, the place of the first entry
/// that has it.
pub open spec fn is_die_index(index: Map<u64, usize>, dies: Seq<Die>, from: int) -> bool {
    forall|offset: u64|
        match #[trigger] position_of(dies, offset, from) {
            Some(k) => index.contains_key(offset) && index[offset] == k,
            None => !index.contains_key(offset),
        }
}

/// The place that is found for an offset is that of an entry with that
/// offset.
pub proof fn lemma_position_of(dies: Seq<Die>, offset: u64, from: int)
    requires
        0 <= from,
    ensures
        position_of(dies, offset, from) matches Some(k) ==> from <= k < dies.len() && dies[k].offset
            == offset,
    decreases dies.len() - from,
{
    if from < dies.len() && dies[from].offset != offset {
        lemma_position_of(dies, offset, from + 1);
    }
}

/// Makes the index of the entries by their offsets.
pub fn index_dies(dies: &Vec<Die>) -> (index: HashMap<u64, usize>)
    ensures
        is_die_index(index@, dies@, 0),
{
    let mut index: HashMap<u64, usize> = HashMap::new();
    let mut i: usize = dies.len();
    while i > 0
        invariant
            i <= dies@.len(),
            is_die_index(index@, dies@, i as int),
        decreases i,
    {
        let ghost before = index@;
        i = i - 1;
        index.insert(dies[i].offset, i);
        proof {
            assert forall|offset: u64|
                match #[trigger] position_of(dies@, offset, i as int) {
                    Some(k) => index@.contains_key(offset) && index@[offset] == k,
                    None => !index@.contains_key(offset),
                } by {
                let later = position_of(dies@, offset, i + 1);
                assert(match later {
                    Some(k) => before.contains_key(offset) && before[offset] == k,
                    None => !before.contains_key(offset),
                });
            }
        }
    }
    index
}

impl Converter {
    /// Resolves a file index of the unit to the index of a file.
    fn unit_file(&mut self, cu: &mut PerCuCache, unit: &CompilationUnit, index: u64) -> (idx: u32)
        requires
            old(self).wf(),
            old(cu).wf(),
        ensures
            final(self).wf(),
            final(cu).wf(),
            final(cu).progress(final(self)@) == with_unit_file(
                old(cu).progress(old(self)@),
                *unit,
                index,
            ),
            idx == unit_file_index(old(cu).progress(old(self)@), *unit, index),
            extends(old(self)@, final(self)@),
    {
        proof {
            lemma_insertions_extend(self@);
        }
        match cu.caches.file_mapping.get(&index) {
            Some(idx) => {
                return *idx;
            },
            None => {},
        }
        if index >= unit.files.len() as u64 {
            return raw::NO_INDEX;
        }
        let entry: &FileEntry = match &unit.files[index as usize] {
            Some(entry) => entry,
            None => {
                return raw::NO_INDEX;
            },
        };
        let directory: Option<&str> = if entry.directory_index != 0 {
            match &entry.directory {
                Some(directory) => Some(directory.as_str()),
                None => None,
            }
        } else {
            None
        };
        let comp_dir: Option<&str> = match &unit.comp_dir {
            Some(comp_dir) => Some(comp_dir.as_str()),
            None => None,
        };
        match self.insert_file(entry.path_name.as_str(), directory, comp_dir) {
            Some(idx) => {
                cu.caches.file_mapping.insert(index, idx);
                idx
            },
            None => raw::NO_INDEX,
        }
    }

    /// Inserts the function that an entry describes.
    fn unit_function(&mut self, cu: &mut PerCuCache, die: &Die) -> (idx: u32)
        requires
            old(self).wf(),
            old(cu).wf(),
        ensures
            final(self).wf(),
            final(cu).wf(),
            final(cu).progress(final(self)@) == with_function_of(old(cu).progress(old(self)@), *die),
            idx == function_of(old(cu).progress(old(self)@), *die),
            extends(old(self)@, final(self)@),
    {
        proof {
            lemma_insertions_extend(self@);
        }
        match cu.caches.function_mapping.get(&die.offset) {
            Some(idx) => {
                return *idx;
            },
            None => {},
        }
        let info = find_function_info(&die.attributes);
        let entry: Option<u32> = match info.entry_pc {
            Some(entry_pc) => self.offset_addr(entry_pc),
            None => match find_lowest_begin(&die.ranges) {
                Some(begin) => self.offset_addr(begin),
                None => None,
            },
        };
        match self.insert_function(info.name, entry, cu.lang) {
            Some(idx) => {
                cu.caches.function_mapping.insert(die.offset, idx);
                idx
            },
            None => raw::NO_INDEX,
        }
    }

    /// Inserts the function that the entry at `offset` describes.
    fn unit_function_at(
        &mut self,
        cu: &mut PerCuCache,
        unit: &CompilationUnit,
        index: &HashMap<u64, usize>,
        offset: u64,
    ) -> (idx: u32)
        requires
            old(self).wf(),
            old(cu).wf(),
            is_die_index(index@, unit.dies@, 0),
        ensures
            final(self).wf(),
            final(cu).wf(),
            final(cu).progress(final(self)@) == with_function_at(
                old(cu).progress(old(self)@),
                *unit,
                offset,
            ),
            idx == function_at(old(cu).progress(old(self)@), *unit, offset),
            extends(old(self)@, final(self)@),
    {
        match cu.caches.function_mapping.get(&offset) {
            Some(idx) => {
                return *idx;
            },
            None => {},
        }
        proof {
            lemma_position_of(unit.dies@, offset, 0);
            assert(match position_of(unit.dies@, offset, 0) {
                Some(k) => index@.contains_key(offset) && index@[offset] == k,
                None => !index@.contains_key(offset),
            });
        }
        match index.get(&offset) {
            None => {
                cu.error = Some(DwarfError::MissingEntry(offset));
                raw::NO_INDEX
            },
            Some(k) => self.unit_function(cu, &unit.dies[*k]),
        }
    }

    /// Takes in one row of a sequence.
    fn unit_row(&mut self, cu: &mut PerCuCache, unit: &CompilationUnit, row: LineProgramRow)
        requires
            old(self).wf(),
            old(cu).wf(),
        ensures
            final(self).wf(),
            final(cu).wf(),
            final(cu).progress(final(self)@) == with_row(old(cu).progress(old(self)@), *unit, row),
            extends(old(self)@, final(self)@),
    {
        let file_idx = self.unit_file(cu, unit, row.file_index);
        match self.offset_addr(row.address) {
            None => {},
            Some(addr) => {
                cu.rows.replace(
                    addr,
                    raw::SourceLocation {
                        file_idx,
                        line: row.line,
                        function_idx: raw::NO_INDEX,
                        inlined_into_idx: raw::NO_INDEX,
                    },
                );
            },
        }
    }

    /// Takes in the rows of the sequences.
    fn unit_sequences(&mut self, cu: &mut PerCuCache, unit: &CompilationUnit, sequences: &Vec<LineSequence>)
        requires
            old(self).wf(),
            old(cu).wf(),
        ensures
            final(self).wf(),
            final(cu).wf(),
            final(cu).progress(final(self)@) == with_sequences(
                old(cu).progress(old(self)@),
                *unit,
                sequences.deep_view(),
            ),
            extends(old(self)@, final(self)@),
    {
        let ghost start = cu.progress(self@);
        let ghost all = sequences.deep_view();
        let mut i: usize = 0;
        assert(all.len() == sequences@.len());
        while i < sequences.len()
            invariant
                i <= sequences@.len(),
                all == sequences.deep_view(),
                all.len() == sequences@.len(),
                self.wf(),
                cu.wf(),
                cu.progress(self@) == with_sequences(start, *unit, all.subrange(0, i as int)),
                extends(old(self)@, self@),
            decreases sequences@.len() - i,
        {
            let sequence = &sequences[i];
            let ghost before = cu.progress(self@);
            assert(all[i as int] == sequence@);
            let mut j: usize = 0;
            while j < sequence.rows.len()
                invariant
                    j <= sequence.rows@.len(),
                    self.wf(),
                    cu.wf(),
                    cu.progress(self@) == with_rows(before, *unit, sequence.rows@.subrange(0, j as int)),
                    extends(old(self)@, self@),
                decreases sequence.rows@.len() - j,
            {
                proof {
                    let next = sequence.rows@.subrange(0, j + 1);
                    assert(next.drop_last() =~= sequence.rows@.subrange(0, j as int));
                    assert(next.last() == sequence.rows@[j as int]);
                }
                self.unit_row(cu, unit, sequence.rows[j]);
                j = j + 1;
            }
            proof {
                assert(sequence.rows@.subrange(0, j as int) =~= sequence.rows@);
                let next = all.subrange(0, i + 1);
                assert(next.drop_last() =~= all.subrange(0, i as int));
                assert(next.last() == all[i as int]);
            }
            i = i + 1;
        }
        assert(all.subrange(0, i as int) =~= all);
    }

    /// Takes in one range of a function.
    fn unit_subprogram_range(&mut self, cu: &mut PerCuCache, die: &Die, range: AddressRange)
        requires
            old(self).wf(),
            old(cu).wf(),
        ensures
            final(self).wf(),
            final(cu).wf(),
            final(cu).progress(final(self)@) == with_subprogram_range(
                old(cu).progress(old(self)@),
                *die,
                range,
            ),
            extends(old(self)@, final(self)@),
    {
        let begin: u32 = match self.offset_addr(range.begin) {
            Some(addr) => addr,
            None => {
                return ;
            },
        };
        let end: u32 = match self.offset_addr(range.end) {
            Some(addr) => addr,
            None => {
                return ;
            },
        };
        let function_idx = self.unit_function(cu, die);
        match self.function_entry_pc(function_idx) {
            Some(entry_pc) => {
                cu.rows.insert(
                    entry_pc,
                    raw::SourceLocation {
                        file_idx: raw::NO_INDEX,
                        line: 0,
                        function_idx,
                        inlined_into_idx: raw::NO_INDEX,
                    },
                );
            },
            None => {},
        }
        let ghost rows = cu.rows@;
        let ghost named = *cu;
        let (from, to) = cu.rows.sub_ranges(begin, end);
        let mut i: usize = from;
        while i < to
            invariant
                from <= i <= to <= rows.len(),
                cu.wf(),
                cu.rows@.len() == rows.len(),
                cu.rows@ == with_function_set(rows, from as int, i as int, function_idx),
                cu.caches == named.caches,
                cu.lang == named.lang,
                cu.error == named.error,
            decreases to - i,
        {
            let entry: Entry = cu.rows.get(i);
            cu.rows.set_value(i, raw::SourceLocation { function_idx, ..entry.1 });
            i = i + 1;
        }
    }

    /// Takes in one range of an inlined call.
    fn unit_inlined_range(
        &mut self,
        cu: &mut PerCuCache,
        unit: &CompilationUnit,
        index: &HashMap<u64, usize>,
        die: &Die,
        range: AddressRange,
    )
        requires
            old(self).wf(),
            old(cu).wf(),
            is_die_index(index@, unit.dies@, 0),
        ensures
            final(self).wf(),
            final(cu).wf(),
            final(cu).progress(final(self)@) == with_inlined_range(
                old(cu).progress(old(self)@),
                *unit,
                *die,
                range,
            ),
            extends(old(self)@, final(self)@),
    {
        let begin: u32 = match self.offset_addr(range.begin) {
            Some(addr) => addr,
            None => {
                return ;
            },
        };
        let end: u32 = match self.offset_addr(range.end) {
            Some(addr) => addr,
            None => {
                return ;
            },
        };
        let (call_file, call_line, function_idx): (u32, u32, u32) = match find_caller_info(
            &die.attributes,
        ) {
            Some(info) => {
                let call_file = self.unit_file(cu, unit, info.call_file);
                let function_idx = self.unit_function_at(cu, unit, index, info.abstract_origin);
                if cu.error.is_some() {
                    return ;
                }
                (call_file, info.call_line, function_idx)
            },
            None => (raw::NO_INDEX, 0, raw::NO_INDEX),
        };
        let ghost resolved = cu.progress(self@);
        let (from, to) = cu.rows.sub_ranges(begin, end);
        let mut i: usize = from;
        while i < to
            invariant
                from <= i <= to <= resolved.rows.len(),
                self.wf(),
                cu.wf(),
                cu.rows@.len() == resolved.rows.len(),
                cu.progress(self@) == with_inlined_rows(
                    resolved,
                    from as int,
                    i as int,
                    call_file,
                    call_line,
                    function_idx,
                ),
                extends(old(self)@, self@),
            decreases to - i,
        {
            proof {
                lemma_insertions_extend(self@);
            }
            let entry: Entry = cu.rows.get(i);
            let caller = raw::SourceLocation { file_idx: call_file, line: call_line, ..entry.1 };
            match self.insert_source_location(caller) {
                Some(inlined_into_idx) => {
                    cu.rows.set_value(
                        i,
                        raw::SourceLocation { function_idx, inlined_into_idx, ..entry.1 },
                    );
                },
                None => {},
            }
            i = i + 1;
        }
    }

    /// Takes in the ranges of one entry.
    fn unit_die(
        &mut self,
        cu: &mut PerCuCache,
        unit: &CompilationUnit,
        index: &HashMap<u64, usize>,
        die: &Die,
    )
        requires
            old(self).wf(),
            old(cu).wf(),
            is_die_index(index@, unit.dies@, 0),
        ensures
            final(self).wf(),
            final(cu).wf(),
            final(cu).progress(final(self)@) == with_die_ranges(
                old(cu).progress(old(self)@),
                *unit,
                *die,
                die.ranges@,
            ),
            extends(old(self)@, final(self)@),
    {
        let ghost start = cu.progress(self@);
        let mut i: usize = 0;
        while i < die.ranges.len()
            invariant
                i <= die.ranges@.len(),
                self.wf(),
                cu.wf(),
                is_die_index(index@, unit.dies@, 0),
                cu.progress(self@) == with_die_ranges(
                    start,
                    *unit,
                    *die,
                    die.ranges@.subrange(0, i as int),
                ),
                extends(old(self)@, self@),
            decreases die.ranges@.len() - i,
        {
            proof {
                let next = die.ranges@.subrange(0, i + 1);
                assert(next.drop_last() =~= die.ranges@.subrange(0, i as int));
                assert(next.last() == die.ranges@[i as int]);
            }
            let range: AddressRange = die.ranges[i];
            if cu.error.is_none() {
                match die.tag {
                    DieTag::Subprogram => {
                        self.unit_subprogram_range(cu, die, range);
                    },
                    DieTag::InlinedSubroutine => {
                        self.unit_inlined_range(cu, unit, index, die, range);
                    },
                    DieTag::Other => {},
                }
            }
            i = i + 1;
        }
        assert(die.ranges@.subrange(0, i as int) =~= die.ranges@);
    }

    /// Adds the ranges of a unit to those of the converter.
    fn merge_ranges(&mut self, rows: &RangeMap)
        requires
            old(self).wf(),
        ensures
            final(self).wf(),
            final(self)@ == with_ranges(old(self)@, rows@),
            entries_precede(old(self)@) && rows_precede(old(self)@, rows@) ==> entries_precede(
                final(self)@,
            ),
    {
        let mut i: usize = 0;
        while i < rows.len()
            invariant
                i <= rows@.len(),
                self.wf(),
                self@ == with_ranges(old(self)@, rows@.subrange(0, i as int)),
                self@.functions == old(self)@.functions,
                entries_precede(old(self)@) && rows_precede(old(self)@, rows@) ==> entries_precede(
                    self@,
                ),
            decreases rows@.len() - i,
        {
            proof {
                self.lemma_wf();
                if entries_precede(old(self)@) && rows_precede(old(self)@, rows@) {
                    assert(entry_precedes(old(self)@, rows@[i as int]));
                    lemma_range_keeps_entries(self@, rows@[i as int].0, rows@[i as int].1);
                }
            }
            proof {
                let next = rows@.subrange(0, i + 1);
                assert(next.drop_last() =~= rows@.subrange(0, i as int));
                assert(next.last() == rows@[i as int]);
            }
            let entry: Entry = rows.get(i);
            self.insert_range(entry.0, entry.1);
            i = i + 1;
        }
        assert(rows@.subrange(0, i as int) =~= rows@);
    }

    /// Takes in one compilation unit.
    ///
    /// On an error what was inserted up to then stays in the converter, and
    /// the ranges of the unit are dropped, as are those of a unit that was not
    /// read to its end. The maps of `reusable_cache` are
    /// emptied and then hold the files and functions that the unit resolved;
    /// a unit without a line program leaves them as they are.
    pub fn process_dwarf_cu(
        &mut self,
        reusable_cache: &mut ReusableCaches,
        unit: &CompilationUnit,
    ) -> (r: Result<(), DwarfError>)
        requires
            old(self).wf(),
        ensures
            final(self).wf(),
            final(self)@ == with_unit(old(self)@, *unit),
            r == match unit_error(old(self)@, *unit) {
                Some(e) => Err::<(), DwarfError>(e),
                None => Ok::<(), DwarfError>(()),
            },
            unit.rows is None ==> *final(reusable_cache) == *old(reusable_cache),
            unit.rows is Some ==> final(reusable_cache).files() == unit_progress(
                old(self)@,
                *unit,
            ).file_cache && final(reusable_cache).functions() == unit_progress(
                old(self)@,
                *unit,
            ).function_cache,
            entries_precede(old(self)@) && unit_precedes(old(self)@, *unit) ==> entries_precede(
                final(self)@,
            ),
    {
        proof {
            self.lemma_wf();
            lemma_insertions_extend(self@);
        }
        let lang: u8 = match find_cu_lang(&unit.root) {
            Some(lang) => (lang % 256) as u8,
            None => 0,
        };
        let rows: &Vec<super::LineRow> = match &unit.rows {
            Some(rows) => rows,
            None => {
                return Ok(());
            },
        };
        let mut caches = ReusableCaches::new();
        core::mem::swap(&mut caches, reusable_cache);
        let mut cu = PerCuCache::new(caches, lang);
        let comp_dir: Option<&str> = match &unit.comp_dir {
            Some(comp_dir) => Some(comp_dir.as_str()),
            None => None,
        };
        self.insert_optional_string(comp_dir);
        let sequences = parse_line_program(rows);
        self.unit_sequences(&mut cu, unit, &sequences);
        let ghost seeded = cu.progress(self@);
        let index = index_dies(&unit.dies);
        let mut i: usize = 0;
        while i < unit.dies.len()
            invariant
                i <= unit.dies@.len(),
                is_die_index(index@, unit.dies@, 0),
                self.wf(),
                cu.wf(),
                cu.progress(self@) == with_dies(seeded, *unit, unit.dies@.subrange(0, i as int)),
                extends(old(self)@, self@),
            decreases unit.dies@.len() - i,
        {
            proof {
                let next = unit.dies@.subrange(0, i + 1);
                assert(next.drop_last() =~= unit.dies@.subrange(0, i as int));
                assert(next.last() == unit.dies@[i as int]);
            }
            self.unit_die(&mut cu, unit, &index, &unit.dies[i]);
            i = i + 1;
        }
        assert(unit.dies@.subrange(0, i as int) =~= unit.dies@);
        proof {
            self.lemma_wf();
            if entries_precede(old(self)@) {
                lemma_extension_keeps_entries(old(self)@, self@);
            }
        }
        let result = match cu.error {
            Some(e) => Err(e),
            None => {
                if unit.complete {
                    self.merge_ranges(&cu.rows);
                }
                Ok(())
            },
        };
        *reusable_cache = cu.into_caches();
        result
    }
}

/// The state after compilation units were taken in, one after the other.
pub open spec fn with_units(state: State, units: Seq<CompilationUnit>) -> State
    decreases units.len(),
{
    if units.len() == 0 {
        state
    } else {
        with_unit(with_units(state, units.drop_last()), units.last())
    }
}

/// Whether [`unit_precedes`] holds of each unit at the time it is taken in.
pub open spec fn units_precede(state: State, units: Seq<CompilationUnit>) -> bool
    decreases units.len(),
{
    units.len() > 0 ==> units_precede(state, units.drop_last()) && unit_precedes(
        with_units(state, units.drop_last()),
        units.last(),
    )
}

/// The errors that stop the work on one of the units, in the order of the
/// units.
pub open spec fn unit_errors(state: State, units: Seq<CompilationUnit>) -> Seq<DwarfError>
    decreases units.len(),
{
    if units.len() == 0 {
        Seq::empty()
    } else {
        let before = unit_errors(state, units.drop_last());
        match unit_error(with_units(state, units.drop_last()), units.last()) {
            Some(e) => before.push(e),
            None => before,
        }
    }
}

impl Converter {
    /// Takes in the compilation units of DWARF debug information.
    ///
    /// An error stops the work on the unit it comes up in; the units behind
    /// it are taken in all the same. When all units are done, the errors are
    /// handed to `error_sink` in the order of their units, and nothing else
    /// is.
    pub fn process_dwarf<E: ErrorSink<DwarfError>>(
        &mut self,
        units: &Vec<CompilationUnit>,
        error_sink: &mut E,
    )
        requires
            old(self).wf(),
        ensures
            final(self).wf(),
            final(self)@ == with_units(old(self)@, units@),
            took_all(*old(error_sink), unit_errors(old(self)@, units@), *final(error_sink)),
            entries_precede(old(self)@) && units_precede(old(self)@, units@) ==> entries_precede(
                final(self)@,
            ),
    {
        let errors = self.process_dwarf_units(units);
        raise_all(errors, error_sink);
    }

    /// Takes in the compilation units of DWARF debug information and returns
    /// the errors that stopped the work on one of them, in the order of the
    /// units.
    pub fn process_dwarf_units(&mut self, units: &Vec<CompilationUnit>) -> (errors: Vec<DwarfError>)
        requires
            old(self).wf(),
        ensures
            final(self).wf(),
            final(self)@ == with_units(old(self)@, units@),
            errors@ == unit_errors(old(self)@, units@),
            entries_precede(old(self)@) && units_precede(old(self)@, units@) ==> entries_precede(
                final(self)@,
            ),
    {
        let mut errors: Vec<DwarfError> = Vec::new();
        let mut reusable_cache = ReusableCaches::new();
        let mut i: usize = 0;
        while i < units.len()
            invariant
                i <= units@.len(),
                self.wf(),
                self@ == with_units(old(self)@, units@.subrange(0, i as int)),
                errors@ == unit_errors(old(self)@, units@.subrange(0, i as int)),
                entries_precede(old(self)@) && units_precede(old(self)@, units@.subrange(0, i as int))
                    ==> entries_precede(self@),
            decreases units@.len() - i,
        {
            proof {
                let next = units@.subrange(0, i + 1);
                assert(next.drop_last() =~= units@.subrange(0, i as int));
                assert(next.last() == units@[i as int]);
            }
            match self.process_dwarf_cu(&mut reusable_cache, &units[i]) {
                Ok(()) => {},
                Err(e) => {
                    errors.push(e);
                },
            }
            i = i + 1;
        }
        assert(units@.subrange(0, i as int) =~= units@);
        errors
    }
}

} // verus!
