//! What a converter holds, as plain values, and what each insertion does to
//! it.

use super::intern::{has_room, intern_index, interned, string_index, strings_stored};
use super::ranges::{ascending, has_key, inserted, Entry};
use crate::format::raw;
use vstd::prelude::*;

verus! {

/// What a converter holds.
pub struct State {
    /// The absolute address that relative address zero stands for.
    pub range_threshold: u64,
    /// The sixteen bytes of the debug identifier.
    pub debug_id: Seq<u8>,
    /// The architecture tag.
    pub arch: u32,
    /// The strings, each by its characters.
    pub strings: Seq<Seq<char>>,
    /// Where each string's bytes are.
    pub string_refs: Seq<raw::String>,
    /// The bytes of all strings.
    pub string_bytes: Seq<u8>,
    /// The files.
    pub files: Seq<raw::File>,
    /// The functions.
    pub functions: Seq<raw::Function>,
    /// The source locations that other source locations were inlined into.
    pub source_locations: Seq<raw::SourceLocation>,
    /// The ranges, in ascending order of their start.
    pub ranges: Seq<Entry>,
}

/// Whether `idx` is absent or the index of one of `count` entries.
pub open spec fn refers_into(idx: u32, count: int) -> bool {
    idx == raw::NO_INDEX || idx < count
}

/// Whether the strings that `file` names are among the first `strings`.
pub open spec fn file_is_valid(file: raw::File, strings: int) -> bool {
    &&& refers_into(file.comp_dir_idx, strings)
    &&& refers_into(file.directory_idx, strings)
    &&& file.path_name_idx < strings
}

/// Whether what `location` names exists: its file among the first `files`,
/// its function among the first `functions`, and the source location it was
/// inlined into among the first `callers`.
pub open spec fn location_is_valid(
    location: raw::SourceLocation,
    files: int,
    functions: int,
    callers: int,
) -> bool {
    &&& refers_into(location.file_idx, files)
    &&& refers_into(location.function_idx, functions)
    &&& refers_into(location.inlined_into_idx, callers)
}

/// Whether `location` can stand in `state`, as a source location or as the
/// value of a range.
pub open spec fn fits(state: State, location: raw::SourceLocation) -> bool {
    location_is_valid(
        location,
        state.files.len() as int,
        state.functions.len() as int,
        state.source_locations.len() as int,
    )
}

/// Whether one more source location or range can be added.
pub open spec fn has_location_room(state: State) -> bool {
    state.source_locations.len() + state.ranges.len() < raw::NO_INDEX
}

/// What holds of the state of every converter: nothing stands twice in a
/// table, every index names an entry that exists, a source location was
/// inlined only into one that was there before it, the ranges are in
/// ascending order, and every count fits in 32 bits.
pub open spec fn is_valid(state: State) -> bool {
    &&& state.debug_id.len() == 16
    &&& state.strings.no_duplicates()
    &&& state.strings.len() <= raw::NO_INDEX
    &&& state.string_bytes.len() <= 0xffff_ffff
    &&& strings_stored(state.strings, state.string_refs, state.string_bytes)
    &&& state.files.no_duplicates()
    &&& state.files.len() <= raw::NO_INDEX
    &&& forall|i: int|
        0 <= i < state.files.len() ==> file_is_valid(#[trigger] state.files[i], state.strings.len() as int)
    &&& state.functions.no_duplicates()
    &&& state.functions.len() <= raw::NO_INDEX
    &&& forall|i: int|
        0 <= i < state.functions.len() ==> refers_into(
            (#[trigger] state.functions[i]).name_idx,
            state.strings.len() as int,
        )
    &&& state.source_locations.no_duplicates()
    &&& forall|i: int|
        0 <= i < state.source_locations.len() ==> location_is_valid(
            #[trigger] state.source_locations[i],
            state.files.len() as int,
            state.functions.len() as int,
            i,
        )
    &&& ascending(state.ranges)
    &&& forall|i: int| 0 <= i < state.ranges.len() ==> fits(state, (#[trigger] state.ranges[i]).1)
    &&& state.source_locations.len() + state.ranges.len() <= raw::NO_INDEX
}

/// The state after the string `s` was interned.
pub open spec fn with_string(state: State, s: Seq<char>) -> State {
    if state.strings.contains(s) || !has_room(state.strings, state.string_bytes, s) {
        state
    } else {
        State {
            strings: state.strings.push(s),
            string_refs: state.string_refs.push(
                raw::String {
                    string_offset: state.string_bytes.len() as u32,
                    string_len: vstd::utf8::encode_utf8(s).len() as u32,
                },
            ),
            string_bytes: state.string_bytes + vstd::utf8::encode_utf8(s),
            ..state
        }
    }
}

/// The index that interning the string `s` in `state` gives.
pub open spec fn string_index_in(state: State, s: Seq<char>) -> Option<u32> {
    string_index(state.strings, state.string_bytes, s)
}

/// The state after an optional string was interned.
pub open spec fn with_optional_string(state: State, s: Option<Seq<char>>) -> State {
    match s {
        Some(s) => with_string(state, s),
        None => state,
    }
}

/// The index of an optional string: that of the string, [`raw::NO_INDEX`] for
/// no string, and none where the string cannot be interned.
pub open spec fn optional_string_index_in(state: State, s: Option<Seq<char>>) -> Option<u32> {
    match s {
        Some(s) => string_index_in(state, s),
        None => Some(raw::NO_INDEX),
    }
}

/// The state after a file was inserted: its strings are interned, the path
/// name first, then the directory, then the compilation directory, up to the
/// first that cannot be; where all can be, the file is interned.
pub open spec fn with_file(
    state: State,
    path_name: Seq<char>,
    directory: Option<Seq<char>>,
    comp_dir: Option<Seq<char>>,
) -> State {
    let first = with_string(state, path_name);
    let second = with_optional_string(first, directory);
    let third = with_optional_string(second, comp_dir);
    match string_index_in(state, path_name) {
        None => first,
        Some(path_name_idx) => match optional_string_index_in(first, directory) {
            None => second,
            Some(directory_idx) => match optional_string_index_in(second, comp_dir) {
                None => third,
                Some(comp_dir_idx) => State {
                    files: interned(
                        third.files,
                        raw::File { comp_dir_idx, directory_idx, path_name_idx },
                    ),
                    ..third
                },
            },
        },
    }
}

/// The index that inserting a file gives: none where one of its strings or
/// the file itself cannot be interned.
pub open spec fn file_index_in(
    state: State,
    path_name: Seq<char>,
    directory: Option<Seq<char>>,
    comp_dir: Option<Seq<char>>,
) -> Option<u32> {
    let first = with_string(state, path_name);
    let second = with_optional_string(first, directory);
    match string_index_in(state, path_name) {
        None => None,
        Some(path_name_idx) => match optional_string_index_in(first, directory) {
            None => None,
            Some(directory_idx) => match optional_string_index_in(second, comp_dir) {
                None => None,
                Some(comp_dir_idx) => intern_index(
                    second.files,
                    raw::File { comp_dir_idx, directory_idx, path_name_idx },
                ),
            },
        },
    }
}

/// The relative address that a function is stored with: [`raw::NO_INDEX`]
/// where it has none.
pub open spec fn entry_or_absent(entry_pc: Option<u32>) -> u32 {
    match entry_pc {
        Some(entry_pc) => entry_pc,
        None => raw::NO_INDEX,
    }
}

/// The state after a function was inserted: its name is interned and then,
/// where that can be done, the function.
pub open spec fn with_function(state: State, name: Option<Seq<char>>, entry_pc: Option<u32>, lang: u8) -> State {
    let named = with_optional_string(state, name);
    match optional_string_index_in(state, name) {
        None => named,
        Some(name_idx) => State {
            functions: interned(
                named.functions,
                raw::Function { name_idx, entry_pc: entry_or_absent(entry_pc), lang },
            ),
            ..named
        },
    }
}

/// The index that inserting a function gives.
pub open spec fn function_index_in(
    state: State,
    name: Option<Seq<char>>,
    entry_pc: Option<u32>,
    lang: u8,
) -> Option<u32> {
    match optional_string_index_in(state, name) {
        None => None,
        Some(name_idx) => intern_index(
            state.functions,
            raw::Function { name_idx, entry_pc: entry_or_absent(entry_pc), lang },
        ),
    }
}

/// The index that inserting a source location gives: the one it has where
/// it is in the table, the next one where it [`fits`] and there is room, and
/// none otherwise.
pub open spec fn location_index_in(state: State, location: raw::SourceLocation) -> Option<u32> {
    if state.source_locations.contains(location) {
        Some(state.source_locations.index_of(location) as u32)
    } else if fits(state, location) && has_location_room(state) {
        Some(state.source_locations.len() as u32)
    } else {
        None
    }
}

/// The state after a source location was inserted.
pub open spec fn with_location(state: State, location: raw::SourceLocation) -> State {
    if !state.source_locations.contains(location) && fits(state, location) && has_location_room(
        state,
    ) {
        State { source_locations: state.source_locations.push(location), ..state }
    } else {
        state
    }
}

/// Whether a range at `addr` with the source location `location` is added:
/// no range starts at `addr` yet, the location [`fits`] and there is room.
pub open spec fn takes_range(state: State, addr: u32, location: raw::SourceLocation) -> bool {
    !has_key(state.ranges, addr) && fits(state, location) && has_location_room(state)
}

/// The state after a range was inserted.
pub open spec fn with_range(state: State, addr: u32, location: raw::SourceLocation) -> State {
    if takes_range(state, addr, location) {
        State { ranges: inserted(state.ranges, addr, location), ..state }
    } else {
        state
    }
}

/// A value that was interned has the index that interning gave it, and
/// interning it again gives the same index and changes nothing.
pub proof fn lemma_interned_once<T>(table: Seq<T>, value: T)
    requires
        table.no_duplicates(),
        table.len() <= raw::NO_INDEX,
    ensures
        interned(table, value).no_duplicates(),
        forall|i: int| 0 <= i < table.len() ==> #[trigger] interned(table, value)[i] == table[i],
        table.len() <= interned(table, value).len(),
        intern_index(table, value) matches Some(i) ==> {
            &&& i < interned(table, value).len()
            &&& interned(table, value)[i as int] == value
            &&& intern_index(interned(table, value), value) == Some(i)
        },
        interned(interned(table, value), value) == interned(table, value),
{
    let after = interned(table, value);
    if table.contains(value) {
        let i = table.index_of(value);
        assert(table[i] == value);
    } else if table.len() < raw::NO_INDEX {
        assert(after[table.len() as int] == value);
        assert(after.contains(value));
        assert forall|i: int, j: int|
            0 <= i < after.len() && 0 <= j < after.len() && i != j implies after[i] != after[j] by {
            if i < table.len() {
                assert(table.contains(table[i]));
            }
            if j < table.len() {
                assert(table.contains(table[j]));
            }
        }
        let k = after.index_of(value);
        assert(after[k] == value);
        if k != table.len() {
            assert(after[k] != after[table.len() as int]);
        }
    }
}

/// Inserting the same string twice gives the same index, and the second
/// insertion changes nothing.
pub proof fn lemma_string_interned_once(state: State, s: Seq<char>)
    requires
        is_valid(state),
    ensures
        string_index_in(state, s) matches Some(i) ==> {
            &&& i < with_string(state, s).strings.len()
            &&& with_string(state, s).strings[i as int] == s
            &&& string_index_in(with_string(state, s), s) == Some(i)
        },
        with_string(with_string(state, s), s) == with_string(state, s),
        forall|i: int|
            0 <= i < state.strings.len() ==> #[trigger] with_string(state, s).strings[i]
                == state.strings[i],
        state.strings.len() <= with_string(state, s).strings.len(),
{
    let after = with_string(state, s);
    if state.strings.contains(s) {
        let i = state.strings.index_of(s);
        assert(state.strings[i] == s);
    } else if has_room(state.strings, state.string_bytes, s) {
        assert(after.strings[state.strings.len() as int] == s);
        assert(after.strings.contains(s));
        assert forall|i: int, j: int|
            0 <= i < after.strings.len() && 0 <= j < after.strings.len() && i != j implies after.strings[i]
            != after.strings[j] by {
            if i < state.strings.len() {
                assert(state.strings.contains(state.strings[i]));
            }
            if j < state.strings.len() {
                assert(state.strings.contains(state.strings[j]));
            }
        }
        let k = after.strings.index_of(s);
        assert(after.strings[k] == s);
        if k != state.strings.len() {
            assert(after.strings[k] != after.strings[state.strings.len() as int]);
        }
    }
}

/// Inserting the same function twice gives the same index, and the second
/// insertion changes nothing.
pub proof fn lemma_function_interned_once(
    state: State,
    name: Option<Seq<char>>,
    entry_pc: Option<u32>,
    lang: u8,
)
    requires
        is_valid(state),
    ensures
        function_index_in(state, name, entry_pc, lang) matches Some(i) ==> {
            &&& i < with_function(state, name, entry_pc, lang).functions.len()
            &&& with_function(state, name, entry_pc, lang).functions[i as int].entry_pc
                == entry_or_absent(entry_pc)
            &&& function_index_in(with_function(state, name, entry_pc, lang), name, entry_pc, lang)
                == Some(i)
        },
        function_index_in(state, name, entry_pc, lang) is Some ==> with_function(
            with_function(state, name, entry_pc, lang),
            name,
            entry_pc,
            lang,
        ) == with_function(state, name, entry_pc, lang),
        forall|i: int|
            0 <= i < state.functions.len() ==> #[trigger] with_function(
                state,
                name,
                entry_pc,
                lang,
            ).functions[i] == state.functions[i],
        state.functions.len() <= with_function(state, name, entry_pc, lang).functions.len(),
        with_function(state, name, entry_pc, lang).ranges == state.ranges,
        with_function(state, name, entry_pc, lang).range_threshold == state.range_threshold,
{
    match name {
        Some(s) => {
            lemma_string_interned_once(state, s);
        },
        None => {},
    }
    let named = with_optional_string(state, name);
    match optional_string_index_in(state, name) {
        Some(name_idx) => {
            let function = raw::Function { name_idx, entry_pc: entry_or_absent(entry_pc), lang };
            lemma_interned_once(named.functions, function);
            let after = with_function(state, name, entry_pc, lang);
            assert(optional_string_index_in(after, name) == Some(name_idx));
            assert(with_optional_string(after, name) == after);
        },
        None => {},
    }
}

/// Inserting the same source location twice gives the same index, and the
/// second insertion changes nothing.
pub proof fn lemma_location_interned_once(state: State, location: raw::SourceLocation)
    requires
        is_valid(state),
    ensures
        location_index_in(state, location) matches Some(i) ==> location_index_in(
            with_location(state, location),
            location,
        ) == Some(i),
        with_location(with_location(state, location), location) == with_location(state, location),
{
    let after = with_location(state, location);
    if state.source_locations.contains(location) {
    } else if fits(state, location) && has_location_room(state) {
        assert(after.source_locations[state.source_locations.len() as int] == location);
        assert(after.source_locations.contains(location));
        assert forall|i: int, j: int|
            0 <= i < after.source_locations.len() && 0 <= j < after.source_locations.len() && i
                != j implies after.source_locations[i] != after.source_locations[j] by {
            if i < state.source_locations.len() {
                assert(state.source_locations.contains(state.source_locations[i]));
            }
            if j < state.source_locations.len() {
                assert(state.source_locations.contains(state.source_locations[j]));
            }
        }
        let k = after.source_locations.index_of(location);
        assert(after.source_locations[k] == location);
        if k != state.source_locations.len() {
            assert(after.source_locations[k] != after.source_locations[state.source_locations.len() as int]);
        }
    }
}

/// Asking for a range at an address twice changes nothing the second time:
/// the first range at an address stays.
pub proof fn lemma_first_range_stays(
    state: State,
    addr: u32,
    first: raw::SourceLocation,
    second: raw::SourceLocation,
)
    requires
        is_valid(state),
        takes_range(state, addr, first),
    ensures
        with_range(with_range(state, addr, first), addr, second) == with_range(state, addr, first),
        with_range(state, addr, first).ranges.contains((addr, first)),
{
    super::ranges::lemma_inserted(state.ranges, addr, first);
}

/// Whether a range lies at or behind the first instruction of the function
/// that its source location names, where it names one.
pub open spec fn entry_precedes(state: State, entry: Entry) -> bool {
    entry.1.function_idx < state.functions.len() ==> state.functions[entry.1.function_idx as int].entry_pc
        <= entry.0
}

/// Whether every range lies at or behind the first instruction of its
/// function.
pub open spec fn entries_precede(state: State) -> bool {
    forall|i: int| 0 <= i < state.ranges.len() ==> entry_precedes(state, #[trigger] state.ranges[i])
}

/// A range that lies at or behind the first instruction of its function
/// can be added to ranges that all do, and they all do still.
pub proof fn lemma_range_keeps_entries(state: State, addr: u32, location: raw::SourceLocation)
    requires
        is_valid(state),
        entries_precede(state),
        entry_precedes(state, (addr, location)),
    ensures
        entries_precede(with_range(state, addr, location)),
{
    let after = with_range(state, addr, location);
    super::ranges::lemma_inserted(state.ranges, addr, location);
    assert forall|i: int| 0 <= i < after.ranges.len() implies entry_precedes(
        after,
        #[trigger] after.ranges[i],
    ) by {
        let e = after.ranges[i];
        assert(after.ranges.contains(e));
        if e != (addr, location) {
            assert(state.ranges.contains(e));
            let j = choose|j: int| 0 <= j < state.ranges.len() && state.ranges[j] == e;
            assert(entry_precedes(state, state.ranges[j]));
        }
    }
}

/// Inserting a function leaves every range at or behind the first
/// instruction of its function.
pub proof fn lemma_function_keeps_entries(
    state: State,
    name: Option<Seq<char>>,
    entry_pc: Option<u32>,
    lang: u8,
)
    requires
        is_valid(state),
        entries_precede(state),
    ensures
        entries_precede(with_function(state, name, entry_pc, lang)),
{
    let after = with_function(state, name, entry_pc, lang);
    lemma_function_interned_once(state, name, entry_pc, lang);
    assert forall|i: int| 0 <= i < after.ranges.len() implies entry_precedes(
        after,
        #[trigger] after.ranges[i],
    ) by {
        assert(entry_precedes(state, state.ranges[i]));
        assert(fits(state, state.ranges[i].1));
        let f = state.ranges[i].1.function_idx;
        if f < state.functions.len() {
            assert(after.functions[f as int] == state.functions[f as int]);
        }
    }
}

/// Whether `after` has the ranges of `before` and its functions, with more
/// functions behind them or none.
pub open spec fn extends(before: State, after: State) -> bool {
    &&& after.ranges == before.ranges
    &&& after.range_threshold == before.range_threshold
    &&& before.functions.len() <= after.functions.len()
    &&& forall|i: int|
        0 <= i < before.functions.len() ==> #[trigger] after.functions[i] == before.functions[i]
}

/// Inserting a string, a file, a function or a source location leaves the
/// ranges as they are and the functions where they are.
pub proof fn lemma_insertions_extend(state: State)
    ensures
        forall|s: Seq<char>| extends(state, #[trigger] with_string(state, s)),
        forall|s: Option<Seq<char>>| extends(state, #[trigger] with_optional_string(state, s)),
        forall|path_name: Seq<char>, directory: Option<Seq<char>>, comp_dir: Option<Seq<char>>|
            extends(state, #[trigger] with_file(state, path_name, directory, comp_dir)),
        forall|name: Option<Seq<char>>, entry_pc: Option<u32>, lang: u8|
            extends(state, #[trigger] with_function(state, name, entry_pc, lang)),
        forall|location: raw::SourceLocation| extends(state, #[trigger] with_location(state, location)),
{
}

/// Where every range lies at or behind the first instruction of its
/// function, it still does when functions were added.
pub proof fn lemma_extension_keeps_entries(before: State, after: State)
    requires
        is_valid(before),
        is_valid(after),
        entries_precede(before),
        extends(before, after),
    ensures
        entries_precede(after),
{
    assert forall|i: int| 0 <= i < after.ranges.len() implies entry_precedes(
        after,
        #[trigger] after.ranges[i],
    ) by {
        assert(entry_precedes(before, before.ranges[i]));
        assert(fits(before, before.ranges[i].1));
        let f = before.ranges[i].1.function_idx;
        if f < before.functions.len() {
            assert(after.functions[f as int] == before.functions[f as int]);
        }
    }
}

/// Whether each of the rows lies at or behind the first instruction of the
/// function that it names, where it names one.
pub open spec fn rows_precede(state: State, rows: Seq<Entry>) -> bool {
    forall|i: int| 0 <= i < rows.len() ==> entry_precedes(state, #[trigger] rows[i])
}

} // verus!
