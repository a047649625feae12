//! The builder that collects debug information and writes it out as a cache.

pub mod breakpad;
pub mod dwarf;
pub mod intern;
pub mod lookup;
pub mod object;
pub mod ranges;
pub mod serialize;
pub mod state;

use crate::format::raw;
use crate::format::raw::{offset_address, relative_address};
use intern::{intern_index, interned, StringTable, Table};
use ranges::{has_key, lemma_inserted, RangeMap};
use state::{
    entry_or_absent, file_index_in, fits, function_index_in, has_location_room, is_valid,
    location_index_in, optional_string_index_in, string_index_in, takes_range, with_file,
    with_function, with_location, with_optional_string, with_range, with_string, State,
};
use vstd::prelude::*;

verus! {

/// The converter: it takes in debug information piece by piece, keeps each
/// string, file, function and source location once, and can then be written
/// out as a cache.
pub struct Converter {
    range_threshold: u64,
    debug_id: [u8; 16],
    arch: u32,
    strings: StringTable,
    files: Table<raw::File>,
    functions: Table<raw::Function>,
    source_locations: Table<raw::SourceLocation>,
    ranges: RangeMap,
}

impl View for Converter {
    type V = State;

    closed spec fn view(&self) -> State {
        State {
            range_threshold: self.range_threshold,
            debug_id: self.debug_id@,
            arch: self.arch,
            strings: self.strings.keys(),
            string_refs: self.strings.refs(),
            string_bytes: self.strings.bytes(),
            files: self.files@,
            functions: self.functions@,
            source_locations: self.source_locations@,
            ranges: self.ranges@,
        }
    }
}

impl Converter {
    /// What holds of every converter that the functions below hand out.
    pub closed spec fn wf(&self) -> bool {
        &&& self.strings.wf()
        &&& self.files.wf()
        &&& self.functions.wf()
        &&& self.source_locations.wf()
        &&& self.ranges.wf()
        &&& is_valid(self@)
    }

    /// The state of a converter is valid.
    pub proof fn lemma_wf(&self)
        requires
            self.wf(),
        ensures
            is_valid(self@),
    {
    }

    /// A converter without entries, for addresses from zero on.
    pub fn new() -> (converter: Self)
        ensures
            converter.wf(),
            converter@ == empty_state(0),
    {
        Self::with_range_threshold(0)
    }

    /// A converter without entries, for addresses from `range_threshold` on.
    pub fn with_range_threshold(range_threshold: u64) -> (converter: Self)
        ensures
            converter.wf(),
            converter@ == empty_state(range_threshold),
    {
        let converter = Converter {
            range_threshold,
            debug_id: [0u8, 0, 0, 0, 0, 0, 0, 0, 0, 0, 0, 0, 0, 0, 0, 0],
            arch: 0,
            strings: StringTable::new(),
            files: Table::new(),
            functions: Table::new(),
            source_locations: Table::new(),
            ranges: RangeMap::new(),
        };
        assert(converter@.debug_id =~= Seq::new(16, |i: int| 0u8));
        converter
    }

    /// Sets the architecture tag.
    pub fn set_arch(&mut self, arch: u32)
        requires
            old(self).wf(),
        ensures
            final(self).wf(),
            final(self)@ == (State { arch, ..old(self)@ }),
    {
        self.arch = arch;
    }

    /// Sets the debug identifier.
    pub fn set_debug_id(&mut self, debug_id: [u8; 16])
        requires
            old(self).wf(),
        ensures
            final(self).wf(),
            final(self)@ == (State { debug_id: debug_id@, ..old(self)@ }),
    {
        self.debug_id = debug_id;
    }

    /// The relative address that stands for the absolute address `addr`:
    /// none where `addr` lies below the threshold or more than 32 bits above
    /// it.
    pub fn offset_addr(&self, addr: u64) -> (relative: Option<u32>)
        ensures
            relative == relative_address(self@.range_threshold, addr),
    {
        offset_address(self.range_threshold, addr)
    }

    /// Interns a string and returns its index; none where the string is new
    /// and the table is full or the string bytes would pass 32 bits.
    pub fn insert_string(&mut self, s: &str) -> (idx: Option<u32>)
        requires
            old(self).wf(),
        ensures
            final(self).wf(),
            final(self)@ == with_string(old(self)@, s@),
            idx == string_index_in(old(self)@, s@),
            idx matches Some(i) ==> i < final(self)@.strings.len() && final(self)@.strings[i as int]
                == s@,
    {
        proof {
            self.strings.lemma_wf();
        }
        let idx = self.strings.insert(s);
        proof {
            self.strings.lemma_wf();
        }
        idx
    }

    /// Interns an optional string: [`raw::NO_INDEX`] stands for none.
    pub(crate) fn insert_optional_string(&mut self, s: Option<&str>) -> (idx: Option<u32>)
        requires
            old(self).wf(),
        ensures
            final(self).wf(),
            final(self)@ == with_optional_string(old(self)@, option_chars(s)),
            idx == optional_string_index_in(old(self)@, option_chars(s)),
            idx matches Some(i) ==> refers_to_string(final(self)@, i),
    {
        match s {
            Some(s) => self.insert_string(s),
            None => Some(raw::NO_INDEX),
        }
    }

    /// Inserts a file and returns its index; none where one of its strings
    /// or the file itself cannot be interned.
    pub fn insert_file(&mut self, path_name: &str, directory: Option<&str>, comp_dir: Option<&str>) -> (idx:
        Option<u32>)
        requires
            old(self).wf(),
        ensures
            final(self).wf(),
            final(self)@ == with_file(
                old(self)@,
                path_name@,
                option_chars(directory),
                option_chars(comp_dir),
            ),
            idx == file_index_in(
                old(self)@,
                path_name@,
                option_chars(directory),
                option_chars(comp_dir),
            ),
            idx matches Some(i) ==> i < final(self)@.files.len(),
    {
        let path_name_idx = match self.insert_string(path_name) {
            Some(idx) => idx,
            None => {
                return None;
            },
        };
        let directory_idx = match self.insert_optional_string(directory) {
            Some(idx) => idx,
            None => {
                return None;
            },
        };
        let comp_dir_idx = match self.insert_optional_string(comp_dir) {
            Some(idx) => idx,
            None => {
                return None;
            },
        };
        self.insert_raw_file(raw::File { comp_dir_idx, directory_idx, path_name_idx })
    }

    /// Interns a file whose strings are in the table.
    fn insert_raw_file(&mut self, file: raw::File) -> (idx: Option<u32>)
        requires
            old(self).wf(),
            state::file_is_valid(file, old(self)@.strings.len() as int),
        ensures
            final(self).wf(),
            final(self)@ == (State { files: interned(old(self)@.files, file), ..old(self)@ }),
            idx == intern_index(old(self)@.files, file),
            idx matches Some(i) ==> i < final(self)@.files.len(),
    {
        self.files.insert(file)
    }

    /// Inserts a function and returns its index; none where its name or the
    /// function itself cannot be interned.
    pub fn insert_function(&mut self, name: Option<&str>, entry_pc: Option<u32>, lang: u8) -> (idx:
        Option<u32>)
        requires
            old(self).wf(),
        ensures
            final(self).wf(),
            final(self)@ == with_function(old(self)@, option_chars(name), entry_pc, lang),
            idx == function_index_in(old(self)@, option_chars(name), entry_pc, lang),
            idx matches Some(i) ==> i < final(self)@.functions.len(),
    {
        let name_idx = match self.insert_optional_string(name) {
            Some(idx) => idx,
            None => {
                return None;
            },
        };
        let entry_pc: u32 = match entry_pc {
            Some(entry_pc) => entry_pc,
            None => raw::NO_INDEX,
        };
        self.functions.insert(raw::Function { name_idx, entry_pc, lang })
    }

    /// The relative address at which the function with index `idx` starts,
    /// if the function exists and its start is known.
    pub fn function_entry_pc(&self, idx: u32) -> (entry_pc: Option<u32>)
        requires
            self.wf(),
        ensures
            entry_pc == if idx < self@.functions.len() && self@.functions[idx as int].entry_pc
                != raw::NO_INDEX {
                Some(self@.functions[idx as int].entry_pc)
            } else {
                None
            },
    {
        match self.functions.get(idx) {
            Some(function) => if function.entry_pc != raw::NO_INDEX {
                Some(function.entry_pc)
            } else {
                None
            },
            None => None,
        }
    }

    /// Whether a range starts at the relative address `addr`.
    pub fn has_range_at(&self, addr: u32) -> (found: bool)
        requires
            self.wf(),
        ensures
            found == has_key(self@.ranges, addr),
    {
        self.ranges.contains_key(addr)
    }

    /// The source location of the range that starts at `addr`.
    pub fn range_location(&self, addr: u32) -> (location: raw::SourceLocation)
        requires
            self.wf(),
            has_key(self@.ranges, addr),
        ensures
            location == self@.ranges[ranges::rank(self@.ranges, addr)].1,
            self@.ranges[ranges::rank(self@.ranges, addr)].0 == addr,
            fits(self@, location),
    {
        let p = self.ranges.lower_bound(addr);
        proof {
            let i = choose|i: int| 0 <= i < self@.ranges.len() && (#[trigger] self@.ranges[i]).0 == addr;
            assert(p <= i);
        }
        self.ranges.get(p).1
    }

    /// Sets the range that starts at the relative address `addr`: where one
    /// starts there already, it gets the new source location. Nothing
    /// changes where the source location names what does not exist, or
    /// where the range is new and there is no room for it. Returns whether
    /// the range was set.
    pub fn set_range(&mut self, addr: u32, location: raw::SourceLocation) -> (set: bool)
        requires
            old(self).wf(),
        ensures
            final(self).wf(),
            final(self)@ == object::with_range_set(old(self)@, addr, location),
            set == (fits(old(self)@, location) && (has_key(old(self)@.ranges, addr)
                || has_location_room(old(self)@))),
    {
        if self.accepts(&location) && (self.has_range_at(addr) || self.has_room()) {
            proof {
                self.ranges.lemma_wf();
                lemma_inserted(self.ranges@, addr, location);
                ranges::lemma_rank_bounds(self.ranges@, addr);
                ranges::lemma_rank_splits(self.ranges@, addr);
            }
            let ghost before = self.ranges@;
            self.ranges.replace(addr, location);
            proof {
                let after = self.ranges@;
                let p = ranges::rank(before, addr);
                assert forall|i: int| 0 <= i < after.len() implies fits(
                    self@,
                    (#[trigger] after[i]).1,
                ) by {
                    if has_key(before, addr) {
                        if i != p {
                            assert(after[i] == before[i]);
                            assert(fits(old(self)@, before[i].1));
                        }
                    } else {
                        assert(after.contains(after[i]));
                        if after[i] != (addr, location) {
                            assert(before.contains(after[i]));
                            let j = choose|j: int| 0 <= j < before.len() && before[j] == after[i];
                            assert(fits(old(self)@, before[j].1));
                        }
                    }
                }
                self.ranges.lemma_wf();
            }
            true
        } else {
            false
        }
    }

    /// Whether what a source location names exists in this converter.
    pub fn accepts(&self, location: &raw::SourceLocation) -> (ok: bool)
        requires
            self.wf(),
        ensures
            ok == fits(self@, *location),
    {
        let files: u32 = self.files.len();
        let functions: u32 = self.functions.len();
        let callers: u32 = self.source_locations.len();
        (location.file_idx == raw::NO_INDEX || location.file_idx < files) && (location.function_idx
            == raw::NO_INDEX || location.function_idx < functions) && (location.inlined_into_idx
            == raw::NO_INDEX || location.inlined_into_idx < callers)
    }

    /// Whether one more source location or range can be added.
    fn has_room(&self) -> (ok: bool)
        requires
            self.wf(),
        ensures
            ok == has_location_room(self@),
    {
        let locations: u64 = self.source_locations.len() as u64;
        let ranges: u64 = self.ranges.len() as u64;
        locations + ranges < raw::NO_INDEX as u64
    }

    /// Inserts a source location and returns its index; none where it is
    /// new and names what does not exist, or there is no room for it.
    pub fn insert_source_location(&mut self, location: raw::SourceLocation) -> (idx: Option<u32>)
        requires
            old(self).wf(),
        ensures
            final(self).wf(),
            final(self)@ == with_location(old(self)@, location),
            idx == location_index_in(old(self)@, location),
            idx matches Some(i) ==> i < final(self)@.source_locations.len(),
    {
        match self.source_locations.position(location) {
            Some(idx) => Some(idx),
            None => {
                if self.accepts(&location) && self.has_room() {
                    self.source_locations.insert(location)
                } else {
                    None
                }
            },
        }
    }

    /// Adds a range that starts at the relative address `addr`. The first
    /// range at an address stays: nothing changes where one starts there
    /// already, nor where the source location names what does not exist or
    /// there is no room. Returns whether the range was added.
    pub fn insert_range(&mut self, addr: u32, location: raw::SourceLocation) -> (added: bool)
        requires
            old(self).wf(),
        ensures
            final(self).wf(),
            final(self)@ == with_range(old(self)@, addr, location),
            added == takes_range(old(self)@, addr, location),
            state::entries_precede(old(self)@) && state::entry_precedes(old(self)@, (addr, location))
                ==> state::entries_precede(final(self)@),
    {
        proof {
            if state::entries_precede(self@) && state::entry_precedes(self@, (addr, location)) {
                state::lemma_range_keeps_entries(self@, addr, location);
            }
        }
        if self.accepts(&location) && self.has_room() {
            proof {
                self.ranges.lemma_wf();
                lemma_inserted(self.ranges@, addr, location);
            }
            let ghost before = self.ranges@;
            let added = self.ranges.insert(addr, location);
            proof {
                let after = self.ranges@;
                if added {
                    ranges::lemma_rank_bounds(before, addr);
                    assert(after.len() == before.len() + 1);
                    assert forall|i: int| 0 <= i < after.len() implies fits(
                        self@,
                        (#[trigger] after[i]).1,
                    ) by {
                        assert(after.contains(after[i]));
                        if after[i] != (addr, location) {
                            assert(before.contains(after[i]));
                            let j = choose|j: int| 0 <= j < before.len() && before[j] == after[i];
                            assert(fits(old(self)@, before[j].1));
                        }
                    }
                }
                self.ranges.lemma_wf();
            }
            added
        } else {
            false
        }
    }
}

impl Default for Converter {
    /// A converter without entries, for addresses from zero on.
    fn default() -> (converter: Self)
        ensures
            converter.wf(),
            converter@ == empty_state(0),
    {
        Converter::new()
    }
}

/// The state of a converter without entries.
pub open spec fn empty_state(range_threshold: u64) -> State {
    State {
        range_threshold,
        debug_id: Seq::new(16, |i: int| 0u8),
        arch: 0,
        strings: Seq::empty(),
        string_refs: Seq::empty(),
        string_bytes: Seq::empty(),
        files: Seq::empty(),
        functions: Seq::empty(),
        source_locations: Seq::empty(),
        ranges: Seq::empty(),
    }
}

/// The characters of an optional string.
pub open spec fn option_chars(s: Option<&str>) -> Option<Seq<char>> {
    match s {
        Some(s) => Some(s@),
        None => None,
    }
}

/// Whether `idx` is absent or the index of a string of `state`.
pub open spec fn refers_to_string(state: State, idx: u32) -> bool {
    state::refers_into(idx, state.strings.len() as int)
}

} // verus!
