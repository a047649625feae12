//! Taking in the records of a Breakpad symbol file.

use super::state::{
    entries_precede, entry_precedes, file_index_in, function_index_in, is_valid,
    lemma_function_interned_once, lemma_function_keeps_entries, lemma_range_keeps_entries,
    string_index_in, with_file, with_function, with_range, with_string, State,
};
use super::Converter;
use crate::format::raw;
use crate::format::raw::relative_address;
use std::collections::HashMap;
use vstd::prelude::*;

verus! {

broadcast use vstd::std_specs::hash::group_hash_axioms;

/// The language tag of a function of which the language is not known.
pub const LANGUAGE_UNKNOWN: u8 = 0;

/// The language tag of a function that is known from a public symbol only.
pub const LANGUAGE_OF_SYMBOL: u8 = 0xff;

/// A `FILE` record: a source file and the number that line records know it
/// by.
pub struct BreakpadFileRecord {
    /// The number of the file.
    pub id: u64,
    /// The path of the file.
    pub name: String,
}

/// A line record: the instructions from `address` on belong to a line of a
/// file.
#[derive(Clone, Copy)]
pub struct BreakpadLineRecord {
    /// The absolute address of the first instruction.
    pub address: u64,
    /// The number of bytes of the instructions.
    pub size: u64,
    /// The line number.
    pub line: u64,
    /// The number of the file.
    pub file_id: u64,
}

/// A `FUNC` record: a function with its line records.
pub struct BreakpadFuncRecord {
    /// The absolute address of the first instruction.
    pub address: u64,
    /// The number of bytes of the instructions.
    pub size: u64,
    /// The name of the function.
    pub name: String,
    /// The line records of the function.
    pub lines: Vec<BreakpadLineRecord>,
}

/// A `PUBLIC` record: a symbol without line records.
pub struct BreakpadPublicRecord {
    /// The absolute address of the symbol.
    pub address: u64,
    /// The name of the symbol.
    pub name: String,
}

/// The records of a Breakpad symbol file.
pub struct BreakpadSymbols {
    /// The `FILE` records.
    pub files: Vec<BreakpadFileRecord>,
    /// The `FUNC` records.
    pub funcs: Vec<BreakpadFuncRecord>,
    /// The `PUBLIC` records.
    pub publics: Vec<BreakpadPublicRecord>,
}

/// The line number that is stored for a line record: zero, which stands for
/// "not known", where the number does not fit in 32 bits.
pub open spec fn stored_line(line: u64) -> u32 {
    if line <= 0xffff_ffff {
        line as u32
    } else {
        0
    }
}

/// The index of the file that line records know by `id`: absent where no
/// `FILE` record gave that number.
pub open spec fn file_of(file_map: Map<u64, u32>, id: u64) -> u32 {
    if file_map.contains_key(id) {
        file_map[id]
    } else {
        raw::NO_INDEX
    }
}

/// The state after the `FILE` records were taken in: each is inserted as a
/// file with a path name only.
pub open spec fn with_file_records(state: State, files: Seq<BreakpadFileRecord>) -> State
    decreases files.len(),
{
    if files.len() == 0 {
        state
    } else {
        with_file(with_file_records(state, files.drop_last()), files.last().name@, None, None)
    }
}

/// The index of the file that each `FILE` record was inserted as, by the
/// record's number; a later record takes the place of an earlier one with
/// the same number, and one that could not be inserted is left out.
pub open spec fn file_map_of(state: State, files: Seq<BreakpadFileRecord>) -> Map<u64, u32>
    decreases files.len(),
{
    if files.len() == 0 {
        Map::empty()
    } else {
        let before = file_map_of(state, files.drop_last());
        match file_index_in(
            with_file_records(state, files.drop_last()),
            files.last().name@,
            None,
            None,
        ) {
            Some(idx) => before.insert(files.last().id, idx),
            None => before,
        }
    }
}

/// The state after one line record of the function `function_idx` was taken
/// in: a range at its address, unless the address has no relative address.
pub open spec fn with_line_record(
    state: State,
    line: BreakpadLineRecord,
    function_idx: u32,
    file_map: Map<u64, u32>,
) -> State {
    match relative_address(state.range_threshold, line.address) {
        None => state,
        Some(addr) => with_range(
            state,
            addr,
            raw::SourceLocation {
                file_idx: file_of(file_map, line.file_id),
                line: stored_line(line.line),
                function_idx,
                inlined_into_idx: raw::NO_INDEX,
            },
        ),
    }
}

/// The state after line records of one function were taken in.
pub open spec fn with_line_records(
    state: State,
    lines: Seq<BreakpadLineRecord>,
    function_idx: u32,
    file_map: Map<u64, u32>,
) -> State
    decreases lines.len(),
{
    if lines.len() == 0 {
        state
    } else {
        with_line_record(
            with_line_records(state, lines.drop_last(), function_idx, file_map),
            lines.last(),
            function_idx,
            file_map,
        )
    }
}

/// The source location of an address that belongs to a function but to no
/// line.
pub open spec fn bare_location(function_idx: u32) -> raw::SourceLocation {
    raw::SourceLocation {
        file_idx: raw::NO_INDEX,
        line: 0,
        function_idx,
        inlined_into_idx: raw::NO_INDEX,
    }
}

/// The state after a `FUNC` record was taken in. A function whose address
/// has no relative address, or that cannot be inserted, is skipped.
/// Otherwise the function is inserted, then a range for each line record,
/// and last a range at the function's own address, which stays only where
/// no line record starts there: so an address in the function before its
/// first line still finds the function.
pub open spec fn with_func_record(state: State, func: BreakpadFuncRecord, file_map: Map<u64, u32>) -> State {
    match relative_address(state.range_threshold, func.address) {
        None => state,
        Some(entry_pc) => {
            let named = with_function(state, Some(func.name@), Some(entry_pc), LANGUAGE_UNKNOWN);
            match function_index_in(state, Some(func.name@), Some(entry_pc), LANGUAGE_UNKNOWN) {
                None => named,
                Some(function_idx) => with_range(
                    with_line_records(named, func.lines@, function_idx, file_map),
                    entry_pc,
                    bare_location(function_idx),
                ),
            }
        },
    }
}

/// The state after `FUNC` records were taken in.
pub open spec fn with_func_records(
    state: State,
    funcs: Seq<BreakpadFuncRecord>,
    file_map: Map<u64, u32>,
) -> State
    decreases funcs.len(),
{
    if funcs.len() == 0 {
        state
    } else {
        with_func_record(
            with_func_records(state, funcs.drop_last(), file_map),
            funcs.last(),
            file_map,
        )
    }
}

/// The state after a `PUBLIC` record was taken in. One whose address has no
/// relative address is skipped. Otherwise its name is interned, and where no
/// range starts at its address yet, a function with that name is inserted and
/// a range for it.
pub open spec fn with_public_record(state: State, public: BreakpadPublicRecord) -> State {
    match relative_address(state.range_threshold, public.address) {
        None => state,
        Some(addr) => {
            let named = with_string(state, public.name@);
            if super::ranges::has_key(state.ranges, addr) {
                named
            } else {
                let inserted = with_function(
                    named,
                    Some(public.name@),
                    Some(addr),
                    LANGUAGE_OF_SYMBOL,
                );
                match function_index_in(named, Some(public.name@), Some(addr), LANGUAGE_OF_SYMBOL) {
                    None => inserted,
                    Some(function_idx) => with_range(inserted, addr, bare_location(function_idx)),
                }
            }
        },
    }
}

/// The state after `PUBLIC` records were taken in.
pub open spec fn with_public_records(state: State, publics: Seq<BreakpadPublicRecord>) -> State
    decreases publics.len(),
{
    if publics.len() == 0 {
        state
    } else {
        with_public_record(with_public_records(state, publics.drop_last()), publics.last())
    }
}

/// The state after the records of a Breakpad symbol file were taken in:
/// first the files, then the functions with their lines, then the public
/// symbols.
pub open spec fn with_breakpad(state: State, symbols: BreakpadSymbols) -> State {
    with_public_records(
        with_func_records(
            with_file_records(state, symbols.files@),
            symbols.funcs@,
            file_map_of(state, symbols.files@),
        ),
        symbols.publics@,
    )
}

/// No line record of the function lies before the function.
pub open spec fn lines_follow(func: BreakpadFuncRecord) -> bool {
    forall|i: int| 0 <= i < func.lines@.len() ==> func.address <= (#[trigger] func.lines@[i]).address
}

/// No line record of any function lies before its function.
pub open spec fn all_lines_follow(funcs: Seq<BreakpadFuncRecord>) -> bool {
    forall|i: int| 0 <= i < funcs.len() ==> lines_follow(#[trigger] funcs[i])
}

impl Converter {
    /// Takes in the records of a Breakpad symbol file.
    ///
    /// What cannot be stored is skipped: a record whose address lies below
    /// the threshold or more than 32 bits above it, and what a full table
    /// has no room for.
    pub fn process_breakpad(&mut self, symbols: &BreakpadSymbols)
        requires
            old(self).wf(),
        ensures
            final(self).wf(),
            final(self)@ == with_breakpad(old(self)@, *symbols),
            entries_precede(old(self)@) && all_lines_follow(symbols.funcs@) ==> entries_precede(
                final(self)@,
            ),
    {
        let file_map = self.process_file_records(&symbols.files);
        let mut i: usize = 0;
        while i < symbols.funcs.len()
            invariant
                i <= symbols.funcs@.len(),
                self.wf(),
                self@ == with_func_records(
                    with_file_records(old(self)@, symbols.files@),
                    symbols.funcs@.subrange(0, i as int),
                    file_map@,
                ),
                entries_precede(old(self)@) && all_lines_follow(symbols.funcs@) ==> entries_precede(
                    self@,
                ),
            decreases symbols.funcs@.len() - i,
        {
            proof {
                let next = symbols.funcs@.subrange(0, i + 1);
                assert(next.drop_last() =~= symbols.funcs@.subrange(0, i as int));
                assert(next.last() == symbols.funcs@[i as int]);
            }
            self.process_func_record(&symbols.funcs[i], &file_map);
            i = i + 1;
        }
        assert(symbols.funcs@.subrange(0, i as int) =~= symbols.funcs@);
        let ghost after_funcs = self@;
        let mut i: usize = 0;
        while i < symbols.publics.len()
            invariant
                i <= symbols.publics@.len(),
                self.wf(),
                self@ == with_public_records(after_funcs, symbols.publics@.subrange(0, i as int)),
                entries_precede(old(self)@) && all_lines_follow(symbols.funcs@) ==> entries_precede(
                    self@,
                ),
            decreases symbols.publics@.len() - i,
        {
            proof {
                let next = symbols.publics@.subrange(0, i + 1);
                assert(next.drop_last() =~= symbols.publics@.subrange(0, i as int));
                assert(next.last() == symbols.publics@[i as int]);
            }
            self.process_public_record(&symbols.publics[i]);
            i = i + 1;
        }
        assert(symbols.publics@.subrange(0, i as int) =~= symbols.publics@);
    }

    /// Takes in the `FILE` records and returns the index of the file that
    /// each was inserted as, by the record's number.
    fn process_file_records(&mut self, files: &Vec<BreakpadFileRecord>) -> (file_map: HashMap<u64, u32>)
        requires
            old(self).wf(),
        ensures
            final(self).wf(),
            final(self)@ == with_file_records(old(self)@, files@),
            file_map@ == file_map_of(old(self)@, files@),
            final(self)@.functions == old(self)@.functions,
            final(self)@.ranges == old(self)@.ranges,
    {
        let mut file_map: HashMap<u64, u32> = HashMap::new();
        let mut i: usize = 0;
        while i < files.len()
            invariant
                i <= files@.len(),
                self.wf(),
                self@ == with_file_records(old(self)@, files@.subrange(0, i as int)),
                file_map@ == file_map_of(old(self)@, files@.subrange(0, i as int)),
                self@.functions == old(self)@.functions,
                self@.ranges == old(self)@.ranges,
            decreases files@.len() - i,
        {
            proof {
                let next = files@.subrange(0, i + 1);
                assert(next.drop_last() =~= files@.subrange(0, i as int));
                assert(next.last() == files@[i as int]);
            }
            let record = &files[i];
            match self.insert_file(record.name.as_str(), None, None) {
                Some(idx) => {
                    file_map.insert(record.id, idx);
                },
                None => {},
            }
            i = i + 1;
        }
        assert(files@.subrange(0, i as int) =~= files@);
        file_map
    }

    /// Takes in one `FUNC` record with its line records.
    fn process_func_record(&mut self, func: &BreakpadFuncRecord, file_map: &HashMap<u64, u32>)
        requires
            old(self).wf(),
        ensures
            final(self).wf(),
            final(self)@ == with_func_record(old(self)@, *func, file_map@),
            entries_precede(old(self)@) && lines_follow(*func) ==> entries_precede(final(self)@),
    {
        proof {
            self.lemma_wf();
            if entries_precede(self@) {
                lemma_function_keeps_entries(
                    self@,
                    Some(func.name@),
                    relative_address(self@.range_threshold, func.address),
                    LANGUAGE_UNKNOWN,
                );
            }
            lemma_function_interned_once(
                self@,
                Some(func.name@),
                relative_address(self@.range_threshold, func.address),
                LANGUAGE_UNKNOWN,
            );
        }
        let entry_pc: u32 = match self.offset_addr(func.address) {
            Some(addr) => addr,
            None => {
                return ;
            },
        };
        let function_idx: u32 = match self.insert_function(
            Some(func.name.as_str()),
            Some(entry_pc),
            LANGUAGE_UNKNOWN,
        ) {
            Some(idx) => idx,
            None => {
                return ;
            },
        };
        let ghost named = self@;
        let mut i: usize = 0;
        while i < func.lines.len()
            invariant
                i <= func.lines@.len(),
                self.wf(),
                self@ == with_line_records(
                    named,
                    func.lines@.subrange(0, i as int),
                    function_idx,
                    file_map@,
                ),
                self@.functions == named.functions,
                self@.range_threshold == named.range_threshold,
                function_idx < named.functions.len(),
                named.functions[function_idx as int].entry_pc == entry_pc,
                relative_address(named.range_threshold, func.address) == Some(entry_pc),
                entries_precede(old(self)@) && lines_follow(*func) ==> entries_precede(self@),
            decreases func.lines@.len() - i,
        {
            proof {
                let next = func.lines@.subrange(0, i + 1);
                assert(next.drop_last() =~= func.lines@.subrange(0, i as int));
                assert(next.last() == func.lines@[i as int]);
            }
            let line: BreakpadLineRecord = func.lines[i];
            i = i + 1;
            let addr: u32 = match self.offset_addr(line.address) {
                Some(addr) => addr,
                None => {
                    continue ;
                },
            };
            let file_idx: u32 = match file_map.get(&line.file_id) {
                Some(idx) => *idx,
                None => raw::NO_INDEX,
            };
            let number: u32 = if line.line <= 0xffff_ffff {
                line.line as u32
            } else {
                0
            };
            proof {
                self.lemma_wf();
                if entries_precede(old(self)@) && lines_follow(*func) {
                    lemma_range_keeps_entries(
                        self@,
                        addr,
                        raw::SourceLocation {
                            file_idx,
                            line: number,
                            function_idx,
                            inlined_into_idx: raw::NO_INDEX,
                        },
                    );
                }
            }
            self.insert_range(
                addr,
                raw::SourceLocation {
                    file_idx,
                    line: number,
                    function_idx,
                    inlined_into_idx: raw::NO_INDEX,
                },
            );
        }
        assert(func.lines@.subrange(0, i as int) =~= func.lines@);
        proof {
            lemma_threshold_stays(named, func.lines@, function_idx, file_map@);
            self.lemma_wf();
            if entries_precede(old(self)@) && lines_follow(*func) {
                lemma_range_keeps_entries(self@, entry_pc, bare_location(function_idx));
            }
        }
        self.insert_range(
            entry_pc,
            raw::SourceLocation {
                file_idx: raw::NO_INDEX,
                line: 0,
                function_idx,
                inlined_into_idx: raw::NO_INDEX,
            },
        );
    }

    /// Takes in one `PUBLIC` record.
    pub(crate) fn process_public_record(&mut self, public: &BreakpadPublicRecord)
        requires
            old(self).wf(),
        ensures
            final(self).wf(),
            final(self)@ == with_public_record(old(self)@, *public),
            entries_precede(old(self)@) ==> entries_precede(final(self)@),
    {
        let addr: u32 = match self.offset_addr(public.address) {
            Some(addr) => addr,
            None => {
                return ;
            },
        };
        let occupied: bool = self.has_range_at(addr);
        self.insert_string(public.name.as_str());
        if occupied {
            return ;
        }
        proof {
            self.lemma_wf();
            if entries_precede(self@) {
                lemma_function_keeps_entries(
                    self@,
                    Some(public.name@),
                    Some(addr),
                    LANGUAGE_OF_SYMBOL,
                );
            }
            lemma_function_interned_once(self@, Some(public.name@), Some(addr), LANGUAGE_OF_SYMBOL);
        }
        let function_idx: u32 = match self.insert_function(
            Some(public.name.as_str()),
            Some(addr),
            LANGUAGE_OF_SYMBOL,
        ) {
            Some(idx) => idx,
            None => {
                return ;
            },
        };
        proof {
            self.lemma_wf();
            if entries_precede(old(self)@) {
                lemma_range_keeps_entries(self@, addr, bare_location(function_idx));
            }
        }
        self.insert_range(
            addr,
            raw::SourceLocation {
                file_idx: raw::NO_INDEX,
                line: 0,
                function_idx,
                inlined_into_idx: raw::NO_INDEX,
            },
        );
    }
}

/// Line records leave the threshold as it is.
pub proof fn lemma_threshold_stays(
    state: State,
    lines: Seq<BreakpadLineRecord>,
    function_idx: u32,
    file_map: Map<u64, u32>,
)
    ensures
        with_line_records(state, lines, function_idx, file_map).range_threshold
            == state.range_threshold,
    decreases lines.len(),
{
    if lines.len() > 0 {
        lemma_threshold_stays(state, lines.drop_last(), function_idx, file_map);
    }
}

} // verus!
