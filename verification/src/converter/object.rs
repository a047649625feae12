//! Taking in the functions and symbols of an object file.

use super::breakpad::{bare_location, with_public_record, BreakpadPublicRecord};
use super::ranges::{has_key, rank, replaced};
use super::state::{
    file_index_in, fits, function_index_in, has_location_room, location_index_in, with_file,
    with_function, with_location, State,
};
use super::{option_chars, Converter};
use crate::format::raw;
use crate::format::raw::relative_address;
use vstd::prelude::*;

verus! {

/// A line of a function: from `address` on, the instructions belong to a
/// line of a file.
pub struct FunctionLine {
    /// The absolute address of the first instruction.
    pub address: u64,
    /// The name of the file.
    pub file_name: String,
    /// The directory of the file.
    pub file_dir: String,
    /// The line.
    pub line: u64,
}

/// A function with its lines. A function that was inlined stands behind
/// the function it was inlined into.
pub struct DebugFunction {
    /// The absolute address of the first instruction.
    pub address: u64,
    /// The name of the function.
    pub name: String,
    /// The language tag.
    pub language: u8,
    /// The compilation directory, if it is known.
    pub compilation_dir: Option<String>,
    /// Whether the function was inlined.
    pub inline: bool,
    /// The lines of the function.
    pub lines: Vec<FunctionLine>,
}

/// The functions and symbols of an object file.
pub struct DebugObject {
    /// The functions, each before the functions that were inlined into it.
    pub functions: Vec<DebugFunction>,
    /// The symbols; one without a name is skipped.
    pub symbols: Vec<BreakpadPublicRecord>,
}

/// The line that is stored for a line of a function, cut to 32 bits.
pub open spec fn cut_line(line: u64) -> u32 {
    (line % 0x1_0000_0000) as u32
}

/// The source location that a range has.
pub open spec fn location_at(state: State, addr: u32) -> raw::SourceLocation {
    state.ranges[rank(state.ranges, addr)].1
}

/// The state after the range at `addr` was set to `location`, which happens
/// where the location names what exists and, for a new range, there is room.
pub open spec fn with_range_set(state: State, addr: u32, location: raw::SourceLocation) -> State {
    if fits(state, location) && (has_key(state.ranges, addr) || has_location_room(state)) {
        State { ranges: replaced(state.ranges, addr, location), ..state }
    } else {
        state
    }
}

/// The state after one line of the function `function_idx` was taken in.
///
/// The file of the line is inserted. Where no range starts at the address of
/// the line, one is added. Where one does, it is replaced: for a function
/// that was inlined, what the range had becomes the place of the call, and
/// the line is inlined into it. A line whose address has no relative address
/// is skipped after its file was inserted.
pub open spec fn with_function_line(
    state: State,
    line: FunctionLine,
    comp_dir: Option<Seq<char>>,
    inline: bool,
    function_idx: u32,
) -> State {
    let filed = with_file(state, line.file_name@, Some(line.file_dir@), comp_dir);
    let file_idx = match file_index_in(state, line.file_name@, Some(line.file_dir@), comp_dir) {
        Some(idx) => idx,
        None => raw::NO_INDEX,
    };
    let location = raw::SourceLocation {
        file_idx,
        line: cut_line(line.line),
        function_idx,
        inlined_into_idx: raw::NO_INDEX,
    };
    match relative_address(state.range_threshold, line.address) {
        None => filed,
        Some(addr) => if inline && has_key(filed.ranges, addr) {
            let caller = location_at(filed, addr);
            match location_index_in(filed, caller) {
                Some(inlined_into_idx) => with_range_set(
                    with_location(filed, caller),
                    addr,
                    raw::SourceLocation { inlined_into_idx, ..location },
                ),
                None => with_location(filed, caller),
            }
        } else {
            with_range_set(filed, addr, location)
        },
    }
}

/// The state after lines of a function were taken in.
pub open spec fn with_function_lines(
    state: State,
    lines: Seq<FunctionLine>,
    comp_dir: Option<Seq<char>>,
    inline: bool,
    function_idx: u32,
) -> State
    decreases lines.len(),
{
    if lines.len() == 0 {
        state
    } else {
        with_function_line(
            with_function_lines(state, lines.drop_last(), comp_dir, inline, function_idx),
            lines.last(),
            comp_dir,
            inline,
            function_idx,
        )
    }
}

/// The relative address that a function is inserted with: none for a
/// function that was inlined, and for one whose address has none.
pub open spec fn debug_entry(state: State, function: DebugFunction) -> Option<u32> {
    if function.inline {
        None
    } else {
        relative_address(state.range_threshold, function.address)
    }
}

/// The state after a function was taken in: the function is inserted and
/// then its lines. A function that cannot be inserted is skipped.
pub open spec fn with_debug_function(state: State, function: DebugFunction) -> State {
    let named = with_function(
        state,
        Some(function.name@),
        debug_entry(state, function),
        function.language,
    );
    match function_index_in(
        state,
        Some(function.name@),
        debug_entry(state, function),
        function.language,
    ) {
        None => named,
        Some(function_idx) => with_function_lines(
            named,
            function.lines@,
            super::dwarf::unit::string_chars(function.compilation_dir),
            function.inline,
            function_idx,
        ),
    }
}

/// The state after functions were taken in.
pub open spec fn with_debug_functions(state: State, functions: Seq<DebugFunction>) -> State
    decreases functions.len(),
{
    if functions.len() == 0 {
        state
    } else {
        with_debug_function(with_debug_functions(state, functions.drop_last()), functions.last())
    }
}

/// The state after symbols were taken in, each as a Breakpad `PUBLIC`
/// record is.
pub open spec fn with_symbols(state: State, symbols: Seq<BreakpadPublicRecord>) -> State
    decreases symbols.len(),
{
    if symbols.len() == 0 {
        state
    } else {
        with_public_record(with_symbols(state, symbols.drop_last()), symbols.last())
    }
}

/// The state after the functions and then the symbols of an object file
/// were taken in.
pub open spec fn with_object(state: State, object: DebugObject) -> State {
    with_symbols(with_debug_functions(state, object.functions@), object.symbols@)
}

impl Converter {
    /// Takes in the functions and symbols of an object file.
    pub fn process_object(&mut self, object: &DebugObject)
        requires
            old(self).wf(),
        ensures
            final(self).wf(),
            final(self)@ == with_object(old(self)@, *object),
    {
        let mut i: usize = 0;
        while i < object.functions.len()
            invariant
                i <= object.functions@.len(),
                self.wf(),
                self@ == with_debug_functions(old(self)@, object.functions@.subrange(0, i as int)),
            decreases object.functions@.len() - i,
        {
            proof {
                let next = object.functions@.subrange(0, i + 1);
                assert(next.drop_last() =~= object.functions@.subrange(0, i as int));
                assert(next.last() == object.functions@[i as int]);
            }
            self.process_symbolic_function(&object.functions[i]);
            i = i + 1;
        }
        assert(object.functions@.subrange(0, i as int) =~= object.functions@);
        let ghost after_functions = self@;
        let mut i: usize = 0;
        while i < object.symbols.len()
            invariant
                i <= object.symbols@.len(),
                self.wf(),
                self@ == with_symbols(after_functions, object.symbols@.subrange(0, i as int)),
            decreases object.symbols@.len() - i,
        {
            proof {
                let next = object.symbols@.subrange(0, i + 1);
                assert(next.drop_last() =~= object.symbols@.subrange(0, i as int));
                assert(next.last() == object.symbols@[i as int]);
            }
            self.process_public_record(&object.symbols[i]);
            i = i + 1;
        }
        assert(object.symbols@.subrange(0, i as int) =~= object.symbols@);
    }

    /// Takes in one function with its lines.
    pub fn process_symbolic_function(&mut self, function: &DebugFunction)
        requires
            old(self).wf(),
        ensures
            final(self).wf(),
            final(self)@ == with_debug_function(old(self)@, *function),
    {
        let entry_pc: Option<u32> = if function.inline {
            None
        } else {
            self.offset_addr(function.address)
        };
        let function_idx: u32 = match self.insert_function(
            Some(function.name.as_str()),
            entry_pc,
            function.language,
        ) {
            Some(idx) => idx,
            None => {
                return ;
            },
        };
        let comp_dir: Option<&str> = match &function.compilation_dir {
            Some(comp_dir) => Some(comp_dir.as_str()),
            None => None,
        };
        let ghost named = self@;
        let mut i: usize = 0;
        while i < function.lines.len()
            invariant
                i <= function.lines@.len(),
                self.wf(),
                option_chars(comp_dir) == super::dwarf::unit::string_chars(function.compilation_dir),
                self@ == with_function_lines(
                    named,
                    function.lines@.subrange(0, i as int),
                    option_chars(comp_dir),
                    function.inline,
                    function_idx,
                ),
            decreases function.lines@.len() - i,
        {
            proof {
                let next = function.lines@.subrange(0, i + 1);
                assert(next.drop_last() =~= function.lines@.subrange(0, i as int));
                assert(next.last() == function.lines@[i as int]);
            }
            let line = &function.lines[i];
            i = i + 1;
            let file_idx: u32 = match self.insert_file(
                line.file_name.as_str(),
                Some(line.file_dir.as_str()),
                comp_dir,
            ) {
                Some(idx) => idx,
                None => raw::NO_INDEX,
            };
            let location = raw::SourceLocation {
                file_idx,
                line: (line.line % 0x1_0000_0000) as u32,
                function_idx,
                inlined_into_idx: raw::NO_INDEX,
            };
            let addr: u32 = match self.offset_addr(line.address) {
                Some(addr) => addr,
                None => {
                    continue ;
                },
            };
            if function.inline && self.has_range_at(addr) {
                let caller = self.range_location(addr);
                match self.insert_source_location(caller) {
                    Some(inlined_into_idx) => {
                        self.set_range(
                            addr,
                            raw::SourceLocation { inlined_into_idx, ..location },
                        );
                    },
                    None => {},
                }
            } else {
                self.set_range(addr, location);
            }
        }
        assert(function.lines@.subrange(0, i as int) =~= function.lines@);
    }
}

} // verus!
