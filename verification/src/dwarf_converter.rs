//! A small model of the cache: rows of a line program, rewritten by the
//! functions and inlined calls that cover them, and looked up by address.

use std::ops::Range;
use vstd::prelude::*;

verus! {

/// The index that stands for "no entry".
pub const NONE: u32 = 0xffff_ffff;

/// A source file.
pub struct File {
    /// The name of the file.
    pub name: String,
}

/// A function.
pub struct Function {
    /// The name of the function.
    pub name: String,
}

/// A range of instructions: it starts at `start` and ends where the next
/// range starts.
#[derive(Clone, Copy, Debug, PartialEq, Eq, Structural)]
pub struct InstrRange {
    /// The address of the first instruction.
    pub start: u32,
    /// The index of the source location of the range.
    pub source_location: u32,
}

/// A source location: a line of a file in a function, and the place the
/// function was inlined into.
#[derive(Clone, Copy, Debug, PartialEq, Eq, Structural)]
pub struct InternalSourceLocation {
    /// The index of the file.
    pub file: u32,
    /// The line.
    pub line: u32,
    /// The index of the function.
    pub function: u32,
    /// The index of the source location of the call, if the function was
    /// inlined.
    pub inlined_into: Option<u32>,
}

/// A row of a line program.
pub struct LineProgramRow {
    /// The address of the first instruction.
    pub addr: u32,
    /// The name of the file.
    pub file: String,
    /// The line.
    pub line: u32,
}

/// A function or an inlined call, with the rows it covers.
pub enum DwarfDie {
    /// A function.
    Subprogram {
        /// The name of the function.
        function: String,
        /// The indices of the rows it covers.
        range: Range<usize>,
    },
    /// A call of a function that was inlined at the place of the call.
    InlinedSubroutine {
        /// The name of the function.
        function: String,
        /// The indices of the rows it covers.
        range: Range<usize>,
        /// The name of the file of the call.
        call_file: String,
        /// The line of the call.
        call_line: u32,
    },
}

/// The tables of the model.
pub struct NewSymCache {
    files: Vec<File>,
    functions: Vec<Function>,
    ranges: Vec<InstrRange>,
    source_locations: Vec<InternalSourceLocation>,
}

/// The tables as plain values.
pub struct Model {
    /// The names of the files.
    pub files: Seq<Seq<char>>,
    /// The names of the functions.
    pub functions: Seq<Seq<char>>,
    /// The ranges.
    pub ranges: Seq<InstrRange>,
    /// The source locations.
    pub source_locations: Seq<InternalSourceLocation>,
}

/// The index of the first of `names` that is `name`, counted from `from`;
/// the number of names where none is.
pub open spec fn position(names: Seq<Seq<char>>, name: Seq<char>, from: int) -> int
    decreases names.len() - from,
{
    if from < 0 || from >= names.len() {
        names.len() as int
    } else if names[from] == name {
        from
    } else {
        position(names, name, from + 1)
    }
}

/// The index that a name gets in a table: that of the first equal name, the
/// next free index where the name is new, and [`NONE`] where it is new and
/// the table is full.
pub open spec fn name_index(names: Seq<Seq<char>>, name: Seq<char>) -> u32 {
    if position(names, name, 0) < names.len() || names.len() < NONE {
        position(names, name, 0) as u32
    } else {
        NONE
    }
}

/// The table after a name was added to it, unless it was there or the table
/// was full.
pub open spec fn with_name(names: Seq<Seq<char>>, name: Seq<char>) -> Seq<Seq<char>> {
    if position(names, name, 0) < names.len() || names.len() >= NONE {
        names
    } else {
        names.push(name)
    }
}

/// The model after a row of the line program was taken in: its file is
/// added, and a range with a source location of its own; a row that the
/// tables have no room for is skipped.
pub open spec fn with_row(m: Model, row: LineProgramRow) -> Model {
    let files = with_name(m.files, row.file@);
    if m.source_locations.len() >= NONE {
        Model { files, ..m }
    } else {
        Model {
            files,
            source_locations: m.source_locations.push(
                InternalSourceLocation {
                    file: name_index(m.files, row.file@),
                    line: row.line,
                    function: 0,
                    inlined_into: None,
                },
            ),
            ranges: m.ranges.push(
                InstrRange { start: row.addr, source_location: m.source_locations.len() as u32 },
            ),
            ..m
        }
    }
}

/// The model after rows of the line program were taken in.
pub open spec fn with_rows(m: Model, rows: Seq<LineProgramRow>) -> Model
    decreases rows.len(),
{
    if rows.len() == 0 {
        m
    } else {
        with_row(with_rows(m, rows.drop_last()), rows.last())
    }
}

/// The first index behind the ranges that a function covers: the end of its
/// range, cut to the number of ranges.
pub open spec fn covered_end(m: Model, range: Range<usize>) -> int {
    if range.end <= m.ranges.len() {
        range.end as int
    } else {
        m.ranges.len() as int
    }
}

/// The model after the ranges from `from` up to `to` were found to lie in
/// the function `function`.
pub open spec fn with_function_in(m: Model, from: int, to: int, function: u32) -> Model
    decreases to - from,
{
    if to <= from {
        m
    } else {
        let before = with_function_in(m, from, to - 1, function);
        let at = before.ranges[to - 1].source_location as int;
        if 0 <= at < before.source_locations.len() {
            Model {
                source_locations: before.source_locations.update(
                    at,
                    InternalSourceLocation { function, ..before.source_locations[at] },
                ),
                ..before
            }
        } else {
            before
        }
    }
}

/// The model after the ranges from `from` up to `to` were found to lie in
/// an inlined call of the function `function` from the line `call_line` of
/// the file `call_file`: what each range had as its source location becomes
/// the place of the call, and the range gets a new source location in the
/// inlined function that is inlined into that place.
pub open spec fn with_inlined_in(
    m: Model,
    from: int,
    to: int,
    function: u32,
    call_file: u32,
    call_line: u32,
) -> Model
    decreases to - from,
{
    if to <= from {
        m
    } else {
        let before = with_inlined_in(m, from, to - 1, function, call_file, call_line);
        let at = before.ranges[to - 1].source_location as int;
        if 0 <= at < before.source_locations.len() && before.source_locations.len() < NONE {
            let caller = before.source_locations[at];
            Model {
                source_locations: before.source_locations.update(
                    at,
                    InternalSourceLocation { file: call_file, line: call_line, ..caller },
                ).push(
                    InternalSourceLocation { function, inlined_into: Some(at as u32), ..caller },
                ),
                ranges: before.ranges.update(
                    to - 1,
                    InstrRange {
                        start: before.ranges[to - 1].start,
                        source_location: before.source_locations.len() as u32,
                    },
                ),
                ..before
            }
        } else {
            before
        }
    }
}

/// The model after a function or an inlined call was taken in.
pub open spec fn with_die(m: Model, die: DwarfDie) -> Model {
    match die {
        DwarfDie::Subprogram { function, range } => {
            let named = Model { functions: with_name(m.functions, function@), ..m };
            with_function_in(
                named,
                range.start as int,
                covered_end(m, range),
                name_index(m.functions, function@),
            )
        },
        DwarfDie::InlinedSubroutine { function, range, call_file, call_line } => {
            let named = Model {
                functions: with_name(m.functions, function@),
                files: with_name(m.files, call_file@),
                ..m
            };
            with_inlined_in(
                named,
                range.start as int,
                covered_end(m, range),
                name_index(m.functions, function@),
                name_index(m.files, call_file@),
                call_line,
            )
        },
    }
}

/// The model after functions and inlined calls were taken in.
pub open spec fn with_dies(m: Model, dies: Seq<DwarfDie>) -> Model
    decreases dies.len(),
{
    if dies.len() == 0 {
        m
    } else {
        with_die(with_dies(m, dies.drop_last()), dies.last())
    }
}

/// Whether a lookup of `addr` that starts at the source location `idx` has
/// found it at the range with index `i`: that range does not start before
/// `addr`, and the range before it, if there is one, does.
pub open spec fn is_found_at(ranges: Seq<InstrRange>, addr: u32, idx: u32, i: int) -> bool {
    &&& 0 <= i < ranges.len()
    &&& idx == ranges[i].source_location
    &&& addr <= ranges[i].start
    &&& i > 0 ==> ranges[i - 1].start < addr
}

/// Whether a lookup of `addr` that starts at the source location `idx` has
/// found it at one of the ranges.
pub open spec fn is_found(ranges: Seq<InstrRange>, addr: u32, idx: u32) -> bool {
    exists|i: int| #[trigger] is_found_at(ranges, addr, idx, i)
}

/// The model without entries.
pub open spec fn empty_model() -> Model {
    Model {
        files: Seq::empty(),
        functions: Seq::empty(),
        ranges: Seq::empty(),
        source_locations: Seq::empty(),
    }
}

/// The names of the files.
pub open spec fn file_names(files: Seq<File>) -> Seq<Seq<char>> {
    files.map_values(|file: File| file.name@)
}

/// The names of the functions.
pub open spec fn function_names(functions: Seq<Function>) -> Seq<Seq<char>> {
    functions.map_values(|function: Function| function.name@)
}

impl View for NewSymCache {
    type V = Model;

    closed spec fn view(&self) -> Model {
        Model {
            files: file_names(self.files@),
            functions: function_names(self.functions@),
            ranges: self.ranges@,
            source_locations: self.source_locations@,
        }
    }
}

/// One frame of a lookup.
pub struct SourceLocationReference<'symcache> {
    symcache: &'symcache NewSymCache,
    source_location_idx: usize,
}

/// The frames of a lookup, innermost first.
pub struct SourceLocationIter<'symcache> {
    symcache: &'symcache NewSymCache,
    source_location_idx: Option<u32>,
}

impl NewSymCache {
    /// Builds the tables from the rows of a line program and the functions
    /// and inlined calls that cover them, parents before their children.
    pub fn construct(line_program: &[LineProgramRow], dwarf_dies: &[DwarfDie]) -> (slf: Self)
        ensures
            slf@ == with_dies(with_rows(empty_model(), line_program@), dwarf_dies@),
    {
        let mut slf = NewSymCache {
            files: Vec::new(),
            functions: Vec::new(),
            ranges: Vec::new(),
            source_locations: Vec::new(),
        };
        assert(slf@.files =~= Seq::<Seq<char>>::empty());
        assert(slf@.functions =~= Seq::<Seq<char>>::empty());
        let mut i: usize = 0;
        while i < line_program.len()
            invariant
                i <= line_program@.len(),
                slf@ == with_rows(empty_model(), line_program@.subrange(0, i as int)),
            decreases line_program@.len() - i,
        {
            proof {
                let next = line_program@.subrange(0, i + 1);
                assert(next.drop_last() =~= line_program@.subrange(0, i as int));
                assert(next.last() == line_program@[i as int]);
            }
            let row = &line_program[i];
            let file_idx = slf.add_file(row.file.clone());
            let count: usize = slf.source_locations.len();
            if count < NONE as usize {
                slf.source_locations.push(
                    InternalSourceLocation {
                        file: file_idx,
                        line: row.line,
                        function: 0,
                        inlined_into: None,
                    },
                );
                slf.ranges.push(InstrRange { start: row.addr, source_location: count as u32 });
            }
            i = i + 1;
        }
        assert(line_program@.subrange(0, i as int) =~= line_program@);
        let ghost rows = slf@;
        let mut i: usize = 0;
        while i < dwarf_dies.len()
            invariant
                i <= dwarf_dies@.len(),
                slf@ == with_dies(rows, dwarf_dies@.subrange(0, i as int)),
            decreases dwarf_dies@.len() - i,
        {
            proof {
                let next = dwarf_dies@.subrange(0, i + 1);
                assert(next.drop_last() =~= dwarf_dies@.subrange(0, i as int));
                assert(next.last() == dwarf_dies@[i as int]);
            }
            slf.add_die(&dwarf_dies[i]);
            i = i + 1;
        }
        assert(dwarf_dies@.subrange(0, i as int) =~= dwarf_dies@);
        slf
    }

    /// Takes in one function or inlined call.
    fn add_die(&mut self, die: &DwarfDie)
        ensures
            final(self)@ == with_die(old(self)@, *die),
    {
        match die {
            DwarfDie::Subprogram { function, range } => {
                let end: usize = if range.end <= self.ranges.len() {
                    range.end
                } else {
                    self.ranges.len()
                };
                let fun_idx = self.add_function(function.clone());
                let ghost named = self@;
                if range.start >= end {
                    return ;
                }
                let mut k: usize = range.start;
                while k < end
                    invariant
                        end <= named.ranges.len(),
                        range.start <= k <= end,
                        self@ == with_function_in(named, range.start as int, k as int, fun_idx),
                        self@.ranges == named.ranges,
                    decreases end - k,
                {
                    let ghost before = self@;
                    let at: usize = self.ranges[k].source_location as usize;
                    if at < self.source_locations.len() {
                        let location = self.source_locations[at];
                        self.source_locations[at] = InternalSourceLocation {
                            function: fun_idx,
                            ..location
                        };
                    }
                    k = k + 1;
                    assert(self@.files == before.files);
                    assert(self@.functions == before.functions);
                }
            },
            DwarfDie::InlinedSubroutine { function, range, call_file, call_line } => {
                let end: usize = if range.end <= self.ranges.len() {
                    range.end
                } else {
                    self.ranges.len()
                };
                let fun_idx = self.add_function(function.clone());
                let file_idx = self.add_file(call_file.clone());
                let ghost named = self@;
                if range.start >= end {
                    return ;
                }
                let mut k: usize = range.start;
                while k < end
                    invariant
                        end <= named.ranges.len(),
                        self@.ranges.len() == named.ranges.len(),
                        range.start <= k <= end,
                        self@ == with_inlined_in(
                            named,
                            range.start as int,
                            k as int,
                            fun_idx,
                            file_idx,
                            *call_line,
                        ),
                    decreases end - k,
                {
                    let ghost before = self@;
                    let at: usize = self.ranges[k].source_location as usize;
                    let count: usize = self.source_locations.len();
                    if at < count && count < NONE as usize {
                        let caller = self.source_locations[at];
                        self.source_locations[at] = InternalSourceLocation {
                            file: file_idx,
                            line: *call_line,
                            ..caller
                        };
                        self.source_locations.push(
                            InternalSourceLocation {
                                function: fun_idx,
                                inlined_into: Some(at as u32),
                                ..caller
                            },
                        );
                        let start: u32 = self.ranges[k].start;
                        self.ranges[k] = InstrRange { start, source_location: count as u32 };
                    }
                    k = k + 1;
                    assert(self@.files == before.files);
                    assert(self@.functions == before.functions);
                }
            },
        }
    }

    /// Adds a file, unless one with the same name is there, and returns its
    /// index.
    pub fn add_file(&mut self, file: String) -> (idx: u32)
        ensures
            idx == name_index(old(self)@.files, file@),
            final(self)@ == (Model { files: with_name(old(self)@.files, file@), ..old(self)@ }),
    {
        let mut i: usize = 0;
        while i < self.files.len()
            invariant
                i <= self.files@.len(),
                position(self@.files, file@, 0) == position(self@.files, file@, i as int),
            decreases self.files@.len() - i,
        {
            if self.files[i].name == file {
                return i as u32;
            }
            i = i + 1;
        }
        if i >= NONE as usize {
            return NONE;
        }
        self.files.push(File { name: file });
        assert(self@.files =~= old(self)@.files.push(file@));
        i as u32
    }

    /// Adds a function, unless one with the same name is there, and returns
    /// its index.
    pub fn add_function(&mut self, function: String) -> (idx: u32)
        ensures
            idx == name_index(old(self)@.functions, function@),
            final(self)@ == (Model {
                functions: with_name(old(self)@.functions, function@),
                ..old(self)@
            }),
    {
        let mut i: usize = 0;
        while i < self.functions.len()
            invariant
                i <= self.functions@.len(),
                position(self@.functions, function@, 0) == position(
                    self@.functions,
                    function@,
                    i as int,
                ),
            decreases self.functions@.len() - i,
        {
            if self.functions[i].name == function {
                return i as u32;
            }
            i = i + 1;
        }
        if i >= NONE as usize {
            return NONE;
        }
        self.functions.push(Function { name: function });
        assert(self@.functions =~= old(self)@.functions.push(function@));
        i as u32
    }

    /// Looks up an address: the frames of the first range that a binary
    /// search finds not to start before `addr`.
    pub fn lookup(&self, addr: u32) -> (iter: SourceLocationIter<'_>)
        ensures
            iter.tables() == self@,
            iter.index() is None ==> (self@.ranges.len() > 0 ==> self@.ranges[self@.ranges.len()
                - 1].start < addr),
            iter.index() matches Some(idx) ==> is_found(self@.ranges, addr, idx),
    {
        let mut lo: usize = 0;
        let mut hi: usize = self.ranges.len();
        while lo < hi
            invariant
                lo <= hi <= self.ranges@.len(),
                lo > 0 ==> self.ranges@[lo - 1].start < addr,
                hi < self.ranges@.len() ==> addr <= self.ranges@[hi as int].start,
            decreases hi - lo,
        {
            let mid: usize = lo + (hi - lo) / 2;
            if self.ranges[mid].start < addr {
                lo = mid + 1;
            } else {
                hi = mid;
            }
        }
        if lo < self.ranges.len() {
            let idx: u32 = self.ranges[lo].source_location;
            assert(is_found_at(self@.ranges, addr, idx, lo as int));
            assert(is_found(self@.ranges, addr, idx));
            SourceLocationIter { symcache: self, source_location_idx: Some(idx) }
        } else {
            SourceLocationIter { symcache: self, source_location_idx: None }
        }
    }
}

impl<'symcache> SourceLocationIter<'symcache> {
    /// The tables that the iterator walks.
    pub closed spec fn tables(&self) -> Model {
        self.symcache@
    }

    /// The index of the source location that comes next.
    pub closed spec fn index(&self) -> Option<u32> {
        self.source_location_idx
    }

    /// The next frame: none where no index is left or no source location
    /// has the index.
    pub fn next(&mut self) -> (frame: Option<SourceLocationReference<'symcache>>)
        ensures
            final(self).tables() == old(self).tables(),
            match frame {
                Some(frame) => {
                    &&& old(self).index() matches Some(idx)
                    &&& idx < old(self).tables().source_locations.len()
                    &&& frame.tables() == old(self).tables()
                    &&& frame.index() == idx
                    &&& final(self).index() == old(self).tables().source_locations[idx as int].inlined_into
                },
                None => {
                    &&& final(self).index() == old(self).index()
                    &&& old(self).index() matches Some(idx) ==> idx >= old(
                        self,
                    ).tables().source_locations.len()
                },
            },
    {
        let symcache: &'symcache NewSymCache = self.symcache;
        let idx: usize = match self.source_location_idx {
            Some(idx) => idx as usize,
            None => {
                return None;
            },
        };
        if idx >= symcache.source_locations.len() {
            return None;
        }
        self.source_location_idx = symcache.source_locations[idx].inlined_into;
        Some(SourceLocationReference { symcache, source_location_idx: idx })
    }
}

impl<'symcache> SourceLocationReference<'symcache> {
    /// The tables that the frame is in.
    pub closed spec fn tables(&self) -> Model {
        self.symcache@
    }

    /// The index of the source location of the frame.
    pub closed spec fn index(&self) -> int {
        self.source_location_idx as int
    }

    /// What holds of every frame that a lookup hands out.
    pub closed spec fn wf(&self) -> bool {
        self.source_location_idx < self.symcache.source_locations@.len()
    }

    /// The line of the frame.
    pub fn line(&self) -> (line: Option<u32>)
        ensures
            line == if self.index() < self.tables().source_locations.len() {
                Some(self.tables().source_locations[self.index()].line)
            } else {
                None
            },
    {
        if self.source_location_idx < self.symcache.source_locations.len() {
            Some(self.symcache.source_locations[self.source_location_idx].line)
        } else {
            None
        }
    }

    /// The name of the file of the frame, if the frame has a file.
    pub fn file_name(&self) -> (name: Option<&'symcache str>)
        ensures
            match name {
                Some(name) => {
                    &&& self.index() < self.tables().source_locations.len()
                    &&& self.tables().source_locations[self.index()].file
                        < self.tables().files.len()
                    &&& name@
                        == self.tables().files[self.tables().source_locations[self.index()].file as int]
                },
                None => self.index() >= self.tables().source_locations.len()
                    || self.tables().source_locations[self.index()].file
                    >= self.tables().files.len(),
            },
    {
        let symcache: &'symcache NewSymCache = self.symcache;
        if self.source_location_idx >= symcache.source_locations.len() {
            return None;
        }
        let file: usize = symcache.source_locations[self.source_location_idx].file as usize;
        if file >= symcache.files.len() {
            return None;
        }
        Some(symcache.files[file].name.as_str())
    }

    /// The name of the function of the frame, if the frame has a function.
    pub fn function_name(&self) -> (name: Option<&'symcache str>)
        ensures
            match name {
                Some(name) => {
                    &&& self.index() < self.tables().source_locations.len()
                    &&& self.tables().source_locations[self.index()].function
                        < self.tables().functions.len()
                    &&& name@
                        == self.tables().functions[self.tables().source_locations[self.index()].function as int]
                },
                None => self.index() >= self.tables().source_locations.len()
                    || self.tables().source_locations[self.index()].function
                    >= self.tables().functions.len(),
            },
    {
        let symcache: &'symcache NewSymCache = self.symcache;
        if self.source_location_idx >= symcache.source_locations.len() {
            return None;
        }
        let function: usize = symcache.source_locations[self.source_location_idx].function as usize;
        if function >= symcache.functions.len() {
            return None;
        }
        Some(symcache.functions[function].name.as_str())
    }
}

} // verus!
