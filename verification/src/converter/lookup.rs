//! Looking an address up in a converter, before it is written out.

use super::state::{is_valid, State};
use super::Converter;
use crate::format::raw;
use vstd::prelude::*;

verus! {

/// The frames of a lookup in a converter, innermost first.
pub struct SourceLocationIter<'symcache> {
    symcache: &'symcache Converter,
    source_location: Option<raw::SourceLocation>,
}

/// A frame of a lookup in a converter.
pub struct SourceLocationReference<'symcache> {
    symcache: &'symcache Converter,
    source_location: raw::SourceLocation,
}

/// The string with index `idx`, if there is one.
pub open spec fn string_of(state: State, idx: u32) -> Option<Seq<char>> {
    if idx < state.strings.len() {
        Some(state.strings[idx as int])
    } else {
        None
    }
}

/// The characters of an optional string.
pub open spec fn chars_of(s: Option<&str>) -> Option<Seq<char>> {
    match s {
        Some(s) => Some(s@),
        None => None,
    }
}

impl Converter {
    /// Looks up a relative address: the frames of the last range that starts
    /// at or before it, and none where it lies before all ranges.
    pub fn lookup(&self, addr: u32) -> (iter: SourceLocationIter<'_>)
        requires
            self.wf(),
        ensures
            iter.wf(),
            iter.state() == self@,
            match iter.location() {
                Some(location) => exists|i: int|
                    {
                        &&& 0 <= i < self@.ranges.len()
                        &&& #[trigger] self@.ranges[i] == (self@.ranges[i].0, location)
                        &&& self@.ranges[i].0 <= addr
                        &&& forall|j: int| i < j < self@.ranges.len() ==> addr < (#[trigger] self@.ranges[j]).0
                    },
                None => forall|j: int| 0 <= j < self@.ranges.len() ==> addr < (#[trigger] self@.ranges[j]).0,
            },
    {
        let source_location = match self.ranges.floor(addr) {
            Some(i) => Some(self.ranges.get(i).1),
            None => None,
        };
        SourceLocationIter { symcache: self, source_location }
    }

    /// The string with index `idx`, if there is one.
    pub fn string(&self, idx: u32) -> (r: Option<&str>)
        requires
            self.wf(),
        ensures
            chars_of(r) == string_of(self@, idx),
    {
        self.strings.resolve(idx)
    }

    /// The file with index `idx`, if there is one.
    pub fn file(&self, idx: u32) -> (r: Option<raw::File>)
        requires
            self.wf(),
        ensures
            r == if idx < self@.files.len() {
                Some(self@.files[idx as int])
            } else {
                None
            },
    {
        self.files.get(idx)
    }

    /// The function with index `idx`, if there is one.
    pub fn function(&self, idx: u32) -> (r: Option<raw::Function>)
        requires
            self.wf(),
        ensures
            r == if idx < self@.functions.len() {
                Some(self@.functions[idx as int])
            } else {
                None
            },
    {
        self.functions.get(idx)
    }

    /// The source location with index `idx`, if there is one.
    pub fn source_location(&self, idx: u32) -> (r: Option<raw::SourceLocation>)
        requires
            self.wf(),
        ensures
            r == if idx < self@.source_locations.len() {
                Some(self@.source_locations[idx as int])
            } else {
                None
            },
    {
        self.source_locations.get(idx)
    }
}

impl<'symcache> SourceLocationIter<'symcache> {
    /// What holds of every iterator that a lookup hands out.
    pub closed spec fn wf(&self) -> bool {
        self.symcache.wf()
    }

    /// The state of the converter that the iterator walks.
    pub closed spec fn state(&self) -> State {
        self.symcache@
    }

    /// The source location that comes next.
    pub closed spec fn location(&self) -> Option<raw::SourceLocation> {
        self.source_location
    }

    /// The next frame: then the iterator stands at the source location that
    /// this one was inlined into.
    pub fn next(&mut self) -> (frame: Option<SourceLocationReference<'symcache>>)
        requires
            old(self).wf(),
        ensures
            final(self).wf(),
            final(self).state() == old(self).state(),
            match frame {
                Some(frame) => {
                    &&& frame.wf()
                    &&& frame.state() == old(self).state()
                    &&& old(self).location() == Some(frame.location())
                    &&& final(self).location() == if frame.location().inlined_into_idx < old(
                        self,
                    ).state().source_locations.len() {
                        Some(
                            old(self).state().source_locations[frame.location().inlined_into_idx as int],
                        )
                    } else {
                        None
                    }
                },
                None => old(self).location() is None && final(self).location() is None,
            },
    {
        let symcache: &'symcache Converter = self.symcache;
        let source_location = match self.source_location {
            Some(source_location) => source_location,
            None => {
                return None;
            },
        };
        self.source_location = symcache.source_location(source_location.inlined_into_idx);
        Some(SourceLocationReference { symcache, source_location })
    }
}

impl<'symcache> SourceLocationReference<'symcache> {
    /// What holds of every frame that a lookup hands out.
    pub closed spec fn wf(&self) -> bool {
        self.symcache.wf()
    }

    /// The state of the converter that the frame is in.
    pub closed spec fn state(&self) -> State {
        self.symcache@
    }

    /// The source location of the frame.
    pub closed spec fn location(&self) -> raw::SourceLocation {
        self.source_location
    }

    /// The line.
    pub fn line(&self) -> (line: u32)
        ensures
            line == self.location().line,
    {
        self.source_location.line
    }

    /// The directory of the file, if the frame has a file with a directory.
    pub fn directory(&self) -> (r: Option<&'symcache str>)
        requires
            self.wf(),
        ensures
            chars_of(r) == if self.location().file_idx < self.state().files.len() {
                string_of(
                    self.state(),
                    self.state().files[self.location().file_idx as int].directory_idx,
                )
            } else {
                None
            },
    {
        let symcache: &'symcache Converter = self.symcache;
        match symcache.file(self.source_location.file_idx) {
            Some(file) => symcache.string(file.directory_idx),
            None => None,
        }
    }

    /// The path name of the file, if the frame has a file.
    pub fn path_name(&self) -> (r: Option<&'symcache str>)
        requires
            self.wf(),
        ensures
            chars_of(r) == if self.location().file_idx < self.state().files.len() {
                string_of(
                    self.state(),
                    self.state().files[self.location().file_idx as int].path_name_idx,
                )
            } else {
                None
            },
    {
        let symcache: &'symcache Converter = self.symcache;
        match symcache.file(self.source_location.file_idx) {
            Some(file) => symcache.string(file.path_name_idx),
            None => None,
        }
    }

    /// The name of the function, if the frame has a function with a name.
    pub fn function_name(&self) -> (r: Option<&'symcache str>)
        requires
            self.wf(),
        ensures
            chars_of(r) == if self.location().function_idx < self.state().functions.len() {
                string_of(
                    self.state(),
                    self.state().functions[self.location().function_idx as int].name_idx,
                )
            } else {
                None
            },
    {
        let symcache: &'symcache Converter = self.symcache;
        match symcache.function(self.source_location.function_idx) {
            Some(function) => symcache.string(function.name_idx),
            None => None,
        }
    }
}

} // verus!
