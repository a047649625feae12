//! Looking an address up in a cache, and what a lookup hands out.

use super::bytes::{read_u32, ByteOrder};
use super::cache::SymCache;
use super::error::Error;
use super::layout::Tables;
use super::raw;
use super::raw::{offset_address, relative_address};
use symbolic_common::Language;
use vstd::prelude::*;

verus! {

#[verifier::external_type_specification]
#[verifier::external_body]
pub struct ExLanguage(Language);

/// The language that `Language::from_u32` gives for a tag.
pub uninterp spec fn language_of_tag(tag: u32) -> Language;

/// The path that `symbolic_common::join_path` makes of a base and a path to
/// append to it.
pub uninterp spec fn joined_path(base: Seq<char>, other: Seq<char>) -> Seq<char>;

/// The path that `symbolic_common::clean_path` reduces a path to.
pub uninterp spec fn cleaned_path(path: Seq<char>) -> Seq<char>;

/// Calls `Language::from_u32`, which maps the tags it knows to their
/// language and every other to `Language::Unknown`.
#[verifier::external_body]
fn language_from_u32(tag: u32) -> (language: Language)
    ensures
        language == language_of_tag(tag),
{
    Language::from_u32(tag)
}

/// Calls `symbolic_common::join_path`, which appends `other` to `base` with
/// the separator of the platform the paths look like, and returns `other`
/// alone where it is absolute or `base` is empty.
#[verifier::external_body]
fn join_path(base: &str, other: &str) -> (joined: String)
    ensures
        joined@ == joined_path(base@, other@),
{
    symbolic_common::join_path(base, other)
}

/// Calls `symbolic_common::clean_path`, which drops `.` segments and resolves
/// `..` segments without looking at the file system.
#[verifier::external_body]
fn clean_path(path: &str) -> (cleaned: String)
    ensures
        cleaned@ == cleaned_path(path@),
{
    symbolic_common::clean_path(path).into_owned()
}

/// The index of the first source location that belongs to a range.
pub open spec fn source_location_base(tables: Tables) -> int {
    tables.source_locations.len() - tables.ranges.len()
}

/// Range `i` starts at or before `rel`, and the range after it, if there is
/// one, starts behind `rel`.
pub open spec fn range_holds(ranges: Seq<u32>, i: int, rel: u32) -> bool {
    &&& 0 <= i < ranges.len()
    &&& ranges[i] <= rel
    &&& i + 1 < ranges.len() ==> rel < ranges[i + 1]
}

/// There is no range, or the first one starts behind `rel`.
pub open spec fn precedes_all(ranges: Seq<u32>, rel: u32) -> bool {
    ranges.len() > 0 ==> rel < ranges[0]
}

/// Each range starts behind the one before it.
pub open spec fn strictly_ascending(ranges: Seq<u32>) -> bool {
    forall|i: int, j: int| 0 <= i < j < ranges.len() ==> ranges[i] < ranges[j]
}

/// Whether a lookup of the absolute address `addr` may start at the source
/// location `idx`, where [`raw::NO_INDEX`] stands for a lookup without frames.
///
/// An address that has no relative address finds nothing. Any other finds
/// nothing only where it lies before the first range, and else finds the
/// source location of a range that [`range_holds`] it.
pub open spec fn is_lookup_start(tables: Tables, addr: u64, idx: u32) -> bool {
    match relative_address(tables.range_threshold, addr) {
        None => idx == raw::NO_INDEX,
        Some(rel) => if idx == raw::NO_INDEX {
            precedes_all(tables.ranges, rel)
        } else {
            range_holds(tables.ranges, idx - source_location_base(tables), rel)
        },
    }
}

/// The indices of the source locations that a walk from `start` along
/// `inlined_into_idx` passes, up to `limit` of them. The walk ends at
/// [`raw::NO_INDEX`] and at an index that no source location has.
pub open spec fn chain(tables: Tables, start: u32, limit: nat) -> Seq<u32>
    decreases limit,
{
    if limit == 0 || start == raw::NO_INDEX || start >= tables.source_locations.len() {
        Seq::empty()
    } else {
        seq![start] + chain(
            tables,
            tables.source_locations[start as int].inlined_into_idx,
            (limit - 1) as nat,
        )
    }
}

/// Every source location was inlined into one that stands before it in the
/// table, if into any.
pub open spec fn links_descend(tables: Tables) -> bool {
    forall|i: int|
        0 <= i < tables.source_locations.len() ==> {
            ||| (#[trigger] tables.source_locations[i]).inlined_into_idx == raw::NO_INDEX
            ||| tables.source_locations[i].inlined_into_idx < i
        }
}

/// Every index in a table is absent or names an entry that exists, and
/// every string lies within the string bytes.
pub open spec fn references_exist(tables: Tables) -> bool {
    &&& forall|i: int|
        0 <= i < tables.strings.len() ==> (#[trigger] tables.strings[i]).string_offset
            + tables.strings[i].string_len <= tables.string_bytes.len()
    &&& forall|i: int|
        0 <= i < tables.files.len() ==> {
            &&& is_absent_or_below((#[trigger] tables.files[i]).comp_dir_idx, tables.strings.len())
            &&& is_absent_or_below(tables.files[i].directory_idx, tables.strings.len())
            &&& is_absent_or_below(tables.files[i].path_name_idx, tables.strings.len())
        }
    &&& forall|i: int|
        0 <= i < tables.functions.len() ==> is_absent_or_below(
            (#[trigger] tables.functions[i]).name_idx,
            tables.strings.len(),
        )
    &&& forall|i: int|
        0 <= i < tables.source_locations.len() ==> {
            &&& is_absent_or_below(
                (#[trigger] tables.source_locations[i]).file_idx,
                tables.files.len(),
            )
            &&& is_absent_or_below(tables.source_locations[i].function_idx, tables.functions.len())
            &&& is_absent_or_below(
                tables.source_locations[i].inlined_into_idx,
                tables.source_locations.len(),
            )
        }
}

/// Whether `idx` is [`raw::NO_INDEX`] or less than `count`.
pub open spec fn is_absent_or_below(idx: u32, count: nat) -> bool {
    idx == raw::NO_INDEX || idx < count
}

/// In ranges that ascend, the range that holds an address is the last one
/// that starts at or before it: a lookup finds one range only.
pub proof fn lemma_range_is_the_last_before(ranges: Seq<u32>, i: int, rel: u32)
    requires
        strictly_ascending(ranges),
        range_holds(ranges, i, rel),
    ensures
        forall|j: int| 0 <= j < ranges.len() ==> (#[trigger] ranges[j] <= rel <==> j <= i),
{
    assert forall|j: int| 0 <= j < ranges.len() implies (#[trigger] ranges[j] <= rel <==> j <= i) by {
        if j < i {
            assert(ranges[j] < ranges[i]);
        } else if j > i {
            if j > i + 1 {
                assert(ranges[i + 1] < ranges[j]);
            }
        }
    }
}

/// In ranges that ascend, an address before the first range lies before all
/// of them.
pub proof fn lemma_before_all_ranges(ranges: Seq<u32>, rel: u32)
    requires
        strictly_ascending(ranges),
        precedes_all(ranges, rel),
    ensures
        forall|j: int| 0 <= j < ranges.len() ==> rel < #[trigger] ranges[j],
{
    assert forall|j: int| 0 <= j < ranges.len() implies rel < #[trigger] ranges[j] by {
        if j > 0 {
            assert(ranges[0] < ranges[j]);
        }
    }
}

/// In ranges that ascend, a lookup of an address that has a relative
/// address before the first range, as one of an address that has none,
/// finds nothing.
pub proof fn lemma_lookup_before_the_first_range(tables: Tables, addr: u64, idx: u32)
    requires
        strictly_ascending(tables.ranges),
        is_lookup_start(tables, addr, idx),
        match relative_address(tables.range_threshold, addr) {
            Some(rel) => precedes_all(tables.ranges, rel),
            None => true,
        },
    ensures
        idx == raw::NO_INDEX,
{
    match relative_address(tables.range_threshold, addr) {
        Some(rel) => {
            if idx != raw::NO_INDEX {
                let i = idx - source_location_base(tables);
                if i > 0 {
                    assert(tables.ranges[0] < tables.ranges[i]);
                }
            }
        },
        None => {},
    }
}

/// A lookup of an address at which a range starts begins at the source
/// location of that range.
pub proof fn lemma_lookup_on_a_boundary(tables: Tables, addr: u64, idx: u32, k: int)
    requires
        strictly_ascending(tables.ranges),
        tables.ranges.len() <= tables.source_locations.len() <= 0xffff_ffff,
        0 <= k < tables.ranges.len(),
        relative_address(tables.range_threshold, addr) == Some(tables.ranges[k]),
        is_lookup_start(tables, addr, idx),
        idx != raw::NO_INDEX ==> idx < tables.source_locations.len(),
    ensures
        idx == source_location_base(tables) + k,
{
    let rel = tables.ranges[k];
    if idx == raw::NO_INDEX {
        lemma_before_all_ranges(tables.ranges, rel);
    } else {
        let i = idx - source_location_base(tables);
        lemma_range_is_the_last_before(tables.ranges, i, rel);
        assert(tables.ranges[k] <= rel);
        if i < k {
            assert(tables.ranges[i] < tables.ranges[k]);
            assert(i + 1 <= k);
            if i + 1 < k {
                assert(tables.ranges[i + 1] < tables.ranges[k]);
            }
        }
    }
}

/// The indices of a chain are those of source locations, and where the
/// links descend, each is smaller than the one before it.
pub proof fn lemma_chain_descends(tables: Tables, start: u32, limit: nat)
    requires
        links_descend(tables),
    ensures
        forall|i: int|
            0 <= i < chain(tables, start, limit).len() ==> #[trigger] chain(tables, start, limit)[i]
                < tables.source_locations.len(),
        chain(tables, start, limit).len() > 0 ==> chain(tables, start, limit)[0] == start,
        forall|i: int, j: int|
            0 <= i < j < chain(tables, start, limit).len() ==> chain(tables, start, limit)[j] < chain(
                tables,
                start,
                limit,
            )[i],
    decreases limit,
{
    if limit == 0 || start == raw::NO_INDEX || start >= tables.source_locations.len() {
    } else {
        let next = tables.source_locations[start as int].inlined_into_idx;
        let rest = chain(tables, next, (limit - 1) as nat);
        let all = chain(tables, start, limit);
        lemma_chain_descends(tables, next, (limit - 1) as nat);
        assert(all =~= seq![start] + rest);
        assert forall|i: int, j: int| 0 <= i < j < all.len() implies all[j] < all[i] by {
            assert(all[j] == rest[j - 1]);
            if i == 0 {
                assert(rest[0] == next);
                if j > 1 {
                    assert(rest[j - 1] < rest[0]);
                }
            } else {
                assert(all[i] == rest[i - 1]);
            }
        }
    }
}

/// Where the links descend, the frames of a lookup form a chain without a
/// cycle: no source location comes twice.
pub proof fn lemma_chain_has_no_cycle(tables: Tables, start: u32, limit: nat)
    requires
        links_descend(tables),
    ensures
        chain(tables, start, limit).no_duplicates(),
{
    lemma_chain_descends(tables, start, limit);
}

/// Where the links descend, a chain from a source location that exists
/// needs no more steps than the index it starts at allows: with a limit
/// above that index it ends at a source location that was inlined into
/// none, so the chain is whole.
pub proof fn lemma_chain_ends(tables: Tables, start: u32, limit: nat)
    requires
        links_descend(tables),
        start < tables.source_locations.len() <= 0xffff_ffff,
        limit > start,
    ensures
        chain(tables, start, limit).len() > 0,
        chain(tables, start, limit).last() < tables.source_locations.len(),
        tables.source_locations[chain(tables, start, limit).last() as int].inlined_into_idx
            == raw::NO_INDEX,
        chain(tables, start, limit) == chain(tables, start, (start + 1) as nat),
    decreases limit,
{
    let next = tables.source_locations[start as int].inlined_into_idx;
    let all = chain(tables, start, limit);
    lemma_chain_descends(tables, start, limit);
    assert(all =~= seq![start] + chain(tables, next, (limit - 1) as nat));
    assert(chain(tables, start, (start + 1) as nat) =~= seq![start] + chain(
        tables,
        next,
        start as nat,
    ));
    if next == raw::NO_INDEX {
        assert(chain(tables, next, (limit - 1) as nat) =~= Seq::<u32>::empty());
        assert(chain(tables, next, start as nat) =~= Seq::<u32>::empty());
        assert(all.last() == start);
    } else {
        lemma_chain_ends(tables, next, (limit - 1) as nat);
        lemma_chain_ends(tables, next, start as nat);
        let rest = chain(tables, next, (limit - 1) as nat);
        assert(all.last() == rest.last());
    }
}

/// What asking for the string with index `idx` comes to.
pub enum StringAt {
    /// The index is [`raw::NO_INDEX`].
    Absent,
    /// The string, by its characters.
    Found(Seq<char>),
    /// No string has this index.
    BadIndex,
    /// The string that starts at this offset reaches beyond the string bytes.
    BadRange(u32),
    /// The bytes of the string that starts at this offset are not UTF-8.
    NotUtf8(u32),
}

/// The bytes that the string record `s` points at.
pub open spec fn bytes_of(tables: Tables, s: raw::String) -> Seq<u8> {
    tables.string_bytes.subrange(s.string_offset as int, s.string_offset + s.string_len)
}

/// What asking `tables` for the string with index `idx` comes to.
pub open spec fn string_at(tables: Tables, idx: u32) -> StringAt {
    if idx == raw::NO_INDEX {
        StringAt::Absent
    } else if idx >= tables.strings.len() {
        StringAt::BadIndex
    } else {
        let s = tables.strings[idx as int];
        if s.string_offset + s.string_len > tables.string_bytes.len() {
            StringAt::BadRange(s.string_offset)
        } else if !vstd::utf8::valid_utf8(bytes_of(tables, s)) {
            StringAt::NotUtf8(s.string_offset)
        } else {
            StringAt::Found(vstd::utf8::decode_utf8(bytes_of(tables, s)))
        }
    }
}

/// Whether `e` is the error that stands for the outcome `at` of asking for
/// the string with index `idx`.
pub open spec fn is_string_error(e: Error, idx: u32, at: StringAt) -> bool {
    match at {
        StringAt::Absent => false,
        StringAt::Found(_) => false,
        StringAt::BadIndex => e == Error::InvalidStringReference(idx),
        StringAt::BadRange(offset) => e == Error::InvalidStringDataReference(offset),
        StringAt::NotUtf8(offset) => e matches Error::InvalidStringData(o, _) && o == offset,
    }
}

/// Whether `r` is the answer of an accessor to the outcome `at` of asking for
/// the string with index `idx`.
pub open spec fn answers(r: Result<Option<&str>, Error>, idx: u32, at: StringAt) -> bool {
    match r {
        Ok(None) => at is Absent,
        Ok(Some(s)) => at == StringAt::Found(s@),
        Err(e) => is_string_error(e, idx, at),
    }
}

/// The characters of a path fragment: those of the string, or none where the
/// fragment is absent.
pub open spec fn fragment(at: StringAt) -> Seq<char> {
    match at {
        StringAt::Found(chars) => chars,
        _ => Seq::empty(),
    }
}

/// The full path of a file whose three fragments can all be read: the
/// compilation directory joined with the directory joined with the path name,
/// cleaned.
pub open spec fn full_path_of(tables: Tables, file: raw::File) -> Seq<char> {
    cleaned_path(
        joined_path(
            fragment(string_at(tables, file.comp_dir_idx)),
            joined_path(
                fragment(string_at(tables, file.directory_idx)),
                fragment(string_at(tables, file.path_name_idx)),
            ),
        ),
    )
}

/// Whether `r` is the full path of `file`: the error of the first of
/// `comp_dir`, `directory` and `path_name` that cannot be read, or else
/// [`full_path_of`], with `None` for the empty path.
pub open spec fn is_full_path(r: Result<Option<String>, Error>, tables: Tables, file: raw::File) -> bool {
    let comp_dir = string_at(tables, file.comp_dir_idx);
    let directory = string_at(tables, file.directory_idx);
    let path_name = string_at(tables, file.path_name_idx);
    match r {
        Err(e) => {
            ||| is_string_error(e, file.comp_dir_idx, comp_dir)
            ||| (comp_dir is Absent || comp_dir is Found) && is_string_error(
                e,
                file.directory_idx,
                directory,
            )
            ||| (comp_dir is Absent || comp_dir is Found) && (directory is Absent
                || directory is Found) && is_string_error(e, file.path_name_idx, path_name)
        },
        Ok(path) => {
            &&& comp_dir is Absent || comp_dir is Found
            &&& directory is Absent || directory is Found
            &&& path_name is Absent || path_name is Found
            &&& match path {
                None => full_path_of(tables, file).len() == 0,
                Some(p) => p@ == full_path_of(tables, file) && p@.len() > 0,
            }
        },
    }
}

/// Calls `core::str::from_utf8`, which hands the bytes back as a string where
/// they are valid UTF-8 and fails where they are not.
#[verifier::external_body]
pub(crate) fn str_from_utf8<'a>(bytes: &'a [u8]) -> (r: Result<&'a str, core::str::Utf8Error>)
    ensures
        r is Ok <==> vstd::utf8::valid_utf8(bytes@),
        r matches Ok(s) ==> vstd::utf8::encode_utf8(s@) == bytes@,
{
    core::str::from_utf8(bytes)
}

impl<'data> SymCache<'data> {
    /// Looks up an absolute instruction address.
    ///
    /// The frames come out of the returned iterator innermost first; there is
    /// none where the address has no relative address or lies before the
    /// first range.
    pub fn lookup(&self, addr: u64) -> (iter: SourceLocationIter<'_>)
        ensures
            iter.tables() == self@,
            is_lookup_start(self@, addr, iter.index()),
            iter.index() != raw::NO_INDEX ==> iter.index() < self@.source_locations.len(),
    {
        let rel: u32 = match offset_address(self.range_threshold(), addr) {
            Some(rel) => rel,
            None => {
                return SourceLocationIter { cache: self, source_location_idx: raw::NO_INDEX };
            },
        };
        let count: u32 = self.range_count();
        let mut lo: u32 = 0;
        let mut hi: u32 = count;
        while lo < hi
            invariant
                lo <= hi <= count,
                count == self@.ranges.len(),
                lo > 0 ==> self@.ranges[lo - 1] <= rel,
                hi < count ==> rel < self@.ranges[hi as int],
            decreases hi - lo,
        {
            let mid: u32 = lo + (hi - lo) / 2;
            if self.range_start(mid) <= rel {
                lo = mid + 1;
            } else {
                hi = mid;
            }
        }
        if lo == 0 {
            SourceLocationIter { cache: self, source_location_idx: raw::NO_INDEX }
        } else {
            let base: u32 = self.source_location_count() - count;
            SourceLocationIter { cache: self, source_location_idx: base + (lo - 1) }
        }
    }

    /// The string with index `idx`.
    pub fn get_string(&self, idx: u32) -> (r: Result<Option<&'data str>, Error>)
        ensures
            answers(r, idx, string_at(self@, idx)),
    {
        if idx == raw::NO_INDEX {
            return Ok(None);
        }
        if idx >= self.string_count() {
            return Err(Error::InvalidStringReference(idx));
        }
        let s: raw::String = self.string_record(idx);
        let start: u64 = s.string_offset as u64;
        let end: u64 = start + s.string_len as u64;
        if end > self.string_bytes_len() as u64 {
            return Err(Error::InvalidStringDataReference(s.string_offset));
        }
        let bytes: &'data [u8] = self.string_bytes_between(s.string_offset, end as u32);
        match str_from_utf8(bytes) {
            Ok(string) => {
                proof {
                    vstd::utf8::encode_utf8_decode_utf8(string@);
                }
                Ok(Some(string))
            },
            Err(e) => Err(Error::InvalidStringData(s.string_offset, e)),
        }
    }

    /// The file with index `idx`.
    pub fn get_file(&self, idx: u32) -> (r: Result<Option<File<'_>>, Error>)
        ensures
            is_file_answer(r, self@, idx),
    {
        let count: u32 = self.file_count();
        if idx == raw::NO_INDEX {
            return Ok(None);
        }
        if idx >= count {
            return Err(Error::InvalidFileReference(idx));
        }
        Ok(Some(File { cache: self, file: self.file_record(idx) }))
    }

    /// The function with index `idx`.
    pub fn get_function(&self, idx: u32) -> (r: Result<Option<Function<'_>>, Error>)
        ensures
            is_function_answer(r, self@, idx),
    {
        let count: u32 = self.function_count();
        if idx == raw::NO_INDEX {
            return Ok(None);
        }
        if idx >= count {
            return Err(Error::InvalidFunctionReference(idx));
        }
        Ok(Some(Function { cache: self, function: self.function_record(idx) }))
    }

    /// An iterator over the functions, in the order of the table.
    pub fn functions(&self) -> (iter: FunctionIter<'_>)
        ensures
            iter.tables() == self@,
            iter.index() == 0,
    {
        FunctionIter { cache: self, function_idx: 0 }
    }

    /// An iterator over the files, in the order of the table.
    pub fn files(&self) -> (iter: FileIter<'_>)
        ensures
            iter.tables() == self@,
            iter.index() == 0,
    {
        FileIter { cache: self, file_idx: 0 }
    }
}

/// Whether `r` is what asking `tables` for the file with index `idx` gives.
pub open spec fn is_file_answer(r: Result<Option<File<'_>>, Error>, tables: Tables, idx: u32) -> bool {
    &&& tables.files.len() <= 0xffff_ffff
    &&& match r {
        Ok(None) => idx == raw::NO_INDEX,
        Ok(Some(file)) => {
            &&& idx < tables.files.len()
            &&& file.tables() == tables
            &&& file.record() == tables.files[idx as int]
        },
        Err(e) => {
            &&& idx != raw::NO_INDEX
            &&& idx >= tables.files.len()
            &&& e == Error::InvalidFileReference(idx)
        },
    }
}

/// Whether `r` is what asking `tables` for the function with index `idx`
/// gives.
pub open spec fn is_function_answer(
    r: Result<Option<Function<'_>>, Error>,
    tables: Tables,
    idx: u32,
) -> bool {
    &&& tables.functions.len() <= 0xffff_ffff
    &&& match r {
        Ok(None) => idx == raw::NO_INDEX,
        Ok(Some(function)) => {
            &&& idx < tables.functions.len()
            &&& function.tables() == tables
            &&& function.record() == tables.functions[idx as int]
        },
        Err(e) => {
            &&& idx != raw::NO_INDEX
            &&& idx >= tables.functions.len()
            &&& e == Error::InvalidFunctionReference(idx)
        },
    }
}

/// A source file of a cache.
///
/// Its path has up to three fragments, `comp_dir`, `directory` and
/// `path_name`; a later fragment that is absolute takes the place of those
/// before it.
pub struct File<'data> {
    cache: &'data SymCache<'data>,
    file: raw::File,
}

impl<'data> File<'data> {
    /// The tables of the cache that the file is in.
    pub closed spec fn tables(&self) -> Tables {
        self.cache@
    }

    /// The file's record.
    pub closed spec fn record(&self) -> raw::File {
        self.file
    }

    /// The compilation directory.
    pub fn comp_dir(&self) -> (r: Result<Option<&'data str>, Error>)
        ensures
            answers(r, self.record().comp_dir_idx, string_at(self.tables(), self.record().comp_dir_idx)),
    {
        self.cache.get_string(self.file.comp_dir_idx)
    }

    /// The directory.
    pub fn directory(&self) -> (r: Result<Option<&'data str>, Error>)
        ensures
            answers(
                r,
                self.record().directory_idx,
                string_at(self.tables(), self.record().directory_idx),
            ),
    {
        self.cache.get_string(self.file.directory_idx)
    }

    /// The last fragment of the path.
    pub fn path_name(&self) -> (r: Result<Option<&'data str>, Error>)
        ensures
            answers(
                r,
                self.record().path_name_idx,
                string_at(self.tables(), self.record().path_name_idx),
            ),
    {
        self.cache.get_string(self.file.path_name_idx)
    }

    /// The full path: the three fragments joined and cleaned, or `None`
    /// where that is the empty path.
    pub fn full_path(&self) -> (r: Result<Option<String>, Error>)
        ensures
            is_full_path(r, self.tables(), self.record()),
    {
        proof {
            reveal_strlit("");
        }
        let comp_dir: &str = match self.comp_dir() {
            Ok(Some(s)) => s,
            Ok(None) => "",
            Err(e) => {
                return Err(e);
            },
        };
        let directory: &str = match self.directory() {
            Ok(Some(s)) => s,
            Ok(None) => "",
            Err(e) => {
                return Err(e);
            },
        };
        let path_name: &str = match self.path_name() {
            Ok(Some(s)) => s,
            Ok(None) => "",
            Err(e) => {
                return Err(e);
            },
        };
        assert(""@ =~= Seq::<char>::empty());
        let suffix: String = join_path(directory, path_name);
        let joined: String = join_path(comp_dir, suffix.as_str());
        Ok(path_or_none(clean_path(joined.as_str())))
    }
}

/// The path, or `None` where it is empty.
pub fn path_or_none(path: String) -> (r: Option<String>)
    ensures
        r == if path@.len() == 0 {
            None
        } else {
            Some(path)
        },
{
    if path.as_str().is_empty() {
        None
    } else {
        Some(path)
    }
}

/// A function of a cache.
pub struct Function<'data> {
    cache: &'data SymCache<'data>,
    function: raw::Function,
}

impl<'data> Function<'data> {
    /// The tables of the cache that the function is in.
    pub closed spec fn tables(&self) -> Tables {
        self.cache@
    }

    /// The function's record.
    pub closed spec fn record(&self) -> raw::Function {
        self.function
    }

    /// The name, which may be mangled.
    pub fn name(&self) -> (r: Result<Option<&'data str>, Error>)
        ensures
            answers(r, self.record().name_idx, string_at(self.tables(), self.record().name_idx)),
    {
        self.cache.get_string(self.function.name_idx)
    }

    /// The relative address of the first instruction, or [`raw::NO_INDEX`].
    pub fn entry_pc(&self) -> (entry_pc: u32)
        ensures
            entry_pc == self.record().entry_pc,
    {
        self.function.entry_pc
    }

    /// The language the function is written in.
    pub fn language(&self) -> (language: Language)
        ensures
            language == language_of_tag(self.record().lang as u32),
    {
        language_from_u32(self.function.lang as u32)
    }
}

/// An iterator over the files of a cache.
pub struct FileIter<'data> {
    cache: &'data SymCache<'data>,
    file_idx: u32,
}

impl<'data> FileIter<'data> {
    /// The tables of the cache that the iterator walks.
    pub closed spec fn tables(&self) -> Tables {
        self.cache@
    }

    /// The index of the file that comes next.
    pub closed spec fn index(&self) -> u32 {
        self.file_idx
    }

    /// The next file, if one is left.
    pub fn next(&mut self) -> (r: Option<File<'data>>)
        ensures
            final(self).tables() == old(self).tables(),
            old(self).index() < old(self).tables().files.len() ==> {
                &&& r matches Some(file)
                &&& file.tables() == old(self).tables()
                &&& file.record() == old(self).tables().files[old(self).index() as int]
                &&& final(self).index() == old(self).index() + 1
            },
            old(self).index() >= old(self).tables().files.len() ==> {
                &&& r is None
                &&& final(self).index() == old(self).index()
            },
    {
        let cache: &'data SymCache<'data> = self.cache;
        if self.file_idx < cache.file_count() {
            let file = cache.file_record(self.file_idx);
            self.file_idx = self.file_idx + 1;
            Some(File { cache, file })
        } else {
            None
        }
    }
}

/// An iterator over the functions of a cache.
pub struct FunctionIter<'data> {
    cache: &'data SymCache<'data>,
    function_idx: u32,
}

impl<'data> FunctionIter<'data> {
    /// The tables of the cache that the iterator walks.
    pub closed spec fn tables(&self) -> Tables {
        self.cache@
    }

    /// The index of the function that comes next.
    pub closed spec fn index(&self) -> u32 {
        self.function_idx
    }

    /// The next function, if one is left.
    pub fn next(&mut self) -> (r: Option<Function<'data>>)
        ensures
            final(self).tables() == old(self).tables(),
            old(self).index() < old(self).tables().functions.len() ==> {
                &&& r matches Some(function)
                &&& function.tables() == old(self).tables()
                &&& function.record() == old(self).tables().functions[old(self).index() as int]
                &&& final(self).index() == old(self).index() + 1
            },
            old(self).index() >= old(self).tables().functions.len() ==> {
                &&& r is None
                &&& final(self).index() == old(self).index()
            },
    {
        let cache: &'data SymCache<'data> = self.cache;
        if self.function_idx < cache.function_count() {
            let function = cache.function_record(self.function_idx);
            self.function_idx = self.function_idx + 1;
            Some(Function { cache, function })
        } else {
            None
        }
    }
}

/// A source location of a cache: a function, a file and a line that an
/// instruction belongs to.
pub struct SourceLocation<'data> {
    cache: &'data SymCache<'data>,
    source_location: raw::SourceLocation,
}

impl<'data> SourceLocation<'data> {
    /// The tables of the cache that the source location is in.
    pub closed spec fn tables(&self) -> Tables {
        self.cache@
    }

    /// The source location's record.
    pub closed spec fn record(&self) -> raw::SourceLocation {
        self.source_location
    }

    /// The line; zero where it is not known.
    pub fn line(&self) -> (line: u32)
        ensures
            line == self.record().line,
    {
        self.source_location.line
    }

    /// The file.
    pub fn file(&self) -> (r: Result<Option<File<'data>>, Error>)
        ensures
            is_file_answer(r, self.tables(), self.record().file_idx),
    {
        let cache: &'data SymCache<'data> = self.cache;
        let idx: u32 = self.source_location.file_idx;
        let count: u32 = cache.file_count();
        if idx == raw::NO_INDEX {
            return Ok(None);
        }
        if idx >= count {
            return Err(Error::InvalidFileReference(idx));
        }
        Ok(Some(File { cache, file: cache.file_record(idx) }))
    }

    /// The function.
    pub fn function(&self) -> (r: Result<Option<Function<'data>>, Error>)
        ensures
            is_function_answer(r, self.tables(), self.record().function_idx),
    {
        let cache: &'data SymCache<'data> = self.cache;
        let idx: u32 = self.source_location.function_idx;
        let count: u32 = cache.function_count();
        if idx == raw::NO_INDEX {
            return Ok(None);
        }
        if idx >= count {
            return Err(Error::InvalidFunctionReference(idx));
        }
        Ok(Some(Function { cache, function: cache.function_record(idx) }))
    }
}

/// An iterator over the frames of a lookup, innermost first.
pub struct SourceLocationIter<'data> {
    cache: &'data SymCache<'data>,
    source_location_idx: u32,
}

impl<'data> SourceLocationIter<'data> {
    /// The tables of the cache that the iterator walks.
    pub closed spec fn tables(&self) -> Tables {
        self.cache@
    }

    /// The index of the source location that comes next, or
    /// [`raw::NO_INDEX`] where none is left.
    pub closed spec fn index(&self) -> u32 {
        self.source_location_idx
    }

    /// The next frame: the source location that this one was inlined into.
    ///
    /// Fails, and stays where it is, where the index of the next frame is
    /// one that no source location has.
    pub fn next(&mut self) -> (r: Result<Option<SourceLocation<'data>>, Error>)
        ensures
            final(self).tables() == old(self).tables(),
            old(self).tables().source_locations.len() <= 0xffff_ffff,
            match r {
                Ok(None) => old(self).index() == raw::NO_INDEX && final(self).index()
                    == raw::NO_INDEX,
                Ok(Some(frame)) => {
                    &&& old(self).index() < old(self).tables().source_locations.len()
                    &&& frame.tables() == old(self).tables()
                    &&& frame.record() == old(self).tables().source_locations[old(
                        self,
                    ).index() as int]
                    &&& final(self).index() == frame.record().inlined_into_idx
                },
                Err(e) => {
                    &&& old(self).index() != raw::NO_INDEX
                    &&& old(self).index() >= old(self).tables().source_locations.len()
                    &&& e == Error::InvalidSourceLocationReference(old(self).index())
                    &&& final(self).index() == old(self).index()
                },
            },
    {
        let cache: &'data SymCache<'data> = self.cache;
        let idx: u32 = self.source_location_idx;
        let count: u32 = cache.source_location_count();
        if idx == raw::NO_INDEX {
            return Ok(None);
        }
        if idx >= count {
            return Err(Error::InvalidSourceLocationReference(idx));
        }
        let source_location = cache.source_location_record(idx);
        self.source_location_idx = source_location.inlined_into_idx;
        Ok(Some(SourceLocation { cache, source_location }))
    }
}

} // verus!
