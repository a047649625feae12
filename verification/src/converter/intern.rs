//! Insertion-ordered tables without duplicates, kept in `indexmap` collections.

use indexmap::IndexMap;
use indexmap::IndexSet;
use crate::format::raw;
use core::marker::PhantomData;
use vstd::prelude::*;

verus! {

/// One table row as four words; narrower rows leave the unused words zero.
pub type Record = (u32, u32, u32, u32);

#[verifier::external_type_specification]
#[verifier::external_body]
#[verifier::reject_recursive_types(T)]
#[verifier::reject_recursive_types(S)]
pub struct ExIndexSet<T, S>(IndexSet<T, S>);

#[verifier::external_type_specification]
#[verifier::external_body]
#[verifier::reject_recursive_types(K)]
#[verifier::reject_recursive_types(V)]
#[verifier::reject_recursive_types(S)]
pub struct ExIndexMap<K, V, S>(IndexMap<K, V, S>);

/// The rows that a set holds, in insertion order.
pub uninterp spec fn record_items(set: IndexSet<Record>) -> Seq<Record>;

/// The keys and values that a map holds, in insertion order; a key by its characters.
pub uninterp spec fn string_entries(map: IndexMap<String, (u32, u32)>) -> Seq<(Seq<char>, (u32, u32))>;

/// Calls `IndexSet::new`, which creates a set without items.
#[verifier::external_body]
fn records_new() -> (set: IndexSet<Record>)
    ensures
        record_items(set) == Seq::<Record>::empty(),
{
    IndexSet::new()
}

/// Calls `IndexSet::len`, the number of items in the set.
#[verifier::external_body]
fn records_len(set: &IndexSet<Record>) -> (n: usize)
    ensures
        n == record_items(*set).len(),
{
    set.len()
}

/// Calls `IndexSet::insert_full`. Where an equal item is in the set, the set
/// stays as it is and the call returns that item's index and `false`;
/// otherwise the item becomes the last one and the call returns its index and
/// `true`.
#[verifier::external_body]
fn records_insert_full(set: &mut IndexSet<Record>, value: Record) -> (r: (usize, bool))
    ensures
        record_items(*old(set)).contains(value) ==> {
            &&& !r.1
            &&& record_items(*final(set)) == record_items(*old(set))
            &&& r.0 < record_items(*old(set)).len()
            &&& record_items(*old(set))[r.0 as int] == value
        },
        !record_items(*old(set)).contains(value) ==> {
            &&& r.1
            &&& record_items(*final(set)) == record_items(*old(set)).push(value)
            &&& r.0 == record_items(*old(set)).len()
        },
{
    set.insert_full(value)
}

/// Calls `IndexSet::get_index_of`, which returns the position of the item
/// that is equal to `value`, and `None` where the set has no such item.
#[verifier::external_body]
fn records_get_index_of(set: &IndexSet<Record>, value: &Record) -> (r: Option<usize>)
    ensures
        match r {
            Some(i) => i < record_items(*set).len() && record_items(*set)[i as int] == *value,
            None => !record_items(*set).contains(*value),
        },
{
    set.get_index_of(value)
}

/// Calls `IndexSet::get_index`, which returns the item at a position below
/// the set's length, and `None` at any other.
#[verifier::external_body]
fn records_get_index(set: &IndexSet<Record>, index: usize) -> (r: Option<Record>)
    ensures
        r == if index < record_items(*set).len() {
            Some(record_items(*set)[index as int])
        } else {
            None
        },
{
    set.get_index(index).copied()
}

/// Calls `IndexMap::new`, which creates a map without entries.
#[verifier::external_body]
fn strings_new() -> (map: IndexMap<String, (u32, u32)>)
    ensures
        string_entries(map) == Seq::<(Seq<char>, (u32, u32))>::empty(),
{
    IndexMap::new()
}

/// Calls `IndexMap::len`, the number of entries in the map.
#[verifier::external_body]
fn strings_len(map: &IndexMap<String, (u32, u32)>) -> (n: usize)
    ensures
        n == string_entries(*map).len(),
{
    map.len()
}

/// Calls `IndexMap::get_index_of`, which returns the position of the entry
/// with an equal key, and `None` where the map has no such entry.
#[verifier::external_body]
fn strings_get_index_of(map: &IndexMap<String, (u32, u32)>, key: &str) -> (r: Option<usize>)
    ensures
        match r {
            Some(i) => i < string_entries(*map).len() && string_entries(*map)[i as int].0 == key@,
            None => forall|i: int|
                0 <= i < string_entries(*map).len() ==> (#[trigger] string_entries(*map)[i]).0
                    != key@,
        },
{
    map.get_index_of(key)
}

/// Calls `IndexMap::insert_full`. Where the map has an entry with an equal
/// key, that entry keeps its place and gets the new value, and the call
/// returns its position and the old value; otherwise the pair becomes the
/// last entry and the call returns its position and `None`.
#[verifier::external_body]
fn strings_insert_full(map: &mut IndexMap<String, (u32, u32)>, key: String, value: (u32, u32)) -> (r: (
    usize,
    Option<(u32, u32)>,
))
    ensures
        match r.1 {
            Some(previous) => {
                &&& r.0 < string_entries(*old(map)).len()
                &&& string_entries(*old(map))[r.0 as int] == (key@, previous)
                &&& string_entries(*final(map)) == string_entries(*old(map)).update(
                    r.0 as int,
                    (key@, value),
                )
            },
            None => {
                &&& r.0 == string_entries(*old(map)).len()
                &&& string_entries(*final(map)) == string_entries(*old(map)).push((key@, value))
                &&& forall|i: int|
                    0 <= i < string_entries(*old(map)).len() ==> (#[trigger] string_entries(
                        *old(map),
                    )[i]).0 != key@
            },
        },
{
    map.insert_full(key, value)
}

/// Calls `IndexMap::get_index` and hands out the value of the entry at a
/// position below the map's length, and `None` at any other.
#[verifier::external_body]
fn strings_get_index(map: &IndexMap<String, (u32, u32)>, index: usize) -> (r: Option<(u32, u32)>)
    ensures
        r == if index < string_entries(*map).len() {
            Some(string_entries(*map)[index as int].1)
        } else {
            None
        },
{
    map.get_index(index).map(|entry| *entry.1)
}

/// The table after `value` was interned: unchanged where it holds `value`
/// already or is full, and with `value` at its end otherwise.
pub open spec fn interned<T>(table: Seq<T>, value: T) -> Seq<T> {
    if table.contains(value) || table.len() >= raw::NO_INDEX {
        table
    } else {
        table.push(value)
    }
}

/// The index that interning `value` gives: that of `value` where the table
/// holds it, the table's length where `value` is added, and none where the
/// table is full.
pub open spec fn intern_index<T>(table: Seq<T>, value: T) -> Option<u32> {
    if table.contains(value) {
        Some(table.index_of(value) as u32)
    } else if table.len() < raw::NO_INDEX {
        Some(table.len() as u32)
    } else {
        None
    }
}

/// A row of a table, which is kept as a [`Record`].
pub trait Row: Sized + Copy {
    /// The record that stands for the row.
    spec fn encode(self) -> Record;

    /// The row that a record stands for.
    spec fn decode(record: Record) -> Self;

    /// A row is found again in its record.
    proof fn lemma_decode_encode(self)
        ensures
            Self::decode(self.encode()) == self,
    ;

    /// Computes [`Row::encode`].
    fn to_record(self) -> (record: Record)
        ensures
            record == self.encode(),
    ;

    /// Computes [`Row::decode`].
    fn from_record(record: Record) -> (row: Self)
        ensures
            row == Self::decode(record),
    ;
}

impl Row for raw::File {
    open spec fn encode(self) -> Record {
        (self.comp_dir_idx, self.directory_idx, self.path_name_idx, 0)
    }

    open spec fn decode(record: Record) -> Self {
        raw::File { comp_dir_idx: record.0, directory_idx: record.1, path_name_idx: record.2 }
    }

    proof fn lemma_decode_encode(self) {
    }

    fn to_record(self) -> Record {
        (self.comp_dir_idx, self.directory_idx, self.path_name_idx, 0)
    }

    fn from_record(record: Record) -> Self {
        raw::File { comp_dir_idx: record.0, directory_idx: record.1, path_name_idx: record.2 }
    }
}

impl Row for raw::Function {
    open spec fn encode(self) -> Record {
        (self.name_idx, self.entry_pc, self.lang as u32, 0)
    }

    open spec fn decode(record: Record) -> Self {
        raw::Function { name_idx: record.0, entry_pc: record.1, lang: (record.2 % 256) as u8 }
    }

    proof fn lemma_decode_encode(self) {
    }

    fn to_record(self) -> Record {
        (self.name_idx, self.entry_pc, self.lang as u32, 0)
    }

    fn from_record(record: Record) -> Self {
        raw::Function { name_idx: record.0, entry_pc: record.1, lang: (record.2 % 256) as u8 }
    }
}

impl Row for raw::SourceLocation {
    open spec fn encode(self) -> Record {
        (self.file_idx, self.line, self.function_idx, self.inlined_into_idx)
    }

    open spec fn decode(record: Record) -> Self {
        raw::SourceLocation {
            file_idx: record.0,
            line: record.1,
            function_idx: record.2,
            inlined_into_idx: record.3,
        }
    }

    proof fn lemma_decode_encode(self) {
    }

    fn to_record(self) -> Record {
        (self.file_idx, self.line, self.function_idx, self.inlined_into_idx)
    }

    fn from_record(record: Record) -> Self {
        raw::SourceLocation {
            file_idx: record.0,
            line: record.1,
            function_idx: record.2,
            inlined_into_idx: record.3,
        }
    }
}

/// A table of rows in the order in which they were first inserted, in which
/// no row stands twice and which holds fewer than [`raw::NO_INDEX`] rows.
pub struct Table<T: Row> {
    set: IndexSet<Record>,
    row: PhantomData<T>,
}

impl<T: Row> View for Table<T> {
    type V = Seq<T>;

    closed spec fn view(&self) -> Seq<T> {
        record_items(self.set).map_values(|record: Record| T::decode(record))
    }
}

impl<T: Row> Table<T> {
    /// What holds of every table that the functions below hand out.
    pub closed spec fn wf(&self) -> bool {
        let records = record_items(self.set);
        &&& records.no_duplicates()
        &&& records.len() <= raw::NO_INDEX
        &&& forall|i: int|
            0 <= i < records.len() ==> T::decode(#[trigger] records[i]).encode() == records[i]
    }

    /// A table without rows.
    pub fn new() -> (table: Self)
        ensures
            table.wf(),
            table@ == Seq::<T>::empty(),
    {
        let table = Table { set: records_new(), row: PhantomData };
        assert(table@ =~= Seq::<T>::empty());
        table
    }

    /// The number of rows.
    pub fn len(&self) -> (n: u32)
        requires
            self.wf(),
        ensures
            n == self@.len(),
            self@.len() <= raw::NO_INDEX,
            self@.no_duplicates(),
    {
        proof {
            self.lemma_view();
        }
        records_len(&self.set) as u32
    }

    /// The row with index `idx`, if there is one.
    pub fn get(&self, idx: u32) -> (row: Option<T>)
        ensures
            row == if idx < self@.len() {
                Some(self@[idx as int])
            } else {
                None
            },
    {
        match records_get_index(&self.set, idx as usize) {
            Some(record) => Some(T::from_record(record)),
            None => None,
        }
    }

    /// The index of a row, if the table holds it.
    pub fn position(&self, value: T) -> (idx: Option<u32>)
        requires
            self.wf(),
        ensures
            idx == if self@.contains(value) {
                Some(self@.index_of(value) as u32)
            } else {
                None
            },
    {
        proof {
            self.lemma_view();
            self.lemma_contains(value);
            value.lemma_decode_encode();
        }
        let record = value.to_record();
        match records_get_index_of(&self.set, &record) {
            Some(i) => {
                proof {
                    assert(self@[i as int] == value);
                }
                Some(i as u32)
            },
            None => None,
        }
    }

    /// Interns a row: returns the index it has already or, where it is new
    /// and the table is not full, adds it at the end.
    pub fn insert(&mut self, value: T) -> (idx: Option<u32>)
        requires
            old(self).wf(),
        ensures
            final(self).wf(),
            final(self)@ == interned(old(self)@, value),
            idx == intern_index(old(self)@, value),
            final(self)@.no_duplicates(),
            idx matches Some(i) ==> i < final(self)@.len() && final(self)@[i as int] == value,
    {
        proof {
            self.lemma_view();
            self.lemma_contains(value);
            value.lemma_decode_encode();
        }
        let record = value.to_record();
        let ghost before = record_items(self.set);
        match records_get_index_of(&self.set, &record) {
            Some(i) => {
                proof {
                    assert(self@[i as int] == value);
                    assert(self@.contains(value));
                }
                Some(i as u32)
            },
            None => {
                if records_len(&self.set) >= raw::NO_INDEX as usize {
                    None
                } else {
                    let r = records_insert_full(&mut self.set, record);
                    proof {
                        let after = record_items(self.set);
                        assert(after == before.push(record));
                        assert(after.no_duplicates()) by {
                            assert forall|i: int, j: int|
                                0 <= i < after.len() && 0 <= j < after.len() && i != j implies after[i]
                                != after[j] by {
                                if i < before.len() {
                                    assert(before.contains(before[i]));
                                }
                                if j < before.len() {
                                    assert(before.contains(before[j]));
                                }
                            }
                        }
                        assert(self@ =~= old(self)@.push(value));
                        Self::lemma_view_of(after);
                    }
                    Some(r.0 as u32)
                }
            },
        }
    }

    /// In a table no row stands twice.
    pub proof fn lemma_view(&self)
        requires
            self.wf(),
        ensures
            self@.no_duplicates(),
            self@.len() <= raw::NO_INDEX,
    {
        Self::lemma_view_of(record_items(self.set));
    }

    proof fn lemma_view_of(records: Seq<Record>)
        requires
            records.no_duplicates(),
            forall|i: int|
                0 <= i < records.len() ==> T::decode(#[trigger] records[i]).encode() == records[i],
        ensures
            records.map_values(|record: Record| T::decode(record)).no_duplicates(),
    {
        let rows = records.map_values(|record: Record| T::decode(record));
        assert forall|i: int, j: int|
            0 <= i < rows.len() && 0 <= j < rows.len() && i != j implies rows[i] != rows[j] by {
            assert(rows[i].encode() == records[i]);
            assert(rows[j].encode() == records[j]);
        }
    }

    /// The view holds a row where the records hold its record.
    proof fn lemma_contains(&self, value: T)
        requires
            self.wf(),
        ensures
            self@.contains(value) <==> record_items(self.set).contains(value.encode()),
    {
        let records = record_items(self.set);
        value.lemma_decode_encode();
        if self@.contains(value) {
            let i = choose|i: int| 0 <= i < self@.len() && self@[i] == value;
            assert(T::decode(records[i]).encode() == records[i]);
            assert(records[i] == value.encode());
        }
        if records.contains(value.encode()) {
            let i = choose|i: int| 0 <= i < records.len() && records[i] == value.encode();
            assert(self@[i] == value);
        }
    }
}

/// Whether each string lies in `bytes` where its record says: `refs[i]`
/// points at the UTF-8 bytes of `keys[i]`.
pub open spec fn strings_stored(keys: Seq<Seq<char>>, refs: Seq<raw::String>, bytes: Seq<u8>) -> bool {
    &&& keys.len() == refs.len()
    &&& forall|i: int|
        0 <= i < refs.len() ==> {
            &&& (#[trigger] refs[i]).string_offset + refs[i].string_len <= bytes.len()
            &&& bytes.subrange(
                refs[i].string_offset as int,
                refs[i].string_offset + refs[i].string_len,
            ) == vstd::utf8::encode_utf8(keys[i])
        }
}

/// Whether a string that the table does not hold yet can be added: the
/// table is not full, and the string bytes stay within 32 bits.
pub open spec fn has_room(keys: Seq<Seq<char>>, bytes: Seq<u8>, s: Seq<char>) -> bool {
    keys.len() < raw::NO_INDEX && bytes.len() + vstd::utf8::encode_utf8(s).len() <= 0xffff_ffff
}

/// The index that interning the string `s` gives.
pub open spec fn string_index(keys: Seq<Seq<char>>, bytes: Seq<u8>, s: Seq<char>) -> Option<u32> {
    if keys.contains(s) {
        Some(keys.index_of(s) as u32)
    } else if has_room(keys, bytes, s) {
        Some(keys.len() as u32)
    } else {
        None
    }
}

/// Appends `bytes` to `out`.
pub fn append_bytes(out: &mut Vec<u8>, bytes: &[u8])
    ensures
        final(out)@ == old(out)@ + bytes@,
{
    let mut i: usize = 0;
    while i < bytes.len()
        invariant
            i <= bytes@.len(),
            out@ == old(out)@ + bytes@.subrange(0, i as int),
        decreases bytes@.len() - i,
    {
        out.push(bytes[i]);
        i = i + 1;
        assert(out@ =~= old(out)@ + bytes@.subrange(0, i as int));
    }
    assert(bytes@.subrange(0, i as int) =~= bytes@);
}

/// The strings of a cache: each string once, in the order of first insertion,
/// and the bytes of all of them one after the other.
pub struct StringTable {
    map: IndexMap<String, (u32, u32)>,
    bytes: Vec<u8>,
}

impl StringTable {
    /// The strings, each by its characters.
    pub closed spec fn keys(&self) -> Seq<Seq<char>> {
        string_entries(self.map).map_values(|entry: (Seq<char>, (u32, u32))| entry.0)
    }

    /// Where each string's bytes are.
    pub closed spec fn refs(&self) -> Seq<raw::String> {
        string_entries(self.map).map_values(
            |entry: (Seq<char>, (u32, u32))|
                raw::String { string_offset: entry.1.0, string_len: entry.1.1 },
        )
    }

    /// The bytes of all strings.
    pub closed spec fn bytes(&self) -> Seq<u8> {
        self.bytes@
    }

    /// What holds of every table that the functions below hand out.
    pub closed spec fn wf(&self) -> bool {
        &&& self.keys().no_duplicates()
        &&& self.keys().len() <= raw::NO_INDEX
        &&& self.bytes().len() <= 0xffff_ffff
        &&& strings_stored(self.keys(), self.refs(), self.bytes())
    }

    /// No string stands twice, and each lies in the bytes where its record
    /// says.
    pub proof fn lemma_wf(&self)
        requires
            self.wf(),
        ensures
            self.keys().no_duplicates(),
            self.keys().len() <= raw::NO_INDEX,
            self.bytes().len() <= 0xffff_ffff,
            strings_stored(self.keys(), self.refs(), self.bytes()),
    {
    }

    /// A table without strings.
    pub fn new() -> (table: Self)
        ensures
            table.wf(),
            table.keys() == Seq::<Seq<char>>::empty(),
            table.refs() == Seq::<raw::String>::empty(),
            table.bytes() == Seq::<u8>::empty(),
    {
        let table = StringTable { map: strings_new(), bytes: Vec::new() };
        assert(table.keys() =~= Seq::<Seq<char>>::empty());
        assert(table.refs() =~= Seq::<raw::String>::empty());
        table
    }

    /// The number of strings.
    pub fn len(&self) -> (n: u32)
        requires
            self.wf(),
        ensures
            n == self.keys().len(),
            n == self.refs().len(),
    {
        strings_len(&self.map) as u32
    }

    /// The record of the string with index `idx`, if there is one.
    pub fn get(&self, idx: u32) -> (r: Option<raw::String>)
        ensures
            r == if idx < self.refs().len() {
                Some(self.refs()[idx as int])
            } else {
                None
            },
    {
        match strings_get_index(&self.map, idx as usize) {
            Some(entry) => Some(raw::String { string_offset: entry.0, string_len: entry.1 }),
            None => None,
        }
    }

    /// The bytes of all strings.
    pub fn as_bytes(&self) -> (bytes: &[u8])
        ensures
            bytes@ == self.bytes(),
    {
        self.bytes.as_slice()
    }

    /// The string with index `idx`, if there is one.
    pub fn resolve(&self, idx: u32) -> (r: Option<&str>)
        requires
            self.wf(),
        ensures
            match r {
                Some(s) => idx < self.keys().len() && s@ == self.keys()[idx as int],
                None => idx >= self.keys().len(),
            },
    {
        let record: raw::String = match self.get(idx) {
            Some(record) => record,
            None => {
                return None;
            },
        };
        let start: usize = record.string_offset as usize;
        let end: usize = start + record.string_len as usize;
        proof {
            assert(self.refs()[idx as int] == record);
            vstd::utf8::encode_utf8_valid_utf8(self.keys()[idx as int]);
        }
        let bytes = vstd::slice::slice_subrange(self.bytes.as_slice(), start, end);
        match crate::format::lookup::str_from_utf8(bytes) {
            Ok(s) => {
                proof {
                    vstd::utf8::encode_utf8_decode_utf8(s@);
                    vstd::utf8::encode_utf8_decode_utf8(self.keys()[idx as int]);
                }
                Some(s)
            },
            Err(_) => None,
        }
    }

    /// Interns a string: returns the index it has already or, where it is
    /// new and there [`has_room`] for it, adds it at the end.
    pub fn insert(&mut self, s: &str) -> (idx: Option<u32>)
        requires
            old(self).wf(),
        ensures
            final(self).wf(),
            idx == string_index(old(self).keys(), old(self).bytes(), s@),
            idx is Some && !old(self).keys().contains(s@) ==> {
                &&& final(self).keys() == old(self).keys().push(s@)
                &&& final(self).refs() == old(self).refs().push(
                    raw::String {
                        string_offset: old(self).bytes().len() as u32,
                        string_len: vstd::utf8::encode_utf8(s@).len() as u32,
                    },
                )
                &&& final(self).bytes() == old(self).bytes() + vstd::utf8::encode_utf8(s@)
            },
            idx is None || old(self).keys().contains(s@) ==> {
                &&& final(self).keys() == old(self).keys()
                &&& final(self).refs() == old(self).refs()
                &&& final(self).bytes() == old(self).bytes()
            },
            idx matches Some(i) ==> i < final(self).keys().len() && final(self).keys()[i as int]
                == s@,
    {
        let ghost entries = string_entries(self.map);
        match strings_get_index_of(&self.map, s) {
            Some(i) => {
                proof {
                    assert(self.keys()[i as int] == s@);
                    assert(self.keys().contains(s@));
                }
                Some(i as u32)
            },
            None => {
                proof {
                    if self.keys().contains(s@) {
                        let i = choose|i: int| 0 <= i < self.keys().len() && self.keys()[i] == s@;
                        assert(entries[i].0 == s@);
                    }
                }
                let bytes = s.as_bytes();
                let count: usize = strings_len(&self.map);
                let used: usize = self.bytes.len();
                if count >= raw::NO_INDEX as usize || bytes.len() > 0xffff_ffff - used {
                    return None;
                }
                let offset: u32 = used as u32;
                let len: u32 = bytes.len() as u32;
                append_bytes(&mut self.bytes, bytes);
                let r = strings_insert_full(&mut self.map, s.to_owned(), (offset, len));
                proof {
                    let after = string_entries(self.map);
                    assert(after == entries.push((s@, (offset, len))));
                    assert(self.keys() =~= old(self).keys().push(s@));
                    assert(self.refs() =~= old(self).refs().push(
                        raw::String { string_offset: offset, string_len: len },
                    ));
                    assert(self.keys().no_duplicates());
                    assert forall|i: int| 0 <= i < self.refs().len() implies {
                        &&& (#[trigger] self.refs()[i]).string_offset + self.refs()[i].string_len
                            <= self.bytes().len()
                        &&& self.bytes().subrange(
                            self.refs()[i].string_offset as int,
                            self.refs()[i].string_offset + self.refs()[i].string_len,
                        ) == vstd::utf8::encode_utf8(self.keys()[i])
                    } by {
                        if i < old(self).refs().len() {
                            let r = old(self).refs()[i];
                            assert(self.refs()[i] == r);
                            assert(self.bytes().subrange(
                                r.string_offset as int,
                                r.string_offset + r.string_len,
                            ) =~= old(self).bytes().subrange(
                                r.string_offset as int,
                                r.string_offset + r.string_len,
                            ));
                        } else {
                            assert(self.bytes().subrange(offset as int, offset + len) =~= bytes@);
                        }
                    }
                }
                Some(r.0 as u32)
            },
        }
    }
}

} // verus!
