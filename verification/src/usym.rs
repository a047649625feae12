//! The reader of usym files, which map the addresses of instructions to the
//! files and lines of managed code.
//!
//! A usym file is a header of seven 32-bit integers, then the source
//! records of 36 bytes each, then the strings. The integers are in the byte
//! order of the machine that wrote the file. A string is referred to by the
//! offset of its length among the strings: two bytes, low byte first, that
//! are followed by as many bytes of the string.

use crate::format::bytes::{native_order, read_u32, read_u64, u32_at, u64_at, ByteOrder};
use crate::format::cache::{address_of, is_multiple_of_eight};
use crate::format::lookup::str_from_utf8;
use vstd::prelude::*;

verus! {

/// The number of bytes of the header.
pub const HEADER_SIZE: usize = 28;

/// The number of bytes of a source record.
pub const RECORD_SIZE: usize = 36;

/// The version of the format that this reader knows.
pub const VERSION: u32 = 2;

/// Why a usym file cannot be read.
#[derive(Clone, Copy, Debug, PartialEq, Eq, Structural)]
pub enum UsymError {
    /// The buffer does not start at a multiple of eight bytes.
    NotAligned,
    /// The buffer is shorter than a header.
    HeaderTooSmall,
    /// The buffer does not start with the magic bytes.
    WrongMagic,
    /// The version is not the one this reader knows.
    UnknownVersion,
    /// The buffer is shorter than the records that the header announces.
    TooFewRecords,
    /// There is no string at the offset of the identifier.
    NoId,
    /// The identifier is not UTF-8.
    IdNotUtf8,
    /// There is no string at the offset of the name.
    NoName,
    /// The name is not UTF-8.
    NameNotUtf8,
    /// There is no string at the offset of the operating system.
    NoOs,
    /// The operating system is not UTF-8.
    OsNotUtf8,
    /// There is no string at the offset of the architecture.
    NoArch,
    /// The architecture is not UTF-8.
    ArchNotUtf8,
}

/// A source record with its strings.
#[derive(Debug, Clone)]
pub struct UsymSourceRecord {
    /// The address of the instruction, relative to the start of the assembly.
    pub address: u64,
    /// The name of the symbol in the managed code.
    pub symbol: String,
    /// The name of the file of the managed code.
    pub file: String,
    /// The line in the managed code.
    pub line: u32,
}

/// A usym file in a buffer of bytes.
pub struct UsymSymbols<'a> {
    data: &'a [u8],
    order: ByteOrder,
    record_count: usize,
    strings_at: usize,
    id: &'a str,
    name: &'a str,
    os: &'a str,
    arch: &'a str,
}

/// The characters that `String::from_utf8_lossy` makes of bytes: those that
/// the bytes encode, with the replacement character for what is not UTF-8.
pub uninterp spec fn lossy_chars(bytes: Seq<u8>) -> Seq<char>;

/// Calls `String::from_utf8_lossy` and makes the result an owned string. The
/// standard library documents that bytes that are valid UTF-8 are taken as
/// they are.
#[verifier::external_body]
fn string_from_utf8_lossy(bytes: &[u8]) -> (s: String)
    ensures
        s@ == lossy_chars(bytes@),
        vstd::utf8::valid_utf8(bytes@) ==> s@ == vstd::utf8::decode_utf8(bytes@),
{
    String::from_utf8_lossy(bytes).into_owned()
}

/// The bytes of the string whose length stands at `offset` among the
/// strings; none where the length or the string reaches beyond them.
pub open spec fn string_bytes_at(strings: Seq<u8>, offset: int) -> Option<Seq<u8>> {
    if 0 <= offset && offset + 2 <= strings.len() {
        let size = strings[offset] as int + 256 * (strings[offset + 1] as int);
        if offset + 2 + size <= strings.len() {
            Some(strings.subrange(offset + 2, offset + 2 + size))
        } else {
            None
        }
    } else {
        None
    }
}

/// The number of records that the header announces.
pub open spec fn record_count_in(bytes: Seq<u8>, order: ByteOrder) -> int {
    u32_at(bytes, 8, order) as int
}

/// Where the strings start.
pub open spec fn strings_start(bytes: Seq<u8>, order: ByteOrder) -> int {
    28 + 36 * record_count_in(bytes, order)
}

/// The strings of a file.
pub open spec fn strings_in(bytes: Seq<u8>, order: ByteOrder) -> Seq<u8> {
    bytes.subrange(strings_start(bytes, order), bytes.len() as int)
}

/// A source record as it stands in the file.
pub struct RawRecord {
    /// The address of the instruction.
    pub address: u64,
    /// The offset of the name of the symbol among the strings.
    pub symbol: u32,
    /// The offset of the name of the file among the strings.
    pub file: u32,
    /// The line.
    pub line: u32,
}

/// The source record with index `i`.
pub open spec fn record_in(bytes: Seq<u8>, order: ByteOrder, i: int) -> RawRecord {
    let at = 28 + 36 * i;
    RawRecord {
        address: u64_at(bytes, at, order),
        symbol: u32_at(bytes, at + 8, order),
        file: u32_at(bytes, at + 12, order),
        line: u32_at(bytes, at + 16, order),
    }
}

/// What reading the string of the header at `offset` comes to: the string,
/// or one of the two errors.
pub open spec fn header_string(
    bytes: Seq<u8>,
    order: ByteOrder,
    offset: u32,
    missing: UsymError,
    not_utf8: UsymError,
) -> Result<Seq<char>, UsymError> {
    match string_bytes_at(strings_in(bytes, order), offset as int) {
        None => Err(missing),
        Some(s) => if vstd::utf8::valid_utf8(s) {
            Ok(vstd::utf8::decode_utf8(s))
        } else {
            Err(not_utf8)
        },
    }
}

/// The first check that fails when `bytes` are read as a usym file in the
/// given byte order, if one does.
pub open spec fn parse_error(bytes: Seq<u8>, order: ByteOrder) -> Option<UsymError> {
    if bytes.len() < 28 {
        Some(UsymError::HeaderTooSmall)
    } else if bytes.subrange(0, 4) != seq![0x75u8, 0x73u8, 0x79u8, 0x6du8] {
        Some(UsymError::WrongMagic)
    } else if u32_at(bytes, 4, order) != VERSION {
        Some(UsymError::UnknownVersion)
    } else if bytes.len() < strings_start(bytes, order) {
        Some(UsymError::TooFewRecords)
    } else {
        match header_string(bytes, order, u32_at(bytes, 12, order), UsymError::NoId, UsymError::IdNotUtf8) {
            Err(e) => Some(e),
            Ok(_) => match header_string(
                bytes,
                order,
                u32_at(bytes, 16, order),
                UsymError::NoName,
                UsymError::NameNotUtf8,
            ) {
                Err(e) => Some(e),
                Ok(_) => match header_string(
                    bytes,
                    order,
                    u32_at(bytes, 20, order),
                    UsymError::NoOs,
                    UsymError::OsNotUtf8,
                ) {
                    Err(e) => Some(e),
                    Ok(_) => match header_string(
                        bytes,
                        order,
                        u32_at(bytes, 24, order),
                        UsymError::NoArch,
                        UsymError::ArchNotUtf8,
                    ) {
                        Err(e) => Some(e),
                        Ok(_) => None,
                    },
                },
            },
        }
    }
}

/// Reads the string whose length stands at `offset` among the strings that
/// start at `strings_at`.
fn string_slice<'a>(data: &'a [u8], strings_at: usize, offset: usize) -> (r: Option<&'a [u8]>)
    requires
        strings_at <= data@.len(),
    ensures
        match r {
            Some(s) => string_bytes_at(data@.subrange(strings_at as int, data@.len() as int), offset as int)
                == Some(s@),
            None => string_bytes_at(
                data@.subrange(strings_at as int, data@.len() as int),
                offset as int,
            ) is None,
        },
{
    let len: usize = data.len() - strings_at;
    if offset > len || len - offset < 2 {
        return None;
    }
    let at: usize = strings_at + offset;
    let size: usize = data[at] as usize + 256 * (data[at + 1] as usize);
    if len - offset - 2 < size {
        return None;
    }
    let s = vstd::slice::slice_subrange(data, at + 2, at + 2 + size);
    proof {
        let strings = data@.subrange(strings_at as int, data@.len() as int);
        assert(strings[offset as int] == data@[at as int]);
        assert(strings[offset + 1] == data@[at + 1]);
        assert(s@ =~= strings.subrange(offset + 2, offset + 2 + size));
    }
    Some(s)
}

impl<'a> UsymSymbols<'a> {
    #[verifier::type_invariant]
    spec fn inv(&self) -> bool {
        &&& parse_error(self.data@, self.order) is None
        &&& self.record_count == record_count_in(self.data@, self.order)
        &&& self.strings_at == strings_start(self.data@, self.order)
        &&& Ok::<Seq<char>, UsymError>(self.id@) == header_string(
            self.data@,
            self.order,
            u32_at(self.data@, 12, self.order),
            UsymError::NoId,
            UsymError::IdNotUtf8,
        )
        &&& Ok::<Seq<char>, UsymError>(self.name@) == header_string(
            self.data@,
            self.order,
            u32_at(self.data@, 16, self.order),
            UsymError::NoName,
            UsymError::NameNotUtf8,
        )
        &&& Ok::<Seq<char>, UsymError>(self.os@) == header_string(
            self.data@,
            self.order,
            u32_at(self.data@, 20, self.order),
            UsymError::NoOs,
            UsymError::OsNotUtf8,
        )
        &&& Ok::<Seq<char>, UsymError>(self.arch@) == header_string(
            self.data@,
            self.order,
            u32_at(self.data@, 24, self.order),
            UsymError::NoArch,
            UsymError::ArchNotUtf8,
        )
    }

    /// The bytes of the file.
    pub closed spec fn bytes(&self) -> Seq<u8> {
        self.data@
    }

    /// The byte order the file is read in.
    pub closed spec fn byte_order(&self) -> ByteOrder {
        self.order
    }

    /// The source records of the file.
    pub open spec fn records(&self) -> Seq<RawRecord> {
        Seq::new(
            record_count_in(self.bytes(), self.byte_order()) as nat,
            |i: int| record_in(self.bytes(), self.byte_order(), i),
        )
    }

    /// The strings of the file.
    pub open spec fn strings(&self) -> Seq<u8> {
        strings_in(self.bytes(), self.byte_order())
    }

    /// Reads a usym file in the byte order of this machine from a buffer
    /// that starts at a multiple of eight bytes.
    ///
    /// This is [`UsymSymbols::parse_at`] at the address at which the buffer
    /// lies, in the byte order of this machine: a buffer that does not start
    /// at a multiple of eight bytes is refused as [`UsymError::NotAligned`],
    /// and any other is read in one of the two orders.
    pub fn parse(buf: &'a [u8]) -> (r: Result<UsymSymbols<'a>, UsymError>)
        ensures
            match r {
                Ok(usyms) => usyms.bytes() == buf@ && parse_error(buf@, usyms.byte_order()) is None,
                Err(e) => e == UsymError::NotAligned || parse_error(buf@, ByteOrder::Little) == Some(e)
                    || parse_error(buf@, ByteOrder::Big) == Some(e),
            },
    {
        Self::parse_at(buf, address_of(buf), native_order())
    }

    /// Reads a usym file from a buffer that starts at the address `address`,
    /// in the given byte order.
    ///
    /// A buffer that does not start at a multiple of eight bytes is refused
    /// as [`UsymError::NotAligned`], whatever it holds; any other buffer is
    /// read as [`UsymSymbols::parse_with_byte_order`] reads it.
    pub fn parse_at(buf: &'a [u8], address: usize, order: ByteOrder) -> (r: Result<
        UsymSymbols<'a>,
        UsymError,
    >)
        ensures
            address % 8 != 0 ==> r == Err::<UsymSymbols<'a>, UsymError>(UsymError::NotAligned),
            address % 8 == 0 ==> match r {
                Ok(usyms) => {
                    &&& parse_error(buf@, order) is None
                    &&& usyms.bytes() == buf@
                    &&& usyms.byte_order() == order
                },
                Err(e) => parse_error(buf@, order) == Some(e),
            },
    {
        if !is_multiple_of_eight(address) {
            return Err(UsymError::NotAligned);
        }
        Self::parse_with_byte_order(buf, order)
    }

    /// Reads a usym file that was written in the given byte order.
    pub fn parse_with_byte_order(buf: &'a [u8], order: ByteOrder) -> (r: Result<
        UsymSymbols<'a>,
        UsymError,
    >)
        ensures
            match r {
                Ok(usyms) => {
                    &&& parse_error(buf@, order) is None
                    &&& usyms.bytes() == buf@
                    &&& usyms.byte_order() == order
                },
                Err(e) => parse_error(buf@, order) == Some(e),
            },
    {
        if buf.len() < HEADER_SIZE {
            return Err(UsymError::HeaderTooSmall);
        }
        if !(buf[0] == 0x75 && buf[1] == 0x73 && buf[2] == 0x79 && buf[3] == 0x6d) {
            assert(buf@.subrange(0, 4)[0] == buf@[0]);
            assert(buf@.subrange(0, 4)[1] == buf@[1]);
            assert(buf@.subrange(0, 4)[2] == buf@[2]);
            assert(buf@.subrange(0, 4)[3] == buf@[3]);
            return Err(UsymError::WrongMagic);
        }
        assert(buf@.subrange(0, 4) =~= seq![0x75u8, 0x73u8, 0x79u8, 0x6du8]);
        if read_u32(buf, 4, order) != VERSION {
            return Err(UsymError::UnknownVersion);
        }
        let count: u64 = read_u32(buf, 8, order) as u64;
        let strings_at: u64 = 28 + 36 * count;
        if (buf.len() as u64) < strings_at {
            return Err(UsymError::TooFewRecords);
        }
        let strings_at: usize = strings_at as usize;
        let id = match Self::read_header_string(buf, strings_at, read_u32(buf, 12, order)) {
            None => {
                return Err(UsymError::NoId);
            },
            Some(None) => {
                return Err(UsymError::IdNotUtf8);
            },
            Some(Some(s)) => s,
        };
        let name = match Self::read_header_string(buf, strings_at, read_u32(buf, 16, order)) {
            None => {
                return Err(UsymError::NoName);
            },
            Some(None) => {
                return Err(UsymError::NameNotUtf8);
            },
            Some(Some(s)) => s,
        };
        let os = match Self::read_header_string(buf, strings_at, read_u32(buf, 20, order)) {
            None => {
                return Err(UsymError::NoOs);
            },
            Some(None) => {
                return Err(UsymError::OsNotUtf8);
            },
            Some(Some(s)) => s,
        };
        let arch = match Self::read_header_string(buf, strings_at, read_u32(buf, 24, order)) {
            None => {
                return Err(UsymError::NoArch);
            },
            Some(None) => {
                return Err(UsymError::ArchNotUtf8);
            },
            Some(Some(s)) => s,
        };
        Ok(UsymSymbols { data: buf, order, record_count: count as usize, strings_at, id, name, os, arch })
    }

    /// Reads a string of the header: none where there is no string at the
    /// offset, and none within where the string is not UTF-8.
    fn read_header_string(buf: &'a [u8], strings_at: usize, offset: u32) -> (r: Option<Option<&'a str>>)
        requires
            strings_at <= buf@.len(),
        ensures
            match r {
                None => string_bytes_at(
                    buf@.subrange(strings_at as int, buf@.len() as int),
                    offset as int,
                ) is None,
                Some(None) => string_bytes_at(
                    buf@.subrange(strings_at as int, buf@.len() as int),
                    offset as int,
                ) matches Some(s) && !vstd::utf8::valid_utf8(s),
                Some(Some(string)) => string_bytes_at(
                    buf@.subrange(strings_at as int, buf@.len() as int),
                    offset as int,
                ) matches Some(s) && vstd::utf8::valid_utf8(s) && string@
                    == vstd::utf8::decode_utf8(s),
            },
    {
        match string_slice(buf, strings_at, offset as usize) {
            None => None,
            Some(bytes) => match str_from_utf8(bytes) {
                Ok(string) => {
                    proof {
                        vstd::utf8::encode_utf8_decode_utf8(string@);
                    }
                    Some(Some(string))
                },
                Err(_) => Some(None),
            },
        }
    }

    /// The version of the format that the file was written in.
    pub fn version(&self) -> (version: u32)
        ensures
            version == VERSION,
    {
        proof {
            use_type_invariant(self);
        }
        read_u32(self.data, 4, self.order)
    }

    /// The string whose length stands at `offset` among the strings, with
    /// the replacement character for what is not UTF-8.
    pub fn get_string(&self, offset: usize) -> (r: Option<String>)
        ensures
            match string_bytes_at(self.strings(), offset as int) {
                Some(bytes) => r matches Some(s) && s@ == lossy_chars(bytes),
                None => r is None,
            },
    {
        proof {
            use_type_invariant(self);
        }
        Self::get_string_from_offset(self.data, self.strings_at, offset)
    }

    /// The string whose length stands at `offset` among the strings, which
    /// start at `strings_at` in `data`.
    pub fn get_string_from_offset(data: &[u8], strings_at: usize, offset: usize) -> (r: Option<String>)
        requires
            strings_at <= data@.len(),
        ensures
            match string_bytes_at(data@.subrange(strings_at as int, data@.len() as int), offset as int) {
                Some(bytes) => r matches Some(s) && s@ == lossy_chars(bytes),
                None => r is None,
            },
    {
        match string_slice(data, strings_at, offset) {
            Some(bytes) => Some(string_from_utf8_lossy(bytes)),
            None => None,
        }
    }

    /// The identifier of the assembly.
    pub fn id(&self) -> (id: &'a str)
        ensures
            Ok::<Seq<char>, UsymError>(id@) == header_string(
                self.bytes(),
                self.byte_order(),
                u32_at(self.bytes(), 12, self.byte_order()),
                UsymError::NoId,
                UsymError::IdNotUtf8,
            ),
    {
        proof {
            use_type_invariant(self);
        }
        self.id
    }

    /// The name of the assembly.
    pub fn name(&self) -> (name: &'a str)
        ensures
            Ok::<Seq<char>, UsymError>(name@) == header_string(
                self.bytes(),
                self.byte_order(),
                u32_at(self.bytes(), 16, self.byte_order()),
                UsymError::NoName,
                UsymError::NameNotUtf8,
            ),
    {
        proof {
            use_type_invariant(self);
        }
        self.name
    }

    /// The name of the operating system.
    pub fn os(&self) -> (os: &'a str)
        ensures
            Ok::<Seq<char>, UsymError>(os@) == header_string(
                self.bytes(),
                self.byte_order(),
                u32_at(self.bytes(), 20, self.byte_order()),
                UsymError::NoOs,
                UsymError::OsNotUtf8,
            ),
    {
        proof {
            use_type_invariant(self);
        }
        self.os
    }

    /// The name of the architecture.
    pub fn arch(&self) -> (arch: &'a str)
        ensures
            Ok::<Seq<char>, UsymError>(arch@) == header_string(
                self.bytes(),
                self.byte_order(),
                u32_at(self.bytes(), 24, self.byte_order()),
                UsymError::NoArch,
                UsymError::ArchNotUtf8,
            ),
    {
        proof {
            use_type_invariant(self);
        }
        self.arch
    }

    /// The number of source records.
    pub fn record_count(&self) -> (n: usize)
        ensures
            n == self.records().len(),
    {
        proof {
            use_type_invariant(self);
        }
        self.record_count
    }

    /// The address of the source record with index `index`.
    pub fn record_address(&self, index: usize) -> (address: u64)
        requires
            index < self.records().len(),
        ensures
            address == self.records()[index as int].address,
    {
        proof {
            use_type_invariant(self);
        }
        read_u64(self.data, 28 + 36 * index, self.order)
    }

    /// The source record with index `index`: none where there is no such
    /// record, or no string at the offset of its symbol or of its file.
    pub fn get_record(&self, index: usize) -> (r: Option<UsymSourceRecord>)
        ensures
            is_record(r, self.records(), self.strings(), index as int),
    {
        proof {
            use_type_invariant(self);
        }
        if index >= self.record_count {
            return None;
        }
        let at: usize = 28 + 36 * index;
        let address: u64 = read_u64(self.data, at, self.order);
        let symbol_at: u32 = read_u32(self.data, at + 8, self.order);
        let file_at: u32 = read_u32(self.data, at + 12, self.order);
        let line: u32 = read_u32(self.data, at + 16, self.order);
        let symbol = match self.get_string(symbol_at as usize) {
            Some(symbol) => symbol,
            None => {
                return None;
            },
        };
        let file = match self.get_string(file_at as usize) {
            Some(file) => file,
            None => {
                return None;
            },
        };
        Some(UsymSourceRecord { address, symbol, file, line })
    }

    /// Looks up the source record of an address: that of a record that
    /// starts at or before it while the record behind it, if there is one,
    /// starts behind it. None where the address lies before the first
    /// record.
    pub fn lookup_source_record(&self, ip: u64) -> (r: Option<UsymSourceRecord>)
        ensures
            is_lookup(r, self.records(), self.strings(), ip),
    {
        let count: usize = self.record_count();
        let mut lo: usize = 0;
        let mut hi: usize = count;
        while lo < hi
            invariant
                lo <= hi <= count,
                count == self.records().len(),
                lo > 0 ==> self.records()[lo - 1].address <= ip,
                hi < count ==> ip < self.records()[hi as int].address,
            decreases hi - lo,
        {
            let mid: usize = lo + (hi - lo) / 2;
            if self.record_address(mid) <= ip {
                lo = mid + 1;
            } else {
                hi = mid;
            }
        }
        if lo == 0 {
            None
        } else {
            let r = self.get_record(lo - 1);
            assert(holds(self.records(), lo - 1, ip));
            r
        }
    }
}

/// Whether `r` is the source record with index `index`.
pub open spec fn is_record(
    r: Option<UsymSourceRecord>,
    records: Seq<RawRecord>,
    strings: Seq<u8>,
    index: int,
) -> bool {
    if 0 <= index < records.len() {
        match (
            string_bytes_at(strings, records[index].symbol as int),
            string_bytes_at(strings, records[index].file as int),
        ) {
            (Some(symbol), Some(file)) => {
                &&& r matches Some(record)
                &&& record.address == records[index].address
                &&& record.symbol@ == lossy_chars(symbol)
                &&& record.file@ == lossy_chars(file)
                &&& record.line == records[index].line
            },
            _ => r is None,
        }
    } else {
        r is None
    }
}

/// The record with index `i` starts at or before `ip`, and the record behind
/// it, if there is one, starts behind `ip`.
pub open spec fn holds(records: Seq<RawRecord>, i: int, ip: u64) -> bool {
    &&& 0 <= i < records.len()
    &&& records[i].address <= ip
    &&& i + 1 < records.len() ==> ip < records[i + 1].address
}

/// Whether `r` is what a lookup of `ip` gives.
pub open spec fn is_lookup(
    r: Option<UsymSourceRecord>,
    records: Seq<RawRecord>,
    strings: Seq<u8>,
    ip: u64,
) -> bool {
    ||| (records.len() == 0 || ip < records[0].address) && r is None
    ||| exists|i: int| #[trigger] holds(records, i, ip) && is_record(r, records, strings, i)
}

} // verus!
