//! Taking in the compilation units of DWARF debug information.
//!
//! The units come as plain values: the rows of the line program, the files
//! of its header, and the debugging information entries with the attributes
//! and address ranges that matter here.

pub mod line_program;
pub mod unit;

use vstd::prelude::*;

verus! {

/// What kind of entry a debugging information entry is.
#[derive(Clone, Copy, Debug, PartialEq, Eq, Structural)]
pub enum DieTag {
    /// A function.
    Subprogram,
    /// A call of a function that was inlined at the place of the call.
    InlinedSubroutine,
    /// Any other entry.
    Other,
}

/// The attributes that matter here.
#[derive(Clone, Copy, Debug, PartialEq, Eq, Structural)]
pub enum AttributeName {
    /// The name of an entry.
    Name,
    /// The name of a function as the linker knows it.
    LinkageName,
    /// The address of the first instruction of a function.
    EntryPc,
    /// The file an inlined function was called from.
    CallFile,
    /// The line an inlined function was called from.
    CallLine,
    /// The entry that describes the function that was inlined.
    AbstractOrigin,
    /// The language of a compilation unit.
    Language,
    /// Any other attribute.
    Other,
}

/// The value of an attribute.
pub enum AttributeValue {
    /// An index into the files of the line program.
    FileIndex(u64),
    /// The offset of another entry of the same unit.
    UnitRef(u64),
    /// An unsigned number.
    Udata(u64),
    /// An address.
    Address(u64),
    /// A string.
    Text(String),
    /// Any other value.
    Other,
}

/// An attribute of a debugging information entry.
pub struct Attribute {
    /// Which attribute it is.
    pub name: AttributeName,
    /// Its value.
    pub value: AttributeValue,
}

/// The addresses from `begin` up to, but without, `end`.
#[derive(Clone, Copy, Debug, PartialEq, Eq, Structural)]
pub struct AddressRange {
    /// The first address.
    pub begin: u64,
    /// The address behind the last.
    pub end: u64,
}

/// A debugging information entry.
pub struct Die {
    /// The offset of the entry in its unit, by which other entries refer to
    /// it.
    pub offset: u64,
    /// What kind of entry it is.
    pub tag: DieTag,
    /// Its attributes, in the order in which they stand.
    pub attributes: Vec<Attribute>,
    /// The addresses of its instructions.
    pub ranges: Vec<AddressRange>,
}

/// A file of the header of a line program.
pub struct FileEntry {
    /// The index of the directory among the directories of the header; zero
    /// stands for the compilation directory.
    pub directory_index: u64,
    /// The directory, where the header has one at that index.
    pub directory: Option<String>,
    /// The path name.
    pub path_name: String,
}

/// A row of a line program as the line program states it.
#[derive(Clone, Copy, Debug, PartialEq, Eq, Structural)]
pub struct LineRow {
    /// The address of the instruction.
    pub address: u64,
    /// The index of the file.
    pub file_index: u64,
    /// The line, or zero where the row has none.
    pub line: u64,
    /// Whether the row ends a sequence.
    pub end_sequence: bool,
}

/// A compilation unit.
pub struct CompilationUnit {
    /// The attributes of the root entry.
    pub root: Vec<Attribute>,
    /// The compilation directory.
    pub comp_dir: Option<String>,
    /// The files of the header of the line program, each at its index; `None`
    /// at an index that the header has no file for.
    pub files: Vec<Option<FileEntry>>,
    /// The rows of the line program, in the order in which it states them;
    /// `None` where the unit has no line program.
    pub rows: Option<Vec<LineRow>>,
    /// The entries, parents before their children.
    pub dies: Vec<Die>,
    /// Whether the unit was read to its end. Of a unit that was not, what
    /// is here is taken in, and its ranges are dropped.
    pub complete: bool,
}

/// An error in the debug information of a compilation unit.
#[derive(Clone, Copy, Debug, PartialEq, Eq, Structural)]
pub enum DwarfError {
    /// An attribute refers to the entry at this offset, and the unit has no
    /// entry there.
    MissingEntry(u64),
}

/// The number that the attribute `attr` gives for the attribute `name`, if
/// it is that attribute and its value is a number.
pub open spec fn number_of(attr: Attribute, name: AttributeName) -> Option<u64> {
    if attr.name == name {
        match attr.value {
            AttributeValue::Udata(v) => Some(v),
            _ => None,
        }
    } else {
        None
    }
}

/// The language tag that the attributes of a root entry give: that of the
/// last `Language` attribute whose value is a number of sixteen bits.
pub open spec fn language_of(attrs: Seq<Attribute>) -> Option<u16>
    decreases attrs.len(),
{
    if attrs.len() == 0 {
        None
    } else {
        match number_of(attrs.last(), AttributeName::Language) {
            Some(v) => if v <= 0xffff {
                Some(v as u16)
            } else {
                language_of(attrs.drop_last())
            },
            None => language_of(attrs.drop_last()),
        }
    }
}

/// Finds the language of a compilation unit among the attributes of its
/// root entry.
pub fn find_cu_lang(root: &Vec<Attribute>) -> (lang: Option<u16>)
    ensures
        lang == language_of(root@),
{
    let mut lang: Option<u16> = None;
    let mut i: usize = 0;
    while i < root.len()
        invariant
            i <= root@.len(),
            lang == language_of(root@.subrange(0, i as int)),
        decreases root@.len() - i,
    {
        proof {
            let next = root@.subrange(0, i + 1);
            assert(next.drop_last() =~= root@.subrange(0, i as int));
            assert(next.last() == root@[i as int]);
        }
        let attr = &root[i];
        if attr.name == AttributeName::Language {
            match attr.value {
                AttributeValue::Udata(v) => {
                    if v <= 0xffff {
                        lang = Some(v as u16);
                    }
                },
                _ => {},
            }
        }
        i = i + 1;
    }
    assert(root@.subrange(0, i as int) =~= root@);
    lang
}

/// Where an entry names the attribute `name` with a string as its value:
/// the index of the last such attribute.
pub open spec fn text_position(attrs: Seq<Attribute>, name: AttributeName) -> Option<int>
    decreases attrs.len(),
{
    if attrs.len() == 0 {
        None
    } else if attrs.last().name == name && attrs.last().value is Text {
        Some(attrs.len() - 1)
    } else {
        text_position(attrs.drop_last(), name)
    }
}

/// The address that the last `EntryPc` attribute with a number or an address
/// as its value gives.
pub open spec fn entry_pc_of(attrs: Seq<Attribute>) -> Option<u64>
    decreases attrs.len(),
{
    if attrs.len() == 0 {
        None
    } else if attrs.last().name == AttributeName::EntryPc {
        match attrs.last().value {
            AttributeValue::Udata(v) => Some(v),
            AttributeValue::Address(v) => Some(v),
            _ => entry_pc_of(attrs.drop_last()),
        }
    } else {
        entry_pc_of(attrs.drop_last())
    }
}

/// Where the name of a function stands among its attributes: the linkage
/// name where there is one, and else the name.
pub open spec fn function_name_position(attrs: Seq<Attribute>) -> Option<int> {
    match text_position(attrs, AttributeName::LinkageName) {
        Some(i) => Some(i),
        None => text_position(attrs, AttributeName::Name),
    }
}

/// The name of a function.
pub open spec fn function_name_of(attrs: Seq<Attribute>) -> Option<Seq<char>> {
    match function_name_position(attrs) {
        Some(i) => Some(attrs[i].value->Text_0@),
        None => None,
    }
}

/// What the attributes of an entry say of the function it describes.
pub struct FunctionInfo<'a> {
    /// The name: the linkage name where there is one, and else the name.
    pub name: Option<&'a str>,
    /// The address of the first instruction, where an attribute gives it.
    pub entry_pc: Option<u64>,
}

/// Finds the name and the entry address of a function among its attributes.
pub fn find_function_info<'a>(attrs: &'a Vec<Attribute>) -> (info: FunctionInfo<'a>)
    ensures
        crate::converter::option_chars(info.name) == function_name_of(attrs@),
        info.entry_pc == entry_pc_of(attrs@),
{
    let mut name: Option<&'a str> = None;
    let mut linkage_name: Option<&'a str> = None;
    let mut entry_pc: Option<u64> = None;
    let ghost mut name_at: Option<int> = None;
    let ghost mut linkage_at: Option<int> = None;
    let mut i: usize = 0;
    while i < attrs.len()
        invariant
            i <= attrs@.len(),
            name_at == text_position(attrs@.subrange(0, i as int), AttributeName::Name),
            linkage_at == text_position(attrs@.subrange(0, i as int), AttributeName::LinkageName),
            entry_pc == entry_pc_of(attrs@.subrange(0, i as int)),
            match name_at {
                Some(k) => 0 <= k < i && attrs@[k].value is Text && name is Some && name->0@
                    == attrs@[k].value->Text_0@,
                None => name is None,
            },
            match linkage_at {
                Some(k) => 0 <= k < i && attrs@[k].value is Text && linkage_name is Some
                    && linkage_name->0@ == attrs@[k].value->Text_0@,
                None => linkage_name is None,
            },
        decreases attrs@.len() - i,
    {
        proof {
            let next = attrs@.subrange(0, i + 1);
            assert(next.drop_last() =~= attrs@.subrange(0, i as int));
            assert(next.last() == attrs@[i as int]);
        }
        let attr = &attrs[i];
        match attr.name {
            AttributeName::Name => {
                match &attr.value {
                    AttributeValue::Text(s) => {
                        name = Some(s.as_str());
                        proof {
                            name_at = Some(i as int);
                        }
                    },
                    _ => {},
                }
            },
            AttributeName::LinkageName => {
                match &attr.value {
                    AttributeValue::Text(s) => {
                        linkage_name = Some(s.as_str());
                        proof {
                            linkage_at = Some(i as int);
                        }
                    },
                    _ => {},
                }
            },
            AttributeName::EntryPc => {
                match &attr.value {
                    AttributeValue::Udata(v) => {
                        entry_pc = Some(*v);
                    },
                    AttributeValue::Address(v) => {
                        entry_pc = Some(*v);
                    },
                    _ => {},
                }
            },
            _ => {},
        }
        i = i + 1;
    }
    assert(attrs@.subrange(0, i as int) =~= attrs@);
    let chosen: Option<&'a str> = match linkage_name {
        Some(s) => Some(s),
        None => name,
    };
    FunctionInfo { name: chosen, entry_pc }
}

/// What the attributes of an inlined call say of the call.
#[derive(Clone, Copy, Debug, PartialEq, Eq, Structural)]
pub struct CallerInfo {
    /// The index of the file the function was called from.
    pub call_file: u64,
    /// The line the function was called from.
    pub call_line: u32,
    /// The offset of the entry that describes the function.
    pub abstract_origin: u64,
}

/// The file index that the last `CallFile` attribute with a file index as
/// its value gives.
pub open spec fn call_file_of(attrs: Seq<Attribute>) -> Option<u64>
    decreases attrs.len(),
{
    if attrs.len() == 0 {
        None
    } else if attrs.last().name == AttributeName::CallFile {
        match attrs.last().value {
            AttributeValue::FileIndex(v) => Some(v),
            _ => call_file_of(attrs.drop_last()),
        }
    } else {
        call_file_of(attrs.drop_last())
    }
}

/// The line that the last `CallLine` attribute with a number as its value
/// gives, cut to 32 bits.
pub open spec fn call_line_of(attrs: Seq<Attribute>) -> Option<u32>
    decreases attrs.len(),
{
    if attrs.len() == 0 {
        None
    } else {
        match number_of(attrs.last(), AttributeName::CallLine) {
            Some(v) => Some((v % 0x1_0000_0000) as u32),
            None => call_line_of(attrs.drop_last()),
        }
    }
}

/// The offset that the last `AbstractOrigin` attribute with a reference as
/// its value gives.
pub open spec fn abstract_origin_of(attrs: Seq<Attribute>) -> Option<u64>
    decreases attrs.len(),
{
    if attrs.len() == 0 {
        None
    } else if attrs.last().name == AttributeName::AbstractOrigin {
        match attrs.last().value {
            AttributeValue::UnitRef(v) => Some(v),
            _ => abstract_origin_of(attrs.drop_last()),
        }
    } else {
        abstract_origin_of(attrs.drop_last())
    }
}

/// What the attributes say of an inlined call: known only where the file,
/// the line and the function are all given.
pub open spec fn caller_info_of(attrs: Seq<Attribute>) -> Option<CallerInfo> {
    match (call_file_of(attrs), call_line_of(attrs), abstract_origin_of(attrs)) {
        (Some(call_file), Some(call_line), Some(abstract_origin)) => Some(
            CallerInfo { call_file, call_line, abstract_origin },
        ),
        _ => None,
    }
}

/// Finds the place of the call and the function among the attributes of an
/// inlined call.
pub fn find_caller_info(attrs: &Vec<Attribute>) -> (info: Option<CallerInfo>)
    ensures
        info == caller_info_of(attrs@),
{
    let mut call_file: Option<u64> = None;
    let mut call_line: Option<u32> = None;
    let mut abstract_origin: Option<u64> = None;
    let mut i: usize = 0;
    while i < attrs.len()
        invariant
            i <= attrs@.len(),
            call_file == call_file_of(attrs@.subrange(0, i as int)),
            call_line == call_line_of(attrs@.subrange(0, i as int)),
            abstract_origin == abstract_origin_of(attrs@.subrange(0, i as int)),
        decreases attrs@.len() - i,
    {
        proof {
            let next = attrs@.subrange(0, i + 1);
            assert(next.drop_last() =~= attrs@.subrange(0, i as int));
            assert(next.last() == attrs@[i as int]);
        }
        let attr = &attrs[i];
        match attr.name {
            AttributeName::CallFile => {
                match &attr.value {
                    AttributeValue::FileIndex(v) => {
                        call_file = Some(*v);
                    },
                    _ => {},
                }
            },
            AttributeName::CallLine => {
                match &attr.value {
                    AttributeValue::Udata(v) => {
                        call_line = Some((*v % 0x1_0000_0000) as u32);
                    },
                    _ => {},
                }
            },
            AttributeName::AbstractOrigin => {
                match &attr.value {
                    AttributeValue::UnitRef(v) => {
                        abstract_origin = Some(*v);
                    },
                    _ => {},
                }
            },
            _ => {},
        }
        i = i + 1;
    }
    assert(attrs@.subrange(0, i as int) =~= attrs@);
    match (call_file, call_line, abstract_origin) {
        (Some(call_file), Some(call_line), Some(abstract_origin)) => Some(
            CallerInfo { call_file, call_line, abstract_origin },
        ),
        _ => None,
    }
}

} // verus!
