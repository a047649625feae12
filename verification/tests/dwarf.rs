use symcache::converter::dwarf::line_program::{parse_line_program, LineProgramRow};
use symcache::converter::dwarf::unit::ReusableCaches;
use symcache::converter::dwarf::{
    find_caller_info, find_cu_lang, find_function_info, AddressRange, Attribute, AttributeName,
    AttributeValue, CallerInfo, CompilationUnit, Die, DieTag, DwarfError, FileEntry, LineRow,
};
use symcache::converter::Converter;
use symcache::format::bytes::ByteOrder;
use symcache::format::cache::SymCache;
use symcache::lookups::{resolve_lookup, ResolvedFrame};

fn frame(function: &str, file: &str, line: u32) -> ResolvedFrame {
    ResolvedFrame {
        function: function.to_string(),
        file: file.to_string(),
        line,
    }
}

fn attr(name: AttributeName, value: AttributeValue) -> Attribute {
    Attribute { name, value }
}

fn text(s: &str) -> AttributeValue {
    AttributeValue::Text(s.to_string())
}

fn row(address: u64, file_index: u64, line: u64) -> LineRow {
    LineRow {
        address,
        file_index,
        line,
        end_sequence: false,
    }
}

fn end(address: u64) -> LineRow {
    LineRow {
        address,
        file_index: 0,
        line: 0,
        end_sequence: true,
    }
}

fn file(path_name: &str) -> Option<FileEntry> {
    Some(FileEntry {
        directory_index: 0,
        directory: None,
        path_name: path_name.to_string(),
    })
}

fn range(begin: u64, end: u64) -> AddressRange {
    AddressRange { begin, end }
}

fn lookup_all(units: &Vec<CompilationUnit>, addrs: &[u64]) -> Vec<Vec<ResolvedFrame>> {
    let mut converter = Converter::new();
    let mut errors: Vec<DwarfError> = Vec::new();
    converter.process_dwarf(units, &mut errors);
    assert!(errors.is_empty());
    let mut buffer = Vec::new();
    converter.serialize_with_byte_order(&mut buffer, ByteOrder::Little);
    let cache = SymCache::parse_with_byte_order(&buffer, ByteOrder::Little).unwrap();
    addrs
        .iter()
        .map(|addr| resolve_lookup(&cache, *addr).unwrap())
        .collect()
}

fn inlined_unit() -> CompilationUnit {
    CompilationUnit {
        root: vec![attr(AttributeName::Language, AttributeValue::Udata(0x1c))],
        complete: true,
        comp_dir: Some("/src".to_string()),
        files: vec![None, file("caller.c"), file("callee.c")],
        rows: Some(vec![
            row(0x1000, 1, 10),
            row(0x1040, 2, 3),
            row(0x1080, 1, 18),
            end(0x1100),
        ]),
        dies: vec![
            Die {
                offset: 0x10,
                tag: DieTag::Subprogram,
                attributes: vec![attr(AttributeName::Name, text("caller"))],
                ranges: vec![range(0x1000, 0x1100)],
            },
            Die {
                offset: 0x20,
                tag: DieTag::InlinedSubroutine,
                attributes: vec![
                    attr(AttributeName::AbstractOrigin, AttributeValue::UnitRef(0x30)),
                    attr(AttributeName::CallFile, AttributeValue::FileIndex(1)),
                    attr(AttributeName::CallLine, AttributeValue::Udata(17)),
                ],
                ranges: vec![range(0x1040, 0x1080)],
            },
            Die {
                offset: 0x30,
                tag: DieTag::Subprogram,
                attributes: vec![
                    attr(AttributeName::Name, text("callee")),
                    attr(AttributeName::LinkageName, text("_Z6calleev")),
                ],
                ranges: vec![],
            },
        ],
    }
}

#[test]
fn inlined_call_chain() {
    let frames = lookup_all(&vec![inlined_unit()], &[0x1050, 0x1000, 0x1080, 0x10ff, 0xfff]);
    assert_eq!(
        frames[0],
        vec![
            frame("_Z6calleev", "/src/callee.c", 3),
            frame("caller", "/src/caller.c", 17)
        ]
    );
    assert_eq!(frames[1], vec![frame("caller", "/src/caller.c", 10)]);
    assert_eq!(frames[2], vec![frame("caller", "/src/caller.c", 18)]);
    assert_eq!(frames[3], vec![frame("caller", "/src/caller.c", 18)]);
    assert_eq!(frames[4], vec![]);
}

#[test]
fn two_levels_of_inlining() {
    let mut unit = inlined_unit();
    unit.files.push(file("inner.c"));
    unit.rows = Some(vec![
        row(0x1000, 1, 10),
        row(0x1040, 2, 3),
        row(0x1050, 3, 7),
        row(0x1060, 2, 4),
        row(0x1080, 1, 18),
        end(0x1100),
    ]);
    unit.dies.insert(
        2,
        Die {
            offset: 0x28,
            tag: DieTag::InlinedSubroutine,
            attributes: vec![
                attr(AttributeName::AbstractOrigin, AttributeValue::UnitRef(0x40)),
                attr(AttributeName::CallFile, AttributeValue::FileIndex(2)),
                attr(AttributeName::CallLine, AttributeValue::Udata(5)),
            ],
            ranges: vec![range(0x1050, 0x1060)],
        },
    );
    unit.dies.push(Die {
        offset: 0x40,
        tag: DieTag::Subprogram,
        attributes: vec![attr(AttributeName::Name, text("inner"))],
        ranges: vec![],
    });
    let frames = lookup_all(&vec![unit], &[0x1058, 0x1048, 0x1060]);
    assert_eq!(
        frames[0],
        vec![
            frame("inner", "/src/inner.c", 7),
            frame("_Z6calleev", "/src/callee.c", 5),
            frame("caller", "/src/caller.c", 17)
        ]
    );
    assert_eq!(
        frames[1],
        vec![
            frame("_Z6calleev", "/src/callee.c", 3),
            frame("caller", "/src/caller.c", 17)
        ]
    );
    assert_eq!(
        frames[2],
        vec![
            frame("_Z6calleev", "/src/callee.c", 4),
            frame("caller", "/src/caller.c", 17)
        ]
    );
}

#[test]
fn a_function_that_starts_before_its_first_line() {
    let unit = CompilationUnit {
        root: vec![],
        complete: true,
        comp_dir: None,
        files: vec![None, file("a.c")],
        rows: Some(vec![row(0x2010, 1, 4), end(0x2020)]),
        dies: vec![Die {
            offset: 1,
            tag: DieTag::Subprogram,
            attributes: vec![attr(AttributeName::Name, text("f"))],
            ranges: vec![range(0x2000, 0x2020)],
        }],
    };
    let frames = lookup_all(&vec![unit], &[0x2000, 0x200f, 0x2010, 0x1fff]);
    assert_eq!(frames[0], vec![frame("f", "", 0)]);
    assert_eq!(frames[1], vec![frame("f", "", 0)]);
    assert_eq!(frames[2], vec![frame("f", "a.c", 4)]);
    assert_eq!(frames[3], vec![]);
}

#[test]
fn the_entry_pc_attribute_is_preferred_to_the_lowest_address() {
    let unit = CompilationUnit {
        root: vec![],
        complete: true,
        comp_dir: None,
        files: vec![None, file("a.c")],
        rows: Some(vec![row(0x3000, 1, 1), row(0x3010, 1, 2), end(0x3020)]),
        dies: vec![Die {
            offset: 1,
            tag: DieTag::Subprogram,
            attributes: vec![
                attr(AttributeName::Name, text("f")),
                attr(AttributeName::EntryPc, AttributeValue::Address(0x3008)),
            ],
            ranges: vec![range(0x3010, 0x3020), range(0x3000, 0x3010)],
        }],
    };
    let mut converter = Converter::new();
    let mut errors: Vec<DwarfError> = Vec::new();
    converter.process_dwarf(&vec![unit], &mut errors);
    assert_eq!(converter.function(0).unwrap().entry_pc, 0x3008);
    let mut buffer = Vec::new();
    converter.serialize_with_byte_order(&mut buffer, ByteOrder::Little);
    let cache = SymCache::parse_with_byte_order(&buffer, ByteOrder::Little).unwrap();
    assert_eq!(resolve_lookup(&cache, 0x3007).unwrap(), vec![frame("f", "a.c", 1)]);
    assert_eq!(resolve_lookup(&cache, 0x3008).unwrap(), vec![frame("f", "", 0)]);
    assert_eq!(resolve_lookup(&cache, 0x3010).unwrap(), vec![frame("f", "a.c", 2)]);
}

#[test]
fn a_row_at_the_end_of_a_range_belongs_to_the_next_function() {
    let unit = CompilationUnit {
        root: vec![],
        complete: true,
        comp_dir: None,
        files: vec![None, file("a.c")],
        rows: Some(vec![row(0x100, 1, 1), row(0x110, 1, 2), end(0x120)]),
        dies: vec![
            Die {
                offset: 1,
                tag: DieTag::Subprogram,
                attributes: vec![attr(AttributeName::Name, text("f"))],
                ranges: vec![range(0x100, 0x110)],
            },
            Die {
                offset: 2,
                tag: DieTag::Subprogram,
                attributes: vec![attr(AttributeName::Name, text("g"))],
                ranges: vec![range(0x110, 0x120)],
            },
        ],
    };
    let frames = lookup_all(&vec![unit], &[0x10f, 0x110]);
    assert_eq!(frames[0], vec![frame("f", "a.c", 1)]);
    assert_eq!(frames[1], vec![frame("g", "a.c", 2)]);
}

#[test]
fn a_missing_origin_stops_the_unit_and_not_the_next() {
    let mut broken = inlined_unit();
    broken.dies.pop();
    let good = CompilationUnit {
        root: vec![],
        complete: true,
        comp_dir: None,
        files: vec![None, file("b.c")],
        rows: Some(vec![row(0x5000, 1, 1), end(0x5010)]),
        dies: vec![Die {
            offset: 1,
            tag: DieTag::Subprogram,
            attributes: vec![attr(AttributeName::Name, text("g"))],
            ranges: vec![range(0x5000, 0x5010)],
        }],
    };
    let mut converter = Converter::new();
    let mut errors: Vec<DwarfError> = Vec::new();
    converter.process_dwarf(&vec![broken, good], &mut errors);
    assert_eq!(errors, vec![DwarfError::MissingEntry(0x30)]);
    let mut buffer = Vec::new();
    converter.serialize_with_byte_order(&mut buffer, ByteOrder::Little);
    let cache = SymCache::parse_with_byte_order(&buffer, ByteOrder::Little).unwrap();
    assert_eq!(resolve_lookup(&cache, 0x1050).unwrap(), vec![]);
    assert_eq!(resolve_lookup(&cache, 0x5000).unwrap(), vec![frame("g", "b.c", 1)]);
    assert_eq!(cache.range_count(), 1);
}

#[test]
fn process_dwarf_cu_reports_the_error() {
    let mut broken = inlined_unit();
    broken.dies.pop();
    let mut converter = Converter::new();
    let mut caches = ReusableCaches::new();
    assert_eq!(
        converter.process_dwarf_cu(&mut caches, &broken),
        Err(DwarfError::MissingEntry(0x30))
    );
    assert_eq!(converter.process_dwarf_cu(&mut caches, &inlined_unit()), Ok(()));
}

#[test]
fn a_unit_without_a_line_program_changes_nothing() {
    let mut unit = inlined_unit();
    unit.rows = None;
    let mut converter = Converter::new();
    let mut errors: Vec<DwarfError> = Vec::new();
    converter.process_dwarf(&vec![unit], &mut errors);
    let mut buffer = Vec::new();
    converter.serialize_with_byte_order(&mut buffer, ByteOrder::Little);
    let cache = SymCache::parse_with_byte_order(&buffer, ByteOrder::Little).unwrap();
    assert_eq!(cache.string_count(), 0);
    assert_eq!(cache.range_count(), 0);
    assert!(!cache.has_line_info());
    assert!(!cache.has_file_info());
}

#[test]
fn the_first_unit_keeps_an_address_that_two_units_have() {
    let unit = |name: &str| CompilationUnit {
        root: vec![],
        complete: true,
        comp_dir: None,
        files: vec![None, file("a.c")],
        rows: Some(vec![row(0x100, 1, 1), end(0x110)]),
        dies: vec![Die {
            offset: 1,
            tag: DieTag::Subprogram,
            attributes: vec![attr(AttributeName::Name, text(name))],
            ranges: vec![range(0x100, 0x110)],
        }],
    };
    let frames = lookup_all(&vec![unit("first"), unit("second")], &[0x100]);
    assert_eq!(frames[0], vec![frame("first", "a.c", 1)]);
}

#[test]
fn directory_index_zero_stands_for_the_compilation_directory() {
    let unit = CompilationUnit {
        root: vec![],
        complete: true,
        comp_dir: Some("/comp".to_string()),
        files: vec![
            None,
            Some(FileEntry {
                directory_index: 0,
                directory: Some("/ignored".to_string()),
                path_name: "a.c".to_string(),
            }),
            Some(FileEntry {
                directory_index: 1,
                directory: Some("sub".to_string()),
                path_name: "b.c".to_string(),
            }),
            Some(FileEntry {
                directory_index: 2,
                directory: Some("/usr/include".to_string()),
                path_name: "c.h".to_string(),
            }),
        ],
        rows: Some(vec![
            row(0x100, 1, 1),
            row(0x110, 2, 2),
            row(0x120, 3, 3),
            row(0x130, 9, 4),
            end(0x140),
        ]),
        dies: vec![],
    };
    let frames = lookup_all(&vec![unit], &[0x100, 0x110, 0x120, 0x130]);
    assert_eq!(frames[0], vec![frame("", "/comp/a.c", 1)]);
    assert_eq!(frames[1], vec![frame("", "/comp/sub/b.c", 2)]);
    assert_eq!(frames[2], vec![frame("", "/usr/include/c.h", 3)]);
    assert_eq!(frames[3], vec![frame("", "", 4)]);
}

#[test]
fn line_program_rows_are_collapsed() {
    let rows = vec![
        row(0x10, 1, 1),
        row(0x10, 1, 2),
        row(0x14, 1, 2),
        row(0x18, 2, 2),
        row(0x1c, 2, 0x1_0000_0005),
        end(0x20),
        end(0x30),
        row(0, 1, 1),
        row(4, 1, 2),
        end(8),
        row(0x8, 1, 9),
        end(0xc),
        row(0x40, 1, 1),
    ];
    let sequences = parse_line_program(&rows);
    assert_eq!(sequences.len(), 2);
    assert_eq!(sequences[0].start, 0x8);
    assert_eq!(sequences[0].end, 0xc);
    assert_eq!(
        sequences[0].rows,
        vec![LineProgramRow {
            address: 0x8,
            file_index: 1,
            line: 9
        }]
    );
    assert_eq!(sequences[1].start, 0x10);
    assert_eq!(sequences[1].end, 0x20);
    assert_eq!(
        sequences[1].rows,
        vec![
            LineProgramRow {
                address: 0x10,
                file_index: 1,
                line: 2
            },
            LineProgramRow {
                address: 0x18,
                file_index: 2,
                line: 2
            },
            LineProgramRow {
                address: 0x1c,
                file_index: 2,
                line: 5
            },
        ]
    );
}

#[test]
fn sequences_with_the_same_start_keep_their_order() {
    let rows = vec![
        row(0x20, 1, 1),
        end(0x30),
        row(0x10, 1, 2),
        end(0x18),
        row(0x10, 1, 3),
        end(0x14),
    ];
    let sequences = parse_line_program(&rows);
    let seen: Vec<(u64, u64)> = sequences.iter().map(|s| (s.start, s.end)).collect();
    assert_eq!(seen, vec![(0x10, 0x18), (0x10, 0x14), (0x20, 0x30)]);
}

#[test]
fn attributes_are_found() {
    let attrs = vec![
        attr(AttributeName::Name, text("name")),
        attr(AttributeName::EntryPc, AttributeValue::Udata(7)),
        attr(AttributeName::Other, AttributeValue::Other),
    ];
    let info = find_function_info(&attrs);
    assert_eq!(info.name, Some("name"));
    assert_eq!(info.entry_pc, Some(7));

    let attrs = vec![
        attr(AttributeName::LinkageName, text("linkage")),
        attr(AttributeName::Name, text("name")),
        attr(AttributeName::Name, AttributeValue::Udata(1)),
    ];
    let info = find_function_info(&attrs);
    assert_eq!(info.name, Some("linkage"));
    assert_eq!(info.entry_pc, None);

    assert_eq!(find_function_info(&vec![]).name, None);

    let attrs = vec![
        attr(AttributeName::CallFile, AttributeValue::FileIndex(3)),
        attr(AttributeName::CallLine, AttributeValue::Udata(0x1_0000_0011)),
        attr(AttributeName::AbstractOrigin, AttributeValue::UnitRef(0x99)),
    ];
    assert_eq!(
        find_caller_info(&attrs),
        Some(CallerInfo {
            call_file: 3,
            call_line: 0x11,
            abstract_origin: 0x99
        })
    );
    assert_eq!(find_caller_info(&attrs[..2].to_vec_attrs()), None);

    let root = vec![
        attr(AttributeName::Language, AttributeValue::Udata(0x1c)),
        attr(AttributeName::Language, AttributeValue::Udata(0x1_0000)),
    ];
    assert_eq!(find_cu_lang(&root), Some(0x1c));
    assert_eq!(find_cu_lang(&vec![]), None);
}

trait ToVecAttrs {
    fn to_vec_attrs(&self) -> Vec<Attribute>;
}

impl ToVecAttrs for [Attribute] {
    fn to_vec_attrs(&self) -> Vec<Attribute> {
        self.iter()
            .map(|a| Attribute {
                name: a.name,
                value: match &a.value {
                    AttributeValue::FileIndex(v) => AttributeValue::FileIndex(*v),
                    AttributeValue::UnitRef(v) => AttributeValue::UnitRef(*v),
                    AttributeValue::Udata(v) => AttributeValue::Udata(*v),
                    AttributeValue::Address(v) => AttributeValue::Address(*v),
                    AttributeValue::Text(s) => AttributeValue::Text(s.clone()),
                    AttributeValue::Other => AttributeValue::Other,
                },
            })
            .collect()
    }
}

#[test]
fn a_unit_that_was_not_read_to_its_end_adds_no_ranges() {
    let mut unit = inlined_unit();
    unit.complete = false;
    let mut converter = Converter::new();
    let mut caches = ReusableCaches::new();
    assert_eq!(converter.process_dwarf_cu(&mut caches, &unit), Ok(()));
    assert_eq!(converter.string(0), Some("/src"));
    assert_eq!(converter.function(0).unwrap().entry_pc, 0x1000);
    assert!(converter.file(1).is_some());
    assert!(converter.source_location(0).is_some());
    assert!(converter.lookup(0x1050).next().is_none());
    assert!(!converter.has_range_at(0x1000));
}
