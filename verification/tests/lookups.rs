use symcache::converter::breakpad::{
    BreakpadFileRecord, BreakpadFuncRecord, BreakpadLineRecord, BreakpadPublicRecord,
    BreakpadSymbols,
};
use symcache::converter::dwarf::{CompilationUnit, DwarfError, LineRow};
use symcache::converter::Converter;
use symcache::format::bytes::ByteOrder;
use symcache::format::cache::SymCache;
use symcache::format::error::Error;
use symcache::format::raw;
use symcache::lookups::{
    create_new_symcache_breakpad, create_new_symcache_dwarf, get_executable_range,
    lookup_new_symcache, resolve_frame, resolve_lookup, LookupFrame, LookupResult, ResolvedFrame,
    SectionInfo,
};

fn symbols() -> BreakpadSymbols {
    BreakpadSymbols {
        files: vec![
            BreakpadFileRecord {
                id: 4,
                name: "/src/./a.c".to_string(),
            },
            BreakpadFileRecord {
                id: 9,
                name: "b.c".to_string(),
            },
            BreakpadFileRecord {
                id: 4,
                name: "c.c".to_string(),
            },
        ],
        funcs: vec![
            BreakpadFuncRecord {
                address: 0x1a00,
                size: 0x40,
                name: "copy".to_string(),
                lines: vec![
                    BreakpadLineRecord {
                        address: 0x1a00,
                        size: 0x20,
                        line: 310,
                        file_id: 9,
                    },
                    BreakpadLineRecord {
                        address: 0x1a20,
                        size: 0x20,
                        line: 312,
                        file_id: 4,
                    },
                    BreakpadLineRecord {
                        address: 0x1a30,
                        size: 0x10,
                        line: 0x1_0000_0000,
                        file_id: 77,
                    },
                    BreakpadLineRecord {
                        address: 0x1a20,
                        size: 0x20,
                        line: 999,
                        file_id: 9,
                    },
                ],
            },
            BreakpadFuncRecord {
                address: 0x1_0000_0000,
                size: 1,
                name: "far".to_string(),
                lines: vec![],
            },
        ],
        publics: vec![
            BreakpadPublicRecord {
                address: 0x1a00,
                name: "shadowed".to_string(),
            },
            BreakpadPublicRecord {
                address: 0x2000,
                name: "public".to_string(),
            },
        ],
    }
}

fn frame(function: &str, file: &str, line: u32) -> ResolvedFrame {
    ResolvedFrame {
        function: function.to_string(),
        file: file.to_string(),
        line,
    }
}

#[test]
fn breakpad_records_are_looked_up() {
    let buffer = create_new_symcache_breakpad(&symbols(), ByteOrder::Little);
    let cache = SymCache::parse_with_byte_order(&buffer, ByteOrder::Little).unwrap();
    assert_eq!(resolve_lookup(&cache, 0x19ff).unwrap(), vec![]);
    assert_eq!(
        resolve_lookup(&cache, 0x1a00).unwrap(),
        vec![frame("copy", "b.c", 310)]
    );
    assert_eq!(
        resolve_lookup(&cache, 0x1a2a).unwrap(),
        vec![frame("copy", "c.c", 312)]
    );
    assert_eq!(
        resolve_lookup(&cache, 0x1a30).unwrap(),
        vec![frame("copy", "", 0)]
    );
    assert_eq!(
        resolve_lookup(&cache, 0x2abc).unwrap(),
        vec![frame("public", "", 0)]
    );
    assert_eq!(cache.file_count(), 3);
    assert_eq!(cache.function_count(), 2);
    assert_eq!(cache.range_count(), 4);
    let names: Vec<&str> = (0..cache.string_count())
        .map(|i| cache.get_string(i).unwrap().unwrap())
        .collect();
    assert_eq!(
        names,
        vec!["/src/./a.c", "b.c", "c.c", "copy", "shadowed", "public"]
    );
    let first = cache.files().next().unwrap();
    assert_eq!(first.full_path().unwrap().as_deref(), Some("/src/a.c"));
}

#[test]
fn lookup_results_hold_the_same_frames() {
    let buffer = create_new_symcache_breakpad(&symbols(), ByteOrder::Big);
    let cache = SymCache::parse_with_byte_order(&buffer, ByteOrder::Big).unwrap();
    assert_eq!(
        lookup_new_symcache(&cache, 0x1a2a).unwrap(),
        LookupResult {
            frames: vec![LookupFrame {
                name: "copy".to_string(),
                file: "c.c".to_string(),
                line: 312
            }]
        }
    );
    assert_eq!(
        lookup_new_symcache(&cache, 0).unwrap(),
        LookupResult { frames: vec![] }
    );
}

#[test]
fn dwarf_units_are_written_with_their_errors() {
    let unit = CompilationUnit {
        root: vec![],
        complete: true,
        comp_dir: None,
        files: vec![],
        rows: Some(vec![
            LineRow {
                address: 0x10,
                file_index: 0,
                line: 4,
                end_sequence: false,
            },
            LineRow {
                address: 0x20,
                file_index: 0,
                line: 0,
                end_sequence: true,
            },
        ]),
        dies: vec![],
    };
    let mut errors: Vec<DwarfError> = Vec::new();
    let buffer = create_new_symcache_dwarf(&vec![unit], ByteOrder::Little, &mut errors);
    assert!(errors.is_empty());
    let cache = SymCache::parse_with_byte_order(&buffer, ByteOrder::Little).unwrap();
    assert_eq!(resolve_lookup(&cache, 0x18).unwrap(), vec![frame("", "", 4)]);
}

#[test]
fn a_chain_with_a_cycle_is_cut() {
    let mut converter = Converter::new();
    let root = raw::SourceLocation {
        file_idx: raw::NO_INDEX,
        line: 1,
        function_idx: raw::NO_INDEX,
        inlined_into_idx: raw::NO_INDEX,
    };
    let first = converter.insert_source_location(root).unwrap();
    converter.insert_range(
        0,
        raw::SourceLocation {
            line: 2,
            inlined_into_idx: first,
            ..root
        },
    );
    let mut buffer = Vec::new();
    converter.serialize_with_byte_order(&mut buffer, ByteOrder::Little);
    let at = buffer.len() - 8 - 32 + 12;
    assert_eq!(&buffer[at..at + 4], &[0xff; 4]);
    buffer[at..at + 4].copy_from_slice(&[1, 0, 0, 0]);
    let cache = SymCache::parse_with_byte_order(&buffer, ByteOrder::Little).unwrap();
    assert_eq!(
        resolve_lookup(&cache, 5).unwrap(),
        vec![frame("", "", 2), frame("", "", 1)]
    );
}

#[test]
fn a_frame_that_cannot_be_resolved_fails_the_lookup() {
    let mut converter = Converter::new();
    let function = converter.insert_function(Some("f"), Some(0), 0).unwrap();
    converter.insert_range(
        0,
        raw::SourceLocation {
            file_idx: raw::NO_INDEX,
            line: 2,
            function_idx: function,
            inlined_into_idx: raw::NO_INDEX,
        },
    );
    let mut buffer = Vec::new();
    converter.serialize_with_byte_order(&mut buffer, ByteOrder::Little);
    let last = buffer.len() - 8;
    buffer[last] = 0xff;
    let cache = SymCache::parse_with_byte_order(&buffer, ByteOrder::Little).unwrap();
    assert!(matches!(
        resolve_lookup(&cache, 0),
        Err(Error::InvalidStringData(0, _))
    ));
    assert!(matches!(
        lookup_new_symcache(&cache, 0),
        Err(Error::InvalidStringData(0, _))
    ));
    let location = cache.lookup(0).next().unwrap().unwrap();
    assert!(matches!(
        resolve_frame(&location),
        Err(Error::InvalidStringData(0, _))
    ));
}

#[test]
fn the_executable_range_spans_the_executable_sections() {
    let section = |elf_flags: Option<u64>, address: u64, size: u64| SectionInfo {
        elf_flags,
        address,
        size,
    };
    let sections = vec![
        section(Some(0x2), 0x10, 0x100),
        section(Some(0x6), 0x2000, 0x30),
        section(None, 0x5, 0x1000),
        section(Some(0x4), 0x1000, 0x10),
    ];
    assert_eq!(get_executable_range(&sections), 0x1000..0x1040);
    assert_eq!(get_executable_range(&vec![]), u64::MAX..u64::MAX);
    let wrapping = vec![section(Some(4), 8, u64::MAX)];
    assert_eq!(get_executable_range(&wrapping), 8..7);
}

#[test]
fn the_function_of_a_range_starts_at_or_before_it() {
    let symbols = symbols();
    let buffer = create_new_symcache_breakpad(&symbols, ByteOrder::Little);
    let cache = SymCache::parse_with_byte_order(&buffer, ByteOrder::Little).unwrap();
    let mut keys = vec![0x2000u64];
    for func in &symbols.funcs {
        keys.push(func.address);
        for line in &func.lines {
            keys.push(line.address);
        }
    }
    let mut seen = 0;
    for key in keys {
        let first = match cache.lookup(key).next().unwrap() {
            Some(first) => first,
            None => continue,
        };
        let function = first.function().unwrap().unwrap();
        assert!(function.entry_pc() as u64 <= key);
        seen += 1;
    }
    assert_eq!(seen, 6);
}

#[test]
fn every_index_of_a_written_cache_names_an_entry() {
    let buffer = create_new_symcache_breakpad(&symbols(), ByteOrder::Little);
    let cache = SymCache::parse_with_byte_order(&buffer, ByteOrder::Little).unwrap();
    let is_index = |idx: u32, count: u32| idx == raw::NO_INDEX || idx < count;
    for i in 0..cache.string_count() {
        assert!(cache.get_string(i).unwrap().is_some());
    }
    let mut files = cache.files();
    while let Some(file) = files.next() {
        assert!(file.path_name().unwrap().is_some());
        assert!(file.directory().is_ok());
        assert!(file.comp_dir().is_ok());
    }
    let mut functions = cache.functions();
    while let Some(function) = functions.next() {
        assert!(function.name().is_ok());
    }
    let mut starts = Vec::new();
    for addr in [0x1a00u64, 0x1a20, 0x1a30, 0x2000] {
        let mut frames = cache.lookup(addr);
        let mut count = 0;
        while let Some(frame) = frames.next().unwrap() {
            assert!(frame.file().is_ok());
            assert!(frame.function().is_ok());
            count += 1;
        }
        assert!(count >= 1);
        assert!(is_index(count, cache.source_location_count() + 1));
        starts.push(addr);
    }
    assert!(starts.windows(2).all(|pair| pair[0] < pair[1]));
}
