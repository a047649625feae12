use symcache::converter::breakpad::BreakpadPublicRecord;
use symcache::converter::object::{DebugFunction, DebugObject, FunctionLine};
use symcache::converter::Converter;
use symcache::format::bytes::ByteOrder;
use symcache::format::cache::SymCache;
use symcache::format::raw;
use symcache::lookups::{resolve_lookup, ResolvedFrame};

fn frame(function: &str, file: &str, line: u32) -> ResolvedFrame {
    ResolvedFrame {
        function: function.to_string(),
        file: file.to_string(),
        line,
    }
}

fn line(address: u64, file_name: &str, line: u64) -> FunctionLine {
    FunctionLine {
        address,
        file_name: file_name.to_string(),
        file_dir: "src".to_string(),
        line,
    }
}

fn object() -> DebugObject {
    DebugObject {
        functions: vec![
            DebugFunction {
                address: 0x100,
                name: "outer".to_string(),
                language: 7,
                compilation_dir: Some("/build".to_string()),
                inline: false,
                lines: vec![line(0x100, "outer.rs", 1), line(0x110, "outer.rs", 2)],
            },
            DebugFunction {
                address: 0x110,
                name: "inner".to_string(),
                language: 7,
                compilation_dir: Some("/build".to_string()),
                inline: true,
                lines: vec![
                    line(0x110, "inner.rs", 0x1_0000_0014),
                    line(0x118, "inner.rs", 21),
                ],
            },
            DebugFunction {
                address: 0x100,
                name: "again".to_string(),
                language: 1,
                compilation_dir: None,
                inline: false,
                lines: vec![line(0x100, "again.c", 9), line(0x2_0000_0000, "far.c", 1)],
            },
        ],
        symbols: vec![
            BreakpadPublicRecord {
                address: 0x100,
                name: "taken".to_string(),
            },
            BreakpadPublicRecord {
                address: 0x200,
                name: "symbol".to_string(),
            },
        ],
    }
}

#[test]
fn functions_and_symbols_of_an_object_are_looked_up() {
    let mut converter = Converter::new();
    converter.process_object(&object());
    assert_eq!(converter.function(0).unwrap().entry_pc, 0x100);
    assert_eq!(converter.function(1).unwrap().entry_pc, raw::NO_INDEX);
    assert_eq!(converter.function(3).unwrap().lang, 0xff);
    let mut buffer = Vec::new();
    converter.serialize_with_byte_order(&mut buffer, ByteOrder::Little);
    let cache = SymCache::parse_with_byte_order(&buffer, ByteOrder::Little).unwrap();
    assert_eq!(
        resolve_lookup(&cache, 0x100).unwrap(),
        vec![frame("again", "src/again.c", 9)]
    );
    assert_eq!(
        resolve_lookup(&cache, 0x110).unwrap(),
        vec![
            frame("inner", "/build/src/inner.rs", 20),
            frame("outer", "/build/src/outer.rs", 2)
        ]
    );
    assert_eq!(
        resolve_lookup(&cache, 0x118).unwrap(),
        vec![frame("inner", "/build/src/inner.rs", 21)]
    );
    assert_eq!(
        resolve_lookup(&cache, 0x200).unwrap(),
        vec![frame("symbol", "", 0)]
    );
    assert_eq!(cache.range_count(), 4);
    assert_eq!(cache.file_count(), 4);
}

#[test]
fn a_range_can_be_set_again() {
    let mut converter = Converter::new();
    let l = |line: u32| raw::SourceLocation {
        file_idx: raw::NO_INDEX,
        line,
        function_idx: raw::NO_INDEX,
        inlined_into_idx: raw::NO_INDEX,
    };
    assert!(converter.set_range(8, l(1)));
    assert!(converter.set_range(8, l(2)));
    assert!(!converter.insert_range(8, l(3)));
    assert!(!converter.set_range(8, raw::SourceLocation { file_idx: 0, ..l(4) }));
    assert_eq!(converter.range_location(8), l(2));
    let mut function = object().functions.remove(0);
    function.lines.clear();
    converter.process_symbolic_function(&function);
    assert_eq!(converter.function_entry_pc(0), Some(0x100));
}
