use symcache::converter::breakpad::{
    BreakpadFileRecord, BreakpadFuncRecord, BreakpadLineRecord, BreakpadPublicRecord,
    BreakpadSymbols,
};
use symcache::converter::Converter;
use symcache::format::bytes::ByteOrder;
use symcache::format::cache::SymCache;
use symcache::format::raw;

#[derive(Debug, PartialEq)]
struct Frame {
    function: String,
    file: String,
    line: u32,
}

fn frame(function: &str, file: &str, line: u32) -> Frame {
    Frame {
        function: function.to_string(),
        file: file.to_string(),
        line,
    }
}

fn lookup(cache: &SymCache, addr: u64) -> Vec<Frame> {
    let mut iter = cache.lookup(addr);
    let mut frames = Vec::new();
    while let Some(location) = iter.next().unwrap() {
        let function = match location.function().unwrap() {
            Some(function) => function.name().unwrap().unwrap_or("").to_string(),
            None => String::new(),
        };
        let file = match location.file().unwrap() {
            Some(file) => file.full_path().unwrap().unwrap_or_default(),
            None => String::new(),
        };
        frames.push(Frame {
            function,
            file,
            line: location.line(),
        });
    }
    frames
}

fn serialize(converter: Converter) -> Vec<u8> {
    let mut buffer = Vec::new();
    converter.serialize_with_byte_order(&mut buffer, ByteOrder::Little);
    buffer
}

fn parse(buffer: &[u8]) -> SymCache<'_> {
    SymCache::parse_with_byte_order(buffer, ByteOrder::Little).unwrap()
}

fn func(address: u64, size: u64, name: &str, lines: Vec<BreakpadLineRecord>) -> BreakpadFuncRecord {
    BreakpadFuncRecord {
        address,
        size,
        name: name.to_string(),
        lines,
    }
}

fn line(address: u64, size: u64, line: u64, file_id: u64) -> BreakpadLineRecord {
    BreakpadLineRecord {
        address,
        size,
        line,
        file_id,
    }
}

#[test]
fn simple_function() {
    let symbols = BreakpadSymbols {
        files: vec![BreakpadFileRecord {
            id: 0,
            name: "a.c".to_string(),
        }],
        funcs: vec![func(0xd20, 0x20, "foo", vec![line(0xd20, 0x10, 5, 0)])],
        publics: vec![],
    };
    let mut converter = Converter::new();
    converter.process_breakpad(&symbols);
    let buffer = serialize(converter);
    let cache = parse(&buffer);
    assert_eq!(lookup(&cache, 0xd24), vec![frame("foo", "a.c", 5)]);
    assert_eq!(lookup(&cache, 0xd20), vec![frame("foo", "a.c", 5)]);
    assert_eq!(lookup(&cache, 0xd1f), vec![]);
}

#[test]
fn public_symbol_fallback() {
    let symbols = BreakpadSymbols {
        files: vec![],
        funcs: vec![func(0xd20, 0x20, "foo", vec![])],
        publics: vec![BreakpadPublicRecord {
            address: 0xd80,
            name: "bar".to_string(),
        }],
    };
    let mut converter = Converter::new();
    converter.process_breakpad(&symbols);
    let buffer = serialize(converter);
    let cache = parse(&buffer);
    assert_eq!(lookup(&cache, 0xd90), vec![frame("bar", "", 0)]);
    assert_eq!(lookup(&cache, 0xd24), vec![frame("foo", "", 0)]);
    assert_eq!(lookup(&cache, 0xfff_ffa0), vec![frame("bar", "", 0)]);
}

#[test]
fn a_function_before_its_first_line_has_line_zero() {
    let symbols = BreakpadSymbols {
        files: vec![BreakpadFileRecord {
            id: 7,
            name: "a.c".to_string(),
        }],
        funcs: vec![func(0x100, 0x20, "foo", vec![line(0x108, 8, 3, 7)])],
        publics: vec![],
    };
    let mut converter = Converter::new();
    converter.process_breakpad(&symbols);
    let buffer = serialize(converter);
    let cache = parse(&buffer);
    assert_eq!(lookup(&cache, 0x100), vec![frame("foo", "", 0)]);
    assert_eq!(lookup(&cache, 0x107), vec![frame("foo", "", 0)]);
    assert_eq!(lookup(&cache, 0x108), vec![frame("foo", "a.c", 3)]);
}

#[test]
fn address_below_threshold() {
    let mut converter = Converter::with_range_threshold(0x1000);
    let function = converter.insert_function(Some("f"), Some(0), 0).unwrap();
    assert!(converter.insert_range(
        0,
        raw::SourceLocation {
            file_idx: raw::NO_INDEX,
            line: 1,
            function_idx: function,
            inlined_into_idx: raw::NO_INDEX,
        }
    ));
    assert_eq!(converter.offset_addr(0x800), None);
    assert_eq!(converter.offset_addr(0x1000), Some(0));
    assert_eq!(converter.offset_addr(0x1_0000_0fff), Some(0xffff_ffff));
    assert_eq!(converter.offset_addr(0x1_0000_1000), None);
    let buffer = serialize(converter);
    let cache = parse(&buffer);
    assert_eq!(cache.range_threshold(), 0x1000);
    assert_eq!(lookup(&cache, 0x800), vec![]);
    assert_eq!(lookup(&cache, 0x1000), vec![frame("f", "", 1)]);
    assert_eq!(lookup(&cache, 0x1_0000_0fff), vec![frame("f", "", 1)]);
    assert_eq!(lookup(&cache, 0x1_0000_1000), vec![]);
}

#[test]
fn idempotent_interning() {
    let mut converter = Converter::new();
    let before = {
        let buffer = serialize(Converter::new());
        parse(&buffer).function_count()
    };
    let first = converter.insert_function(Some("f"), Some(0x10), 1);
    let second = converter.insert_function(Some("f"), Some(0x10), 1);
    assert_eq!(first, Some(0));
    assert_eq!(second, Some(0));
    let other_entry = converter.insert_function(Some("f"), Some(0x20), 1);
    assert_eq!(other_entry, Some(1));
    let buffer = serialize(converter);
    let cache = parse(&buffer);
    assert_eq!(cache.function_count(), before + 2);
    assert_eq!(cache.string_count(), 1);
}

#[test]
fn insert_string_is_idempotent() {
    let mut converter = Converter::new();
    assert_eq!(converter.insert_string("foo"), Some(0));
    assert_eq!(converter.insert_string("bär"), Some(1));
    assert_eq!(converter.insert_string("foo"), Some(0));
    assert_eq!(converter.insert_string("bär"), Some(1));
    let buffer = serialize(converter);
    let cache = parse(&buffer);
    assert_eq!(cache.string_count(), 2);
    assert_eq!(cache.string_bytes_len(), 7);
    assert_eq!(cache.get_string(0).unwrap(), Some("foo"));
    assert_eq!(cache.get_string(1).unwrap(), Some("bär"));
}

#[test]
fn range_first_writer_wins() {
    let mut converter = Converter::new();
    let file = converter.insert_file("a.c", None, None).unwrap();
    let sl_a = raw::SourceLocation {
        file_idx: file,
        line: 1,
        function_idx: raw::NO_INDEX,
        inlined_into_idx: raw::NO_INDEX,
    };
    let sl_b = raw::SourceLocation {
        file_idx: file,
        line: 2,
        function_idx: raw::NO_INDEX,
        inlined_into_idx: raw::NO_INDEX,
    };
    assert!(converter.insert_range(0x200, sl_a));
    assert!(!converter.insert_range(0x200, sl_b));
    let buffer = serialize(converter);
    let cache = parse(&buffer);
    assert_eq!(lookup(&cache, 0x200), vec![frame("", "a.c", 1)]);
}

#[test]
fn ranges_come_out_in_ascending_order() {
    let mut converter = Converter::new();
    let location = |line: u32| raw::SourceLocation {
        file_idx: raw::NO_INDEX,
        line,
        function_idx: raw::NO_INDEX,
        inlined_into_idx: raw::NO_INDEX,
    };
    for addr in [0x30u32, 0x10, 0x20, 0x40, 0x10, 0x05] {
        converter.insert_range(addr, location(addr));
    }
    let buffer = serialize(converter);
    let cache = parse(&buffer);
    assert_eq!(cache.range_count(), 5);
    assert_eq!(lookup(&cache, 0x04), vec![]);
    assert_eq!(lookup(&cache, 0x05), vec![frame("", "", 0x05)]);
    assert_eq!(lookup(&cache, 0x0f), vec![frame("", "", 0x05)]);
    assert_eq!(lookup(&cache, 0x10), vec![frame("", "", 0x10)]);
    assert_eq!(lookup(&cache, 0x2f), vec![frame("", "", 0x20)]);
    assert_eq!(lookup(&cache, 0x30), vec![frame("", "", 0x30)]);
    assert_eq!(lookup(&cache, 0x3f), vec![frame("", "", 0x30)]);
    assert_eq!(lookup(&cache, 0xffff_ffff), vec![frame("", "", 0x40)]);
}

#[test]
fn a_source_location_that_names_nothing_is_refused() {
    let mut converter = Converter::new();
    let dangling = raw::SourceLocation {
        file_idx: 3,
        line: 1,
        function_idx: raw::NO_INDEX,
        inlined_into_idx: raw::NO_INDEX,
    };
    assert_eq!(converter.insert_source_location(dangling), None);
    assert!(!converter.insert_range(0x10, dangling));
    let forward = raw::SourceLocation {
        file_idx: raw::NO_INDEX,
        line: 1,
        function_idx: raw::NO_INDEX,
        inlined_into_idx: 0,
    };
    assert_eq!(converter.insert_source_location(forward), None);
    let root = raw::SourceLocation {
        file_idx: raw::NO_INDEX,
        line: 1,
        function_idx: raw::NO_INDEX,
        inlined_into_idx: raw::NO_INDEX,
    };
    assert_eq!(converter.insert_source_location(root), Some(0));
    assert_eq!(converter.insert_source_location(forward), Some(1));
    assert_eq!(converter.insert_source_location(root), Some(0));
}

#[test]
fn the_default_converter_is_empty() {
    let buffer = serialize(Converter::default());
    assert_eq!(buffer.len(), 64);
    let cache = parse(&buffer);
    assert_eq!(cache.range_threshold(), 0);
    assert_eq!(cache.string_count(), 0);
    assert_eq!(cache.source_location_count(), 0);
    assert_eq!(lookup(&cache, 0), vec![]);
}
