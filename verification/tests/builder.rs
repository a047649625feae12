use symcache::converter::intern::{append_bytes, StringTable, Table};
use symcache::converter::ranges::RangeMap;
use symcache::converter::Converter;
use symcache::format::raw;

fn location(file_idx: u32, line: u32, function_idx: u32, inlined_into_idx: u32) -> raw::SourceLocation {
    raw::SourceLocation {
        file_idx,
        line,
        function_idx,
        inlined_into_idx,
    }
}

#[test]
fn a_converter_can_be_looked_up_before_it_is_written() {
    let mut converter = Converter::new();
    let file = converter.insert_file("a.c", Some("dir"), None).unwrap();
    let function = converter.insert_function(Some("f"), Some(0x10), 1).unwrap();
    let inlined = converter.insert_function(Some("g"), None, 1).unwrap();
    let caller = converter
        .insert_source_location(location(file, 5, function, raw::NO_INDEX))
        .unwrap();
    converter.insert_range(0x10, location(file, 1, function, raw::NO_INDEX));
    converter.insert_range(0x20, location(file, 9, inlined, caller));
    converter.insert_range(0x30, location(raw::NO_INDEX, 0, raw::NO_INDEX, raw::NO_INDEX));

    assert!(converter.lookup(0xf).next().is_none());

    let mut frames = converter.lookup(0x1f);
    let frame = frames.next().unwrap();
    assert_eq!(frame.line(), 1);
    assert_eq!(frame.function_name(), Some("f"));
    assert_eq!(frame.path_name(), Some("a.c"));
    assert_eq!(frame.directory(), Some("dir"));
    assert!(frames.next().is_none());

    let mut frames = converter.lookup(0x20);
    let frame = frames.next().unwrap();
    assert_eq!(frame.line(), 9);
    assert_eq!(frame.function_name(), Some("g"));
    let frame = frames.next().unwrap();
    assert_eq!(frame.line(), 5);
    assert_eq!(frame.function_name(), Some("f"));
    assert!(frames.next().is_none());

    let mut frames = converter.lookup(u32::MAX);
    let frame = frames.next().unwrap();
    assert_eq!(frame.line(), 0);
    assert_eq!(frame.function_name(), None);
    assert_eq!(frame.path_name(), None);
    assert_eq!(frame.directory(), None);
    assert!(frames.next().is_none());

    assert_eq!(converter.string(0), Some("a.c"));
    assert_eq!(converter.string(1), Some("dir"));
    assert_eq!(converter.string(4), None);
    assert_eq!(converter.file(0).unwrap().directory_idx, 1);
    assert_eq!(converter.file(0).unwrap().comp_dir_idx, raw::NO_INDEX);
    assert!(converter.file(1).is_none());
    assert_eq!(converter.function(1).unwrap().entry_pc, raw::NO_INDEX);
    assert_eq!(converter.function_entry_pc(0), Some(0x10));
    assert_eq!(converter.function_entry_pc(1), None);
    assert_eq!(converter.function_entry_pc(2), None);
    assert_eq!(converter.source_location(0), Some(location(file, 5, function, raw::NO_INDEX)));
    assert!(converter.has_range_at(0x20));
    assert!(!converter.has_range_at(0x21));
    assert!(converter.accepts(&location(0, 0, 1, 0)));
    assert!(!converter.accepts(&location(1, 0, 1, 0)));
    assert!(!converter.accepts(&location(0, 0, 2, 0)));
    assert!(!converter.accepts(&location(0, 0, 1, 1)));
}

#[test]
fn files_share_their_strings() {
    let mut converter = Converter::new();
    assert_eq!(converter.insert_file("a.c", Some("d"), Some("/c")), Some(0));
    assert_eq!(converter.insert_file("b.c", Some("d"), Some("/c")), Some(1));
    assert_eq!(converter.insert_file("a.c", Some("d"), Some("/c")), Some(0));
    assert_eq!(converter.insert_file("a.c", None, Some("/c")), Some(2));
    assert_eq!(converter.insert_file("d", None, None), Some(3));
    assert_eq!(converter.string(0), Some("a.c"));
    assert_eq!(converter.string(1), Some("d"));
    assert_eq!(converter.string(2), Some("/c"));
    assert_eq!(converter.string(3), Some("b.c"));
    assert_eq!(converter.string(4), None);
    assert_eq!(
        converter.file(3),
        Some(raw::File {
            comp_dir_idx: raw::NO_INDEX,
            directory_idx: raw::NO_INDEX,
            path_name_idx: 1
        })
    );
}

#[test]
fn a_table_keeps_each_row_once() {
    let mut table: Table<raw::Function> = Table::new();
    let f = |name_idx: u32, entry_pc: u32, lang: u8| raw::Function {
        name_idx,
        entry_pc,
        lang,
    };
    assert_eq!(table.len(), 0);
    assert_eq!(table.position(f(1, 2, 3)), None);
    assert_eq!(table.insert(f(1, 2, 3)), Some(0));
    assert_eq!(table.insert(f(1, 2, 4)), Some(1));
    assert_eq!(table.insert(f(1, 2, 3)), Some(0));
    assert_eq!(table.insert(f(1, 2, 0xff)), Some(2));
    assert_eq!(table.len(), 3);
    assert_eq!(table.position(f(1, 2, 4)), Some(1));
    assert_eq!(table.get(2), Some(f(1, 2, 0xff)));
    assert_eq!(table.get(3), None);
}

#[test]
fn a_string_table_keeps_the_bytes_of_each_string_once() {
    let mut strings = StringTable::new();
    assert_eq!(strings.insert("ab"), Some(0));
    assert_eq!(strings.insert(""), Some(1));
    assert_eq!(strings.insert("€"), Some(2));
    assert_eq!(strings.insert("ab"), Some(0));
    assert_eq!(strings.len(), 3);
    assert_eq!(strings.as_bytes(), &[b'a', b'b', 0xe2, 0x82, 0xac]);
    assert_eq!(
        strings.get(2),
        Some(raw::String {
            string_offset: 2,
            string_len: 3
        })
    );
    assert_eq!(
        strings.get(1),
        Some(raw::String {
            string_offset: 2,
            string_len: 0
        })
    );
    assert_eq!(strings.get(3), None);
    assert_eq!(strings.resolve(2), Some("€"));
    assert_eq!(strings.resolve(1), Some(""));
    assert_eq!(strings.resolve(3), None);
    let mut out = vec![1u8];
    append_bytes(&mut out, &[2, 3]);
    assert_eq!(out, vec![1, 2, 3]);
}

#[test]
fn a_range_map_stays_in_order() {
    let mut map = RangeMap::new();
    let l = |line: u32| location(raw::NO_INDEX, line, raw::NO_INDEX, raw::NO_INDEX);
    assert!(map.insert(30, l(1)));
    assert!(map.insert(10, l(2)));
    assert!(map.insert(20, l(3)));
    assert!(!map.insert(10, l(4)));
    map.replace(20, l(5));
    map.replace(40, l(6));
    let entries: Vec<(u32, u32)> = (0..map.len()).map(|i| (map.get(i).0, map.get(i).1.line)).collect();
    assert_eq!(entries, vec![(10, 2), (20, 5), (30, 1), (40, 6)]);
    assert_eq!(map.lower_bound(0), 0);
    assert_eq!(map.lower_bound(10), 0);
    assert_eq!(map.lower_bound(11), 1);
    assert_eq!(map.lower_bound(41), 4);
    assert_eq!(map.floor(9), None);
    assert_eq!(map.floor(10), Some(0));
    assert_eq!(map.floor(39), Some(2));
    assert_eq!(map.floor(u32::MAX), Some(3));
    assert_eq!(map.sub_ranges(10, 30), (0, 2));
    assert_eq!(map.sub_ranges(11, 31), (1, 3));
    assert_eq!(map.sub_ranges(0, u32::MAX), (0, 4));
    assert_eq!(map.sub_ranges(30, 10), (2, 2));
    assert_eq!(map.sub_ranges(20, 20), (1, 1));
    assert!(map.contains_key(30));
    assert!(!map.contains_key(31));
    map.set_value(0, l(9));
    assert_eq!(map.get(0), (10, l(9)));
}
