use symbolic_common::{Arch, DebugId, Language, Uuid};
use symcache::converter::Converter;
use symcache::error::ErrorSink;
use symcache::error::raise_all;
use symcache::format::bytes::{
    native_order, order_of_one, read_u32, read_u64, write_u32, write_u64, ByteOrder,
};
use symcache::format::cache::{is_multiple_of_eight, Format, SymCache};
use symcache::format::encode::write_padding;
use symcache::format::error::Error;
use symcache::format::raw;
use symcache::format::raw::offset_address;

fn location(file_idx: u32, line: u32, function_idx: u32, inlined_into_idx: u32) -> raw::SourceLocation {
    raw::SourceLocation {
        file_idx,
        line,
        function_idx,
        inlined_into_idx,
    }
}

fn sample(order: ByteOrder) -> Vec<u8> {
    let mut converter = Converter::with_range_threshold(0x1000);
    converter.set_arch(201);
    converter.set_debug_id([
        0xa1, 0xa2, 0xa3, 0xa4, 0xb1, 0xb2, 0xc1, 0xc2, 0xd1, 0xd2, 0xd3, 0xd4, 0xd5, 0xd6, 0xd7,
        0xd8,
    ]);
    let file = converter
        .insert_file("c/../d.rs", Some("b"), Some("/a"))
        .unwrap();
    let function = converter.insert_function(Some("main"), Some(0x10), 7).unwrap();
    let caller = converter
        .insert_source_location(location(file, 3, function, raw::NO_INDEX))
        .unwrap();
    assert!(converter.insert_range(0x10, location(file, 9, function, caller)));
    assert!(converter.insert_range(0x20, location(raw::NO_INDEX, 0, raw::NO_INDEX, raw::NO_INDEX)));
    let mut buffer = Vec::new();
    converter.serialize_with_byte_order(&mut buffer, order);
    buffer
}

#[test]
fn parse_of_an_empty_buffer_fails() {
    let r = SymCache::parse_with_byte_order(&[], ByteOrder::Little);
    assert!(matches!(r, Err(Error::HeaderTooSmall)));
    let r = SymCache::parse(&[]);
    assert!(matches!(
        r,
        Err(Error::HeaderTooSmall) | Err(Error::BufferNotAligned)
    ));
}

#[test]
fn parse_of_an_unaligned_buffer_fails() {
    let mut buffer = vec![0u8];
    let order = native_order();
    buffer.extend(sample(order));
    let aligned = if buffer.as_ptr() as usize % 8 == 0 { 0 } else { 1 };
    assert!(matches!(
        SymCache::parse(&buffer[1 - aligned..]),
        Err(Error::BufferNotAligned)
    ));
}

#[test]
fn parse_reads_what_serialize_wrote_on_this_machine() {
    let mut converter = Converter::new();
    converter.insert_function(Some("f"), Some(1), 1).unwrap();
    let mut sink: Vec<symcache::converter::serialize::SerializeError> = Vec::new();
    let mut buffer = Vec::new();
    converter.serialize(&mut buffer, &mut sink);
    assert!(sink.is_empty());
    assert_eq!(buffer.as_ptr() as usize % 8, 0);
    let cache: Format = SymCache::parse(&buffer).unwrap();
    assert_eq!(cache.function_count(), 1);
    assert_eq!(cache.version(), raw::SYMCACHE_VERSION);
    assert!(cache.is_latest());
    let function = cache.functions().next().unwrap();
    assert_eq!(function.name().unwrap(), Some("f"));
    assert_eq!(function.entry_pc(), 1);
    assert_eq!(function.language(), Language::C);
}

#[test]
fn header_is_checked_in_order() {
    let good = sample(ByteOrder::Little);
    assert!(SymCache::parse_with_byte_order(&good, ByteOrder::Little).is_ok());

    assert!(matches!(
        SymCache::parse_with_byte_order(&good[..63], ByteOrder::Little),
        Err(Error::HeaderTooSmall)
    ));
    assert!(matches!(
        SymCache::parse_with_byte_order(&good, ByteOrder::Big),
        Err(Error::WrongEndianness)
    ));
    let mut bad = good.clone();
    bad[0] = b'X';
    assert!(matches!(
        SymCache::parse_with_byte_order(&bad, ByteOrder::Little),
        Err(Error::WrongFormat)
    ));
    let mut bad = good.clone();
    bad[4] = 6;
    assert!(matches!(
        SymCache::parse_with_byte_order(&bad, ByteOrder::Little),
        Err(Error::WrongVersion)
    ));
    assert!(matches!(
        SymCache::parse_with_byte_order(&good[..good.len() - 8], ByteOrder::Little),
        Err(Error::BadFormatLength)
    ));
    let mut bad = good.clone();
    bad[24] = 4;
    assert!(matches!(
        SymCache::parse_with_byte_order(&bad, ByteOrder::Little),
        Err(Error::BadFormatLength)
    ));
    let mut longer = good.clone();
    longer.extend([1, 2, 3]);
    assert!(SymCache::parse_with_byte_order(&longer, ByteOrder::Little).is_ok());
}

#[test]
fn the_magic_spells_symc_in_little_endian() {
    let buffer = sample(ByteOrder::Little);
    assert_eq!(&buffer[..4], b"SYMC");
    assert_eq!(&buffer[4..8], &[7, 0, 0, 0]);
    assert_eq!(buffer.len() % 8, 0);
    let buffer = sample(ByteOrder::Big);
    assert_eq!(&buffer[..4], b"CMYS");
    assert_eq!(&buffer[4..8], &[0, 0, 0, 7]);
}

#[test]
fn both_byte_orders_read_back() {
    for order in [ByteOrder::Little, ByteOrder::Big] {
        let buffer = sample(order);
        let cache = SymCache::parse_with_byte_order(&buffer, order).unwrap();
        assert_eq!(cache.range_threshold(), 0x1000);
        assert_eq!(cache.arch(), Arch::Amd64);
        assert_eq!(
            cache.debug_id(),
            DebugId::from_uuid(Uuid::from_bytes([
                0xa1, 0xa2, 0xa3, 0xa4, 0xb1, 0xb2, 0xc1, 0xc2, 0xd1, 0xd2, 0xd3, 0xd4, 0xd5, 0xd6,
                0xd7, 0xd8,
            ]))
        );
        assert_eq!(cache.string_count(), 4);
        assert_eq!(cache.file_count(), 1);
        assert_eq!(cache.function_count(), 1);
        assert_eq!(cache.source_location_count(), 3);
        assert_eq!(cache.range_count(), 2);
        assert!(cache.has_line_info());
        assert!(cache.has_file_info());

        let mut files = cache.files();
        let file = files.next().unwrap();
        assert!(files.next().is_none());
        assert_eq!(file.path_name().unwrap(), Some("c/../d.rs"));
        assert_eq!(file.directory().unwrap(), Some("b"));
        assert_eq!(file.comp_dir().unwrap(), Some("/a"));
        assert_eq!(file.full_path().unwrap(), Some("/a/b/d.rs".to_string()));

        let mut functions = cache.functions();
        let function = functions.next().unwrap();
        assert!(functions.next().is_none());
        assert_eq!(function.name().unwrap(), Some("main"));
        assert_eq!(function.entry_pc(), 0x10);
        assert_eq!(function.language(), Language::Rust);

        let mut frames = cache.lookup(0x1015);
        let first = frames.next().unwrap().unwrap();
        assert_eq!(first.line(), 9);
        assert_eq!(first.function().unwrap().unwrap().entry_pc(), 0x10);
        let second = frames.next().unwrap().unwrap();
        assert_eq!(second.line(), 3);
        assert!(second.file().unwrap().is_some());
        assert!(frames.next().unwrap().is_none());
        assert!(frames.next().unwrap().is_none());

        let mut frames = cache.lookup(0x1020);
        let only = frames.next().unwrap().unwrap();
        assert!(only.file().unwrap().is_none());
        assert!(only.function().unwrap().is_none());
        assert!(frames.next().unwrap().is_none());

        assert!(cache.lookup(0x100f).next().unwrap().is_none());
        assert!(cache.lookup(0xfff).next().unwrap().is_none());
        assert!(cache.lookup(0).next().unwrap().is_none());
    }
}

fn cache_with(
    strings: &[(u32, u32)],
    files: &[(u32, u32, u32)],
    functions: &[(u32, u32, u8)],
    locations: &[(u32, u32, u32, u32)],
    ranges: &[u32],
    bytes: &[u8],
) -> Vec<u8> {
    let order = ByteOrder::Little;
    let mut out = Vec::new();
    write_u32(&mut out, raw::SYMCACHE_MAGIC, order);
    write_u32(&mut out, raw::SYMCACHE_VERSION, order);
    write_u32(&mut out, strings.len() as u32, order);
    write_u32(&mut out, files.len() as u32, order);
    write_u32(&mut out, functions.len() as u32, order);
    write_u32(&mut out, locations.len() as u32, order);
    write_u32(&mut out, ranges.len() as u32, order);
    write_u32(&mut out, bytes.len() as u32, order);
    write_u64(&mut out, 0, order);
    out.extend([0u8; 16]);
    write_u32(&mut out, 0, order);
    write_padding(&mut out, 60);
    for s in strings {
        write_u32(&mut out, s.0, order);
        write_u32(&mut out, s.1, order);
    }
    write_padding(&mut out, 8 * strings.len() as u64);
    for f in files {
        write_u32(&mut out, f.0, order);
        write_u32(&mut out, f.1, order);
        write_u32(&mut out, f.2, order);
    }
    write_padding(&mut out, 12 * files.len() as u64);
    for f in functions {
        write_u32(&mut out, f.0, order);
        write_u32(&mut out, f.1, order);
        out.extend([f.2, 0xaa, 0xbb, 0xcc]);
    }
    write_padding(&mut out, 12 * functions.len() as u64);
    for l in locations {
        write_u32(&mut out, l.0, order);
        write_u32(&mut out, l.1, order);
        write_u32(&mut out, l.2, order);
        write_u32(&mut out, l.3, order);
    }
    write_padding(&mut out, 16 * locations.len() as u64);
    for r in ranges {
        write_u32(&mut out, *r, order);
    }
    write_padding(&mut out, 4 * ranges.len() as u64);
    out.extend(bytes);
    out
}

#[test]
fn dangling_references_fail_where_they_are_followed() {
    let none = raw::NO_INDEX;
    let buffer = cache_with(
        &[(0, 3), (2, 9), (3, 2)],
        &[(none, none, 0), (7, none, 0), (none, 1, 0), (none, none, 2)],
        &[(0, 0, 0), (9, 0, 0)],
        &[
            (5, 1, none, none),
            (none, 1, 4, none),
            (none, 1, none, 11),
            (1, 1, 1, none),
            (2, 1, none, none),
            (3, 1, none, none),
        ],
        &[0, 1, 2, 3, 4, 5],
        &[b'a', b'.', b'c', 0xff, 0xfe],
    );
    let cache = SymCache::parse_with_byte_order(&buffer, ByteOrder::Little).unwrap();

    let frame = cache.lookup(0).next().unwrap().unwrap();
    assert!(matches!(frame.file(), Err(Error::InvalidFileReference(5))));
    assert!(matches!(frame.function(), Ok(None)));

    let frame = cache.lookup(1).next().unwrap().unwrap();
    assert!(matches!(
        frame.function(),
        Err(Error::InvalidFunctionReference(4))
    ));

    let mut frames = cache.lookup(2);
    assert!(frames.next().unwrap().is_some());
    assert!(matches!(
        frames.next(),
        Err(Error::InvalidSourceLocationReference(11))
    ));
    assert!(matches!(
        frames.next(),
        Err(Error::InvalidSourceLocationReference(11))
    ));

    let frame = cache.lookup(3).next().unwrap().unwrap();
    let file = frame.file().unwrap().unwrap();
    assert!(matches!(
        file.comp_dir(),
        Err(Error::InvalidStringReference(7))
    ));
    assert!(matches!(
        file.full_path(),
        Err(Error::InvalidStringReference(7))
    ));
    assert_eq!(file.path_name().unwrap(), Some("a.c"));
    let function = frame.function().unwrap().unwrap();
    assert!(matches!(
        function.name(),
        Err(Error::InvalidStringReference(9))
    ));

    let frame = cache.lookup(4).next().unwrap().unwrap();
    let file = frame.file().unwrap().unwrap();
    assert!(matches!(
        file.directory(),
        Err(Error::InvalidStringDataReference(2))
    ));
    assert!(matches!(
        file.full_path(),
        Err(Error::InvalidStringDataReference(2))
    ));

    let frame = cache.lookup(5).next().unwrap().unwrap();
    let file = frame.file().unwrap().unwrap();
    assert!(matches!(
        file.path_name(),
        Err(Error::InvalidStringData(3, _))
    ));
    assert!(matches!(
        file.full_path(),
        Err(Error::InvalidStringData(3, _))
    ));

    assert!(matches!(cache.get_string(none), Ok(None)));
    assert!(matches!(cache.get_file(none), Ok(None)));
    assert!(matches!(cache.get_function(none), Ok(None)));
    assert!(matches!(
        cache.get_file(4),
        Err(Error::InvalidFileReference(4))
    ));
    assert!(matches!(
        cache.get_function(2),
        Err(Error::InvalidFunctionReference(2))
    ));
    assert_eq!(cache.get_function(0).unwrap().unwrap().entry_pc(), 0);
}

#[test]
fn an_empty_path_is_no_path() {
    let none = raw::NO_INDEX;
    let buffer = cache_with(
        &[(0, 0), (0, 1)],
        &[(none, none, 0), (none, none, none), (1, 1, 1)],
        &[],
        &[(0, 0, none, none), (1, 0, none, none), (2, 0, none, none)],
        &[0, 1, 2],
        b".",
    );
    let cache = SymCache::parse_with_byte_order(&buffer, ByteOrder::Little).unwrap();
    for addr in 0..3 {
        let frame = cache.lookup(addr).next().unwrap().unwrap();
        let file = frame.file().unwrap().unwrap();
        assert_eq!(file.full_path().unwrap(), None);
    }
}

#[test]
fn paths_are_joined_from_the_right_and_cleaned() {
    let mut converter = Converter::new();
    let cases: [(&str, Option<&str>, Option<&str>, &str); 6] = [
        ("pthread.h", Some("/usr/include/"), Some("/home/me/"), "/usr/include/pthread.h"),
        ("src/./core.c", None, Some("/home/me/"), "/home/me/src/core.c"),
        ("d", Some("c"), Some("a\\b"), "a\\b\\c\\d"),
        ("/abs.c", Some("dir"), Some("/comp"), "/abs.c"),
        ("<stdin>", Some("dir"), Some("/comp"), "<stdin>"),
        ("x/../../y.c", None, None, "../y.c"),
    ];
    for (i, case) in cases.iter().enumerate() {
        let file = converter.insert_file(case.0, case.1, case.2).unwrap();
        assert_eq!(file as usize, i);
        assert!(converter.insert_range(
            i as u32,
            location(file, 1, raw::NO_INDEX, raw::NO_INDEX)
        ));
    }
    let mut buffer = Vec::new();
    converter.serialize_with_byte_order(&mut buffer, ByteOrder::Little);
    let cache = SymCache::parse_with_byte_order(&buffer, ByteOrder::Little).unwrap();
    for (i, case) in cases.iter().enumerate() {
        let frame = cache.lookup(i as u64).next().unwrap().unwrap();
        let file = frame.file().unwrap().unwrap();
        assert_eq!(file.full_path().unwrap().as_deref(), Some(case.3));
    }
}

#[test]
fn language_and_arch_tags_are_understood() {
    let mut converter = Converter::new();
    converter.set_arch(401);
    for lang in [0u8, 2, 8, 11, 12, 0xff] {
        converter.insert_function(None, Some(lang as u32), lang).unwrap();
    }
    let mut buffer = Vec::new();
    converter.serialize_with_byte_order(&mut buffer, ByteOrder::Big);
    let cache = SymCache::parse_with_byte_order(&buffer, ByteOrder::Big).unwrap();
    assert_eq!(cache.arch(), Arch::Arm64);
    assert_eq!(cache.debug_id(), DebugId::nil());
    let mut functions = cache.functions();
    let mut seen = Vec::new();
    while let Some(function) = functions.next() {
        assert_eq!(function.name().unwrap(), None);
        seen.push(function.language());
    }
    assert_eq!(
        seen,
        vec![
            Language::Unknown,
            Language::Cpp,
            Language::Swift,
            Language::FSharp,
            Language::Unknown,
            Language::Unknown
        ]
    );
}

#[test]
fn integers_are_written_in_either_order() {
    let mut out = Vec::new();
    write_u32(&mut out, 0x0102_0304, ByteOrder::Little);
    write_u32(&mut out, 0x0102_0304, ByteOrder::Big);
    write_u64(&mut out, 0x0102_0304_0506_0708, ByteOrder::Little);
    write_u64(&mut out, 0x0102_0304_0506_0708, ByteOrder::Big);
    assert_eq!(
        out,
        vec![
            4, 3, 2, 1, 1, 2, 3, 4, 8, 7, 6, 5, 4, 3, 2, 1, 1, 2, 3, 4, 5, 6, 7, 8
        ]
    );
    assert_eq!(read_u32(&out, 0, ByteOrder::Little), 0x0102_0304);
    assert_eq!(read_u32(&out, 0, ByteOrder::Big), 0x0403_0201);
    assert_eq!(read_u32(&out, 4, ByteOrder::Big), 0x0102_0304);
    assert_eq!(read_u64(&out, 8, ByteOrder::Little), 0x0102_0304_0506_0708);
    assert_eq!(read_u64(&out, 16, ByteOrder::Big), 0x0102_0304_0506_0708);
    assert_eq!(read_u64(&out, 16, ByteOrder::Little), 0x0807_0605_0403_0201);
    let native = 0x0102_0304u32.to_ne_bytes();
    let mut written = Vec::new();
    write_u32(&mut written, 0x0102_0304, native_order());
    assert_eq!(written, native);
}

#[test]
fn padding_fills_up_to_eight() {
    for (len, pad) in [(0u64, 0usize), (1, 7), (7, 1), (8, 0), (9, 7), (60, 4)] {
        let mut out = vec![1u8];
        write_padding(&mut out, len);
        assert_eq!(out.len(), 1 + pad);
        assert!(out[1..].iter().all(|b| *b == 0));
    }
}

#[test]
fn relative_addresses_have_32_bits() {
    assert_eq!(offset_address(0x10, 0xf), None);
    assert_eq!(offset_address(0x10, 0x10), Some(0));
    assert_eq!(offset_address(0x10, 0x1_0000_000f), Some(0xffff_ffff));
    assert_eq!(offset_address(0x10, 0x1_0000_0010), None);
    assert_eq!(offset_address(0, u64::MAX), None);
    assert_eq!(offset_address(u64::MAX, u64::MAX), Some(0));
}

#[test]
fn a_vector_keeps_the_errors_that_are_raised() {
    let mut sink: Vec<u32> = Vec::new();
    sink.raise_error(3);
    sink.raise_error(1);
    assert_eq!(sink, vec![3, 1]);
}

#[test]
fn errors_are_raised_in_their_order() {
    let mut sink: Vec<u32> = vec![9];
    raise_all(vec![3, 1, 2], &mut sink);
    assert_eq!(sink, vec![9, 3, 1, 2]);
    raise_all(Vec::new(), &mut sink);
    assert_eq!(sink, vec![9, 3, 1, 2]);
}

#[test]
fn the_bytes_of_one_show_the_byte_order() {
    assert_eq!(order_of_one([1, 0, 0, 0]), ByteOrder::Little);
    assert_eq!(order_of_one([0, 0, 0, 1]), ByteOrder::Big);
    assert_eq!(order_of_one([1, 0, 0, 1]), ByteOrder::Big);
    assert_eq!(order_of_one(1u32.to_ne_bytes()), native_order());
}

#[test]
fn multiples_of_eight_are_told_apart() {
    assert!(is_multiple_of_eight(0));
    assert!(is_multiple_of_eight(8));
    assert!(is_multiple_of_eight(usize::MAX - 7));
    assert!(!is_multiple_of_eight(1));
    assert!(!is_multiple_of_eight(12));
    assert!(!is_multiple_of_eight(usize::MAX));
}

#[test]
fn a_buffer_that_is_not_aligned_is_refused_whatever_it_holds() {
    let good = sample(ByteOrder::Little);
    for address in [1usize, 4, 7, 9, usize::MAX] {
        assert!(matches!(
            SymCache::parse_at(&good, address, ByteOrder::Little),
            Err(Error::BufferNotAligned)
        ));
        assert!(matches!(
            SymCache::parse_at(&[], address, ByteOrder::Little),
            Err(Error::BufferNotAligned)
        ));
    }
    for address in [0usize, 8, 4096] {
        let cache = SymCache::parse_at(&good, address, ByteOrder::Little).unwrap();
        assert_eq!(cache.range_count(), 2);
        assert!(matches!(
            SymCache::parse_at(&good, address, ByteOrder::Big),
            Err(Error::WrongEndianness)
        ));
        assert!(matches!(
            SymCache::parse_at(&[], address, ByteOrder::Little),
            Err(Error::HeaderTooSmall)
        ));
    }
}
