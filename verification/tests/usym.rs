use symcache::format::bytes::{write_u32, write_u64, ByteOrder};
use symcache::usym::{UsymError, UsymSymbols};

fn string(strings: &mut Vec<u8>, s: &[u8]) -> u32 {
    let offset = strings.len() as u32;
    strings.extend((s.len() as u16).to_le_bytes());
    strings.extend(s);
    offset
}

fn usym(order: ByteOrder, records: &[(u64, &[u8], &[u8], u32)]) -> Vec<u8> {
    let mut strings = Vec::new();
    let id = string(&mut strings, b"153d10d10db033d6aacda4e1948da97b");
    let name = string(&mut strings, b"UnityFramework");
    let os = string(&mut strings, b"mac");
    let arch = string(&mut strings, b"arm64");
    let mut out = Vec::new();
    out.extend(b"usym");
    write_u32(&mut out, 2, order);
    write_u32(&mut out, records.len() as u32, order);
    write_u32(&mut out, id, order);
    write_u32(&mut out, name, order);
    write_u32(&mut out, os, order);
    write_u32(&mut out, arch, order);
    for record in records {
        write_u64(&mut out, record.0, order);
        write_u32(&mut out, string(&mut strings, record.1), order);
        write_u32(&mut out, string(&mut strings, record.2), order);
        write_u32(&mut out, record.3, order);
        out.extend([0u8; 16]);
    }
    out.extend(strings);
    out
}

fn records() -> Vec<(u64, &'static [u8], &'static [u8], u32)> {
    vec![
        (0x100, b"first", b"a.cs", 1),
        (0x200, b"second", b"b.cs", 2),
        (0x300, b"th\xffrd", b"c.cs", 3),
    ]
}

#[test]
fn header_strings_are_read() {
    for order in [ByteOrder::Little, ByteOrder::Big] {
        let data = usym(order, &records());
        let usyms = UsymSymbols::parse_with_byte_order(&data, order).unwrap();
        assert_eq!(usyms.version(), 2);
        assert_eq!(usyms.id(), "153d10d10db033d6aacda4e1948da97b");
        assert_eq!(usyms.name(), "UnityFramework");
        assert_eq!(usyms.os(), "mac");
        assert_eq!(usyms.arch(), "arm64");
        assert_eq!(usyms.record_count(), 3);
        assert_eq!(usyms.record_address(1), 0x200);
    }
}

#[test]
fn records_are_found_by_index_and_by_address() {
    let data = usym(ByteOrder::Little, &records());
    let usyms = UsymSymbols::parse_with_byte_order(&data, ByteOrder::Little).unwrap();
    let record = usyms.get_record(1).unwrap();
    assert_eq!(record.address, 0x200);
    assert_eq!(record.symbol, "second");
    assert_eq!(record.file, "b.cs");
    assert_eq!(record.line, 2);
    assert!(usyms.get_record(3).is_none());

    assert!(usyms.lookup_source_record(0xff).is_none());
    assert_eq!(usyms.lookup_source_record(0x100).unwrap().symbol, "first");
    assert_eq!(usyms.lookup_source_record(0x1ff).unwrap().symbol, "first");
    assert_eq!(usyms.lookup_source_record(0x200).unwrap().line, 2);
    let last = usyms.lookup_source_record(u64::MAX).unwrap();
    assert_eq!(last.symbol, "th\u{fffd}rd");
    assert_eq!(last.file, "c.cs");

    assert_eq!(usyms.get_string(0).as_deref(), Some("153d10d10db033d6aacda4e1948da97b"));
    assert_eq!(usyms.get_string(1), None);
    assert_eq!(usyms.get_string(usize::MAX), None);
    assert_eq!(
        UsymSymbols::get_string_from_offset(&[9, 1, 0, b'x'], 1, 0).as_deref(),
        Some("x")
    );
    assert_eq!(UsymSymbols::get_string_from_offset(&[9, 2, 0, b'x'], 1, 0), None);
}

#[test]
fn a_file_without_records_finds_nothing() {
    let data = usym(ByteOrder::Little, &[]);
    let usyms = UsymSymbols::parse_with_byte_order(&data, ByteOrder::Little).unwrap();
    assert!(usyms.lookup_source_record(0).is_none());
    assert!(usyms.get_record(0).is_none());
}

#[test]
fn bad_files_are_refused() {
    let order = ByteOrder::Little;
    let good = usym(order, &records());
    let parse = |data: &[u8]| UsymSymbols::parse_with_byte_order(data, order).err();
    assert_eq!(parse(&good[..27]), Some(UsymError::HeaderTooSmall));
    assert_eq!(parse(&[]), Some(UsymError::HeaderTooSmall));
    let mut bad = good.clone();
    bad[3] = b'n';
    assert_eq!(parse(&bad), Some(UsymError::WrongMagic));
    let mut bad = good.clone();
    bad[4] = 3;
    assert_eq!(parse(&bad), Some(UsymError::UnknownVersion));
    assert_eq!(parse(&good[..28 + 36 * 3 - 1]), Some(UsymError::TooFewRecords));
    assert_eq!(parse(&good[..28 + 36 * 3 + 1]), Some(UsymError::NoId));
    assert_eq!(parse(&good[..28 + 36 * 3 + 34]), Some(UsymError::NoName));
    assert_eq!(parse(&good[..28 + 36 * 3 + 34 + 16]), Some(UsymError::NoOs));
    assert_eq!(parse(&good[..28 + 36 * 3 + 34 + 16 + 5]), Some(UsymError::NoArch));
    assert_eq!(parse(&good[..28 + 36 * 3 + 34 + 16 + 5 + 7]), None);
    let strings = 28 + 36 * 3;
    for (at, error) in [
        (2, UsymError::IdNotUtf8),
        (36, UsymError::NameNotUtf8),
        (52, UsymError::OsNotUtf8),
        (57, UsymError::ArchNotUtf8),
    ] {
        let mut bad = good.clone();
        bad[strings + at] = 0xff;
        assert_eq!(parse(&bad), Some(error));
    }
    assert_eq!(
        UsymSymbols::parse_with_byte_order(&good, ByteOrder::Big).err(),
        Some(UsymError::UnknownVersion)
    );
}

#[test]
fn parse_wants_an_aligned_buffer() {
    let order = symcache::format::bytes::native_order();
    let mut data = vec![0u8];
    data.extend(usym(order, &records()));
    let aligned = if data.as_ptr() as usize % 8 == 0 { 0 } else { 1 };
    assert_eq!(
        UsymSymbols::parse(&data[1 - aligned..]).err(),
        Some(UsymError::NotAligned)
    );
    let data = usym(order, &records());
    if data.as_ptr() as usize % 8 == 0 {
        assert_eq!(UsymSymbols::parse(&data).unwrap().name(), "UnityFramework");
    }
}

#[test]
fn parse_at_refuses_an_address_that_is_not_a_multiple_of_eight() {
    let order = ByteOrder::Big;
    let data = usym(order, &records());
    assert_eq!(
        UsymSymbols::parse_at(&data, 12, order).err(),
        Some(UsymError::NotAligned)
    );
    assert_eq!(
        UsymSymbols::parse_at(&[], 1, order).err(),
        Some(UsymError::NotAligned)
    );
    assert_eq!(UsymSymbols::parse_at(&data, 16, order).unwrap().os(), "mac");
    assert_eq!(
        UsymSymbols::parse_at(&[], 16, order).err(),
        Some(UsymError::HeaderTooSmall)
    );
}
