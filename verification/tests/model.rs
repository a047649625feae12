use symcache::dwarf_converter::{DwarfDie, LineProgramRow, NewSymCache};

fn frames(symcache: &NewSymCache, addr: u32) -> Vec<(String, String, u32)> {
    let mut iter = symcache.lookup(addr);
    let mut frames = Vec::new();
    while let Some(frame) = iter.next() {
        frames.push((
            frame.function_name().unwrap().to_string(),
            frame.file_name().unwrap().to_string(),
            frame.line().unwrap(),
        ));
    }
    frames
}

fn frame(function: &str, file: &str, line: u32) -> (String, String, u32) {
    (function.to_string(), file.to_string(), line)
}

#[test]
fn how_symcache_should_work() {
    let line_program = &[
        LineProgramRow {
            addr: 0,
            file: "main.c".into(),
            line: 10,
        },
        LineProgramRow {
            addr: 1,
            file: "a.c".into(),
            line: 12,
        },
        LineProgramRow {
            addr: 2,
            file: "b.c".into(),
            line: 14,
        },
    ];
    let dwarf_dies = &[
        DwarfDie::Subprogram {
            function: "main".into(),
            range: 0..3,
        },
        DwarfDie::InlinedSubroutine {
            function: "call_a".into(),
            range: 1..3,
            call_file: "main.c".into(),
            call_line: 11,
        },
        DwarfDie::InlinedSubroutine {
            function: "call_b".into(),
            range: 2..3,
            call_file: "a.c".into(),
            call_line: 13,
        },
    ];

    let symcache = NewSymCache::construct(line_program, dwarf_dies);

    assert_eq!(frames(&symcache, 0), vec![frame("main", "main.c", 10)]);
    assert_eq!(
        frames(&symcache, 1),
        vec![frame("call_a", "a.c", 12), frame("main", "main.c", 11)]
    );
    assert_eq!(
        frames(&symcache, 2),
        vec![
            frame("call_b", "b.c", 14),
            frame("call_a", "a.c", 13),
            frame("main", "main.c", 11)
        ]
    );
    for addr in 0..3 {
        assert!(!frames(&symcache, addr).is_empty());
    }
}

#[test]
fn lookup_behind_the_last_range_finds_nothing() {
    let line_program = &[LineProgramRow {
        addr: 4,
        file: "main.c".into(),
        line: 1,
    }];
    let symcache = NewSymCache::construct(line_program, &[]);
    assert!(frames_or_none(&symcache, 5));
    assert!(!frames_or_none(&symcache, 4));
    assert!(!frames_or_none(&symcache, 0));
}

fn frames_or_none(symcache: &NewSymCache, addr: u32) -> bool {
    symcache.lookup(addr).next().is_none()
}

#[test]
fn a_die_that_reaches_beyond_the_rows_is_cut() {
    let line_program = &[LineProgramRow {
        addr: 0,
        file: "main.c".into(),
        line: 1,
    }];
    let dies = &[DwarfDie::Subprogram {
        function: "main".into(),
        range: 0..10,
    }];
    let symcache = NewSymCache::construct(line_program, dies);
    assert_eq!(frames(&symcache, 0), vec![frame("main", "main.c", 1)]);
}

#[test]
fn add_file_is_idempotent() {
    let mut symcache = NewSymCache::construct(&[], &[]);
    assert_eq!(symcache.add_file("a.c".to_string()), 0);
    assert_eq!(symcache.add_file("b.c".to_string()), 1);
    assert_eq!(symcache.add_file("a.c".to_string()), 0);
    assert_eq!(symcache.add_function("f".to_string()), 0);
    assert_eq!(symcache.add_function("f".to_string()), 0);
    assert_eq!(symcache.add_function("g".to_string()), 1);
}
