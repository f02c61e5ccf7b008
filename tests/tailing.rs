use log_tail::dispatch::{Action, Dispatcher, Phase, RawLogData};
use log_tail::events::{normalize, Change, EntryKind, NativeKind, WatchEvent};
use log_tail::lines::split_complete_lines;
use log_tail::registry::CursorRegistry;
use log_tail::tail::tail_read;

fn s(x: &str) -> String {
    x.to_string()
}

fn event(change: Change, path: &str) -> WatchEvent {
    WatchEvent { change, path: s(path) }
}

/// Reads `path` of `file` the way the driver does: from the cursor's offset.
fn read(d: &mut Dispatcher<u32>, path: &str, file: &[u8]) -> Option<RawLogData> {
    let p = s(path);
    let pos = d.registry().offset(&p).unwrap_or(0) as usize;
    let chunk: &[u8] = if pos < file.len() { &file[pos..] } else { &[] };
    d.on_read(&p, file.len() as u64, chunk)
}

fn running(files: &[&str]) -> Dispatcher<u32> {
    let mut d: Dispatcher<u32> = Dispatcher::new();
    for (i, f) in files.iter().enumerate() {
        d.seed(s(f), i as u32);
    }
    d.start();
    d
}

#[test]
fn split_keeps_partial_tail() {
    let (lines, used) = split_complete_lines(b"a\nbc\nde");
    assert_eq!(lines, vec![s("a"), s("bc")]);
    assert_eq!(used, 5);
}

#[test]
fn split_strips_carriage_return() {
    let (lines, used) = split_complete_lines(b"a\r\n\r\nb\n");
    assert_eq!(lines, vec![s("a"), s(""), s("b")]);
    assert_eq!(used, 7);
}

#[test]
fn split_without_newline_is_empty() {
    let (lines, used) = split_complete_lines(b"partial");
    assert!(lines.is_empty());
    assert_eq!(used, 0);
    let (lines, used) = split_complete_lines(b"");
    assert!(lines.is_empty());
    assert_eq!(used, 0);
}

#[test]
fn split_replaces_invalid_utf8() {
    let (lines, used) = split_complete_lines(&[0xff, b'x', b'\n']);
    assert_eq!(lines, vec![s("\u{FFFD}x")]);
    assert_eq!(used, 3);
}

#[test]
fn split_decodes_multibyte_text() {
    let (lines, _) = split_complete_lines("é€\n".as_bytes());
    assert_eq!(lines, vec![s("é€")]);
}

#[test]
fn tail_read_stops_at_observed_length() {
    let (lines, next) = tail_read(2, 6, b"b\nc\nd\n");
    assert_eq!(lines, vec![s("b"), s("c")]);
    assert_eq!(next, 6);
}

#[test]
fn tail_read_on_shorter_file_is_noop() {
    let (lines, next) = tail_read(10, 4, b"");
    assert!(lines.is_empty());
    assert_eq!(next, 10);
    let (lines, next) = tail_read(4, 4, b"x\n");
    assert!(lines.is_empty());
    assert_eq!(next, 4);
}

#[test]
fn tail_read_rejoins_split_character() {
    let bytes = "ab€\n".as_bytes();
    let (lines, next) = tail_read(0, 4, &bytes[..4]);
    assert!(lines.is_empty());
    assert_eq!(next, 0);
    let (lines, next) = tail_read(0, bytes.len() as u64, bytes);
    assert_eq!(lines, vec![s("ab€")]);
    assert_eq!(next, bytes.len() as u64);
}

#[test]
fn idempotent_second_read_is_empty() {
    let mut d = running(&["f.log"]);
    let file = b"one\ntwo\npart";
    let first = read(&mut d, "f.log", file).unwrap();
    assert_eq!(first.lines, vec![s("one"), s("two")]);
    assert_eq!(d.registry().offset(&s("f.log")), Some(8));
    assert!(read(&mut d, "f.log", file).is_none());
    assert_eq!(d.registry().offset(&s("f.log")), Some(8));
}

#[test]
fn exact_append_delivery() {
    let mut d = running(&["f.log"]);
    assert!(read(&mut d, "f.log", b"").is_none());
    let b = read(&mut d, "f.log", b"L1\nL2\n").unwrap();
    assert_eq!(b.lines, vec![s("L1"), s("L2")]);
    assert_eq!(d.registry().offset(&s("f.log")), Some(6));
    assert!(read(&mut d, "f.log", b"L1\nL2\nP").is_none());
    assert_eq!(d.registry().offset(&s("f.log")), Some(6));
    let b = read(&mut d, "f.log", b"L1\nL2\nPX\n").unwrap();
    assert_eq!(b.lines, vec![s("PX")]);
    assert_eq!(d.registry().offset(&s("f.log")), Some(9));
}

#[test]
fn offset_is_monotonic_and_bounded() {
    let mut d = running(&["f.log"]);
    let growth: [&[u8]; 5] = [b"a", b"ab\n", b"ab\ncd", b"ab\ncd\n", b"ab\ncd\nef\ng"];
    let mut last: u64 = 0;
    for file in growth.iter() {
        read(&mut d, "f.log", file);
        let now = d.registry().offset(&s("f.log")).unwrap();
        assert!(now >= last);
        assert!(now <= file.len() as u64);
        last = now;
    }
    assert_eq!(last, 9);
}

#[test]
fn new_file_detection() {
    let mut d = running(&[]);
    match d.on_event(&event(Change::Created, "foo.log")) {
        Action::Open(p) => assert_eq!(p, "foo.log"),
        other => panic!("unexpected action {:?}", other),
    }
    d.on_opened(s("foo.log"), 7);
    let b = read(&mut d, "foo.log", b"A\nB\n").unwrap();
    assert_eq!(b.path, "foo.log");
    assert_eq!(b.lines, vec![s("A"), s("B")]);
    assert!(read(&mut d, "foo.log", b"A\nB\n").is_none());
}

#[test]
fn removal_correctness() {
    let mut d = running(&["a.log"]);
    assert!(read(&mut d, "a.log", b"x\n").is_some());
    assert!(matches!(d.on_event(&event(Change::Removed, "a.log")), Action::Ignore));
    assert!(!d.registry().contains(&s("a.log")));
    assert!(matches!(d.on_event(&event(Change::Modified, "a.log")), Action::Ignore));
    assert!(read(&mut d, "a.log", b"x\ny\n").is_none());
    assert!(matches!(d.on_event(&event(Change::Removed, "a.log")), Action::Ignore));
    assert!(!d.registry().contains(&s("a.log")));
}

#[test]
fn multi_file_independence() {
    let mut d = running(&["a.log", "b.log"]);
    assert!(matches!(d.on_event(&event(Change::Modified, "a.log")), Action::Read(_)));
    let a = read(&mut d, "a.log", b"a1\na2\n").unwrap();
    let b = read(&mut d, "b.log", b"b1\n").unwrap();
    assert_eq!(a.path, "a.log");
    assert_eq!(a.lines, vec![s("a1"), s("a2")]);
    assert_eq!(b.path, "b.log");
    assert_eq!(b.lines, vec![s("b1")]);
    assert_eq!(d.registry().offset(&s("a.log")), Some(6));
    assert_eq!(d.registry().offset(&s("b.log")), Some(3));
}

#[test]
fn end_to_end() {
    let mut d: Dispatcher<u32> = Dispatcher::new();
    assert_eq!(d.phase(), Phase::Initializing);
    d.seed(s("a.log"), 1);
    let initial = d.start();
    assert_eq!(initial, vec![s("a.log")]);
    assert_eq!(d.phase(), Phase::Running);
    let b = read(&mut d, "a.log", b"X\n").unwrap();
    assert_eq!((b.path.as_str(), b.lines.clone()), ("a.log", vec![s("X")]));

    assert!(matches!(d.on_event(&event(Change::Modified, "a.log")), Action::Read(_)));
    let b = read(&mut d, "a.log", b"X\nY\n").unwrap();
    assert_eq!((b.path.as_str(), b.lines.clone()), ("a.log", vec![s("Y")]));

    assert!(matches!(d.on_event(&event(Change::Created, "b.log")), Action::Open(_)));
    d.on_opened(s("b.log"), 2);
    let b = read(&mut d, "b.log", b"Z\n").unwrap();
    assert_eq!((b.path.as_str(), b.lines.clone()), ("b.log", vec![s("Z")]));

    d.on_event(&event(Change::Removed, "a.log"));
    assert!(matches!(d.on_event(&event(Change::Modified, "a.log")), Action::Ignore));
    assert!(read(&mut d, "a.log", b"X\nY\nW\n").is_none());

    d.stop();
    assert_eq!(d.phase(), Phase::Stopped);
    assert!(!d.registry().contains(&s("b.log")));
}

#[test]
fn created_again_restarts_from_zero() {
    let mut d = running(&["a.log"]);
    read(&mut d, "a.log", b"old\n");
    d.on_opened(s("a.log"), 9);
    assert_eq!(d.registry().offset(&s("a.log")), Some(0));
    assert_eq!(d.registry().handle(&s("a.log")), Some(&9));
    let b = read(&mut d, "a.log", b"new\n").unwrap();
    assert_eq!(b.lines, vec![s("new")]);
}

#[test]
fn registry_insert_and_remove() {
    let mut r: CursorRegistry<u32> = CursorRegistry::new();
    assert_eq!(r.insert(s("x"), 1), None);
    assert_eq!(r.insert(s("y"), 2), None);
    assert_eq!(r.insert(s("x"), 3), Some(1));
    assert_eq!(r.paths(), vec![s("x"), s("y")]);
    assert_eq!(r.remove(&s("x")), Some(3));
    assert_eq!(r.remove(&s("x")), None);
    assert_eq!(r.paths(), vec![s("y")]);
    assert_eq!(r.advance(&s("y"), 2, b"q\n"), vec![s("q")]);
    assert_eq!(r.offset(&s("y")), Some(2));
    assert!(r.advance(&s("z"), 2, b"q\n").is_empty());
}

#[test]
fn normalize_keeps_acted_on_kinds() {
    let ev = normalize(NativeKind::Create(EntryKind::File), vec![s("a"), s("b")]);
    assert_eq!(ev.len(), 2);
    assert_eq!(ev[0].change, Change::Created);
    assert_eq!(ev[1].path, "b");
    let ev = normalize(NativeKind::ModifyData, vec![s("a")]);
    assert_eq!(ev[0].change, Change::Modified);
    let ev = normalize(NativeKind::Remove(EntryKind::Any), vec![s("a")]);
    assert_eq!(ev[0].change, Change::Removed);
}

#[test]
fn normalize_discards_other_kinds() {
    for kind in [
        NativeKind::Any,
        NativeKind::Access,
        NativeKind::Create(EntryKind::Folder),
        NativeKind::ModifyMetadata,
        NativeKind::ModifyName,
        NativeKind::ModifyOther,
        NativeKind::Remove(EntryKind::Folder),
        NativeKind::Other,
    ] {
        assert!(normalize(kind, vec![s("a")]).is_empty());
    }
}
