use ringlog::adapter::RecordAdapter;
use ringlog::ring::RingStore;

fn adapter(capacity: usize) -> RecordAdapter {
    RecordAdapter::new(RingStore::new(capacity))
}

#[test]
fn open_never_fails() {
    let a = adapter(10);
    assert!(a.handle_open().is_ok());
}

#[test]
fn fresh_store_reads_nothing() {
    let mut a = adapter(10);
    let out = a.handle_read(100, 0).unwrap();
    assert_eq!(out.len(), 0);
}

#[test]
fn empty_writes_read_nothing() {
    let mut a = adapter(10);
    for _ in 0..5 {
        assert_eq!(a.handle_write(&[], 0).unwrap(), 0);
    }
    let out = a.handle_read(100, 0).unwrap();
    assert_eq!(out.len(), 0);
}

#[test]
fn unsealed_record_is_visible_to_read() {
    // Before any delimiter arrives, both cursors rest on the same slot, so a
    // read sees the record still under construction.
    let mut a = adapter(10);
    assert_eq!(a.handle_write(b"abc", 0).unwrap(), 3);
    let out = a.handle_read(100, 0).unwrap();
    assert_eq!(out, b"abc".to_vec());
}

#[test]
fn hello_round_trip_exact_capacity() {
    let mut a = adapter(10);
    assert_eq!(a.handle_write(b"hello\n", 0).unwrap(), 6);
    let out = a.handle_read(6, 0).unwrap();
    assert_eq!(out, b"hello\n".to_vec());
}

#[test]
fn full_read_includes_terminator() {
    // With room for the whole slot, the read also returns the terminator
    // byte the seal appended.
    let mut a = adapter(10);
    assert_eq!(a.handle_write(b"hello\n", 0).unwrap(), 6);
    let out = a.handle_read(100, 0).unwrap();
    assert_eq!(out, b"hello\n\0".to_vec());
}

#[test]
fn write_count_excludes_terminator() {
    let mut a = adapter(10);
    assert_eq!(a.handle_write(b"one\n", 0).unwrap(), 4);
}

#[test]
fn multiple_delimiters_seal_once() {
    // Two newlines in one payload still make a single record.
    let mut a = adapter(10);
    assert_eq!(a.handle_write(b"a\nb\n", 0).unwrap(), 4);
    let out = a.handle_read(100, 0).unwrap();
    assert_eq!(out, b"a\nb\n\0".to_vec());
    let out = a.handle_read(100, 0).unwrap();
    assert_eq!(out.len(), 0);
}

#[test]
fn short_read_returns_prefix_and_does_not_advance() {
    // A capacity smaller than the record returns its front and leaves the
    // cursor where it was: the same prefix comes back again and again.
    let mut a = adapter(10);
    a.handle_write(b"hello\n", 0).unwrap();
    let first = a.handle_read(2, 0).unwrap();
    assert_eq!(first, b"he".to_vec());
    let second = a.handle_read(2, 0).unwrap();
    assert_eq!(second, b"he".to_vec());
    // A wide enough read still gets the whole record afterward.
    let full = a.handle_read(100, 0).unwrap();
    assert_eq!(full, b"hello\n\0".to_vec());
}

#[test]
fn round_trip_consumes_record() {
    let mut a = adapter(10);
    a.handle_write(b"hi\n", 0).unwrap();
    let out = a.handle_read(4, 0).unwrap();
    assert_eq!(out, b"hi\n\0".to_vec());
    let next = a.handle_read(4, 0).unwrap();
    assert_eq!(next.len(), 0);
}

#[test]
fn record_built_across_writes() {
    let mut a = adapter(10);
    assert_eq!(a.handle_write(b"he", 0).unwrap(), 2);
    assert_eq!(a.handle_write(b"llo\n", 0).unwrap(), 4);
    let out = a.handle_read(100, 0).unwrap();
    assert_eq!(out, b"hello\n\0".to_vec());
}

#[test]
fn overfilling_evicts_oldest() {
    // Three slots, four sealed records: the first two records are gone (one
    // slot always stands empty for the record under construction), and no
    // read ever returns their bytes.
    let mut a = adapter(3);
    a.handle_write(b"a\n", 0).unwrap();
    a.handle_write(b"b\n", 0).unwrap();
    a.handle_write(b"c\n", 0).unwrap();
    a.handle_write(b"d\n", 0).unwrap();
    let mut seen: Vec<Vec<u8>> = Vec::new();
    for _ in 0..6 {
        let out = a.handle_read(100, 0).unwrap();
        if !out.is_empty() {
            seen.push(out);
        }
    }
    assert_eq!(seen, vec![b"c\n\0".to_vec(), b"d\n\0".to_vec()]);
    assert!(!seen.contains(&b"a\n\0".to_vec()));
    assert!(!seen.contains(&b"b\n\0".to_vec()));
}

#[test]
fn filling_exactly_evicts_first() {
    // As many sealed records as slots: sealing the last one wraps the write
    // cursor onto the first record's slot and clears it.
    let mut a = adapter(3);
    a.handle_write(b"a\n", 0).unwrap();
    a.handle_write(b"b\n", 0).unwrap();
    a.handle_write(b"c\n", 0).unwrap();
    let mut seen: Vec<Vec<u8>> = Vec::new();
    for _ in 0..5 {
        let out = a.handle_read(100, 0).unwrap();
        if !out.is_empty() {
            seen.push(out);
        }
    }
    assert_eq!(seen, vec![b"b\n\0".to_vec(), b"c\n\0".to_vec()]);
}

#[test]
fn single_slot_store_keeps_nothing() {
    // With one slot the seal immediately clears the record it just wrote.
    let mut a = adapter(1);
    a.handle_write(b"x\n", 0).unwrap();
    let out = a.handle_read(100, 0).unwrap();
    assert_eq!(out.len(), 0);
}

#[test]
fn zero_capacity_read_returns_nothing_and_keeps_record() {
    let mut a = adapter(10);
    a.handle_write(b"x\n", 0).unwrap();
    let out = a.handle_read(0, 0).unwrap();
    assert_eq!(out.len(), 0);
    let out = a.handle_read(100, 0).unwrap();
    assert_eq!(out, b"x\n\0".to_vec());
}

#[test]
fn offset_argument_is_ignored_for_seeking() {
    let mut a = adapter(10);
    assert_eq!(a.handle_write(b"hello\n", 42).unwrap(), 6);
    let out = a.handle_read(100, 7).unwrap();
    assert_eq!(out, b"hello\n\0".to_vec());
}

#[test]
fn append_reports_bytes_accepted() {
    let mut s = RingStore::new(4);
    assert_eq!(s.append(b"abc"), 3);
    assert_eq!(s.append(b""), 0);
}

#[test]
fn sealed_empty_record_reads_terminator_only() {
    // A payload that is just the delimiter seals a one-byte record: the
    // newline, then the terminator.
    let mut a = adapter(10);
    assert_eq!(a.handle_write(b"\n", 0).unwrap(), 1);
    let out = a.handle_read(100, 0).unwrap();
    assert_eq!(out, b"\n\0".to_vec());
}
