use gobridge::intern::InternTable;

#[test]
fn intern_idempotent_same_view() {
    let mut t = InternTable::new();
    let v1 = t.intern(b"sda");
    let v2 = t.intern(b"sda");
    assert_eq!(v1, v2);
    assert_eq!(v1.len, 3);
    assert_eq!(t.entry_count(), 1);
}

#[test]
fn distinct_contents_distinct_views() {
    let mut t = InternTable::new();
    let v1 = t.intern(b"sda");
    let v2 = t.intern(b"sdb");
    assert_ne!(v1.id, v2.id);
    assert_eq!(t.entry_count(), 2);
}

#[test]
fn lookup_miss_then_hit() {
    let mut t = InternTable::new();
    assert!(t.lookup(b"nvme0n1").is_none());
    let v = t.intern(b"nvme0n1");
    let found = t.lookup(b"nvme0n1");
    assert_eq!(found, Some(v));
}

#[test]
fn resolve_returns_stored_bytes() {
    let mut t = InternTable::new();
    let v = t.intern(b"mmcblk0");
    assert_eq!(t.resolve(v.id).as_slice(), b"mmcblk0");
}

#[test]
fn interning_many_times_one_copy() {
    let mut t = InternTable::new();
    let first = t.intern(b"eth0");
    for _ in 0..100 {
        let again = t.intern(b"eth0");
        assert_eq!(again, first);
    }
    assert_eq!(t.entry_count(), 1);
}

#[test]
fn intern_invalid_bytes_never_aborts() {
    let mut t = InternTable::new();
    let v = t.intern(&[0xff, b'a']);
    assert_eq!(v.len, 4);
    assert_eq!(t.resolve(v.id).as_slice(), &[0xef, 0xbf, 0xbd, b'a']);
}

#[test]
fn replacement_applied_exactly_once() {
    // An ill-formed byte and the replacement character's own encoding intern
    // to the same entry: a second replacement pass would have split them.
    let mut t = InternTable::new();
    let v1 = t.intern(&[0xff]);
    let v2 = t.intern(&[0xef, 0xbf, 0xbd]);
    assert_eq!(v1, v2);
    assert_eq!(t.entry_count(), 1);
}
