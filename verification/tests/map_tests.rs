use gobridge::descriptor::{MapTypeDescriptor, TypeDescriptor};
use gobridge::hostmap::{map_insert, HostMap};
use gobridge::intern::InternTable;

fn map_type(key_size: usize, elem_size: usize) -> MapTypeDescriptor {
    MapTypeDescriptor {
        key: TypeDescriptor { size: key_size, align: 8, kind: 0 },
        elem: TypeDescriptor { size: elem_size, align: 8, kind: 0 },
    }
}

#[test]
fn insert_overwrites_prior_value() {
    let mut m: HostMap<u64> = HostMap::new();
    m.insert(5, 10);
    m.insert(5, 20);
    assert_eq!(m.get(5), Some(&20));
    assert_eq!(m.len(), 1);
}

#[test]
fn insert_distinct_keys_coexist() {
    let mut m: HostMap<u64> = HostMap::new();
    m.insert(1, 100);
    m.insert(2, 200);
    assert_eq!(m.get(1), Some(&100));
    assert_eq!(m.get(2), Some(&200));
    assert_eq!(m.get(3), None);
    assert_eq!(m.len(), 2);
}

#[test]
fn bridge_insert_forwards_pair() {
    let mut t = InternTable::new();
    let key = t.intern(b"/");
    let mut m: HostMap<u64> = HostMap::new();
    let ok = map_insert(&mut m, &map_type(16, 8), key, 42, 8);
    assert!(ok);
    assert_eq!(m.get(key.id), Some(&42));
}

#[test]
fn bridge_insert_refuses_size_mismatch() {
    let mut t = InternTable::new();
    let key = t.intern(b"/");
    let mut m: HostMap<u64> = HostMap::new();
    let ok = map_insert(&mut m, &map_type(16, 4), key, 42, 8);
    assert!(!ok);
    assert_eq!(m.len(), 0);
    assert_eq!(m.get(key.id), None);
}

#[test]
fn bridge_insert_overwrite_through_bridge() {
    let mut t = InternTable::new();
    let key = t.intern(b"/home");
    let mut m: HostMap<u64> = HostMap::new();
    assert!(map_insert(&mut m, &map_type(16, 8), key, 1, 8));
    assert!(map_insert(&mut m, &map_type(16, 8), key, 2, 8));
    assert_eq!(m.get(key.id), Some(&2));
    assert_eq!(m.len(), 1);
}
