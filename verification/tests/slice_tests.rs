use gobridge::descriptor::{descriptor_matches, TypeDescriptor};
use gobridge::slice_bridge::{clone_into, HostBuffer};

fn elem(size: usize) -> TypeDescriptor {
    TypeDescriptor { size, align: 8, kind: 0 }
}

#[test]
fn clone_copies_every_element() {
    let mut dst: HostBuffer<u64> = HostBuffer::with_capacity(3);
    let src: Vec<u64> = vec![1, 2, 3];
    assert!(clone_into(&mut dst, src.as_slice(), &elem(8), 8));
    assert_eq!(dst.len(), 3);
    assert_eq!(*dst.get(0), 1);
    assert_eq!(*dst.get(1), 2);
    assert_eq!(*dst.get(2), 3);
}

#[test]
fn clone_empty_source_is_noop_success() {
    let mut dst: HostBuffer<u64> = HostBuffer::with_capacity(0);
    let src: Vec<u64> = Vec::new();
    assert!(clone_into(&mut dst, src.as_slice(), &elem(8), 8));
    assert_eq!(dst.len(), 0);
}

#[test]
fn clone_empty_source_leaves_destination_untouched() {
    let mut dst: HostBuffer<u64> = HostBuffer::with_capacity(2);
    let seeded: Vec<u64> = vec![5];
    assert!(clone_into(&mut dst, seeded.as_slice(), &elem(8), 8));
    let empty: Vec<u64> = Vec::new();
    assert!(clone_into(&mut dst, empty.as_slice(), &elem(8), 8));
    assert_eq!(dst.len(), 1);
    assert_eq!(*dst.get(0), 5);
}

#[test]
fn clone_refused_when_capacity_too_small() {
    let mut dst: HostBuffer<u64> = HostBuffer::with_capacity(2);
    let first: Vec<u64> = vec![7, 8];
    assert!(clone_into(&mut dst, first.as_slice(), &elem(8), 8));
    let too_long: Vec<u64> = vec![1, 2, 3];
    assert!(!clone_into(&mut dst, too_long.as_slice(), &elem(8), 8));
    assert_eq!(dst.len(), 2);
    assert_eq!(*dst.get(0), 7);
    assert_eq!(*dst.get(1), 8);
}

#[test]
fn clone_refused_on_descriptor_mismatch() {
    let mut dst: HostBuffer<u64> = HostBuffer::with_capacity(4);
    let src: Vec<u64> = vec![1];
    assert!(!clone_into(&mut dst, src.as_slice(), &elem(4), 8));
    assert_eq!(dst.len(), 0);
}

#[test]
fn descriptor_size_check() {
    assert!(descriptor_matches(&elem(8), 8));
    assert!(!descriptor_matches(&elem(16), 8));
}
