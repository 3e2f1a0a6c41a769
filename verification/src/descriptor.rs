//! The type and map descriptor contract.
//!
//! The host runtime hands the bridge metadata about an element type (its
//! size, alignment and kind tag) and, for maps, about the key and element
//! types.  The bridge never interprets this metadata beyond one rule: before
//! any operation that writes elements, the descriptor's declared element size
//! must equal the element size the bridge assumed when it built the record.
//! On a mismatch the operation is refused rather than risking an
//! out-of-bounds write.

use vstd::prelude::*;

verus! {

/// Layout metadata for one element type, as the host declares it.
#[derive(Clone, Copy, PartialEq, Eq, Structural, Debug)]
pub struct TypeDescriptor {
    /// Size in bytes of one element.
    pub size: usize,
    /// Alignment in bytes of one element.
    pub align: usize,
    /// The host's kind tag for the type; carried through, never interpreted.
    pub kind: u8,
}

/// Metadata for a host-owned map: the layout of its keys and of its elements.
#[derive(Clone, Copy, PartialEq, Eq, Structural, Debug)]
pub struct MapTypeDescriptor {
    /// Layout of the map's key type.
    pub key: TypeDescriptor,
    /// Layout of the map's element type.
    pub elem: TypeDescriptor,
}

/// Decides whether a host descriptor declares exactly the element size that
/// the bridge assumed.  Every slice or map operation must be guarded by this
/// check; a `false` answer means the operation is refused.
pub fn descriptor_matches(d: &TypeDescriptor, expected_size: usize) -> (r: bool)
    ensures
        r == (d.size == expected_size),
{
    d.size == expected_size
}

} // verus!
