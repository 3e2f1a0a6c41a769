//! The slice view bridge and its model of a host-owned buffer.
//!
//! A natively-owned run of records is handed to the host by asking the host
//! to copy the elements into a buffer the host has already sized.  `HostBuffer`
//! models that destination: storage with a fixed capacity whose contents
//! only a clone-in can change.  The clone-in is refused — never truncated —
//! when the declared element size differs from the expected one or the
//! destination's capacity cannot receive every source element; cloning an
//! empty source is a no-op success.

use crate::descriptor::{descriptor_matches, TypeDescriptor};
use vstd::prelude::*;

verus! {

/// A model of a host-owned destination buffer: a contiguous run of elements
/// together with the capacity the host allocated for it.
pub struct HostBuffer<V> {
    data: Vec<V>,
    cap: usize,
}

impl<V> View for HostBuffer<V> {
    type V = Seq<V>;

    closed spec fn view(&self) -> Seq<V> {
        self.data@
    }
}

impl<V> HostBuffer<V> {
    /// The capacity the host sized the buffer with.
    pub closed spec fn capacity(&self) -> usize {
        self.cap
    }

    /// The contents never exceed the allocated capacity.
    pub open spec fn wf(&self) -> bool {
        self@.len() <= self.capacity()
    }

    /// An empty buffer sized by the host to hold `cap` elements.
    pub fn with_capacity(cap: usize) -> (b: Self)
        ensures
            b@ == Seq::<V>::empty(),
            b.capacity() == cap,
            b.wf(),
    {
        let b = HostBuffer { data: Vec::new(), cap };
        proof {
            assert(b@ =~= Seq::<V>::empty());
        }
        b
    }

    /// How many elements the buffer holds.
    pub fn len(&self) -> (n: usize)
        ensures
            n == self@.len(),
    {
        self.data.len()
    }

    /// The element at position `i`.
    pub fn get(&self, i: usize) -> (v: &V)
        requires
            i < self@.len(),
        ensures
            *v == self@[i as int],
    {
        &self.data[i]
    }
}

/// The slice clone bridge: asks the host to copy every source element into
/// the destination buffer.  The copy happens exactly when the declared
/// element size matches the expected one and the destination's capacity is
/// at least the source's length; otherwise the destination is untouched and
/// the call reports failure.  An empty source succeeds as a true no-op: the
/// destination is left exactly as it was.
#[verifier::loop_isolation(false)]
pub fn clone_into<V: Copy>(
    dst: &mut HostBuffer<V>,
    src: &[V],
    elem_type: &TypeDescriptor,
    expected_size: usize,
) -> (ok: bool)
    requires
        old(dst).wf(),
    ensures
        final(dst).wf(),
        final(dst).capacity() == old(dst).capacity(),
        ok == (elem_type.size == expected_size && src@.len() <= old(dst).capacity()),
        ok && src@.len() > 0 ==> final(dst)@ == src@,
        ok && src@.len() == 0 ==> *final(dst) == *old(dst),
        !ok ==> *final(dst) == *old(dst),
        elem_type.size == expected_size && src@.len() == 0 ==> ok,
{
    if !descriptor_matches(elem_type, expected_size) {
        return false;
    }
    if src.len() > dst.cap {
        return false;
    }
    if src.len() == 0 {
        return true;
    }
    dst.data.clear();
    let n = src.len();
    let mut i: usize = 0;
    while i < n
        invariant
            i <= n,
            dst.cap == old(dst).cap,
            dst.data@ == src@.subrange(0, i as int),
        decreases n - i,
    {
        proof {
            assert(src@.subrange(0, i as int).push(src@[i as int]) =~= src@.subrange(0, i + 1));
        }
        dst.data.push(src[i]);
        i = i + 1;
    }
    proof {
        assert(src@.subrange(0, n as int) =~= src@);
    }
    true
}

} // verus!
