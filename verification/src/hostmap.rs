//! The map insertion bridge and its model of a host-owned map.
//!
//! The host's associative container is reached one entry at a time through a
//! single insertion primitive; the bridge never computes hash buckets,
//! resolves collisions or resizes.  `HostMap` models what the bridge relies
//! on: insertion binds the key to the new value, overwriting any earlier
//! binding, and leaves every other binding alone.  Before an insertion the
//! declared element size of the map's type metadata must match the size the
//! record was built with; on a mismatch the insertion is refused.

use crate::descriptor::{descriptor_matches, MapTypeDescriptor};
use crate::intern::StrView;
use vstd::prelude::*;

verus! {

broadcast use vstd::seq::group_seq_axioms, vstd::map::group_map_axioms, vstd::set::group_set_axioms;

/// The bindings that a sequence of key/value pairs denotes, later pairs
/// overwriting earlier ones.
pub open spec fn map_of<V>(s: Seq<(usize, V)>) -> Map<usize, V>
    decreases s.len(),
{
    if s.len() == 0 {
        Map::empty()
    } else {
        map_of(s.drop_last()).insert(s.last().0, s.last().1)
    }
}

/// A key is bound exactly when some pair holds it.
proof fn lemma_map_of_key<V>(s: Seq<(usize, V)>, k: usize)
    ensures
        map_of(s).contains_key(k) <==> exists|i: int| 0 <= i < s.len() && s[i].0 == k,
    decreases s.len(),
{
    if s.len() > 0 {
        lemma_map_of_key(s.drop_last(), k);
        if s.last().0 == k {
            assert(s[s.len() - 1].0 == k);
        } else if map_of(s).contains_key(k) {
            let i = choose|i: int| 0 <= i < s.drop_last().len() && s.drop_last()[i].0 == k;
            assert(s[i].0 == k);
        } else {
            if exists|i: int| 0 <= i < s.len() && s[i].0 == k {
                let i = choose|i: int| 0 <= i < s.len() && s[i].0 == k;
                assert(s.drop_last()[i].0 == k);
            }
        }
    }
}

/// With no key repeated, the pair holding a key gives its bound value.
proof fn lemma_map_of_value<V>(s: Seq<(usize, V)>, i: int)
    requires
        forall|p: int, q: int| 0 <= p < s.len() && 0 <= q < s.len() && p != q ==> s[p].0 != s[q].0,
        0 <= i < s.len(),
    ensures
        map_of(s).contains_key(s[i].0),
        map_of(s)[s[i].0] == s[i].1,
    decreases s.len(),
{
    if i == s.len() - 1 {
    } else {
        assert(s.drop_last()[i] == s[i]);
        lemma_map_of_value(s.drop_last(), i);
        assert(s.last().0 != s[i].0);
    }
}

/// With no key repeated, the number of bindings equals the number of pairs.
proof fn lemma_map_of_len<V>(s: Seq<(usize, V)>)
    requires
        forall|p: int, q: int| 0 <= p < s.len() && 0 <= q < s.len() && p != q ==> s[p].0 != s[q].0,
    ensures
        map_of(s).dom().finite(),
        map_of(s).dom().len() == s.len(),
    decreases s.len(),
{
    if s.len() > 0 {
        let rest = s.drop_last();
        lemma_map_of_len(rest);
        lemma_map_of_key(rest, s.last().0);
        assert(!map_of(rest).contains_key(s.last().0)) by {
            if exists|i: int| 0 <= i < rest.len() && rest[i].0 == s.last().0 {
                let i = choose|i: int| 0 <= i < rest.len() && rest[i].0 == s.last().0;
                assert(s[i].0 == s[s.len() - 1].0);
            }
        }
        assert(map_of(s).dom() =~= map_of(rest).dom().insert(s.last().0));
    }
}

/// A model of a host-owned map with `usize` keys, as the insertion bridge
/// sees it: only its bindings are observable, and only insertion and lookup
/// reach it.
pub struct HostMap<V> {
    pairs: Vec<(usize, V)>,
}

impl<V> View for HostMap<V> {
    type V = Map<usize, V>;

    closed spec fn view(&self) -> Map<usize, V> {
        map_of(self.pairs@)
    }
}

impl<V> HostMap<V> {
    /// No key occupies two pairs of the backing store.
    pub closed spec fn wf(&self) -> bool {
        forall|p: int, q: int|
            0 <= p < self.pairs@.len() && 0 <= q < self.pairs@.len() && p != q
                ==> self.pairs@[p].0 != self.pairs@[q].0
    }

    /// An empty map.
    pub fn new() -> (m: Self)
        ensures
            m@ == Map::<usize, V>::empty(),
            m.wf(),
    {
        let m = HostMap { pairs: Vec::new() };
        proof {
            assert(m@ =~= Map::<usize, V>::empty());
        }
        m
    }

    /// How many keys are bound.
    pub fn len(&self) -> (n: usize)
        requires
            self.wf(),
        ensures
            n == self@.dom().len(),
    {
        proof {
            lemma_map_of_len(self.pairs@);
        }
        self.pairs.len()
    }

    /// The value bound to `k`, if any.
    #[verifier::loop_isolation(false)]
    pub fn get(&self, k: usize) -> (r: Option<&V>)
        requires
            self.wf(),
        ensures
            match r {
                Some(v) => self@.contains_key(k) && *v == self@[k],
                None => !self@.contains_key(k),
            },
    {
        let n = self.pairs.len();
        let mut i: usize = 0;
        while i < n
            invariant
                i <= n,
                n == self.pairs@.len(),
                forall|j: int| 0 <= j < i ==> self.pairs@[j].0 != k,
            decreases n - i,
        {
            if self.pairs[i].0 == k {
                proof {
                    lemma_map_of_value(self.pairs@, i as int);
                }
                return Some(&self.pairs[i].1);
            }
            i = i + 1;
        }
        proof {
            lemma_map_of_key(self.pairs@, k);
            if exists|j: int| 0 <= j < self.pairs@.len() && self.pairs@[j].0 == k {
                let j = choose|j: int| 0 <= j < self.pairs@.len() && self.pairs@[j].0 == k;
                assert(self.pairs@[j].0 != k);
            }
        }
        None
    }

    /// Binds `key` to `value`, overwriting any earlier binding for `key` and
    /// leaving every other binding alone — the host map's insertion
    /// semantics.
    #[verifier::loop_isolation(false)]
    pub fn insert(&mut self, key: usize, value: V)
        requires
            old(self).wf(),
        ensures
            final(self).wf(),
            final(self)@ == old(self)@.insert(key, value),
    {
        let n = self.pairs.len();
        let mut i: usize = 0;
        while i < n
            invariant
                i <= n,
                *self == *old(self),
                n == self.pairs@.len(),
                forall|j: int| 0 <= j < i ==> self.pairs@[j].0 != key,
            decreases n - i,
        {
            if self.pairs[i].0 == key {
                self.pairs[i] = (key, value);
                proof {
                    lemma_map_of_update(old(self).pairs@, i as int, value);
                    assert(self.pairs@ =~= old(self).pairs@.update(
                        i as int,
                        (old(self).pairs@[i as int].0, value),
                    ));
                }
                return ;
            }
            i = i + 1;
        }
        self.pairs.push((key, value));
        proof {
            assert(self.pairs@.drop_last() =~= old(self).pairs@);
            assert(self@ == old(self)@.insert(key, value));
            assert forall|p: int, q: int|
                0 <= p < self.pairs@.len() && 0 <= q < self.pairs@.len() && p
                    != q implies self.pairs@[p].0 != self.pairs@[q].0 by {
                if p == self.pairs@.len() - 1 {
                    assert(self.pairs@[q].0 != key);
                } else if q == self.pairs@.len() - 1 {
                    assert(self.pairs@[p].0 != key);
                }
            }
        }
    }
}

/// Overwriting a pair in place rebinds its key and nothing else.
proof fn lemma_map_of_update<V>(s: Seq<(usize, V)>, i: int, v: V)
    requires
        forall|p: int, q: int| 0 <= p < s.len() && 0 <= q < s.len() && p != q ==> s[p].0 != s[q].0,
        0 <= i < s.len(),
    ensures
        map_of(s.update(i, (s[i].0, v))) == map_of(s).insert(s[i].0, v),
    decreases s.len(),
{
    let k = s[i].0;
    let t = s.update(i, (k, v));
    if i == s.len() - 1 {
        assert(t.drop_last() =~= s.drop_last());
        assert(t.last() == (k, v));
        assert(map_of(t) == map_of(s.drop_last()).insert(k, v));
        assert(map_of(s).insert(k, v) =~= map_of(s.drop_last()).insert(k, v));
    } else {
        assert(t.drop_last() =~= s.drop_last().update(i, (k, v)));
        assert(s.drop_last()[i] == s[i]);
        lemma_map_of_update(s.drop_last(), i, v);
        assert(t.last() == s.last());
        assert(s.last().0 != k);
        assert(map_of(t) == map_of(s.drop_last()).insert(k, v).insert(s.last().0, s.last().1));
        assert(map_of(s.drop_last()).insert(k, v).insert(s.last().0, s.last().1) =~= map_of(
            s.drop_last(),
        ).insert(s.last().0, s.last().1).insert(k, v));
    }
}

/// The map insertion bridge primitive: refuses the call when the map's
/// declared element size differs from the size the record was built with;
/// otherwise forwards exactly one key/value pair to the host map.
pub fn map_insert<V>(
    m: &mut HostMap<V>,
    m_type: &MapTypeDescriptor,
    key: StrView,
    value: V,
    expected_elem_size: usize,
) -> (ok: bool)
    requires
        old(m).wf(),
    ensures
        final(m).wf(),
        ok == (m_type.elem.size == expected_elem_size),
        ok ==> final(m)@ == old(m)@.insert(key.id, value),
        !ok ==> *final(m) == *old(m),
{
    if !descriptor_matches(&m_type.elem, expected_elem_size) {
        return false;
    }
    m.insert(key.id, value);
    true
}

/// Re-inserting a key overwrites: binding `k` to `v1` and then to `v2`
/// leaves the map exactly as if only `v2` had been bound, with one binding
/// for `k`, holding `v2`.
pub proof fn lemma_insert_overwrite<V>(m: Map<usize, V>, k: usize, v1: V, v2: V)
    ensures
        m.insert(k, v1).insert(k, v2) == m.insert(k, v2),
        m.insert(k, v1).insert(k, v2)[k] == v2,
{
    assert(m.insert(k, v1).insert(k, v2) =~= m.insert(k, v2));
}

} // verus!
