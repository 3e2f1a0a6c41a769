//! The intern table: a deduplicating, append-only store of immortal string
//! content.
//!
//! Every distinct content is stored once and never mutated or removed
//! afterwards, so a view handed out for an entry stays valid for the table's
//! whole lifetime.  Content is normalized to valid UTF-8 before storage, so
//! only valid text ever occupies the table.  Interning is idempotent: the
//! same content always yields the same view, and distinct contents always
//! yield distinct views.

use crate::encoding::{normalize_lossy, normalize_utf8_lossy};
use vstd::prelude::*;
use vstd::utf8::valid_utf8;

verus! {

broadcast use vstd::seq::group_seq_axioms;

/// A foreign-compatible view of one interned string: the stable identity of
/// its table entry, and the entry's length in bytes.  It carries no
/// ownership; the table keeps the bytes alive.
#[derive(Clone, Copy, PartialEq, Eq, Structural, Debug)]
pub struct StrView {
    /// Identity of the table entry the view refers to.
    pub id: usize,
    /// Length in bytes of the referenced content.
    pub len: usize,
}

impl StrView {
    /// The view points at an entry of `entries` and reports its true length.
    pub open spec fn wf(self, entries: Seq<Seq<u8>>) -> bool {
        self.id < entries.len() && self.len == entries[self.id as int].len()
    }

    /// The content the view refers to.
    pub open spec fn content(self, entries: Seq<Seq<u8>>) -> Seq<u8> {
        entries[self.id as int]
    }
}

/// Index of the first entry equal to `c`, or `entries.len()` when no entry
/// holds `c` — which is the position interning `c` would give it.
pub open spec fn interned_id(entries: Seq<Seq<u8>>, c: Seq<u8>) -> int
    decreases entries.len(),
{
    if entries.len() == 0 {
        0
    } else if entries[0] == c {
        0
    } else {
        1 + interned_id(entries.drop_first(), c)
    }
}

/// The entries after interning content `c`: unchanged when `c` is already
/// stored, extended by one entry holding `c` otherwise.
pub open spec fn interned_entries(entries: Seq<Seq<u8>>, c: Seq<u8>) -> Seq<Seq<u8>> {
    if entries.contains(c) {
        entries
    } else {
        entries.push(c)
    }
}

/// What `interned_id` returns: a position no later than the table's end; the
/// position of `c` when present, with no earlier entry equal to `c`; the
/// table's end exactly when `c` is absent.
pub proof fn lemma_interned_id(entries: Seq<Seq<u8>>, c: Seq<u8>)
    ensures
        0 <= interned_id(entries, c) <= entries.len(),
        interned_id(entries, c) < entries.len() ==> entries[interned_id(entries, c)] == c,
        forall|j: int| 0 <= j < interned_id(entries, c) ==> entries[j] != c,
        (interned_id(entries, c) == entries.len()) <==> !entries.contains(c),
    decreases entries.len(),
{
    if entries.len() == 0 {
        assert(!entries.contains(c));
    } else if entries[0] == c {
        assert(entries.contains(c));
    } else {
        let rest = entries.drop_first();
        lemma_interned_id(rest, c);
        let id = interned_id(entries, c);
        assert(forall|k: int| 0 <= k < rest.len() ==> rest[k] == entries[k + 1]);
        assert forall|j: int| 0 <= j < id implies entries[j] != c by {
            if j > 0 {
                assert(rest[j - 1] != c);
            }
        }
        if id < entries.len() {
            assert(entries[id] == rest[id - 1]);
            assert(entries.contains(c)) by {
                assert(entries[id] == c);
            }
        } else {
            assert(!rest.contains(c));
            assert(!entries.contains(c)) by {
                if entries.contains(c) {
                    let k = choose|k: int| 0 <= k < entries.len() && entries[k] == c;
                    assert(k != 0);
                    assert(rest[k - 1] == c);
                }
            }
        }
    }
}

/// Compares two byte slices for content equality.
fn bytes_eq(a: &[u8], b: &[u8]) -> (r: bool)
    ensures
        r == (a@ == b@),
{
    if a.len() != b.len() {
        proof {
            if a@ == b@ {
                assert(a@.len() == b@.len());
            }
        }
        return false;
    }
    let mut i: usize = 0;
    while i < a.len()
        invariant
            i <= a@.len(),
            a@.len() == b@.len(),
            forall|j: int| 0 <= j < i ==> a@[j] == b@[j],
        decreases a@.len() - i,
    {
        if a[i] != b[i] {
            return false;
        }
        i = i + 1;
    }
    proof {
        assert(a@ =~= b@);
    }
    true
}

/// The process-wide deduplicating store of immortal string content.
pub struct InternTable {
    entries: Vec<Vec<u8>>,
}

impl View for InternTable {
    type V = Seq<Seq<u8>>;

    closed spec fn view(&self) -> Seq<Seq<u8>> {
        Seq::new(self.entries@.len(), |i: int| self.entries@[i]@)
    }
}

impl InternTable {
    /// Every stored entry is valid UTF-8, and no two entries hold the same
    /// content.
    pub open spec fn wf(&self) -> bool {
        &&& forall|i: int| 0 <= i < self@.len() ==> valid_utf8(#[trigger] self@[i])
        &&& forall|i: int, j: int|
            0 <= i < self@.len() && 0 <= j < self@.len() && i != j ==> self@[i] != self@[j]
    }

    /// An empty table.
    pub fn new() -> (t: Self)
        ensures
            t@ == Seq::<Seq<u8>>::empty(),
            t.wf(),
    {
        let t = InternTable { entries: Vec::new() };
        proof {
            assert(t@ =~= Seq::<Seq<u8>>::empty());
        }
        t
    }

    /// How many distinct contents the table holds.
    pub fn entry_count(&self) -> (n: usize)
        ensures
            n == self@.len(),
    {
        self.entries.len()
    }

    /// The bytes of the entry with identity `id`.  Entries are append-only
    /// and never mutated, so the reference's target never changes for the
    /// table's lifetime.
    pub fn resolve(&self, id: usize) -> (b: &Vec<u8>)
        requires
            id < self@.len(),
        ensures
            b@ == self@[id as int],
    {
        &self.entries[id]
    }

    /// The read-only fast path: the view for `s`'s normalized content when
    /// it is already stored, and nothing otherwise.
    #[verifier::loop_isolation(false)]
    pub fn lookup(&self, s: &[u8]) -> (r: Option<StrView>)
        requires
            self.wf(),
        ensures
            match r {
                Some(v) => {
                    &&& self@.contains(normalize_lossy(s@))
                    &&& v.id == interned_id(self@, normalize_lossy(s@))
                    &&& v.wf(self@)
                    &&& v.content(self@) == normalize_lossy(s@)
                    &&& v.len == normalize_lossy(s@).len()
                },
                None => !self@.contains(normalize_lossy(s@)),
            },
    {
        let norm = normalize_utf8_lossy(s);
        let ghost c = norm@;
        let n = self.entries.len();
        let mut i: usize = 0;
        while i < n
            invariant
                i <= n,
                n == self@.len(),
                norm@ == c,
                forall|j: int| 0 <= j < i ==> self@[j] != c,
            decreases n - i,
        {
            if bytes_eq(self.entries[i].as_slice(), norm.as_slice()) {
                proof {
                    assert(self@[i as int] == c);
                    assert(self@.contains(c));
                    lemma_interned_id(self@, c);
                    let id = interned_id(self@, c);
                    assert(id < self@.len());
                    if id < i {
                        assert(self@[id] != c);
                    }
                    if id > i {
                        assert(self@[i as int] != c);
                    }
                }
                return Some(StrView { id: i, len: norm.len() });
            }
            i = i + 1;
        }
        proof {
            if self@.contains(c) {
                let k = choose|k: int| 0 <= k < self@.len() && self@[k] == c;
                assert(self@[k] != c);
            }
        }
        None
    }

    /// Interns content: normalizes `s` to valid UTF-8, stores the result if
    /// no entry holds it yet, and returns the view of its entry.  Never
    /// fails, and never disturbs existing entries.
    #[verifier::loop_isolation(false)]
    pub fn intern(&mut self, s: &[u8]) -> (v: StrView)
        requires
            old(self).wf(),
        ensures
            final(self).wf(),
            final(self)@ == interned_entries(old(self)@, normalize_lossy(s@)),
            v.id == interned_id(old(self)@, normalize_lossy(s@)),
            v.wf(final(self)@),
            v.content(final(self)@) == normalize_lossy(s@),
            v.len == normalize_lossy(s@).len(),
            old(self)@.len() <= final(self)@.len() <= old(self)@.len() + 1,
            forall|j: int| 0 <= j < old(self)@.len() ==> final(self)@[j] == old(self)@[j],
    {
        let norm = normalize_utf8_lossy(s);
        let ghost c = norm@;
        let n = self.entries.len();
        let mut i: usize = 0;
        while i < n
            invariant
                i <= n,
                *self == *old(self),
                n == self@.len(),
                norm@ == c,
                forall|j: int| 0 <= j < i ==> self@[j] != c,
            decreases n - i,
        {
            if bytes_eq(self.entries[i].as_slice(), norm.as_slice()) {
                proof {
                    assert(self@[i as int] == c);
                    assert(self@.contains(c));
                    lemma_interned_id(self@, c);
                    let id = interned_id(self@, c);
                    if id < i {
                        assert(self@[id] != c);
                    }
                    if id > i {
                        assert(self@[i as int] != c);
                    }
                }
                return StrView { id: i, len: norm.len() };
            }
            i = i + 1;
        }
        let v = StrView { id: n, len: norm.len() };
        proof {
            assert(!old(self)@.contains(c)) by {
                if old(self)@.contains(c) {
                    let k = choose|k: int| 0 <= k < old(self)@.len() && old(self)@[k] == c;
                    assert(old(self)@[k] != c);
                }
            }
            lemma_interned_id(old(self)@, c);
        }
        self.entries.push(norm);
        proof {
            assert(self@ =~= old(self)@.push(c));
            assert(self@[n as int] == c);
        }
        v
    }
}

/// Interning is idempotent: once content has been interned, interning it
/// again leaves the table unchanged and yields the same entry — so repeated
/// calls with the same content return identical views.
pub proof fn lemma_intern_idempotent(entries: Seq<Seq<u8>>, c: Seq<u8>)
    ensures
        interned_entries(interned_entries(entries, c), c) == interned_entries(entries, c),
        interned_id(interned_entries(entries, c), c) == interned_id(entries, c),
{
    lemma_interned_id(entries, c);
    if !entries.contains(c) {
        let e2 = entries.push(c);
        assert(e2[entries.len() as int] == c);
        assert(e2.contains(c));
        lemma_interned_id(e2, c);
        let id2 = interned_id(e2, c);
        assert(id2 < e2.len());
        if id2 < entries.len() {
            assert(e2[id2] == entries[id2]);
            assert(entries.contains(c)) by {
                assert(entries[id2] == c);
            }
        }
        assert(id2 == entries.len());
    }
}

/// Distinct contents resolve to distinct views: interning `c1` and then
/// `c2 != c1` yields different entry identities, in whichever state the
/// table was beforehand.
pub proof fn lemma_distinct_contents_distinct_views(entries: Seq<Seq<u8>>, c1: Seq<u8>, c2: Seq<u8>)
    requires
        c1 != c2,
    ensures
        interned_id(interned_entries(entries, c1), c2) != interned_id(entries, c1),
{
    let e1 = interned_entries(entries, c1);
    let id1 = interned_id(entries, c1);
    let id2 = interned_id(e1, c2);
    lemma_interned_id(entries, c1);
    lemma_interned_id(e1, c2);
    if entries.contains(c1) {
        assert(id1 < entries.len());
        assert(e1[id1] == c1);
    } else {
        assert(id1 == entries.len());
        assert(e1[id1] == c1);
    }
    assert(id1 < e1.len());
    if id2 < e1.len() {
        if id2 == id1 {
            assert(e1[id2] == c2);
        }
    }
}

/// One stored copy: a well-formed table never holds the same content in two
/// entries, so all callers interning equal content share a single entry.
pub proof fn lemma_one_stored_copy(t: InternTable, i: int, j: int)
    requires
        t.wf(),
        0 <= i < t@.len(),
        0 <= j < t@.len(),
        t@[i] == t@[j],
    ensures
        i == j,
{
}

} // verus!
