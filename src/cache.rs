//! The per-connection statement cache: query text to shared metadata, bounded,
//! evicting the entry that was inserted first.

use vstd::prelude::*;

use std::sync::Arc;

use crate::stmt::StmtInner;

verus! {

/// Byte-wise equality.
pub fn bytes_eq(a: &[u8], b: &[u8]) -> (r: bool)
    ensures
        r == (a@ == b@),
{
    if a.len() != b.len() {
        return false;
    }
    let mut i: usize = 0;
    while i < a.len()
        invariant
            a@.len() == b@.len(),
            i <= a@.len(),
            forall|j: int| 0 <= j < i ==> a@[j] == b@[j],
        decreases a@.len() - i,
    {
        if a[i] != b[i] {
            return false;
        }
        i = i + 1;
    }
    assert(a@ =~= b@);
    true
}

/// Keys unique within a sequence of entries.
pub open spec fn keys_unique(s: Seq<(Seq<u8>, StmtInner)>) -> bool {
    forall|i: int, j: int| 0 <= i < s.len() && 0 <= j < s.len() && i != j ==> (#[trigger] s[i]).0 != (#[trigger] s[j]).0
}

/// The position of the entry keyed `q`, if any.
pub open spec fn index_of(s: Seq<(Seq<u8>, StmtInner)>, q: Seq<u8>) -> Option<int> {
    if exists|i: int| 0 <= i < s.len() && (#[trigger] s[i]).0 == q {
        Some(choose|i: int| 0 <= i < s.len() && (#[trigger] s[i]).0 == q)
    } else {
        None
    }
}

/// The metadata cached under `q`, if any.
pub open spec fn lookup(s: Seq<(Seq<u8>, StmtInner)>, q: Seq<u8>) -> Option<StmtInner> {
    match index_of(s, q) {
        Some(i) => Some(s[i].1),
        None => None,
    }
}

/// Entries after inserting `v` under its query text into a cache of capacity `cap`,
/// and the entry displaced: the one under the same key, or else the oldest one
/// where the cache would grow past `cap`. Nothing is kept when `cap` is zero.
pub open spec fn insert_spec(s: Seq<(Seq<u8>, StmtInner)>, cap: nat, v: StmtInner) -> (Seq<(Seq<u8>, StmtInner)>, Option<StmtInner>) {
    let q = v.raw_query@;
    if cap == 0 {
        (s, None)
    } else {
        match index_of(s, q) {
            Some(i) => (s.update(i, (q, v)), Some(s[i].1)),
            None => if s.len() < cap {
                (s.push((q, v)), None)
            } else {
                (s.skip(1).push((q, v)), Some(s[0].1))
            },
        }
    }
}

/// A bounded map from query text to statement metadata.
pub struct StmtCache {
    cap: usize,
    entries: Vec<(Vec<u8>, Arc<StmtInner>)>,
}

impl View for StmtCache {
    type V = Seq<(Seq<u8>, StmtInner)>;

    closed spec fn view(&self) -> Seq<(Seq<u8>, StmtInner)> {
        self.entries@.map_values(|e: (Vec<u8>, Arc<StmtInner>)| (e.0@, *e.1))
    }
}

impl StmtCache {
    /// The capacity: the most entries the cache holds.
    pub closed spec fn capacity(&self) -> nat {
        self.cap as nat
    }

    /// Keys unique, each equal to its metadata's query text; within capacity.
    pub open spec fn wf(&self) -> bool {
        &&& keys_unique(self@)
        &&& forall|i: int| 0 <= i < self@.len() ==> (#[trigger] self@[i]).0 == self@[i].1.raw_query@
        &&& self@.len() <= self.capacity()
    }

    /// An empty cache holding at most `cap` statements.
    pub fn new(cap: usize) -> (r: Self)
        ensures
            r.wf(),
            r@ == Seq::<(Seq<u8>, StmtInner)>::empty(),
            r.capacity() == cap,
    {
        let r = StmtCache { cap, entries: Vec::new() };
        assert(r@ =~= Seq::<(Seq<u8>, StmtInner)>::empty());
        r
    }

    /// Number of cached statements.
    pub fn len(&self) -> (r: usize)
        ensures
            r == self@.len(),
    {
        self.entries.len()
    }

    fn position(&self, q: &[u8]) -> (r: Option<usize>)
        requires
            self.wf(),
        ensures
            r == match index_of(self@, q@) {
                Some(i) => Some(i as usize),
                None => None::<usize>,
            },
            r is Some ==> r->Some_0 < self@.len(),
    {
        let mut i: usize = 0;
        while i < self.entries.len()
            invariant
                self.wf(),
                i <= self@.len(),
                forall|j: int| 0 <= j < i ==> (#[trigger] self@[j]).0 != q@,
            decreases self@.len() - i,
        {
            if bytes_eq(self.entries[i].0.as_slice(), q) {
                assert(self@[i as int].0 == q@);
                let ghost k = choose|k: int| 0 <= k < self@.len() && (#[trigger] self@[k]).0 == q@;
                assert(k == i);
                return Some(i);
            }
            i = i + 1;
        }
        None
    }

    /// The statement cached under the query text `q`, if any.
    pub fn get(&self, q: &[u8]) -> (r: Option<Arc<StmtInner>>)
        requires
            self.wf(),
        ensures
            match r {
                Some(s) => lookup(self@, q@) == Some(*s),
                None => lookup(self@, q@) is None,
            },
    {
        match self.position(q) {
            Some(i) => Some(self.entries[i].1.clone()),
            None => None,
        }
    }

    /// Caches `stmt` under its query text and hands back the entry it displaced, if
    /// any, so that the caller can close that statement on the server.
    pub fn insert(&mut self, stmt: Arc<StmtInner>) -> (r: Option<Arc<StmtInner>>)
        requires
            old(self).wf(),
        ensures
            final(self).wf(),
            final(self).capacity() == old(self).capacity(),
            (final(self)@, match r { Some(s) => Some(*s), None => None::<StmtInner> })
                == insert_spec(old(self)@, old(self).capacity(), *stmt),
    {
        let ghost s0 = self@;
        if self.cap == 0 {
            return None;
        }
        let key = vstd::slice::slice_to_vec(stmt.raw_query.as_slice());
        match self.position(key.as_slice()) {
            Some(i) => {
                let old_stmt = self.entries[i].1.clone();
                self.entries.set(i, (key, stmt));
                assert(self@ =~= s0.update(i as int, (stmt.raw_query@, *stmt)));
                Some(old_stmt)
            }
            None => {
                self.entries.push((key, stmt));
                assert(self@ =~= s0.push((stmt.raw_query@, *stmt)));
                if self.entries.len() > self.cap {
                    let (_, evicted) = self.entries.remove(0);
                    assert(self@ =~= s0.skip(1).push((stmt.raw_query@, *stmt)));
                    Some(evicted)
                } else {
                    None
                }
            }
        }
    }
}

/// Inserting keeps only entries that were there before, and the new statement.
pub proof fn lemma_insert_keeps_entries(e: Seq<(Seq<u8>, StmtInner)>, cap: nat, v: StmtInner)
    ensures
        forall|i: int| 0 <= i < insert_spec(e, cap, v).0.len() ==> (#[trigger] insert_spec(e, cap, v).0[i]).1 == v
            || exists|j: int| 0 <= j < e.len() && e[j] == insert_spec(e, cap, v).0[i],
{
    let n = insert_spec(e, cap, v).0;
    assert forall|i: int| 0 <= i < n.len() implies (#[trigger] n[i]).1 == v
        || exists|j: int| 0 <= j < e.len() && e[j] == n[i] by {
        if n[i].1 != v {
            if cap == 0 {
                assert(e[i] == n[i]);
            } else {
                match index_of(e, v.raw_query@) {
                    Some(k) => {
                        assert(e[i] == n[i]);
                    },
                    None => {
                        if e.len() < cap {
                            assert(e[i] == n[i]);
                        } else {
                            assert(e[i + 1] == n[i]);
                        }
                    },
                }
            }
        }
    }
}

/// Once a statement is cached, its query text looks up that very statement: a
/// second resolution of the same query prepares nothing and yields the same
/// statement id.
pub proof fn lemma_lookup_after_insert(c: StmtCache, s: StmtInner)
    requires
        c.wf(),
        c.capacity() > 0,
    ensures
        lookup(insert_spec(c@, c.capacity(), s).0, s.raw_query@) == Some(s),
{
    let e = c@;
    let q = s.raw_query@;
    let n = insert_spec(e, c.capacity(), s).0;
    match index_of(e, q) {
        Some(i) => {
            assert(n == e.update(i, (q, s)));
            assert(n[i].0 == q);
            let j = choose|j: int| 0 <= j < n.len() && (#[trigger] n[j]).0 == q;
            if j != i {
                assert(e[j].0 == q && e[i].0 == q);
            }
        }
        None => {
            let k = n.len() - 1;
            assert(n[k] == (q, s));
            let j = choose|j: int| 0 <= j < n.len() && (#[trigger] n[j]).0 == q;
            if j != k {
                if e.len() < c.capacity() {
                    assert(n[j] == e[j]);
                } else {
                    assert(n[j] == e[j + 1]);
                }
                assert(index_of(e, q) is Some);
            }
        }
    }
}

/// A new query inserted into a full cache displaces exactly one entry, the oldest:
/// it comes back to be closed, its query text no longer looks anything up, and the
/// cache stays at its capacity.
pub proof fn lemma_full_cache_evicts_oldest(c: StmtCache, s: StmtInner)
    requires
        c.wf(),
        c.capacity() > 0,
        c@.len() == c.capacity(),
        lookup(c@, s.raw_query@) is None,
    ensures
        insert_spec(c@, c.capacity(), s).1 == Some(c@[0].1),
        insert_spec(c@, c.capacity(), s).0.len() == c.capacity(),
        lookup(insert_spec(c@, c.capacity(), s).0, c@[0].0) is None,
{
    let e = c@;
    let q = s.raw_query@;
    let n = insert_spec(e, c.capacity(), s).0;
    assert(n == e.skip(1).push((q, s)));
    if exists|j: int| 0 <= j < n.len() && (#[trigger] n[j]).0 == e[0].0 {
        let j = choose|j: int| 0 <= j < n.len() && (#[trigger] n[j]).0 == e[0].0;
        if j == n.len() - 1 {
            assert(e[0].0 == q);
            assert(index_of(e, q) is Some);
        } else {
            assert(n[j] == e[j + 1]);
        }
    }
}

} // verus!
