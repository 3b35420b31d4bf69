//! Correlation of requests and replies.
//!
//! A node matches a reply to its originating request through the request's
//! message id: the id is registered when the request is sent and withdrawn by
//! the first matching reply or acknowledgment. The same table shape backs
//! the unacknowledged set of the passive-retry path, keyed by message id as
//! well, so removal is never ambiguous.

use vstd::prelude::*;

verus! {

/// The map an association list denotes; a later entry wins, though tables
/// with unique keys never depend on that.
pub open spec fn alist_map<W>(s: Seq<(u64, W)>) -> Map<u64, W>
    decreases s.len(),
{
    if s.len() == 0 {
        Map::empty()
    } else {
        alist_map(s.drop_last()).insert(s.last().0, s.last().1)
    }
}

/// No key occurs twice.
pub open spec fn unique_keys<W>(s: Seq<(u64, W)>) -> bool {
    forall|i: int, j: int| 0 <= i < j < s.len() ==> (#[trigger] s[i]).0 != (#[trigger] s[j]).0
}

/// A key is in the denoted map exactly when some entry carries it.
pub proof fn lemma_alist_contains<W>(s: Seq<(u64, W)>, k: u64)
    ensures
        alist_map(s).dom().contains(k) <==> exists|i: int| 0 <= i < s.len() && (#[trigger] s[i]).0 == k,
    decreases s.len(),
{
    if s.len() > 0 {
        lemma_alist_contains(s.drop_last(), k);
        if s.last().0 == k {
            assert(s[s.len() - 1].0 == k);
        } else {
            if exists|i: int| 0 <= i < s.len() - 1 && (#[trigger] s.drop_last()[i]).0 == k {
                let i = choose|i: int| 0 <= i < s.len() - 1 && (#[trigger] s.drop_last()[i]).0 == k;
                assert(s[i].0 == k);
            }
            if exists|i: int| 0 <= i < s.len() && (#[trigger] s[i]).0 == k {
                let i = choose|i: int| 0 <= i < s.len() && (#[trigger] s[i]).0 == k;
                assert(i < s.len() - 1 ==> s.drop_last()[i].0 == k);
            }
        }
    }
}

/// With unique keys, the denoted map sends each entry's key to its value.
pub proof fn lemma_alist_get<W>(s: Seq<(u64, W)>, i: int)
    requires
        unique_keys(s),
        0 <= i < s.len(),
    ensures
        alist_map(s).dom().contains(s[i].0),
        alist_map(s)[s[i].0] == s[i].1,
    decreases s.len(),
{
    if i == s.len() - 1 {
    } else {
        assert(forall|p: int, q: int|
            0 <= p < q < s.len() - 1 ==> (#[trigger] s.drop_last()[p]).0 != (#[trigger] s.drop_last()[q]).0);
        lemma_alist_get(s.drop_last(), i);
        assert(s[i].0 != s.last().0);
    }
}

/// With unique keys, removing the entry at `i` removes exactly its key.
pub proof fn lemma_alist_remove<W>(s: Seq<(u64, W)>, i: int)
    requires
        unique_keys(s),
        0 <= i < s.len(),
    ensures
        alist_map(s.remove(i)) == alist_map(s).remove(s[i].0),
    decreases s.len(),
{
    let k = s[i].0;
    if i == s.len() - 1 {
        assert(s.remove(i) =~= s.drop_last());
        lemma_alist_contains(s.drop_last(), k);
        assert(forall|p: int| 0 <= p < s.len() - 1 ==> (#[trigger] s.drop_last()[p]).0 == s[p].0);
        assert(!alist_map(s.drop_last()).dom().contains(k));
        assert(alist_map(s.drop_last()) =~= alist_map(s.drop_last()).insert(k, s.last().1).remove(k));
    } else {
        let dl = s.drop_last();
        assert(forall|p: int, q: int|
            0 <= p < q < dl.len() ==> (#[trigger] dl[p]).0 != (#[trigger] dl[q]).0);
        lemma_alist_remove(dl, i);
        let t = s.remove(i);
        assert(t.len() == s.len() - 1);
        assert(t.last() == s.last());
        assert(t.drop_last() =~= dl.remove(i));
        assert(alist_map(t) == alist_map(dl).remove(k).insert(s.last().0, s.last().1));
        assert(s.last().0 != k);
        assert(alist_map(dl).remove(k).insert(s.last().0, s.last().1) =~= alist_map(
            dl,
        ).insert(s.last().0, s.last().1).remove(k));
    }
}

/// A table of single-resolution waiters keyed by message id. Ids are unique,
/// so at most one entry ever matches.
pub struct IdTable<W> {
    pub entries: Vec<(u64, W)>,
}

impl<W> IdTable<W> {
    /// Keys are unique: removal by key is unambiguous.
    pub open spec fn wf(self) -> bool {
        unique_keys(self.entries@)
    }

    /// The mapping this table holds.
    pub open spec fn as_map(self) -> Map<u64, W> {
        alist_map(self.entries@)
    }

    /// Is `id` registered?
    pub open spec fn spec_contains(self, id: u64) -> bool {
        self.as_map().dom().contains(id)
    }

    /// The empty table.
    pub fn new() -> (r: IdTable<W>)
        ensures
            r.wf(),
            r.entries@ =~= Seq::<(u64, W)>::empty(),
            r.as_map() =~= Map::<u64, W>::empty(),
    {
        IdTable { entries: Vec::new() }
    }

    /// Is `id` registered?
    pub fn contains(&self, id: u64) -> (r: bool)
        ensures
            r == self.spec_contains(id),
    {
        let mut i: usize = 0;
        while i < self.entries.len()
            invariant
                0 <= i <= self.entries@.len(),
                forall|m: int| 0 <= m < i ==> (#[trigger] self.entries@[m]).0 != id,
            decreases self.entries@.len() - i,
        {
            if self.entries[i].0 == id {
                proof {
                    lemma_alist_contains(self.entries@, id);
                }
                return true;
            }
            i = i + 1;
        }
        proof {
            lemma_alist_contains(self.entries@, id);
        }
        false
    }

    /// Register a waiter under a fresh id.
    pub fn register(&mut self, id: u64, w: W)
        requires
            old(self).wf(),
            !old(self).spec_contains(id),
        ensures
            final(self).wf(),
            final(self).entries@ == old(self).entries@.push((id, w)),
            final(self).as_map() == old(self).as_map().insert(id, w),
    {
        proof {
            lemma_alist_contains(self.entries@, id);
            assert(self.entries@.push((id, w)).drop_last() =~= self.entries@);
        }
        self.entries.push((id, w));
    }

    /// Resolve `id`: withdraw and return its waiter. An id with no waiter
    /// resolves to nothing and changes nothing (a duplicate or late reply).
    pub fn resolve(&mut self, id: u64) -> (r: Option<W>)
        requires
            old(self).wf(),
        ensures
            final(self).wf(),
            match r {
                Some(_) => {
                    &&& old(self).spec_contains(id)
                    &&& final(self).as_map() == old(self).as_map().remove(id)
                    &&& exists|i: int|
                        0 <= i < old(self).entries@.len() && old(self).entries@[i].0 == id
                            && final(self).entries@ == old(self).entries@.remove(i)
                },
                None => !old(self).spec_contains(id) && *final(self) == *old(self),
            },
            r == (if old(self).spec_contains(id) {
                Some(old(self).as_map()[id])
            } else {
                None::<W>
            }),
    {
        let mut i: usize = 0;
        while i < self.entries.len()
            invariant
                0 <= i <= self.entries@.len(),
                forall|m: int| 0 <= m < i ==> (#[trigger] self.entries@[m]).0 != id,
                self == old(self),
                self.wf(),
            decreases self.entries@.len() - i,
        {
            if self.entries[i].0 == id {
                proof {
                    lemma_alist_contains(self.entries@, id);
                    lemma_alist_get(self.entries@, i as int);
                    lemma_alist_remove(self.entries@, i as int);
                }
                let (_, w) = self.entries.remove(i);
                return Some(w);
            }
            i = i + 1;
        }
        proof {
            lemma_alist_contains(self.entries@, id);
        }
        None
    }

    /// How many waiters are registered.
    pub fn len(&self) -> (r: usize)
        ensures
            r == self.entries@.len(),
    {
        self.entries.len()
    }

    /// The entry at position `i`, for walking the table.
    pub fn get(&self, i: usize) -> (r: &(u64, W))
        requires
            i < self.entries@.len(),
        ensures
            *r == self.entries@[i as int],
    {
        &self.entries[i]
    }
}

} // verus!
