//! A small keyed store: unique `u64` keys in insertion order.
//!
//! The entity mapping, the lobbies and the per-process entity registries
//! are all instances of this one structure.  Its view is the sequence of
//! entries; `as_map` is the mathematical map it represents.  Enumeration
//! order is the insertion order, which is stable between mutations.

use vstd::prelude::*;

verus! {

/// A keyed store with unique `u64` keys, enumerable in a stable order.
pub struct IdMap<V> {
    entries: Vec<(u64, V)>,
}

/// The map represented by a sequence of key-value pairs; a later entry
/// with the same key would win, but well-formed stores have unique keys.
pub open spec fn as_map_of<V>(s: Seq<(u64, V)>) -> Map<u64, V>
    decreases s.len(),
{
    if s.len() == 0 {
        Map::empty()
    } else {
        as_map_of(s.drop_last()).insert(s.last().0, s.last().1)
    }
}

/// Keys of a pair sequence are pairwise distinct.
pub open spec fn distinct_keys<V>(s: Seq<(u64, V)>) -> bool {
    forall|i: int, j: int| 0 <= i < j < s.len() ==> s[i].0 != s[j].0
}

/// A key is in the represented map exactly when some entry carries it.
pub proof fn lemma_as_map_dom<V>(s: Seq<(u64, V)>, k: u64)
    ensures
        as_map_of(s).contains_key(k) <==> exists|i: int| 0 <= i < s.len() && s[i].0 == k,
    decreases s.len(),
{
    if s.len() == 0 {
    } else {
        lemma_as_map_dom(s.drop_last(), k);
        if s.last().0 == k {
            assert(s[s.len() - 1].0 == k);
        } else if as_map_of(s).contains_key(k) {
            let i = choose|i: int| 0 <= i < s.len() - 1 && s.drop_last()[i].0 == k;
            assert(s[i].0 == k);
        } else if exists|i: int| 0 <= i < s.len() && s[i].0 == k {
            let i = choose|i: int| 0 <= i < s.len() && s[i].0 == k;
            assert(i < s.len() - 1);
            assert(s.drop_last()[i].0 == k);
        }
    }
}

/// With distinct keys, entry `i` gives the value of its key.
pub proof fn lemma_as_map_index<V>(s: Seq<(u64, V)>, i: int)
    requires
        distinct_keys(s),
        0 <= i < s.len(),
    ensures
        as_map_of(s).contains_key(s[i].0),
        as_map_of(s)[s[i].0] == s[i].1,
    decreases s.len(),
{
    if i == s.len() - 1 {
    } else {
        assert(distinct_keys(s.drop_last())) by {
            assert(forall|x: int, y: int|
                0 <= x < y < s.len() - 1 ==> s.drop_last()[x].0 == s[x].0 && s.drop_last()[y].0
                    == s[y].0);
        }
        lemma_as_map_index(s.drop_last(), i);
        assert(s.drop_last()[i] == s[i]);
        assert(s[i].0 != s.last().0);
    }
}

/// Appending a fresh entry inserts it into the represented map.
pub proof fn lemma_as_map_push<V>(s: Seq<(u64, V)>, k: u64, v: V)
    ensures
        as_map_of(s.push((k, v))) == as_map_of(s).insert(k, v),
{
    assert(s.push((k, v)).drop_last() =~= s);
    assert(s.push((k, v)).last() == (k, v));
}

/// Replacing the value of entry `i` (same key) updates the represented
/// map at that key.
pub proof fn lemma_as_map_update<V>(s: Seq<(u64, V)>, i: int, v: V)
    requires
        distinct_keys(s),
        0 <= i < s.len(),
    ensures
        as_map_of(s.update(i, (s[i].0, v))) == as_map_of(s).insert(s[i].0, v),
    decreases s.len(),
{
    let k = s[i].0;
    let t = s.update(i, (k, v));
    if i == s.len() - 1 {
        assert(t.drop_last() =~= s.drop_last());
        assert(t.last() == (k, v));
        assert(as_map_of(t) =~= as_map_of(s).insert(k, v));
    } else {
        assert(distinct_keys(s.drop_last())) by {
            assert(forall|x: int, y: int|
                0 <= x < y < s.len() - 1 ==> s.drop_last()[x].0 == s[x].0 && s.drop_last()[y].0
                    == s[y].0);
        }
        lemma_as_map_update(s.drop_last(), i, v);
        assert(t.drop_last() =~= s.drop_last().update(i, (k, v)));
        assert(t.last() == s.last());
        assert(s.drop_last()[i] == s[i]);
        assert(k != s.last().0);
        assert(as_map_of(t) =~= as_map_of(s).insert(k, v));
    }
}

/// Removing entry `i` removes its key from the represented map.
pub proof fn lemma_as_map_remove<V>(s: Seq<(u64, V)>, i: int)
    requires
        distinct_keys(s),
        0 <= i < s.len(),
    ensures
        as_map_of(s.remove(i)) == as_map_of(s).remove(s[i].0),
    decreases s.len(),
{
    let k = s[i].0;
    assert(distinct_keys(s.drop_last())) by {
        assert(forall|x: int, y: int|
            0 <= x < y < s.len() - 1 ==> s.drop_last()[x].0 == s[x].0 && s.drop_last()[y].0
                == s[y].0);
    }
    if i == s.len() - 1 {
        assert(s.remove(i) =~= s.drop_last());
        lemma_as_map_dom(s.drop_last(), k);
        assert(!as_map_of(s.drop_last()).contains_key(k));
        assert(as_map_of(s.remove(i)) =~= as_map_of(s).remove(k));
    } else {
        lemma_as_map_remove(s.drop_last(), i);
        assert(s.remove(i).drop_last() =~= s.drop_last().remove(i));
        assert(s.remove(i).last() == s.last());
        assert(s.drop_last()[i] == s[i]);
        assert(k != s.last().0);
        assert(as_map_of(s.remove(i)) == as_map_of(s.drop_last().remove(i)).insert(
            s.last().0,
            s.last().1,
        ));
        assert(as_map_of(s.remove(i)) =~= as_map_of(s).remove(k));
    }
}

/// With distinct keys, the represented map has one key per entry.
pub proof fn lemma_as_map_len<V>(s: Seq<(u64, V)>)
    requires
        distinct_keys(s),
    ensures
        as_map_of(s).dom().finite(),
        as_map_of(s).dom().len() == s.len(),
    decreases s.len(),
{
    if s.len() == 0 {
        assert(as_map_of(s).dom() =~= Set::<u64>::empty());
    } else {
        assert(distinct_keys(s.drop_last())) by {
            assert(forall|x: int, y: int|
                0 <= x < y < s.len() - 1 ==> s.drop_last()[x].0 == s[x].0 && s.drop_last()[y].0
                    == s[y].0);
        }
        lemma_as_map_len(s.drop_last());
        lemma_as_map_dom(s.drop_last(), s.last().0);
        assert(!as_map_of(s.drop_last()).contains_key(s.last().0));
        assert(as_map_of(s).dom() =~= as_map_of(s.drop_last()).dom().insert(s.last().0));
        vstd::set::axiom_set_insert_finite(as_map_of(s.drop_last()).dom(), s.last().0);
        vstd::set::axiom_set_insert_len(as_map_of(s.drop_last()).dom(), s.last().0);
    }
}

/// Removing an entry keeps the remaining keys distinct.
pub proof fn lemma_distinct_remove<V>(s: Seq<(u64, V)>, i: int)
    requires
        distinct_keys(s),
        0 <= i < s.len(),
    ensures
        distinct_keys(s.remove(i)),
{
    assert forall|x: int, y: int| 0 <= x < y < s.remove(i).len() implies s.remove(i)[x].0
        != s.remove(i)[y].0 by {
        let x0 = if x < i {
            x
        } else {
            x + 1
        };
        let y0 = if y < i {
            y
        } else {
            y + 1
        };
        assert(s.remove(i)[x] == s[x0]);
        assert(s.remove(i)[y] == s[y0]);
    }
}

impl<V> View for IdMap<V> {
    type V = Seq<(u64, V)>;

    closed spec fn view(&self) -> Seq<(u64, V)> {
        self.entries@
    }
}

impl<V> IdMap<V> {
    /// The represented map.
    pub open spec fn as_map(&self) -> Map<u64, V> {
        as_map_of(self@)
    }

    /// Keys are pairwise distinct.
    pub open spec fn wf(&self) -> bool {
        distinct_keys(self@)
    }

    /// An empty store.
    pub fn new() -> (r: IdMap<V>)
        ensures
            r@ == Seq::<(u64, V)>::empty(),
            r.as_map() == Map::<u64, V>::empty(),
            r.wf(),
    {
        IdMap { entries: Vec::new() }
    }

    /// Number of entries.
    pub fn len(&self) -> (r: usize)
        ensures
            r == self@.len(),
    {
        self.entries.len()
    }

    /// The key of entry `i`.
    pub fn key_at(&self, i: usize) -> (r: u64)
        requires
            i < self@.len(),
        ensures
            r == self@[i as int].0,
    {
        self.entries[i].0
    }

    /// The value of entry `i`.
    pub fn value_at(&self, i: usize) -> (r: &V)
        requires
            i < self@.len(),
        ensures
            *r == self@[i as int].1,
    {
        &self.entries[i].1
    }

    /// Position of the entry carrying key `k`, if any.
    pub fn index_of(&self, k: u64) -> (r: Option<usize>)
        requires
            self.wf(),
        ensures
            match r {
                Some(i) => i < self@.len() && self@[i as int].0 == k && self.as_map().contains_key(
                    k,
                ) && self.as_map()[k] == self@[i as int].1,
                None => !self.as_map().contains_key(k),
            },
    {
        let n = self.entries.len();
        let mut i: usize = 0;
        while i < n
            invariant
                i <= n,
                n == self@.len(),
                self.wf(),
                forall|j: int| 0 <= j < i ==> self@[j].0 != k,
            decreases n - i,
        {
            if self.entries[i].0 == k {
                proof {
                    lemma_as_map_index(self@, i as int);
                }
                return Some(i);
            }
            i += 1;
        }
        proof {
            lemma_as_map_dom(self@, k);
        }
        None
    }

    /// Whether key `k` is present.
    pub fn contains(&self, k: u64) -> (r: bool)
        requires
            self.wf(),
        ensures
            r == self.as_map().contains_key(k),
    {
        self.index_of(k).is_some()
    }

    /// Read-only lookup of key `k`.
    pub fn get(&self, k: u64) -> (r: Option<&V>)
        requires
            self.wf(),
        ensures
            match r {
                Some(v) => self.as_map().contains_key(k) && self.as_map()[k] == *v,
                None => !self.as_map().contains_key(k),
            },
    {
        match self.index_of(k) {
            Some(i) => Some(&self.entries[i].1),
            None => None,
        }
    }

    /// Inserts a fresh key at the end of the enumeration order.
    pub fn insert(&mut self, k: u64, v: V)
        requires
            old(self).wf(),
            !old(self).as_map().contains_key(k),
        ensures
            final(self)@ == old(self)@.push((k, v)),
            final(self).as_map() == old(self).as_map().insert(k, v),
            final(self).wf(),
    {
        proof {
            lemma_as_map_push(old(self)@, k, v);
            lemma_as_map_dom(old(self)@, k);
        }
        self.entries.push((k, v));
        proof {
            assert forall|i: int, j: int| 0 <= i < j < self@.len() implies self@[i].0
                != self@[j].0 by {
                if j < self@.len() - 1 {
                    assert(old(self)@[i].0 != old(self)@[j].0);
                }
            }
        }
    }

    /// Borrows the value of entry `i` for in-place update; the key stays.
    pub fn get_mut_at(&mut self, i: usize) -> (r: &mut V)
        requires
            i < old(self)@.len(),
        ensures
            *r == old(self)@[i as int].1,
            final(self)@ == old(self)@.update(i as int, (old(self)@[i as int].0, *final(r))),
    {
        &mut self.entries[i].1
    }

    /// Replaces the value of entry `i`, keeping its key.
    pub fn set_value_at(&mut self, i: usize, v: V)
        requires
            i < old(self)@.len(),
        ensures
            final(self)@ == old(self)@.update(i as int, (old(self)@[i as int].0, v)),
            old(self).wf() ==> final(self).wf() && final(self).as_map() == old(
                self,
            ).as_map().insert(old(self)@[i as int].0, v),
    {
        let k = self.entries[i].0;
        let slot = &mut self.entries[i];
        *slot = (k, v);
        proof {
            if old(self).wf() {
                lemma_as_map_update(old(self)@, i as int, v);
                assert(distinct_keys(self@)) by {
                    assert(forall|x: int|
                        0 <= x < self@.len() ==> self@[x].0 == old(self)@[x].0);
                }
            }
        }
    }

    /// Removes the entry carrying key `k`, if any, keeping the order of
    /// the rest; a missing key is a no-op.
    pub fn remove(&mut self, k: u64) -> (r: Option<V>)
        requires
            old(self).wf(),
        ensures
            final(self).wf(),
            final(self).as_map() == old(self).as_map().remove(k),
            match r {
                Some(v) => old(self).as_map().contains_key(k) && old(self).as_map()[k] == v,
                None => !old(self).as_map().contains_key(k) && final(self)@ == old(self)@,
            },
    {
        match self.index_of(k) {
            Some(i) => {
                proof {
                    lemma_as_map_remove(old(self)@, i as int);
                    lemma_distinct_remove(old(self)@, i as int);
                }
                let (_, v) = self.entries.remove(i);
                Some(v)
            },
            None => {
                proof {
                    assert(!old(self).as_map().contains_key(k));
                    assert(final(self).as_map() =~= old(self).as_map().remove(k));
                }
                None
            },
        }
    }
}

} // verus!
