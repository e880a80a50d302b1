//! A small association map from `u64` keys to values, kept as a vector of
//! pairs with pairwise-distinct keys. The cache keeps all of its tables in
//! this shape so that every operation, including iteration, is verified.

use vstd::map::*;
use vstd::prelude::*;

verus! {

/// Map from `u64` keys to `V` values; the view is a `Map<u64, V>`.
pub struct IdMap<V> {
    entries: Vec<(u64, V)>,
}

impl<V> IdMap<V> {
    /// Keys are pairwise distinct.
    pub closed spec fn wf(self) -> bool {
        forall|i: int, j: int|
            0 <= i < j < self.entries@.len() ==> #[trigger] self.entries@[i].0
                != #[trigger] self.entries@[j].0
    }

    pub closed spec fn entries_seq(self) -> Seq<(u64, V)> {
        self.entries@
    }

    pub open spec fn view(self) -> Map<u64, V> {
        Self::seq_to_map(self.entries_seq())
    }

    pub closed spec fn seq_to_map(s: Seq<(u64, V)>) -> Map<u64, V>
        decreases s.len(),
    {
        if s.len() == 0 {
            Map::empty()
        } else {
            Self::seq_to_map(s.drop_last()).insert(s.last().0, s.last().1)
        }
    }

    /// A key is in the view exactly when some entry carries it.
    proof fn lemma_view_contains(s: Seq<(u64, V)>, k: u64)
        ensures
            Self::seq_to_map(s).contains_key(k) <==> exists|i: int|
                0 <= i < s.len() && (#[trigger] s[i]).0 == k,
        decreases s.len(),
    {
        if s.len() > 0 {
            Self::lemma_view_contains(s.drop_last(), k);
            if s.last().0 == k {
                assert(s[s.len() - 1].0 == k);
            } else if Self::seq_to_map(s).contains_key(k) {
                let i = choose|i: int| 0 <= i < s.drop_last().len() && (#[trigger] s.drop_last()[i]).0 == k;
                assert(s[i].0 == k);
            } else {
                assert forall|i: int| 0 <= i < s.len() && (#[trigger] s[i]).0 == k implies false by {
                    if i < s.len() - 1 {
                        assert(s.drop_last()[i].0 == k);
                    }
                }
            }
        }
    }

    /// With distinct keys, entry `i` gives the view's value at its key.
    proof fn lemma_view_at(s: Seq<(u64, V)>, i: int)
        requires
            forall|x: int, y: int|
                0 <= x < y < s.len() ==> #[trigger] s[x].0 != #[trigger] s[y].0,
            0 <= i < s.len(),
        ensures
            Self::seq_to_map(s).contains_key(s[i].0),
            Self::seq_to_map(s)[s[i].0] == s[i].1,
        decreases s.len(),
    {
        Self::lemma_view_contains(s, s[i].0);
        if i < s.len() - 1 {
            assert(s.drop_last()[i] == s[i]);
            Self::lemma_view_at(s.drop_last(), i);
            assert(s.last().0 != s[i].0);
        }
    }

    /// The view's domain is finite and no larger than the entry count.
    proof fn lemma_view_len(s: Seq<(u64, V)>)
        requires
            forall|x: int, y: int|
                0 <= x < y < s.len() ==> #[trigger] s[x].0 != #[trigger] s[y].0,
        ensures
            Self::seq_to_map(s).dom().finite(),
            Self::seq_to_map(s).dom().len() == s.len(),
        decreases s.len(),
    {
        if s.len() > 0 {
            Self::lemma_view_len(s.drop_last());
            Self::lemma_view_contains(s.drop_last(), s.last().0);
        }
    }

    /// A key is in the view exactly when some entry position carries it.
    pub proof fn lemma_contains_position(self, k: u64)
        ensures
            self@.contains_key(k) <==> exists|j: int|
                0 <= j < self.entries_seq().len() && (#[trigger] self.entries_seq()[j]).0 == k,
    {
        Self::lemma_view_contains(self.entries_seq(), k);
    }

    /// Entry positions carry pairwise distinct keys.
    pub proof fn lemma_keys_distinct(self, i: int, j: int)
        requires
            self.wf(),
            0 <= i < j < self.entries_seq().len(),
        ensures
            self.entries_seq()[i].0 != self.entries_seq()[j].0,
    {
    }

    pub proof fn lemma_wf_len(self)
        requires
            self.wf(),
        ensures
            self@.dom().finite(),
            self@.dom().len() == self.entries_seq().len(),
    {
        Self::lemma_view_len(self.entries_seq());
    }

    pub fn new() -> (m: Self)
        ensures
            m.wf(),
            m@ == Map::<u64, V>::empty(),
    {
        IdMap { entries: Vec::new() }
    }

    pub fn len(&self) -> (n: usize)
        requires
            self.wf(),
        ensures
            n == self@.dom().len(),
    {
        proof {
            self.lemma_wf_len();
        }
        self.entries.len()
    }

    /// Index of the entry carrying `k`, if any.
    fn find(&self, k: u64) -> (r: Option<usize>)
        ensures
            match r {
                Some(i) => i < self.entries_seq().len() && self.entries_seq()[i as int].0 == k,
                None => forall|i: int|
                    0 <= i < self.entries_seq().len() ==> (#[trigger] self.entries_seq()[i]).0 != k,
            },
    {
        let n = self.entries.len();
        let mut i: usize = 0;
        while i < n
            invariant
                i <= n,
                n == self.entries_seq().len(),
                forall|j: int| 0 <= j < i ==> (#[trigger] self.entries_seq()[j]).0 != k,
            decreases n - i,
        {
            if self.entries[i].0 == k {
                return Some(i);
            }
            i = i + 1;
        }
        None
    }

    pub fn contains(&self, k: u64) -> (r: bool)
        ensures
            r == self@.contains_key(k),
    {
        proof {
            Self::lemma_view_contains(self.entries_seq(), k);
        }
        self.find(k).is_some()
    }

    pub fn get(&self, k: u64) -> (r: Option<&V>)
        requires
            self.wf(),
        ensures
            match r {
                Some(v) => self@.contains_key(k) && *v == self@[k],
                None => !self@.contains_key(k),
            },
    {
        proof {
            Self::lemma_view_contains(self.entries_seq(), k);
        }
        match self.find(k) {
            Some(i) => {
                proof {
                    Self::lemma_view_at(self.entries_seq(), i as int);
                }
                Some(&self.entries[i].1)
            },
            None => None,
        }
    }

    pub fn get_mut(&mut self, k: u64) -> (r: &mut V)
        requires
            old(self).wf(),
            old(self)@.contains_key(k),
        ensures
            final(self).wf(),
            *r == old(self)@[k],
            final(self)@ == old(self)@.insert(k, *final(r)),
    {
        proof {
            Self::lemma_view_contains(self.entries_seq(), k);
        }
        let r = self.find(k);
        match r {
            Some(i) => {
                let ghost old_seq = self.entries_seq();
                proof {
                    Self::lemma_view_at(old_seq, i as int);
                    assert forall|v: V|
                        #[trigger] Self::seq_to_map(old_seq.update(i as int, (k, v)))
                            == Self::seq_to_map(old_seq).insert(k, v) by {
                        Self::lemma_update_view(old_seq, i as int, v);
                    }
                }
                &mut self.entries[i].1
            },
            None => {
                proof {
                    assert(false);
                }
                vstd::pervasive::unreached()
            },
        }
    }

    /// Updating entry `i`'s value updates the view at its key.
    proof fn lemma_update_view(s: Seq<(u64, V)>, i: int, v: V)
        requires
            forall|x: int, y: int|
                0 <= x < y < s.len() ==> #[trigger] s[x].0 != #[trigger] s[y].0,
            0 <= i < s.len(),
        ensures
            forall|x: int, y: int|
                0 <= x < y < s.update(i, (s[i].0, v)).len() ==> #[trigger] s.update(
                    i,
                    (s[i].0, v),
                )[x].0 != #[trigger] s.update(i, (s[i].0, v))[y].0,
            Self::seq_to_map(s.update(i, (s[i].0, v))) == Self::seq_to_map(s).insert(s[i].0, v),
        decreases s.len(),
    {
        let t = s.update(i, (s[i].0, v));
        if i == s.len() - 1 {
            assert(t.drop_last() == s.drop_last());
        } else {
            Self::lemma_update_view(s.drop_last(), i, v);
            assert(t.drop_last() == s.drop_last().update(i, (s[i].0, v)));
            assert(t.last() == s.last());
            assert(s[i].0 != s.last().0);
            assert(Self::seq_to_map(t) == Self::seq_to_map(t.drop_last()).insert(
                t.last().0,
                t.last().1,
            ));
            assert_maps_equal!(
                Self::seq_to_map(s.drop_last()).insert(s[i].0, v).insert(s.last().0, s.last().1),
                Self::seq_to_map(s.drop_last()).insert(s.last().0, s.last().1).insert(s[i].0, v)
            );
        }
    }

    /// Appending a fresh key inserts it into the view.
    proof fn lemma_push_view(s: Seq<(u64, V)>, k: u64, v: V)
        ensures
            Self::seq_to_map(s.push((k, v))) == Self::seq_to_map(s).insert(k, v),
    {
        assert(s.push((k, v)).drop_last() == s);
    }

    pub fn insert(&mut self, k: u64, v: V)
        requires
            old(self).wf(),
        ensures
            final(self).wf(),
            final(self)@ == old(self)@.insert(k, v),
    {
        proof {
            Self::lemma_view_contains(self.entries_seq(), k);
        }
        let r = self.find(k);
        match r {
            Some(i) => {
                proof {
                    Self::lemma_view_at(self.entries_seq(), i as int);
                    Self::lemma_update_view(self.entries_seq(), i as int, v);
                }
                let entry: &mut (u64, V) = &mut self.entries[i];
                entry.1 = v;
            },
            None => {
                proof {
                    Self::lemma_push_view(self.entries_seq(), k, v);
                }
                self.entries.push((k, v));
            },
        }
    }

    /// Removing entry `i` removes its key from the view.
    proof fn lemma_remove_view(s: Seq<(u64, V)>, i: int)
        requires
            forall|x: int, y: int|
                0 <= x < y < s.len() ==> #[trigger] s[x].0 != #[trigger] s[y].0,
            0 <= i < s.len(),
        ensures
            Self::seq_to_map(s.remove(i)) == Self::seq_to_map(s).remove(s[i].0),
        decreases s.len(),
    {
        let t = s.remove(i);
        if i == s.len() - 1 {
            assert(t == s.drop_last());
            Self::lemma_view_contains(s.drop_last(), s.last().0);
            assert(Self::seq_to_map(s.drop_last()) == Self::seq_to_map(s.drop_last()).remove(
                s.last().0,
            ));
        } else {
            Self::lemma_remove_view(s.drop_last(), i);
            assert(t.drop_last() == s.drop_last().remove(i));
            assert(t.last() == s.last());
            assert(s[i].0 != s.last().0);
            assert(Self::seq_to_map(t) == Self::seq_to_map(s.drop_last()).remove(s[i].0).insert(
                s.last().0,
                s.last().1,
            ));
            assert_maps_equal!(
                Self::seq_to_map(s.drop_last()).remove(s[i].0).insert(s.last().0, s.last().1),
                Self::seq_to_map(s.drop_last()).insert(s.last().0, s.last().1).remove(s[i].0)
            );
        }
    }

    /// Removes `k`'s entry and returns its value, if present.
    pub fn remove(&mut self, k: u64) -> (r: Option<V>)
        requires
            old(self).wf(),
        ensures
            final(self).wf(),
            final(self)@ == old(self)@.remove(k),
            match r {
                Some(v) => old(self)@.contains_key(k) && v == old(self)@[k],
                None => !old(self)@.contains_key(k),
            },
    {
        proof {
            Self::lemma_view_contains(self.entries_seq(), k);
        }
        let r = self.find(k);
        match r {
            Some(i) => {
                proof {
                    Self::lemma_view_at(self.entries_seq(), i as int);
                    Self::lemma_remove_view(self.entries_seq(), i as int);
                }
                let (_, v) = self.entries.remove(i);
                Some(v)
            },
            None => {
                proof {
                    assert(final(self)@ =~= old(self)@.remove(k));
                }
                None
            },
        }
    }

    pub fn clear(&mut self)
        ensures
            final(self).wf(),
            final(self)@ == Map::<u64, V>::empty(),
    {
        self.entries.clear();
    }

    /// Key of the entry at position `i`; positions enumerate the map.
    pub fn key_at(&self, i: usize) -> (k: u64)
        requires
            self.wf(),
            i < self.entries_seq().len(),
        ensures
            k == self.entries_seq()[i as int].0,
            self@.contains_key(k),
            self@[k] == self.entries_seq()[i as int].1,
    {
        proof {
            Self::lemma_view_at(self.entries_seq(), i as int);
        }
        self.entries[i].0
    }

    /// Value of the entry at position `i`.
    pub fn val_at(&self, i: usize) -> (v: &V)
        requires
            self.wf(),
            i < self.entries_seq().len(),
        ensures
            *v == self.entries_seq()[i as int].1,
            self@.contains_key(self.entries_seq()[i as int].0),
            self@[self.entries_seq()[i as int].0] == *v,
    {
        proof {
            Self::lemma_view_at(self.entries_seq(), i as int);
        }
        &self.entries[i].1
    }

    /// Number of entries, which equals the view's domain size when well formed.
    pub fn entry_count(&self) -> (n: usize)
        ensures
            n == self.entries_seq().len(),
    {
        self.entries.len()
    }
}

} // verus!
