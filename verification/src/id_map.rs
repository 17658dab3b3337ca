use crate::node_ref::{NodeId, NodeKey};
use vstd::prelude::*;

verus! {

/// A map from node ids to values, held as a list of entries with distinct keys.
pub struct IdMap<T> {
    items: Vec<(NodeId, T)>,
}

impl<T> IdMap<T> {
    /// The keys of the entries, in their stored order.
    pub closed spec fn keys(&self) -> Seq<NodeKey> {
        self.items@.map_values(|p: (NodeId, T)| p.0@)
    }

    /// Number of stored entries.
    pub closed spec fn size(&self) -> nat {
        self.items@.len()
    }

    /// The value stored at position `i`.
    pub closed spec fn value_at(&self, i: int) -> T {
        self.items@[i].1
    }

    /// No key is stored twice.
    pub closed spec fn wf(&self) -> bool {
        self.keys().no_duplicates()
    }

    /// The position of key `k`, where it is stored.
    pub closed spec fn index_of(&self, k: NodeKey) -> int {
        choose|i: int| 0 <= i < self.keys().len() && self.keys()[i] == k
    }

    /// The entries as a map from key to value.
    pub closed spec fn view(&self) -> Map<NodeKey, T> {
        Map::new(|k: NodeKey| self.keys().contains(k), |k: NodeKey| self.value_at(self.index_of(k)))
    }

    pub proof fn lemma_view_at(&self, i: int)
        requires
            self.wf(),
            0 <= i < self.size(),
        ensures
            self.view().contains_key(self.keys()[i]),
            self.view()[self.keys()[i]] == self.value_at(i),
            self.index_of(self.keys()[i]) == i,
    {
        let k = self.keys()[i];
        assert(self.keys().contains(k));
        let j = self.index_of(k);
        assert(0 <= j < self.keys().len() && self.keys()[j] == k);
    }

    pub proof fn lemma_keys_dom(&self)
        requires
            self.wf(),
        ensures
            forall|k: NodeKey| #[trigger] self.view().contains_key(k) <==> self.keys().contains(k),
            self.keys().len() == self.size(),
    {
    }

    /// The keys form a finite set with as many members as there are entries.
    pub proof fn lemma_dom_len(&self)
        requires
            self.wf(),
        ensures
            self.view().dom().finite(),
            self.view().dom().len() == self.size(),
    {
        broadcast use vstd::seq_lib::seq_to_set_is_finite;
        assert(self.view().dom() =~= self.keys().to_set());
        self.keys().unique_seq_to_set();
    }

    /// An empty map.
    pub fn new() -> (r: Self)
        ensures
            r.wf(),
            r.view() == Map::<NodeKey, T>::empty(),
            r.size() == 0,
    {
        let r = IdMap { items: Vec::new() };
        assert(r.view() =~= Map::<NodeKey, T>::empty());
        r
    }

    /// Number of entries.
    pub fn len(&self) -> (r: usize)
        ensures
            r == self.size(),
    {
        self.items.len()
    }

    /// The id stored at position `i`.
    pub fn key_ref(&self, i: usize) -> (r: &NodeId)
        requires
            i < self.size(),
        ensures
            r@ == self.keys()[i as int],
    {
        &self.items[i].0
    }

    /// The value stored at position `i`.
    pub fn value_ref(&self, i: usize) -> (r: &T)
        requires
            i < self.size(),
        ensures
            *r == self.value_at(i as int),
    {
        &self.items[i].1
    }

    /// The position of `id`, if it is stored.
    pub fn find(&self, id: &NodeId) -> (r: Option<usize>)
        requires
            self.wf(),
        ensures
            match r {
                Some(i) => i < self.size() && self.keys()[i as int] == id@,
                None => !self.view().contains_key(id@),
            },
    {
        let mut i: usize = 0;
        while i < self.items.len()
            invariant
                self.wf(),
                i <= self.items@.len(),
                forall|j: int| 0 <= j < i ==> self.keys()[j] != id@,
            decreases self.items@.len() - i,
        {
            if self.items[i].0.same(id) {
                return Some(i);
            }
            i = i + 1;
        }
        None
    }

    /// Whether `id` has an entry.
    pub fn contains(&self, id: &NodeId) -> (r: bool)
        requires
            self.wf(),
        ensures
            r == self.view().contains_key(id@),
    {
        match self.find(id) {
            Some(i) => {
                proof {
                    self.lemma_view_at(i as int);
                }
                true
            },
            None => false,
        }
    }

    /// The value stored for `id`.
    pub fn get(&self, id: &NodeId) -> (r: Option<&T>)
        requires
            self.wf(),
        ensures
            match r {
                Some(v) => self.view().contains_key(id@) && *v == self.view()[id@],
                None => !self.view().contains_key(id@),
            },
    {
        match self.find(id) {
            Some(i) => {
                proof {
                    self.lemma_view_at(i as int);
                }
                Some(&self.items[i].1)
            },
            None => None,
        }
    }

    /// `self` is `before` with the value under `k` (a stored key) replaced by `x`.
    pub closed spec fn value_updated(&self, before: IdMap<T>, k: NodeKey, x: T) -> bool {
        let i = before.index_of(k);
        &&& before.view().contains_key(k)
        &&& self.items@ == before.items@.update(i, (before.items@[i].0, x))
    }

    pub proof fn lemma_value_updated(&self, before: IdMap<T>, k: NodeKey, x: T)
        requires
            before.wf(),
            self.value_updated(before, k, x),
        ensures
            self.wf(),
            self.view() == before.view().insert(k, x),
    {
        let i = before.index_of(k);
        assert(self.keys() =~= before.keys());
        assert forall|kk: NodeKey| #![trigger self.view().contains_key(kk)] self.view().contains_key(kk) implies self.view()[kk]
            == before.view().insert(k, x)[kk] by {
            let j = choose|j: int| 0 <= j < self.keys().len() && self.keys()[j] == kk;
            self.lemma_view_at(j);
            before.lemma_view_at(j);
        }
        assert(self.view() =~= before.view().insert(k, x));
    }

    /// A mutable reference to the value stored for `id`.
    pub fn get_mut(&mut self, id: &NodeId) -> (r: Option<&mut T>)
        requires
            old(self).wf(),
        ensures
            match r {
                Some(v) => {
                    &&& old(self).view().contains_key(id@)
                    &&& *v == old(self).view()[id@]
                    &&& final(self).value_updated(*old(self), id@, *final(v))
                },
                None => {
                    &&& !old(self).view().contains_key(id@)
                    &&& *final(self) == *old(self)
                },
            },
    {
        match self.find(id) {
            Some(i) => {
                proof {
                    self.lemma_view_at(i as int);
                }
                Some(&mut self.items[i].1)
            },
            None => None,
        }
    }

    /// Insert or replace the value for `id`.
    pub fn insert(&mut self, id: NodeId, value: T)
        requires
            old(self).wf(),
        ensures
            final(self).wf(),
            final(self).view() == old(self).view().insert(id@, value),
    {
        let ghost k = id@;
        match self.find(&id) {
            Some(i) => {
                self.items[i] = (id, value);
                proof {
                    assert(self.keys() =~= old(self).keys());
                    assert forall|kk: NodeKey|
                        #![trigger self.view().contains_key(kk)]
                        self.view().contains_key(kk) implies self.view()[kk] == old(
                            self,
                        ).view().insert(k, value)[kk] by {
                        let j = choose|j: int| 0 <= j < self.keys().len() && self.keys()[j] == kk;
                        self.lemma_view_at(j);
                        old(self).lemma_view_at(j);
                    }
                    assert(self.view() =~= old(self).view().insert(k, value));
                }
            },
            None => {
                self.items.push((id, value));
                proof {
                    assert(self.keys() =~= old(self).keys().push(k));
                    assert(self.keys().no_duplicates());
                    assert forall|kk: NodeKey|
                        #![trigger self.view().contains_key(kk)]
                        self.view().contains_key(kk) implies self.view()[kk] == old(
                            self,
                        ).view().insert(k, value)[kk] by {
                        let j = choose|j: int| 0 <= j < self.keys().len() && self.keys()[j] == kk;
                        self.lemma_view_at(j);
                        if j < old(self).keys().len() {
                            old(self).lemma_view_at(j);
                        }
                    }
                    assert forall|kk: NodeKey|
                        old(self).view().insert(k, value).contains_key(kk) implies #[trigger] self.view().contains_key(kk) by {
                        if kk != k {
                            let j = choose|j: int| 0 <= j < old(self).keys().len() && old(self).keys()[j] == kk;
                            assert(self.keys()[j] == kk);
                        } else {
                            assert(self.keys()[self.keys().len() - 1] == kk);
                        }
                    }
                    assert(self.view() =~= old(self).view().insert(k, value));
                }
            },
        }
    }

    /// Remove the entry for `id`, returning its value.
    pub fn remove(&mut self, id: &NodeId) -> (r: Option<T>)
        requires
            old(self).wf(),
        ensures
            final(self).wf(),
            final(self).view() == old(self).view().remove(id@),
            match r {
                Some(v) => old(self).view().contains_key(id@) && v == old(self).view()[id@],
                None => !old(self).view().contains_key(id@),
            },
    {
        match self.find(id) {
            Some(i) => {
                proof {
                    self.lemma_view_at(i as int);
                }
                let (_, v) = self.items.remove(i);
                proof {
                    let ok = old(self).keys();
                    assert(self.keys() =~= ok.remove(i as int));
                    assert forall|a: int, b: int|
                        0 <= a < b < self.keys().len() implies self.keys()[a] != self.keys()[b] by {
                        let a2 = if a < i { a } else { a + 1 };
                        let b2 = if b < i { b } else { b + 1 };
                        assert(ok[a2] != ok[b2]);
                    }
                    assert(self.keys().no_duplicates());
                    assert forall|kk: NodeKey|
                        #![trigger self.view().contains_key(kk)]
                        self.view().contains_key(kk) implies old(self).view().remove(
                            id@,
                        ).contains_key(kk) && self.view()[kk] == old(self).view().remove(
                            id@,
                        )[kk] by {
                        let j = choose|j: int| 0 <= j < self.keys().len() && self.keys()[j] == kk;
                        self.lemma_view_at(j);
                        let j2 = if j < i { j } else { j + 1 };
                        old(self).lemma_view_at(j2);
                        assert(j2 != i);
                    }
                    assert forall|kk: NodeKey|
                        old(self).view().remove(id@).contains_key(kk) implies #[trigger] self.view().contains_key(kk) by {
                        let j = choose|j: int| 0 <= j < ok.len() && ok[j] == kk;
                        assert(j != i);
                        let j2 = if j < i { j } else { j - 1 };
                        assert(self.keys()[j2] == kk);
                    }
                    assert(self.view() =~= old(self).view().remove(id@));
                }
                Some(v)
            },
            None => {
                assert(self.view() =~= old(self).view().remove(id@));
                None
            },
        }
    }
}

/// A set of node ids, held as a list without repeats.
pub struct IdSet {
    items: Vec<NodeId>,
}

impl IdSet {
    /// The members, in their stored order.
    pub closed spec fn keys(&self) -> Seq<NodeKey> {
        self.items@.map_values(|id: NodeId| id@)
    }

    /// No member is stored twice.
    pub closed spec fn wf(&self) -> bool {
        self.keys().no_duplicates()
    }

    /// The members as a set.
    pub closed spec fn view(&self) -> Set<NodeKey> {
        Set::new(|k: NodeKey| self.keys().contains(k))
    }

    pub proof fn lemma_view(&self)
        ensures
            forall|k: NodeKey| #[trigger] self.view().contains(k) <==> self.keys().contains(k),
            self.wf() ==> self.keys().no_duplicates(),
    {
    }

    /// The members form a finite set with as many members as are stored.
    pub proof fn lemma_len(&self)
        requires
            self.wf(),
        ensures
            self.view().finite(),
            self.view().len() == self.keys().len(),
    {
        broadcast use vstd::seq_lib::seq_to_set_is_finite;
        assert(self.view() =~= self.keys().to_set());
        self.keys().unique_seq_to_set();
    }

    /// An empty set.
    pub fn new() -> (r: Self)
        ensures
            r.wf(),
            r.view() == Set::<NodeKey>::empty(),
            r.keys().len() == 0,
    {
        let r = IdSet { items: Vec::new() };
        assert(r.view() =~= Set::<NodeKey>::empty());
        r
    }

    /// Number of members.
    pub fn len(&self) -> (r: usize)
        ensures
            r == self.keys().len(),
    {
        self.items.len()
    }

    /// Whether the set is empty.
    pub fn is_empty(&self) -> (r: bool)
        ensures
            r == (self.keys().len() == 0),
    {
        self.items.len() == 0
    }

    /// The member stored at position `i`.
    pub fn get(&self, i: usize) -> (r: &NodeId)
        requires
            i < self.keys().len(),
        ensures
            r@ == self.keys()[i as int],
    {
        &self.items[i]
    }

    /// The position of `id`, if it is a member.
    pub fn find(&self, id: &NodeId) -> (r: Option<usize>)
        ensures
            match r {
                Some(i) => i < self.keys().len() && self.keys()[i as int] == id@,
                None => !self.view().contains(id@),
            },
    {
        let mut i: usize = 0;
        while i < self.items.len()
            invariant
                i <= self.items@.len(),
                forall|j: int| 0 <= j < i ==> self.keys()[j] != id@,
            decreases self.items@.len() - i,
        {
            if self.items[i].same(id) {
                return Some(i);
            }
            i = i + 1;
        }
        None
    }

    /// Whether `id` is a member.
    pub fn contains(&self, id: &NodeId) -> (r: bool)
        ensures
            r == self.view().contains(id@),
    {
        match self.find(id) {
            Some(i) => {
                assert(self.keys().contains(self.keys()[i as int]));
                true
            },
            None => false,
        }
    }

    /// Add `id`; true when it was not yet a member.
    pub fn insert(&mut self, id: NodeId) -> (r: bool)
        requires
            old(self).wf(),
        ensures
            final(self).wf(),
            final(self).view() == old(self).view().insert(id@),
            r == !old(self).view().contains(id@),
            r ==> final(self).keys() == old(self).keys().push(id@),
            !r ==> final(self).keys() == old(self).keys(),
    {
        if self.contains(&id) {
            false
        } else {
            let ghost k = id@;
            self.items.push(id);
            assert(self.keys() =~= old(self).keys().push(k));
            assert forall|kk: NodeKey| self.view().contains(kk) <==> old(self).view().insert(k).contains(kk) by {
                if old(self).keys().contains(kk) {
                    let j = choose|j: int| 0 <= j < old(self).keys().len() && old(self).keys()[j] == kk;
                    assert(self.keys()[j] == kk);
                }
                if self.keys().contains(kk) && kk != k {
                    let j = choose|j: int| 0 <= j < self.keys().len() && self.keys()[j] == kk;
                    assert(old(self).keys()[j] == kk);
                }
                if kk == k {
                    assert(self.keys()[self.keys().len() - 1] == kk);
                }
            }
            assert(self.view() =~= old(self).view().insert(k));
            true
        }
    }

    /// Remove `id`; true when it was a member.
    pub fn remove(&mut self, id: &NodeId) -> (r: bool)
        requires
            old(self).wf(),
        ensures
            final(self).wf(),
            final(self).view() == old(self).view().remove(id@),
            r == old(self).view().contains(id@),
    {
        let mut i: usize = 0;
        while i < self.items.len()
            invariant
                self.wf(),
                self.items@ == old(self).items@,
                i <= self.items@.len(),
                forall|j: int| 0 <= j < i ==> self.keys()[j] != id@,
            decreases self.items@.len() - i,
        {
            if self.items[i].same(id) {
                self.items.remove(i);
                proof {
                    let ok = old(self).keys();
                    assert(self.keys() =~= ok.remove(i as int));
                    assert forall|a: int, b: int|
                        0 <= a < b < self.keys().len() implies self.keys()[a] != self.keys()[b] by {
                        let a2 = if a < i { a } else { a + 1 };
                        let b2 = if b < i { b } else { b + 1 };
                        assert(ok[a2] != ok[b2]);
                    }
                    assert(old(self).keys()[i as int] == id@);
                    assert forall|k: NodeKey|
                        self.view().contains(k) <==> old(self).view().remove(id@).contains(k) by {
                        if self.keys().contains(k) {
                            let j = choose|j: int| 0 <= j < self.keys().len() && self.keys()[j] == k;
                            let j2 = if j < i { j } else { j + 1 };
                            assert(ok[j2] == k);
                            assert(j2 != i);
                        }
                        if old(self).view().remove(id@).contains(k) {
                            let j = choose|j: int| 0 <= j < ok.len() && ok[j] == k;
                            assert(j != i);
                            let j2 = if j < i { j } else { j - 1 };
                            assert(self.keys()[j2] == k);
                        }
                    }
                    assert(self.view() =~= old(self).view().remove(id@));
                }
                return true;
            }
            i = i + 1;
        }
        assert(self.view() =~= old(self).view().remove(id@));
        false
    }
}

} // verus!
