use crate::id_map::{IdMap, IdSet};
use crate::node_ref::{clone_ids, ids_view, NodeId, NodeKey};
use vstd::prelude::*;

verus! {

/// The list stored under `k`, or the empty list.
pub open spec fn seq_or_empty(m: Map<NodeKey, Seq<NodeKey>>, k: NodeKey) -> Seq<NodeKey> {
    if m.contains_key(k) {
        m[k]
    } else {
        Seq::empty()
    }
}

/// `m` with `id` appended to the list of `dep`.
pub open spec fn with_dependent(m: Map<NodeKey, Seq<NodeKey>>, dep: NodeKey, id: NodeKey) -> Map<
    NodeKey,
    Seq<NodeKey>,
> {
    m.insert(dep, seq_or_empty(m, dep).push(id))
}

/// `m` with `id` appended to the list of each of `deps`, in order.
pub open spec fn with_dependents(
    m: Map<NodeKey, Seq<NodeKey>>,
    deps: Seq<NodeKey>,
    id: NodeKey,
) -> Map<NodeKey, Seq<NodeKey>>
    decreases deps.len(),
{
    if deps.len() == 0 {
        m
    } else {
        with_dependent(with_dependents(m, deps.drop_last(), id), deps.last(), id)
    }
}

/// `m` with an empty list under `k` if it had none.
pub open spec fn with_key(m: Map<NodeKey, Seq<NodeKey>>, k: NodeKey) -> Map<NodeKey, Seq<NodeKey>> {
    if m.contains_key(k) {
        m
    } else {
        m.insert(k, Seq::empty())
    }
}

/// `s` without any occurrence of `x`.
pub open spec fn without(s: Seq<NodeKey>, x: NodeKey) -> Seq<NodeKey>
    decreases s.len(),
{
    if s.len() == 0 {
        s
    } else if s.last() == x {
        without(s.drop_last(), x)
    } else {
        without(s.drop_last(), x).push(s.last())
    }
}

/// `m` with `id` taken out of the lists of each of `ks` that has a list.
pub open spec fn strip(m: Map<NodeKey, Seq<NodeKey>>, ks: Seq<NodeKey>, id: NodeKey) -> Map<
    NodeKey,
    Seq<NodeKey>,
>
    decreases ks.len(),
{
    if ks.len() == 0 {
        m
    } else {
        let m2 = strip(m, ks.drop_last(), id);
        let k = ks.last();
        if m2.contains_key(k) {
            m2.insert(k, without(m2[k], id))
        } else {
            m2
        }
    }
}

/// Number of occurrences of `x` in `s`.
pub open spec fn count_of(s: Seq<NodeKey>, x: NodeKey) -> nat
    decreases s.len(),
{
    if s.len() == 0 {
        0
    } else {
        count_of(s.drop_last(), x) + if s.last() == x {
            1nat
        } else {
            0nat
        }
    }
}

/// Number of elements of `s` that are in `a` and not in `b`, counted with repeats.
pub open spec fn count_between(s: Seq<NodeKey>, a: Set<NodeKey>, b: Set<NodeKey>) -> nat
    decreases s.len(),
{
    if s.len() == 0 {
        0
    } else {
        count_between(s.drop_last(), a, b) + if a.contains(s.last()) && !b.contains(s.last()) {
            1nat
        } else {
            0nat
        }
    }
}

/// The keys named by a queue of positions into `dk`.
pub open spec fn queue_keys(dk: Seq<NodeKey>, q: Seq<usize>) -> Seq<NodeKey> {
    q.map_values(|j: usize| dk[j as int])
}

/// The keys at the first `h` positions of the queue.
pub open spec fn popped(dk: Seq<NodeKey>, q: Seq<usize>, h: int) -> Set<NodeKey> {
    Set::new(|k: NodeKey| exists|t: int| 0 <= t < h && #[trigger] dk[q[t] as int] == k)
}

pub(crate) proof fn lemma_count_between_zero(s: Seq<NodeKey>, a: Set<NodeKey>, b: Set<NodeKey>, d: NodeKey)
    requires
        count_between(s, a, b) == 0,
        a.contains(d),
        s.contains(d),
    ensures
        b.contains(d),
    decreases s.len(),
{
    if s.last() != d {
        let i = choose|i: int| 0 <= i < s.len() && s[i] == d;
        assert(s.drop_last()[i] == d);
        lemma_count_between_zero(s.drop_last(), a, b, d);
    }
}

pub(crate) proof fn lemma_count_between_witness(s: Seq<NodeKey>, a: Set<NodeKey>, b: Set<NodeKey>) -> (d: NodeKey)
    requires
        count_between(s, a, b) > 0,
    ensures
        s.contains(d),
        a.contains(d),
        !b.contains(d),
    decreases s.len(),
{
    if a.contains(s.last()) && !b.contains(s.last()) {
        assert(s[s.len() - 1] == s.last());
        s.last()
    } else {
        let d = lemma_count_between_witness(s.drop_last(), a, b);
        let i = choose|i: int| 0 <= i < s.drop_last().len() && s.drop_last()[i] == d;
        assert(s[i] == d);
        d
    }
}

pub(crate) proof fn lemma_count_between_insert(s: Seq<NodeKey>, a: Set<NodeKey>, b: Set<NodeKey>, n: NodeKey)
    requires
        a.contains(n),
        !b.contains(n),
    ensures
        count_between(s, a, b) == count_between(s, a, b.insert(n)) + count_of(s, n),
    decreases s.len(),
{
    if s.len() > 0 {
        lemma_count_between_insert(s.drop_last(), a, b, n);
    }
}

pub(crate) proof fn lemma_count_of_concat(a: Seq<NodeKey>, b: Seq<NodeKey>, k: NodeKey)
    ensures
        count_of(a + b, k) == count_of(a, k) + count_of(b, k),
    decreases b.len(),
{
    if b.len() == 0 {
        assert(a + b =~= a);
    } else {
        assert((a + b).drop_last() =~= a + b.drop_last());
        lemma_count_of_concat(a, b.drop_last(), k);
    }
}

pub(crate) proof fn lemma_count_of_reverse(s: Seq<NodeKey>, k: NodeKey)
    ensures
        count_of(s.reverse(), k) == count_of(s, k),
    decreases s.len(),
{
    if s.len() > 0 {
        let one = seq![s.last()];
        assert(s.reverse() =~= one + s.drop_last().reverse());
        lemma_count_of_concat(one, s.drop_last().reverse(), k);
        assert(one.drop_last() =~= Seq::<NodeKey>::empty());
        assert(count_of(Seq::<NodeKey>::empty(), k) == 0);
        assert(one.last() == s.last());
        assert(count_of(one, k) == if s.last() == k { 1nat } else { 0nat });
        lemma_count_of_reverse(s.drop_last(), k);
    } else {
        assert(s.reverse().len() == 0);
    }
}

pub(crate) proof fn lemma_count_of_take(s: Seq<NodeKey>, x: NodeKey, w: int)
    requires
        0 <= w < s.len(),
    ensures
        count_of(s.take(w + 1), x) == count_of(s.take(w), x) + if s[w] == x {
            1nat
        } else {
            0nat
        },
        count_of(s.take(w), x) <= count_of(s, x),
    decreases s.len() - w,
{
    assert(s.take(w + 1).drop_last() =~= s.take(w));
    if w + 1 < s.len() {
        lemma_count_of_take(s, x, w + 1);
    } else {
        assert(s.take(w + 1) =~= s);
    }
}

/// Dependency and dependent maps, with topological sort on dirty subgraphs.
pub struct Topology {
    /// node -> its dependencies (what it reads from)
    pub(crate) deps: IdMap<Vec<NodeId>>,
    /// node -> its dependents (what reads from it)
    pub(crate) dependents: IdMap<Vec<NodeId>>,
}

impl Topology {
    /// Both maps hold each key once.
    pub closed spec fn wf(&self) -> bool {
        self.deps.wf() && self.dependents.wf()
    }

    pub(crate) proof fn lemma_lists(&self, k: NodeKey)
        requires
            self.wf(),
        ensures
            self.deps.view().contains_key(k) ==> ids_view(self.deps.view()[k]@) == self.deps_of(k),
            !self.deps.view().contains_key(k) ==> self.deps_of(k) == Seq::<NodeKey>::empty(),
            self.dependents.view().contains_key(k) ==> ids_view(self.dependents.view()[k]@) == self.dependents_of(k),
            !self.dependents.view().contains_key(k) ==> self.dependents_of(k) == Seq::<NodeKey>::empty(),
    {
    }

    pub(crate) proof fn lemma_wf(&self)
        requires
            self.wf(),
        ensures
            self.deps.wf(),
            self.dependents.wf(),
    {
    }

    /// node -> the keys of its dependencies.
    pub closed spec fn deps_view(&self) -> Map<NodeKey, Seq<NodeKey>> {
        self.deps.view().map_values(|v: Vec<NodeId>| ids_view(v@))
    }

    /// node -> the keys of its dependents.
    pub closed spec fn dependents_view(&self) -> Map<NodeKey, Seq<NodeKey>> {
        self.dependents.view().map_values(|v: Vec<NodeId>| ids_view(v@))
    }

    /// The dependencies recorded for `k` (none if it has no entry).
    pub open spec fn deps_of(&self, k: NodeKey) -> Seq<NodeKey> {
        seq_or_empty(self.deps_view(), k)
    }

    /// The dependents recorded for `k` (none if it has no entry).
    pub open spec fn dependents_of(&self, k: NodeKey) -> Seq<NodeKey> {
        seq_or_empty(self.dependents_view(), k)
    }

    /// `b` is recorded as a dependent of `a`.
    pub open spec fn edge(&self, a: NodeKey, b: NodeKey) -> bool {
        self.dependents_of(a).contains(b)
    }

    /// Each element of `p` is recorded as a dependent of the one before it.
    pub open spec fn is_path(&self, p: Seq<NodeKey>) -> bool {
        forall|i: int| 0 <= i < p.len() - 1 ==> #[trigger] self.edge(p[i], p[i + 1])
    }

    /// `k` can be reached from one of `sources` by following dependents one or more times.
    pub open spec fn downstream_of(&self, sources: Set<NodeKey>, k: NodeKey) -> bool {
        exists|p: Seq<NodeKey>|
            #![trigger self.is_path(p)]
            p.len() >= 2 && self.is_path(p) && sources.contains(p[0]) && p.last() == k
    }

    /// All transitive dependents of `sources`.
    pub open spec fn dirty_of(&self, sources: Set<NodeKey>) -> Set<NodeKey> {
        Set::new(|k: NodeKey| self.downstream_of(sources, k))
    }

    /// Every dependent stored in the first `m` lists, one after the other.
    pub closed spec fn stored_dependents(&self, m: int) -> Seq<NodeKey>
        decreases m,
    {
        if m <= 0 {
            Seq::empty()
        } else {
            self.stored_dependents(m - 1) + ids_view(self.dependents.value_at(m - 1)@)
        }
    }

    proof fn lemma_stored_dependents(&self, m: int, i: int, j: int)
        requires
            0 <= i < m,
            0 <= j < self.dependents.value_at(i)@.len(),
        ensures
            self.stored_dependents(m).contains(self.dependents.value_at(i)@[j]@),
        decreases m,
    {
        let x = self.dependents.value_at(i)@[j]@;
        let prev = self.stored_dependents(m - 1);
        let last = ids_view(self.dependents.value_at(m - 1)@);
        assert(self.stored_dependents(m) == prev + last);
        if i < m - 1 {
            self.lemma_stored_dependents(m - 1, i, j);
            let t = choose|t: int| 0 <= t < prev.len() && prev[t] == x;
            assert((prev + last)[t] == x);
        } else {
            assert((prev + last)[prev.len() + j] == x);
        }
    }

    proof fn lemma_path_closed(&self, sources: Set<NodeKey>, dirty: Set<NodeKey>, p: Seq<NodeKey>)
        requires
            p.len() >= 2,
            self.is_path(p),
            sources.contains(p[0]),
            forall|x: NodeKey, y: NodeKey|
                (sources.contains(x) || dirty.contains(x)) && #[trigger] self.edge(x, y)
                    ==> dirty.contains(y),
        ensures
            dirty.contains(p.last()),
        decreases p.len(),
    {
        let q = p.drop_last();
        let i = p.len() - 2;
        assert(self.edge(p[i], p[i + 1]));
        if p.len() > 2 {
            assert forall|i: int| 0 <= i < q.len() - 1 implies #[trigger] self.edge(q[i], q[i + 1]) by {
                assert(self.edge(p[i], p[i + 1]));
            }
            self.lemma_path_closed(sources, dirty, q);
        }
    }

    /// Within `dirty`, each node is listed among the dependents of each of its
    /// dependencies as many times as it lists that dependency.
    pub open spec fn consistent_on(&self, dirty: Set<NodeKey>) -> bool {
        forall|n: NodeKey, x: NodeKey|
            #![trigger count_of(self.dependents_of(n), x), count_of(self.deps_of(x), n)]
            dirty.contains(n) && dirty.contains(x) ==> count_of(self.dependents_of(n), x)
                == count_of(self.deps_of(x), n)
    }

    /// `rank` strictly grows along every dependency inside `dirty`: the
    /// dependencies within `dirty` have no cycle.
    pub open spec fn ranked_on(&self, dirty: Set<NodeKey>, rank: spec_fn(NodeKey) -> nat) -> bool {
        forall|x: NodeKey, d: NodeKey|
            dirty.contains(x) && dirty.contains(d) && #[trigger] self.deps_of(x).contains(d) ==> rank(
                d,
            ) < rank(x)
    }

    /// Every dependency of an element of `sorted` that lies in `dirty` comes
    /// earlier in `sorted`.
    pub open spec fn in_dependency_order(&self, sorted: Seq<NodeKey>, dirty: Set<NodeKey>) -> bool {
        forall|i: int, d: NodeKey|
            0 <= i < sorted.len() && dirty.contains(d) && #[trigger] self.deps_of(sorted[i]).contains(d)
                ==> exists|j: int| 0 <= j < i && sorted[j] == d
    }

    /// An empty topology.
    pub fn new() -> (r: Self)
        ensures
            r.wf(),
            r.deps_view() == Map::<NodeKey, Seq<NodeKey>>::empty(),
            r.dependents_view() == Map::<NodeKey, Seq<NodeKey>>::empty(),
    {
        let r = Topology { deps: IdMap::new(), dependents: IdMap::new() };
        assert(r.deps_view() =~= Map::<NodeKey, Seq<NodeKey>>::empty());
        assert(r.dependents_view() =~= Map::<NodeKey, Seq<NodeKey>>::empty());
        r
    }

    /// Register a node and its dependencies.
    pub fn add_node(&mut self, id: NodeId, deps: Vec<NodeId>)
        requires
            old(self).wf(),
        ensures
            final(self).wf(),
            final(self).deps_view() == old(self).deps_view().insert(id@, ids_view(deps@)),
            final(self).dependents_view() == with_key(
                with_dependents(old(self).dependents_view(), ids_view(deps@), id@),
                id@,
            ),
    {
        let ghost k = id@;
        let ghost dv = ids_view(deps@);
        let mut i: usize = 0;
        while i < deps.len()
            invariant
                self.wf(),
                i <= deps@.len(),
                dv == ids_view(deps@),
                k == id@,
                self.deps_view() == old(self).deps_view(),
                self.dependents_view() == with_dependents(
                    old(self).dependents_view(),
                    dv.take(i as int),
                    k,
                ),
            decreases deps@.len() - i,
        {
            let ghost before = self.dependents_view();
            let mut list = match self.dependents.remove(&deps[i]) {
                Some(l) => l,
                None => Vec::new(),
            };
            let ghost lv = ids_view(list@);
            assert(lv == seq_or_empty(before, dv[i as int]));
            list.push(id.clone());
            assert(ids_view(list@) =~= lv.push(k));
            self.dependents.insert(deps[i].clone(), list);
            proof {
                assert(dv.take(i + 1).drop_last() =~= dv.take(i as int));
                assert(self.dependents_view() =~= with_dependent(before, dv[i as int], k));
            }
            i = i + 1;
        }
        assert(dv.take(deps@.len() as int) =~= dv);
        let ghost mid = self.dependents_view();
        self.deps.insert(id.clone(), deps);
        assert(self.deps_view() =~= old(self).deps_view().insert(k, dv));
        if !self.dependents.contains(&id) {
            let empty: Vec<NodeId> = Vec::new();
            assert(ids_view(empty@) =~= Seq::<NodeKey>::empty());
            self.dependents.insert(id, empty);
            assert(self.dependents_view() =~= mid.insert(k, Seq::empty()));
        }
    }

    /// Remove a node from the topology.
    pub fn remove_node(&mut self, id: &NodeId)
        requires
            old(self).wf(),
        ensures
            final(self).wf(),
            final(self).deps_view() == old(self).deps_view().remove(id@),
            final(self).dependents_view() == strip(
                old(self).dependents_view(),
                old(self).deps_of(id@),
                id@,
            ).remove(id@),
    {
        let ghost k = id@;
        let ghost ks = old(self).deps_of(k);
        match self.deps.remove(id) {
            Some(dl) => {
                assert(ids_view(dl@) == ks);
                assert(self.deps_view() =~= old(self).deps_view().remove(k));
                let mut i: usize = 0;
                while i < dl.len()
                    invariant
                        self.wf(),
                        i <= dl@.len(),
                        ks == ids_view(dl@),
                        k == id@,
                        self.deps_view() == old(self).deps_view().remove(k),
                        self.dependents_view() == strip(
                            old(self).dependents_view(),
                            ks.take(i as int),
                            k,
                        ),
                    decreases dl@.len() - i,
                {
                    let ghost before = self.dependents_view();
                    assert(ks.take(i + 1).drop_last() =~= ks.take(i as int));
                    match self.dependents.remove(&dl[i]) {
                        Some(lst) => {
                            let filtered = without_id(&lst, id);
                            self.dependents.insert(dl[i].clone(), filtered);
                            assert(self.dependents_view() =~= before.insert(
                                ks[i as int],
                                without(before[ks[i as int]], k),
                            ));
                        },
                        None => {
                            assert(self.dependents_view() =~= before);
                        },
                    }
                    i = i + 1;
                }
                assert(ks.take(dl@.len() as int) =~= ks);
            },
            None => {
                assert(ks == Seq::<NodeKey>::empty());
                assert(self.deps_view() =~= old(self).deps_view().remove(k));
            },
        }
        let ghost mid = self.dependents_view();
        self.dependents.remove(id);
        assert(self.dependents_view() =~= mid.remove(k));
    }

    /// Compute the dirty set: all transitive dependents of the given source nodes.
    pub fn dirty_set(&self, sources: &IdSet) -> (r: IdSet)
        requires
            self.wf(),
            sources.wf(),
        ensures
            r.wf(),
            r@ == self.dirty_of(sources@),
    {
        let mut dirty = IdSet::new();
        let mut queue: Vec<NodeId> = Vec::new();
        let mut i: usize = 0;
        while i < sources.len()
            invariant
                i <= sources.keys().len(),
                ids_view(queue@) == sources.keys().take(i as int),
            decreases sources.keys().len() - i,
        {
            let ghost qv = ids_view(queue@);
            queue.push(sources.get(i).clone());
            assert(ids_view(queue@) =~= qv.push(sources.keys()[i as int]));
            assert(sources.keys().take(i + 1) =~= sources.keys().take(i as int).push(
                sources.keys()[i as int],
            ));
            i = i + 1;
        }
        assert(sources.keys().take(sources.keys().len() as int) =~= sources.keys());
        assert(ids_view(queue@) =~= sources.keys() + dirty.keys());
        let ghost flat = self.stored_dependents(self.dependents.size() as int);
        let ghost src = sources@;
        let mut head: usize = 0;
        while head < queue.len()
            invariant
                self.wf(),
                sources.wf(),
                dirty.wf(),
                src == sources@,
                flat == self.stored_dependents(self.dependents.size() as int),
                ids_view(queue@) == sources.keys() + dirty.keys(),
                head <= queue@.len(),
                dirty.keys().len() <= flat.len(),
                forall|j: int| 0 <= j < dirty.keys().len() ==> flat.contains(#[trigger] dirty.keys()[j]),
                forall|k: NodeKey| dirty@.contains(k) ==> self.downstream_of(src, k),
                forall|j: int, y: NodeKey|
                    0 <= j < head && #[trigger] self.edge(queue@[j]@, y) ==> dirty@.contains(y),
            decreases sources.keys().len() + flat.len() - head,
        {
            assert(ids_view(queue@).len() == queue@.len());
            let node = queue[head].clone();
            let ghost nk = node@;
            assert(ids_view(queue@)[head as int] == nk);
            proof {
                sources.lemma_view();
                dirty.lemma_view();
                if head < sources.keys().len() {
                    assert(sources.keys()[head as int] == nk);
                    assert(src.contains(nk));
                } else {
                    assert((sources.keys() + dirty.keys())[head as int] == dirty.keys()[head - sources.keys().len()]);
                    assert(dirty.keys()[head - sources.keys().len()] == nk);
                    assert(dirty@.contains(nk));
                }
            }
            head = head + 1;
            match self.dependents.find(&node) {
                Some(idx) => {
                    proof {
                        self.dependents.lemma_view_at(idx as int);
                    }
                    let list = self.dependents.value_ref(idx);
                    assert(self.dependents_of(nk) == ids_view(list@));
                    let mut j: usize = 0;
                    while j < list.len()
                        invariant
                            self.wf(),
                            sources.wf(),
                            dirty.wf(),
                            src == sources@,
                            flat == self.stored_dependents(self.dependents.size() as int),
                            idx < self.dependents.size(),
                            *list == self.dependents.value_at(idx as int),
                            self.dependents_of(nk) == ids_view(list@),
                            src.contains(nk) || self.downstream_of(src, nk),
                            ids_view(queue@) == sources.keys() + dirty.keys(),
                            head <= queue@.len(),
                            queue@[head - 1]@ == nk,
                            head >= 1,
                            j <= list@.len(),
                            dirty.keys().len() <= flat.len(),
                            forall|t: int| 0 <= t < dirty.keys().len() ==> flat.contains(#[trigger] dirty.keys()[t]),
                            forall|k: NodeKey| dirty@.contains(k) ==> self.downstream_of(src, k),
                            forall|t: int, y: NodeKey|
                                0 <= t < head - 1 && #[trigger] self.edge(queue@[t]@, y) ==> dirty@.contains(y),
                            forall|t: int| 0 <= t < j ==> dirty@.contains(#[trigger] list@[t]@),
                        decreases list@.len() - j,
                    {
                        let ghost x = list@[j as int]@;
                        proof {
                            self.lemma_stored_dependents(self.dependents.size() as int, idx as int, j as int);
                            assert(ids_view(list@)[j as int] == x);
                            assert(self.edge(nk, x));
                            if src.contains(nk) {
                                let p = seq![nk, x];
                                assert(self.is_path(p));
                                assert(p.last() == x);
                            } else {
                                let p = choose|p: Seq<NodeKey>|
                                    #![trigger self.is_path(p)]
                                    p.len() >= 2 && self.is_path(p) && src.contains(p[0]) && p.last() == nk;
                                let p2 = p.push(x);
                                assert forall|t: int| 0 <= t < p2.len() - 1 implies #[trigger] self.edge(p2[t], p2[t + 1]) by {
                                    if t < p.len() - 1 {
                                        assert(self.edge(p[t], p[t + 1]));
                                    }
                                }
                                assert(self.is_path(p2));
                                assert(p2[0] == p[0]);
                                assert(p2.last() == x);
                            }
                            assert(self.downstream_of(src, x));
                        }
                        let ghost qv = ids_view(queue@);
                        let ghost dk = dirty.keys();
                        if dirty.insert(list[j].clone()) {
                            queue.push(list[j].clone());
                            proof {
                                dirty.lemma_view();
                                assert(ids_view(queue@) =~= qv.push(x));
                                assert(ids_view(queue@) =~= sources.keys() + dirty.keys());
                                assert forall|t: int| 0 <= t < dirty.keys().len() implies flat.contains(#[trigger] dirty.keys()[t]) by {
                                    if t < dk.len() {
                                        assert(dirty.keys()[t] == dk[t]);
                                    }
                                }
                                crate::facts::lemma_unique_within_len(dirty.keys(), flat);
                            }
                        }
                        proof {
                            dirty.lemma_view();
                            assert(dirty@.contains(x));
                            assert forall|t: int, y: NodeKey|
                                0 <= t < head - 1 && #[trigger] self.edge(queue@[t]@, y) implies dirty@.contains(y) by {
                                assert(queue@[t]@ == qv[t]);
                            }
                        }
                        j = j + 1;
                    }
                    proof {
                        assert forall|t: int, y: NodeKey|
                            0 <= t < head && #[trigger] self.edge(queue@[t]@, y) implies dirty@.contains(y) by {
                            if t == head - 1 {
                                let w = choose|w: int| 0 <= w < list@.len() && ids_view(list@)[w] == y;
                                assert(dirty@.contains(list@[w]@));
                            }
                        }
                    }
                },
                None => {
                    assert(self.dependents_of(nk) == Seq::<NodeKey>::empty());
                    assert forall|t: int, y: NodeKey|
                        0 <= t < head && #[trigger] self.edge(queue@[t]@, y) implies dirty@.contains(y) by {
                        if t == head - 1 {
                            assert(queue@[t]@ == nk);
                        }
                    }
                },
            }
        }
        proof {
            sources.lemma_view();
            dirty.lemma_view();
            assert(ids_view(queue@).len() == queue@.len());
            assert forall|x: NodeKey, y: NodeKey|
                (src.contains(x) || dirty@.contains(x)) && #[trigger] self.edge(x, y) implies dirty@.contains(y) by {
                let qv = ids_view(queue@);
                if src.contains(x) {
                    let t = choose|t: int| 0 <= t < sources.keys().len() && sources.keys()[t] == x;
                    assert(qv[t] == x);
                    assert(queue@[t]@ == x);
                } else {
                    let t = choose|t: int| 0 <= t < dirty.keys().len() && dirty.keys()[t] == x;
                    assert(qv[sources.keys().len() + t] == x);
                    assert(queue@[sources.keys().len() + t]@ == x);
                }
            }
            assert forall|k: NodeKey| self.dirty_of(src).contains(k) implies dirty@.contains(k) by {
                let p = choose|p: Seq<NodeKey>|
                    #![trigger self.is_path(p)]
                    p.len() >= 2 && self.is_path(p) && src.contains(p[0]) && p.last() == k;
                self.lemma_path_closed(src, dirty@, p);
            }
            assert(dirty@ =~= self.dirty_of(src));
        }
        dirty
    }

    /// Topological sort of the dirty set (Kahn's algorithm).
    /// Returns nodes in dependency order (deps before dependents).
    pub fn topo_sort(&self, dirty: &IdSet) -> (sorted: Vec<NodeId>)
        requires
            self.wf(),
            dirty.wf(),
        ensures
            ids_view(sorted@).no_duplicates(),
            forall|i: int| 0 <= i < sorted@.len() ==> dirty@.contains(#[trigger] sorted@[i]@),
            self.consistent_on(dirty@) ==> self.in_dependency_order(ids_view(sorted@), dirty@),
            self.consistent_on(dirty@) && (exists|rank: spec_fn(NodeKey) -> nat|
                self.ranked_on(dirty@, rank)) ==> forall|k: NodeKey|
                dirty@.contains(k) ==> #[trigger] ids_view(sorted@).contains(k),
    {
        let mut sorted: Vec<NodeId> = Vec::new();
        if dirty.is_empty() {
            proof {
                dirty.lemma_view();
                assert(ids_view(sorted@) =~= Seq::<NodeKey>::empty());
            }
            return sorted;
        }
        let n = dirty.len();
        let ghost dk = dirty.keys();
        let ghost dd = dirty@;
        let ghost cons = self.consistent_on(dd);
        proof {
            dirty.lemma_view();
        }
        // In-degree of each dirty node within the dirty subgraph.
        let mut degree: Vec<usize> = Vec::new();
        let mut i: usize = 0;
        while i < n
            invariant
                self.wf(),
                dirty.wf(),
                n == dk.len(),
                dk == dirty.keys(),
                dd == dirty@,
                i <= n,
                degree@.len() == i,
                forall|j: int|
                    0 <= j < i ==> degree@[j] == count_between(
                        #[trigger] self.deps_of(dk[j]),
                        dd,
                        Set::empty(),
                    ),
            decreases n - i,
        {
            let c = match self.deps.get(dirty.get(i)) {
                Some(list) => count_members(list, dirty),
                None => 0,
            };
            degree.push(c);
            i = i + 1;
        }
        // Start with the nodes that have no dependency inside the dirty set.
        let mut queue: Vec<usize> = Vec::new();
        let mut i: usize = 0;
        while i < n
            invariant
                n == dk.len(),
                degree@.len() == n,
                i <= n,
                queue@.no_duplicates(),
                forall|t: int| 0 <= t < queue@.len() ==> #[trigger] queue@[t] < i,
                forall|j: int| 0 <= j < i ==> (#[trigger] queue@.contains(j as usize) <==> degree@[j] == 0),
                forall|j: int|
                    0 <= j < n ==> (degree@[j] == count_between(
                        #[trigger] self.deps_of(dk[j]),
                        dd,
                        Set::empty(),
                    )),
                forall|t: int|
                    0 <= t < queue@.len() ==> count_between(
                        #[trigger] self.deps_of(dk[queue@[t] as int]),
                        dd,
                        Set::empty(),
                    ) == 0,
            decreases n - i,
        {
            let ghost qv = queue@;
            if degree[i] == 0 {
                queue.push(i);
                proof {
                    assert(!qv.contains(i)) by {
                        if qv.contains(i) {
                            let t = choose|t: int| 0 <= t < qv.len() && qv[t] == i;
                        }
                    }
                    assert forall|t: int| 0 <= t < queue@.len() implies #[trigger] queue@[t] < i + 1 by {
                        if t < qv.len() {
                            assert(queue@[t] == qv[t]);
                        }
                    }
                }
            }
            proof {
                assert forall|j: int| 0 <= j < i + 1 implies (#[trigger] queue@.contains(j as usize) <==> degree@[j] == 0) by {
                    if queue@.contains(j as usize) {
                        let t = choose|t: int| 0 <= t < queue@.len() && queue@[t] == j as usize;
                        if t < qv.len() {
                            assert(qv[t] == j as usize);
                        }
                    }
                    if j < i && qv.contains(j as usize) {
                        let t = choose|t: int| 0 <= t < qv.len() && qv[t] == j as usize;
                        assert(queue@[t] == j as usize);
                    }
                    if j == i && degree@[j] == 0 {
                        assert(queue@[qv.len() as int] == i);
                    }
                }
                assert forall|t: int|
                    0 <= t < queue@.len() implies count_between(
                        #[trigger] self.deps_of(dk[queue@[t] as int]),
                        dd,
                        Set::empty(),
                    ) == 0 by {
                    if t < qv.len() {
                        assert(queue@[t] == qv[t]);
                    }
                }
            }
            i = i + 1;
        }
        proof {
            let all = Seq::new(n as nat, |t: int| t as usize);
            assert forall|t: int| 0 <= t < queue@.len() implies all.contains(#[trigger] queue@[t]) by {
                let q = queue@[t];
                assert(all[q as int] == q);
            }
            crate::facts::lemma_unique_within_len(queue@, all);
            assert forall|t: int, d: NodeKey|
                0 <= t < queue@.len() && dd.contains(d) && #[trigger] self.deps_of(
                    dk[queue@[t] as int],
                ).contains(d) implies exists|s: int| 0 <= s < t && dk[queue@[s] as int] == d by {
                lemma_count_between_zero(self.deps_of(dk[queue@[t] as int]), dd, Set::empty(), d);
            }
            assert forall|j: int| 0 <= j < n implies degree@[j] == count_between(
                #[trigger] self.deps_of(dk[j]),
                dd,
                popped(dk, queue@, 0),
            ) by {
                assert(popped(dk, queue@, 0) =~= Set::<NodeKey>::empty());
            }
            assert(ids_view(sorted@) =~= queue_keys(dk, queue@).take(0));
        }
        let mut head: usize = 0;
        while head < queue.len()
            invariant
                self.wf(),
                dirty.wf(),
                n == dk.len(),
                dk == dirty.keys(),
                dk.no_duplicates(),
                dd == dirty@,
                forall|k: NodeKey| #[trigger] dd.contains(k) <==> dk.contains(k),
                cons == self.consistent_on(dd),
                degree@.len() == n,
                head <= queue@.len(),
                queue@.len() <= n,
                queue@.no_duplicates(),
                forall|t: int| 0 <= t < queue@.len() ==> #[trigger] queue@[t] < n,
                forall|j: int| 0 <= j < n ==> (#[trigger] queue@.contains(j as usize) <==> degree@[j] == 0),
                ids_view(sorted@) == queue_keys(dk, queue@).take(head as int),
                cons ==> forall|j: int|
                    0 <= j < n ==> degree@[j] == count_between(
                        #[trigger] self.deps_of(dk[j]),
                        dd,
                        popped(dk, queue@, head as int),
                    ),
                cons ==> forall|t: int, d: NodeKey|
                    0 <= t < queue@.len() && dd.contains(d) && #[trigger] self.deps_of(
                        dk[queue@[t] as int],
                    ).contains(d) ==> exists|s: int| 0 <= s < t && dk[queue@[s] as int] == d,
            decreases n - head,
        {
            let qi = queue[head];
            let node = dirty.get(qi);
            let ghost nk = node@;
            let ghost before = popped(dk, queue@, head as int);
            proof {
                assert(dd.contains(nk)) by {
                    assert(dk.contains(dk[qi as int]));
                }
                assert(!before.contains(nk)) by {
                    if before.contains(nk) {
                        let t = choose|t: int| 0 <= t < head && #[trigger] dk[queue@[t] as int] == nk;
                        assert(queue@[t] == qi);
                    }
                }
                assert(popped(dk, queue@, head + 1) =~= before.insert(nk));
            }
            let ghost sv = ids_view(sorted@);
            sorted.push(node.clone());
            proof {
                assert(queue_keys(dk, queue@).take(head + 1) =~= sv.push(nk));
                assert(ids_view(sorted@) =~= sv.push(nk));
            }
            head = head + 1;
            let ghost after = popped(dk, queue@, head as int);
            proof {
                if cons {
                    assert forall|j: int| 0 <= j < n implies count_between(
                        #[trigger] self.deps_of(dk[j]),
                        dd,
                        before,
                    ) == count_between(self.deps_of(dk[j]), dd, after) + count_of(
                        self.deps_of(dk[j]),
                        nk,
                    ) by {
                        lemma_count_between_insert(self.deps_of(dk[j]), dd, before, nk);
                    }
                }
            }
            match self.dependents.find(node) {
                Some(idx) => {
                    proof {
                        self.dependents.lemma_view_at(idx as int);
                    }
                    let list = self.dependents.value_ref(idx);
                    let ghost lv = ids_view(list@);
                    assert(self.dependents_of(nk) == lv);
                    proof {
                        if cons {
                            assert forall|j: int| 0 <= j < n implies count_of(lv, #[trigger] dk[j])
                                == count_of(self.deps_of(dk[j]), nk) by {
                                assert(dk.contains(dk[j]));
                                assert(count_of(self.dependents_of(nk), dk[j]) == count_of(self.deps_of(dk[j]), nk));
                            }
                            assert(lv.take(0) =~= Seq::<NodeKey>::empty());
                        }
                    }
                    let mut w: usize = 0;
                    while w < list.len()
                        invariant
                            self.wf(),
                            dirty.wf(),
                            n == dk.len(),
                            dk == dirty.keys(),
                            dk.no_duplicates(),
                            dd == dirty@,
                            forall|k: NodeKey| #[trigger] dd.contains(k) <==> dk.contains(k),
                            dd.contains(nk),
                            cons == self.consistent_on(dd),
                            lv == ids_view(list@),
                            lv == self.dependents_of(nk),
                            degree@.len() == n,
                            1 <= head <= queue@.len(),
                            queue@.len() <= n,
                            queue@.no_duplicates(),
                            after == popped(dk, queue@, head as int),
                            forall|t: int| 0 <= t < queue@.len() ==> #[trigger] queue@[t] < n,
                            forall|j: int|
                                0 <= j < n ==> (#[trigger] queue@.contains(j as usize) <==> degree@[j] == 0),
                            ids_view(sorted@) == queue_keys(dk, queue@).take(head as int),
                            w <= lv.len(),
                            cons ==> forall|j: int|
                                0 <= j < n ==> degree@[j] == count_between(
                                    #[trigger] self.deps_of(dk[j]),
                                    dd,
                                    after,
                                ) + (count_of(lv, dk[j]) - count_of(lv.take(w as int), dk[j])),
                            cons ==> forall|t: int, d: NodeKey|
                                0 <= t < queue@.len() && dd.contains(d) && #[trigger] self.deps_of(
                                    dk[queue@[t] as int],
                                ).contains(d) ==> exists|s: int| 0 <= s < t && dk[queue@[s] as int] == d,
                        decreases lv.len() - w,
                    {
                        let ghost x = lv[w as int];
                        proof {
                            if cons {
                                assert forall|j: int| 0 <= j < n implies count_of(lv.take(w + 1), #[trigger] dk[j])
                                    == count_of(lv.take(w as int), dk[j]) + if lv[w as int] == dk[j] {
                                    1nat
                                } else {
                                    0nat
                                } by {
                                    lemma_count_of_take(lv, dk[j], w as int);
                                }
                                assert forall|j: int| 0 <= j < n implies count_of(lv.take(w + 1), #[trigger] dk[j])
                                    <= count_of(lv, dk[j]) by {
                                    if w + 1 < lv.len() {
                                        lemma_count_of_take(lv, dk[j], w + 1);
                                    } else {
                                        assert(lv.take(w + 1) =~= lv);
                                    }
                                }
                            }
                        }
                        match dirty.find(&list[w]) {
                            Some(j) => {
                                assert(lv[w as int] == list@[w as int]@);
                                assert(dk[j as int] == x);
                                if degree[j] > 0 {
                                    assert(queue@.contains((j as int) as usize) <==> degree@[j as int] == 0);
                                    assert(!queue@.contains(j));
                                    degree.set(j, degree[j] - 1);
                                    if degree[j] == 0 {
                                        let ghost qv = queue@;
                                        proof {
                                            if cons {
                                                assert(count_between(self.deps_of(dk[j as int]), dd, after) == 0);
                                                assert forall|t: int, d: NodeKey|
                                                    0 <= t < queue@.len() + 1 && dd.contains(d) && #[trigger] self.deps_of(
                                                        dk[qv.push(j)[t] as int],
                                                    ).contains(d) implies exists|s: int|
                                                    0 <= s < t && dk[qv.push(j)[s] as int] == d by {
                                                    if t == qv.len() {
                                                        lemma_count_between_zero(self.deps_of(dk[j as int]), dd, after, d);
                                                        let s = choose|s: int| 0 <= s < head && #[trigger] dk[queue@[s] as int] == d;
                                                        assert(qv.push(j)[s] == qv[s]);
                                                    } else {
                                                        assert(qv.push(j)[t] == qv[t]);
                                                        let s = choose|s: int| 0 <= s < t && dk[qv[s] as int] == d;
                                                        assert(qv.push(j)[s] == qv[s]);
                                                    }
                                                }
                                            }
                                            assert(!qv.contains(j));
                                        }
                                        queue.push(j);
                                        proof {
                                            assert(queue@ == qv.push(j));
                                            assert(queue@.no_duplicates());
                                            assert(popped(dk, queue@, head as int) =~= after) by {
                                                assert forall|k: NodeKey| popped(dk, queue@, head as int).contains(k)
                                                    <==> after.contains(k) by {
                                                    if popped(dk, queue@, head as int).contains(k) {
                                                        let t = choose|t: int| 0 <= t < head && #[trigger] dk[queue@[t] as int] == k;
                                                        assert(queue@[t] == qv[t]);
                                                    }
                                                    if after.contains(k) {
                                                        let t = choose|t: int| 0 <= t < head && #[trigger] dk[qv[t] as int] == k;
                                                        assert(queue@[t] == qv[t]);
                                                    }
                                                }
                                            }
                                            assert(queue_keys(dk, queue@).take(head as int) =~= queue_keys(dk, qv).take(head as int));
                                            assert forall|t: int| 0 <= t < queue@.len() implies #[trigger] queue@[t] < n by {
                                                if t < qv.len() {
                                                    assert(queue@[t] == qv[t]);
                                                }
                                            }
                                            assert forall|jj: int| 0 <= jj < n implies (#[trigger] queue@.contains(jj as usize)
                                                <==> degree@[jj] == 0) by {
                                                if jj != j as int {
                                                    if queue@.contains(jj as usize) {
                                                        let t = choose|t: int| 0 <= t < queue@.len() && queue@[t] == jj as usize;
                                                        assert(t < qv.len());
                                                        assert(qv[t] == jj as usize);
                                                    }
                                                    if qv.contains(jj as usize) {
                                                        let t = choose|t: int| 0 <= t < qv.len() && qv[t] == jj as usize;
                                                        assert(queue@[t] == jj as usize);
                                                    }
                                                } else {
                                                    assert(queue@[qv.len() as int] == j);
                                                }
                                            }
                                            let all = Seq::new(n as nat, |t: int| t as usize);
                                            assert forall|t: int| 0 <= t < queue@.len() implies all.contains(
                                                #[trigger] queue@[t],
                                            ) by {
                                                let q = queue@[t];
                                                assert(all[q as int] == q);
                                            }
                                            crate::facts::lemma_unique_within_len(queue@, all);
                                        }
                                    }
                                } else {
                                    proof {
                                        if cons {
                                            assert(count_of(lv.take(w + 1), dk[j as int]) <= count_of(lv, dk[j as int]));
                                            assert(count_of(lv.take(w + 1), dk[j as int]) == count_of(lv.take(w as int), dk[j as int]) + 1);
                                            assert(degree@[j as int] == count_between(
                                                self.deps_of(dk[j as int]),
                                                dd,
                                                after,
                                            ) + (count_of(lv, dk[j as int]) - count_of(lv.take(w as int), dk[j as int])));
                                            assert(false);
                                        }
                                    }
                                }
                            },
                            None => {
                                proof {
                                    if cons {
                                        assert(lv[w as int] == list@[w as int]@);
                                        assert forall|j: int| 0 <= j < n implies lv[w as int] != #[trigger] dk[j] by {
                                            assert(dk.contains(dk[j]));
                                        }
                                    }
                                }
                            },
                        }
                        w = w + 1;
                    }
                    proof {
                        assert(lv.take(lv.len() as int) =~= lv);
                    }
                },
                None => {
                    proof {
                        if cons {
                            assert forall|j: int| 0 <= j < n implies count_of(
                                #[trigger] self.deps_of(dk[j]),
                                nk,
                            ) == 0 by {
                                assert(dk.contains(dk[j]));
                                assert(count_of(self.dependents_of(nk), dk[j]) == count_of(self.deps_of(dk[j]), nk));
                            }
                        }
                    }
                },
            }
            proof {
                if cons {
                    assert forall|j: int| 0 <= j < n implies degree@[j] == count_between(
                        #[trigger] self.deps_of(dk[j]),
                        dd,
                        popped(dk, queue@, head as int),
                    ) by {
                        assert(dk.contains(dk[j]));
                        assert(count_of(self.dependents_of(nk), dk[j]) == count_of(self.deps_of(dk[j]), nk));
                    }
                }
            }
        }
        proof {
            let sk = ids_view(sorted@);
            let qk = queue_keys(dk, queue@);
            assert(sk =~= qk);
            assert forall|a: int, b: int| 0 <= a < b < sk.len() implies sk[a] != sk[b] by {
                assert(queue@[a] != queue@[b]);
            }
            assert forall|i: int| 0 <= i < sorted@.len() implies dd.contains(#[trigger] sorted@[i]@) by {
                assert(sk[i] == sorted@[i]@);
                assert(dk.contains(dk[queue@[i] as int]));
            }
            if cons {
                assert forall|i: int, d: NodeKey|
                    0 <= i < sk.len() && dd.contains(d) && #[trigger] self.deps_of(sk[i]).contains(d)
                        implies exists|j: int| 0 <= j < i && sk[j] == d by {
                    assert(sk[i] == dk[queue@[i] as int]);
                    let s = choose|s: int| 0 <= s < i && dk[queue@[s] as int] == d;
                    assert(sk[s] == d);
                }
                if exists|rank: spec_fn(NodeKey) -> nat| self.ranked_on(dd, rank) {
                    let rank = choose|rank: spec_fn(NodeKey) -> nat| self.ranked_on(dd, rank);
                    let pp = popped(dk, queue@, head as int);
                    assert forall|x: NodeKey| dd.contains(x) && !pp.contains(x) implies count_between(
                        #[trigger] self.deps_of(x),
                        dd,
                        pp,
                    ) > 0 by {
                        let j = choose|j: int| 0 <= j < dk.len() && dk[j] == x;
                        if queue@.contains(j as usize) {
                            let t = choose|t: int| 0 <= t < queue@.len() && queue@[t] == j as usize;
                            assert(dk[queue@[t] as int] == x);
                        }
                    }
                    assert forall|k: NodeKey| dd.contains(k) implies #[trigger] sk.contains(k) by {
                        self.lemma_popped_by_rank(dd, pp, rank, k);
                        let t = choose|t: int| 0 <= t < head && #[trigger] dk[queue@[t] as int] == k;
                        assert(sk[t] == k);
                    }
                }
            }
        }
        sorted
    }

    proof fn lemma_popped_by_rank(
        &self,
        dd: Set<NodeKey>,
        pp: Set<NodeKey>,
        rank: spec_fn(NodeKey) -> nat,
        k: NodeKey,
    )
        requires
            self.ranked_on(dd, rank),
            forall|x: NodeKey|
                dd.contains(x) && !pp.contains(x) ==> count_between(#[trigger] self.deps_of(x), dd, pp)
                    > 0,
            dd.contains(k),
        ensures
            pp.contains(k),
        decreases rank(k),
    {
        if !pp.contains(k) {
            let d = lemma_count_between_witness(self.deps_of(k), dd, pp);
            assert(rank(d) < rank(k));
            self.lemma_popped_by_rank(dd, pp, rank, d);
        }
    }
}

/// Number of entries of `list` that are members of `set`.
pub(crate) fn count_members(list: &Vec<NodeId>, set: &IdSet) -> (r: usize)
    ensures
        r == count_between(ids_view(list@), set@, Set::empty()),
{
    let mut c: usize = 0;
    let mut i: usize = 0;
    while i < list.len()
        invariant
            i <= list@.len(),
            c <= i,
            c == count_between(ids_view(list@).take(i as int), set@, Set::empty()),
        decreases list@.len() - i,
    {
        assert(ids_view(list@).take(i + 1).drop_last() =~= ids_view(list@).take(i as int));
        if set.contains(&list[i]) {
            c = c + 1;
        }
        i = i + 1;
    }
    assert(ids_view(list@).take(list@.len() as int) =~= ids_view(list@));
    c
}

/// A copy of `list` without the entries that name `id`.
fn without_id(list: &Vec<NodeId>, id: &NodeId) -> (r: Vec<NodeId>)
    ensures
        ids_view(r@) == without(ids_view(list@), id@),
{
    let mut r: Vec<NodeId> = Vec::new();
    let mut i: usize = 0;
    while i < list.len()
        invariant
            i <= list@.len(),
            ids_view(r@) == without(ids_view(list@).take(i as int), id@),
        decreases list@.len() - i,
    {
        let ghost lv = ids_view(list@);
        assert(lv.take(i + 1).drop_last() =~= lv.take(i as int));
        if !list[i].same(id) {
            let ghost rv = ids_view(r@);
            r.push(list[i].clone());
            assert(ids_view(r@) =~= rv.push(lv[i as int]));
        }
        i = i + 1;
    }
    assert(ids_view(list@).take(list@.len() as int) =~= ids_view(list@));
    r
}

} // verus!

verus! {

proof fn lemma_without_absent(s: Seq<NodeKey>, x: NodeKey)
    requires
        !s.contains(x),
    ensures
        without(s, x) == s,
    decreases s.len(),
{
    if s.len() > 0 {
        assert(!s.drop_last().contains(x)) by {
            if s.drop_last().contains(x) {
                let j = choose|j: int| 0 <= j < s.drop_last().len() && s.drop_last()[j] == x;
                assert(s[j] == x);
            }
        }
        lemma_without_absent(s.drop_last(), x);
        assert(s.last() != x);
        assert(s.drop_last().push(s.last()) =~= s);
    }
}

proof fn lemma_without_idempotent(s: Seq<NodeKey>, x: NodeKey)
    ensures
        without(without(s, x), x) == without(s, x),
    decreases s.len(),
{
    if s.len() > 0 {
        lemma_without_idempotent(s.drop_last(), x);
        if s.last() != x {
            let w = without(s.drop_last(), x).push(s.last());
            assert(w.drop_last() =~= without(s.drop_last(), x));
        }
    }
}

/// Taking `id` out of a list after appending `id` to it removes as much as
/// taking it out of the list alone.
proof fn lemma_with_dependents_without(m: Map<NodeKey, Seq<NodeKey>>, ds: Seq<NodeKey>, id: NodeKey, k: NodeKey)
    ensures
        without(seq_or_empty(with_dependents(m, ds, id), k), id) == without(seq_or_empty(m, k), id),
        !ds.contains(k) ==> seq_or_empty(with_dependents(m, ds, id), k) == seq_or_empty(m, k),
        ds.contains(k) ==> with_dependents(m, ds, id).contains_key(k),
        with_dependents(m, ds, id).contains_key(k) ==> m.contains_key(k) || ds.contains(k),
    decreases ds.len(),
{
    if ds.len() > 0 {
        let w = with_dependents(m, ds.drop_last(), id);
        lemma_with_dependents_without(m, ds.drop_last(), id, k);
        let last = ds.last();
        if k == last {
            let s = seq_or_empty(w, k);
            assert(seq_or_empty(with_dependent(w, last, id), k) == s.push(id));
            assert(s.push(id).drop_last() =~= s);
        } else {
            assert(seq_or_empty(with_dependent(w, last, id), k) == seq_or_empty(w, k));
            assert(ds.drop_last().contains(k) == ds.contains(k)) by {
                if ds.contains(k) {
                    let j = choose|j: int| 0 <= j < ds.len() && ds[j] == k;
                    assert(j < ds.len() - 1);
                    assert(ds.drop_last()[j] == k);
                }
                if ds.drop_last().contains(k) {
                    let j = choose|j: int| 0 <= j < ds.drop_last().len() && ds.drop_last()[j] == k;
                    assert(ds[j] == k);
                }
            }
        }
        if ds.contains(k) && k != last {
            assert(ds.drop_last().contains(k));
        }
        if k == last {
            assert(ds[ds.len() - 1] == k);
        }
    }
}

/// What `strip` leaves under each key: the list with `id` taken out for a
/// key of `ks` that has a list, the list as it was otherwise.
proof fn lemma_strip(m: Map<NodeKey, Seq<NodeKey>>, ks: Seq<NodeKey>, id: NodeKey, k: NodeKey)
    ensures
        seq_or_empty(strip(m, ks, id), k) == (if ks.contains(k) && m.contains_key(k) {
            without(m[k], id)
        } else {
            seq_or_empty(m, k)
        }),
        strip(m, ks, id).contains_key(k) == m.contains_key(k),
    decreases ks.len(),
{
    if ks.len() > 0 {
        let m2 = strip(m, ks.drop_last(), id);
        lemma_strip(m, ks.drop_last(), id, k);
        let last = ks.last();
        assert(ks.contains(k) == (ks.drop_last().contains(k) || last == k)) by {
            if ks.contains(k) && last != k {
                let j = choose|j: int| 0 <= j < ks.len() && ks[j] == k;
                assert(j < ks.len() - 1);
                assert(ks.drop_last()[j] == k);
            }
            if ks.drop_last().contains(k) {
                let j = choose|j: int| 0 <= j < ks.drop_last().len() && ks.drop_last()[j] == k;
                assert(ks[j] == k);
            }
            if last == k {
                assert(ks[ks.len() - 1] == k);
            }
        }
        if k == last && m2.contains_key(k) {
            if ks.drop_last().contains(k) {
                lemma_without_idempotent(m[k], id);
            }
        }
    }
}

/// Removing a node undoes adding it: when `id` had no dependencies, no
/// dependents (an empty list left behind counts as none) and was listed
/// nowhere as a dependent, `remove_node(id)` after `add_node(id, deps)`
/// leaves the dependencies as they were and every node with the same
/// dependents (a list left empty counts as none).
pub proof fn law_remove_undoes_add(
    deps_before: Map<NodeKey, Seq<NodeKey>>,
    dependents_before: Map<NodeKey, Seq<NodeKey>>,
    id: NodeKey,
    deps: Seq<NodeKey>,
)
    requires
        !deps_before.contains_key(id),
        seq_or_empty(dependents_before, id).len() == 0,
        forall|k: NodeKey| #[trigger] dependents_before.contains_key(k) ==> !dependents_before[k].contains(id),
    ensures
        ({
            let added_deps = deps_before.insert(id, deps);
            let added_dependents = with_key(with_dependents(dependents_before, deps, id), id);
            let removed_deps = added_deps.remove(id);
            let removed_dependents = strip(added_dependents, seq_or_empty(added_deps, id), id).remove(id);
            &&& removed_deps == deps_before
            &&& forall|k: NodeKey| #[trigger] seq_or_empty(removed_dependents, k) == seq_or_empty(dependents_before, k)
        }),
{
    let added_deps = deps_before.insert(id, deps);
    let w = with_dependents(dependents_before, deps, id);
    let added_dependents = with_key(w, id);
    assert(seq_or_empty(added_deps, id) == deps);
    let stripped = strip(added_dependents, deps, id);
    let removed_dependents = stripped.remove(id);
    assert(added_deps.remove(id) =~= deps_before);
    assert forall|k: NodeKey| #[trigger] seq_or_empty(removed_dependents, k) == seq_or_empty(dependents_before, k) by {
        if k != id {
            lemma_strip(added_dependents, deps, id, k);
            lemma_with_dependents_without(dependents_before, deps, id, k);
            assert(seq_or_empty(added_dependents, k) == seq_or_empty(w, k));
            if !dependents_before.contains_key(k) {
                assert(seq_or_empty(dependents_before, k) == Seq::<NodeKey>::empty());
                assert(!Seq::<NodeKey>::empty().contains(id));
            }
            lemma_without_absent(seq_or_empty(dependents_before, k), id);
            if deps.contains(k) {
                assert(added_dependents.contains_key(k));
                assert(added_dependents[k] == seq_or_empty(w, k));
            }
        }
    }
}

} // verus!
