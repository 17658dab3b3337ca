use crate::builder::async_compute::{AsyncComputeBuilder, TraitAsyncComputeBuilder};
use crate::builder::compute::ComputeBuilder;
use crate::builder::sink::SinkBuilder;
use crate::builder::source::SourceBuilder;
use crate::builder::trait_compute::TraitComputeBuilder;
use crate::builder::trait_sink::TraitSinkBuilder;
use crate::builder::trait_source::register_source;
use crate::channel;
use crate::node::{AsyncCompute, Compute, Sink, Source};
use crate::node_ref::NodeRef;
use crate::id_map::IdMap;
use crate::node_ref::{ids_view, NodeId, NodeKey};
use crate::value_store::ValueStore;
use std::sync::mpsc;
use std::time::Duration;
use vstd::prelude::*;

verus! {

/// The kind of a node in the graph.
#[derive(Debug, Clone, Copy, PartialEq, Eq, Structural)]
pub enum NodeKind {
    Source,
    Compute,
    Sink,
    AsyncCompute,
}

/// Policy for handling concurrent triggers of async compute nodes.
#[derive(Debug, Clone, Copy)]
pub enum AsyncPolicy {
    /// Cancel the in-flight computation and start a new one.
    LatestWins,
    /// Queue pending computations and execute them sequentially.
    Queue,
    /// Wait for a quiet period before starting computation.
    Debounce(Duration),
}

impl Default for AsyncPolicy {
    fn default() -> (r: Self)
        ensures
            r is LatestWins,
    {
        AsyncPolicy::LatestWins
    }
}

/// The values that `store` holds for `deps`, in order; `None` for a
/// dependency that has no value.
pub open spec fn inputs_of<V>(deps: Seq<NodeKey>, store: Map<NodeKey, V>) -> Seq<Option<V>> {
    deps.map_values(|d: NodeKey| if store.contains_key(d) { Some(store[d]) } else { None })
}

/// Whatever a source hands back on activation; it is kept while the source is
/// active and dropped when the source is deactivated.
pub trait ActivationGuard {

}

impl<T> ActivationGuard for T {

}

/// Type-erased node implementation, so that the graph can invoke nodes without
/// knowing their concrete types. `V` is the type of the values that flow
/// through the graph, `W` that of the work an async node hands out.
pub trait AnyNodeImpl<V, W>: Send {
    /// For sources: activate and return a guard. `tx` is the channel that
    /// source values are sent into. Only a source hands out a guard.
    fn activate(&mut self, id: &NodeId, tx: &mpsc::Sender<(NodeId, V)>) -> (r: Option<
        Box<dyn ActivationGuard>,
    >)
        ensures
            old(self).spec_kind() != NodeKind::Source ==> r is None,
            r is Some <==> old(self).gives_guard(),
            final(self).gives_guard() ==> old(self).rearms(),
            old(self).activation_call(id@),
    ;

    /// Whether the node may hand out a guard again after an activation.
    open spec fn rearms(&self) -> bool {
        true
    }

    /// What activating the node `id` calls; nothing is said unless the node
    /// says it.
    open spec fn activation_call(&self, id: NodeKey) -> bool {
        true
    }

    /// Whether the next `activate` hands out a guard.
    spec fn gives_guard(&self) -> bool;

    /// What `compute` may return when the values of its dependencies are
    /// `inputs` (`None` for a dependency without a value).
    spec fn computes(&self, inputs: Seq<Option<V>>, out: Option<V>) -> bool;

    /// For compute nodes: read deps from the value store and compute a value.
    fn compute(&self, deps: &[NodeId], store: &ValueStore<V>) -> (r: Option<V>)
        requires
            store.wf(),
        ensures
            self.computes(inputs_of(ids_view(deps@), store.view()), r),
    ;

    /// For sinks: read deps from the value store and emit.
    fn emit(&self, deps: &[NodeId], store: &ValueStore<V>)
        requires
            store.wf(),
        ensures
            self.emits(inputs_of(ids_view(deps@), store.view())),
    ;

    /// What `emit` did when the values of its dependencies are `inputs`;
    /// nothing is said unless the node says it.
    open spec fn emits(&self, inputs: Seq<Option<V>>) -> bool {
        true
    }

    /// The kind of node this implements.
    spec fn spec_kind(&self) -> NodeKind;

    /// Return the NodeKind.
    fn kind(&self) -> (r: NodeKind)
        ensures
            r == self.spec_kind(),
    ;

    /// What `compute_async` may hand out when the values of its dependencies
    /// are `inputs`.
    spec fn starts(&self, inputs: Seq<Option<V>>, out: Option<W>) -> bool;

    /// For async compute nodes: read deps and return the work to execute.
    fn compute_async(&self, deps: &[NodeId], store: &ValueStore<V>) -> (r: Option<W>)
        requires
            store.wf(),
        ensures
            self.starts(inputs_of(ids_view(deps@), store.view()), r),
    ;

    /// The policy that `async_policy` returns: latest-wins unless the node
    /// says otherwise.
    open spec fn chosen_policy(&self) -> AsyncPolicy {
        AsyncPolicy::LatestWins
    }

    /// The group that `concurrency_group_id` returns: none unless the node
    /// says otherwise.
    open spec fn chosen_group(&self) -> Option<usize> {
        None
    }

    /// Return the async policy for this node (only meaningful for AsyncCompute).
    fn async_policy(&self) -> (r: AsyncPolicy)
        ensures
            r == self.chosen_policy(),
    ;

    /// Return the concurrency group ID for this node, if any.
    fn concurrency_group_id(&self) -> (r: Option<usize>)
        ensures
            r == self.chosen_group(),
    ;
}

/// Registry entry for a node.
#[verifier::reject_recursive_types(V)]
#[verifier::reject_recursive_types(W)]
pub struct NodeEntry<V, W> {
    pub id: NodeId,
    pub kind: NodeKind,
    pub deps: Vec<NodeId>,
    pub ref_count: usize,
    pub node_impl: Box<dyn AnyNodeImpl<V, W>>,
}

/// `after` is `before` with one more registration of `k`: a known node
/// counts one more reference; a new one enters with kind `kind`,
/// dependencies `deps` and one reference. No other node changes.
pub open spec fn added_node<V, W>(
    before: Map<NodeKey, NodeEntry<V, W>>,
    after: Map<NodeKey, NodeEntry<V, W>>,
    k: NodeKey,
    kind: NodeKind,
    deps: Seq<NodeKey>,
) -> bool {
    &&& after.dom() == before.dom().insert(k)
    &&& forall|j: NodeKey| #[trigger] before.contains_key(j) && j != k ==> after[j] == before[j]
    &&& before.contains_key(k) ==> after[k] == (NodeEntry {
        ref_count: (before[k].ref_count + 1) as usize,
        ..before[k]
    })
    &&& !before.contains_key(k) ==> {
        &&& after[k].id@ == k
        &&& after[k].kind == kind
        &&& ids_view(after[k].deps@) == deps
        &&& after[k].ref_count == 1
    }
}

proof fn lemma_insert_other<E>(m: Map<NodeKey, E>, k: NodeKey, kk: NodeKey, e: E)
    requires
        kk != k,
        m.insert(k, e).contains_key(kk),
    ensures
        m.contains_key(kk),
        m.insert(k, e)[kk] == m[kk],
{
}

proof fn lemma_insert_same<E>(m: Map<NodeKey, E>, k: NodeKey, e: E)
    ensures
        m.insert(k, e)[k] == e,
{
}

/// The core graph structure. Owns the node registry and the value store.
#[verifier::reject_recursive_types(V)]
#[verifier::reject_recursive_types(W)]
pub struct Graph<V, W = ()> {
    pub entries: IdMap<NodeEntry<V, W>>,
    pub value_store: ValueStore<V>,
    pub source_tx: mpsc::Sender<(NodeId, V)>,
    pub source_rx: mpsc::Receiver<(NodeId, V)>,
}

impl<V, W> Graph<V, W> {
    /// The registry and the store each hold a key once, and every entry is
    /// stored under its own id.
    pub open spec fn wf(&self) -> bool {
        &&& self.entries.wf()
        &&& self.value_store.wf()
        &&& forall|k: NodeKey| #[trigger]
            self.entries.view().contains_key(k) ==> self.entries.view()[k].id@ == k
    }

    /// The registry, by node.
    pub open spec fn nodes(&self) -> Map<NodeKey, NodeEntry<V, W>> {
        self.entries.view()
    }

    /// The stored values, by node.
    pub open spec fn values(&self) -> Map<NodeKey, V> {
        self.value_store.view()
    }

    /// One more registration of `k` does not overflow its reference count.
    pub open spec fn room_for(&self, k: NodeKey) -> bool {
        self.nodes().contains_key(k) ==> self.nodes()[k].ref_count < usize::MAX
    }

    /// One more registration of any node does not overflow its reference count.
    pub open spec fn room_for_all(&self) -> bool {
        forall|k: NodeKey| #[trigger] self.room_for(k)
    }

    /// An empty graph with a fresh source channel.
    pub fn new() -> (r: Self)
        ensures
            r.wf(),
            r.nodes() == Map::<NodeKey, NodeEntry<V, W>>::empty(),
            r.values() == Map::<NodeKey, V>::empty(),
    {
        let (tx, rx) = channel::channel();
        Graph { entries: IdMap::new(), value_store: ValueStore::new(), source_tx: tx, source_rx: rx }
    }

    /// Register a node. Returns true if the node was newly inserted, false if
    /// it already existed (in which case its ref_count is incremented).
    pub fn register_node(
        &mut self,
        id: NodeId,
        kind: NodeKind,
        deps: Vec<NodeId>,
        node_impl: Box<dyn AnyNodeImpl<V, W>>,
    ) -> (r: bool)
        requires
            old(self).wf(),
            old(self).room_for(id@),
        ensures
            final(self).wf(),
            r == !old(self).nodes().contains_key(id@),
            r ==> final(self).nodes() == old(self).nodes().insert(id@, final(self).nodes()[id@]),
            r ==> final(self).nodes()[id@] == (NodeEntry {
                id: id,
                kind: kind,
                deps: deps,
                ref_count: 1,
                node_impl: node_impl,
            }),
            !r ==> final(self).nodes() == old(self).nodes().insert(
                id@,
                (NodeEntry {
                    ref_count: (old(self).nodes()[id@].ref_count + 1) as usize,
                    ..old(self).nodes()[id@]
                }),
            ),
            final(self).values() == old(self).values(),
            final(self).source_tx == old(self).source_tx,
            final(self).source_rx == old(self).source_rx,
    {
        match self.entries.remove(&id) {
            Some(mut entry) => {
                let ghost k = id@;
                entry.ref_count = entry.ref_count + 1;
                self.entries.insert(id, entry);
                assert(self.nodes() =~= old(self).nodes().insert(
                    k,
                    (NodeEntry {
                        ref_count: (old(self).nodes()[k].ref_count + 1) as usize,
                        ..old(self).nodes()[k]
                    }),
                ));
                assert forall|kk: NodeKey| #[trigger]
                    self.entries.view().contains_key(kk) implies self.entries.view()[kk].id@ == kk by {
                    if kk != k {
                        assert(old(self).entries.view().contains_key(kk));
                    }
                }
                false
            },
            None => {
                let ghost k = id@;
                assert(!old(self).nodes().contains_key(k));
                assert(self.nodes() =~= old(self).nodes());
                let key = id.clone();
                let entry = NodeEntry { id, kind, deps, ref_count: 1, node_impl };
                let ghost e = entry;
                self.entries.insert(key, entry);
                assert(self.nodes() == old(self).nodes().insert(k, e));
                proof {
                    lemma_insert_same(old(self).nodes(), k, e);
                }
                assert(self.nodes() =~= old(self).nodes().insert(k, e));
                assert forall|kk: NodeKey| #[trigger]
                    self.entries.view().contains_key(kk) implies self.entries.view()[kk].id@ == kk by {
                    let m = old(self).nodes().insert(k, e);
                    assert(m.contains_key(kk));
                    if kk != k {
                        lemma_insert_other(old(self).nodes(), k, kk, e);
                        assert(m[kk] == old(self).nodes()[kk]);
                    } else {
                        lemma_insert_same(old(self).nodes(), k, e);
                    }
                }
                true
            },
        }
    }

    /// Register a node (see `register_node`), stated over keys.
    pub fn add_entry(&mut self, id: NodeId, kind: NodeKind, deps: Vec<NodeId>, node_impl: Box<dyn AnyNodeImpl<V, W>>)
        requires
            old(self).wf(),
            old(self).room_for(id@),
        ensures
            final(self).wf(),
            added_node(old(self).nodes(), final(self).nodes(), id@, kind, ids_view(deps@)),
            final(self).values() == old(self).values(),
            final(self).source_tx == old(self).source_tx,
            final(self).source_rx == old(self).source_rx,
    {
        let ghost k = id@;
        let ghost dv = ids_view(deps@);
        let ghost n0 = self.nodes();
        let fresh = self.register_node(id, kind, deps, node_impl);
        proof {
            let e = if fresh {
                self.nodes()[k]
            } else {
                NodeEntry { ref_count: (n0[k].ref_count + 1) as usize, ..n0[k] }
            };
            assert(self.nodes() == n0.insert(k, e));
            crate::facts::lemma_insert_keys(n0, k, e);
            assert(self.nodes().dom() =~= n0.dom().insert(k));
        }
    }

    /// Register the node `entry` describes: a known node counts one more
    /// reference; a new one enters as `entry` itself, implementation and
    /// all.
    pub fn add_node_entry(&mut self, entry: NodeEntry<V, W>)
        requires
            old(self).wf(),
            old(self).room_for(entry.id@),
            entry.ref_count == 1,
        ensures
            final(self).wf(),
            added_node(old(self).nodes(), final(self).nodes(), entry.id@, entry.kind, ids_view(entry.deps@)),
            !old(self).nodes().contains_key(entry.id@) ==> final(self).nodes()[entry.id@] == entry,
            final(self).values() == old(self).values(),
            final(self).source_tx == old(self).source_tx,
            final(self).source_rx == old(self).source_rx,
    {
        let ghost k = entry.id@;
        let ghost e = entry;
        if self.entries.contains(&entry.id) {
            let NodeEntry { id, kind, deps, ref_count: _, node_impl } = entry;
            self.add_entry(id, kind, deps, node_impl);
        } else {
            assert(!old(self).nodes().contains_key(k));
            let key = entry.id.clone();
            self.entries.insert(key, entry);
            assert(self.nodes() == old(self).nodes().insert(k, e));
            proof {
                lemma_insert_same(old(self).nodes(), k, e);
            }
            assert(self.nodes() =~= old(self).nodes().insert(k, e));
            assert forall|kk: NodeKey| #[trigger]
                self.entries.view().contains_key(kk) implies self.entries.view()[kk].id@ == kk by {
                let m = old(self).nodes().insert(k, e);
                assert(m.contains_key(kk));
                if kk != k {
                    lemma_insert_other(old(self).nodes(), k, kk, e);
                    assert(m[kk] == old(self).nodes()[kk]);
                } else {
                    lemma_insert_same(old(self).nodes(), k, e);
                }
            }
        }
    }

    /// Whether one more registration of any node leaves its reference
    /// count representable.
    pub fn has_room(&self) -> (r: bool)
        requires
            self.wf(),
        ensures
            r == self.room_for_all(),
    {
        let mut i: usize = 0;
        while i < self.entries.len()
            invariant
                self.wf(),
                i <= self.entries.size(),
                forall|t: int| 0 <= t < i ==> (#[trigger] self.entries.value_at(t)).ref_count < usize::MAX,
            decreases self.entries.size() - i,
        {
            if self.entries.value_ref(i).ref_count == usize::MAX {
                proof {
                    self.entries.lemma_view_at(i as int);
                    assert(!self.room_for(self.entries.keys()[i as int]));
                }
                return false;
            }
            i = i + 1;
        }
        proof {
            assert forall|k: NodeKey| #[trigger] self.room_for(k) by {
                if self.nodes().contains_key(k) {
                    self.entries.lemma_keys_dom();
                    let j = choose|j: int| 0 <= j < self.entries.keys().len() && self.entries.keys()[j] == k;
                    self.entries.lemma_view_at(j);
                }
            }
        }
        true
    }

    /// Get a node entry by ID.
    pub fn get_entry(&self, id: &NodeId) -> (r: Option<&NodeEntry<V, W>>)
        requires
            self.wf(),
        ensures
            match r {
                Some(e) => self.nodes().contains_key(id@) && *e == self.nodes()[id@],
                None => !self.nodes().contains_key(id@),
            },
    {
        self.entries.get(id)
    }

    /// Get a mutable node entry by ID.
    pub fn get_entry_mut(&mut self, id: &NodeId) -> (r: Option<&mut NodeEntry<V, W>>)
        requires
            old(self).wf(),
        ensures
            match r {
                Some(e) => {
                    &&& old(self).nodes().contains_key(id@)
                    &&& *e == old(self).nodes()[id@]
                    &&& final(self).entries.value_updated(old(self).entries, id@, *final(e))
                },
                None => {
                    &&& !old(self).nodes().contains_key(id@)
                    &&& final(self).entries == old(self).entries
                },
            },
            final(self).value_store == old(self).value_store,
            final(self).source_tx == old(self).source_tx,
            final(self).source_rx == old(self).source_rx,
    {
        self.entries.get_mut(id)
    }
}

} // verus!

verus! {

impl Graph<(), ()> {
    /// Start building a closure-based source node.
    pub fn source<T>(key: &str) -> (r: SourceBuilder<T>)
        ensures
            r.key_view() == key@,
    {
        SourceBuilder::new(key)
    }

    /// Start building a closure-based compute node.
    pub fn compute<T>(key: &str) -> (r: ComputeBuilder<T, ()>)
        ensures
            r.key_view() == key@,
            r.deps_view() == Seq::<NodeKey>::empty(),
    {
        ComputeBuilder::new(key)
    }

    /// Start building a closure-based sink.
    pub fn sink(key: &str) -> (r: SinkBuilder<()>)
        ensures
            r.key_view() == key@,
            r.deps_view() == Seq::<NodeKey>::empty(),
    {
        SinkBuilder::new(key)
    }

    /// Start building a closure-based async compute node.
    pub fn async_compute<T>(key: &str) -> (r: AsyncComputeBuilder<T, ()>)
        ensures
            r.key_view() == key@,
            r.deps_view() == Seq::<NodeKey>::empty(),
    {
        AsyncComputeBuilder::new(key)
    }
}

impl<V: 'static, W: 'static> Graph<V, W> {
    /// Add a trait-based source node, under its key scoped by its type.
    pub fn add_source<S: Source<Output = V> + Send + 'static>(&mut self, source: S) -> (r: NodeRef<V>)
        requires
            old(self).wf(),
            old(self).room_for_all(),
        ensures
            r.id@.0 is Typed,
            final(self).wf(),
            added_node(old(self).nodes(), final(self).nodes(), r.id@, NodeKind::Source, Seq::empty()),
            final(self).values() == old(self).values(),
    {
        register_source(self, source)
    }

    /// Start building a trait-based compute node.
    pub fn add_compute<C: Compute>(&mut self, compute: C) -> (r: TraitComputeBuilder<'_, V, W, C, C::Inputs>)
        ensures
            r.deps_view() == Seq::<NodeKey>::empty(),
            *r.graph == *old(self),
            r.compute == compute,
    {
        TraitComputeBuilder::new(self, compute)
    }

    /// Start building a trait-based async compute node.
    pub fn add_async_compute<AC: AsyncCompute>(&mut self, ac: AC) -> (r: TraitAsyncComputeBuilder<'_, V, W, AC, AC::Inputs>)
        ensures
            r.deps_view() == Seq::<NodeKey>::empty(),
            r.policy == AsyncPolicy::LatestWins,
            r.group is None,
            *r.graph == *old(self),
            r.ac == ac,
    {
        TraitAsyncComputeBuilder::new(self, ac)
    }

    /// Start building a trait-based sink node.
    pub fn add_sink<S: Sink>(&mut self, sink: S) -> (r: TraitSinkBuilder<'_, V, W, S, S::Inputs>)
        ensures
            r.deps_view() == Seq::<NodeKey>::empty(),
            *r.graph == *old(self),
            r.sink == sink,
    {
        TraitSinkBuilder::new(self, sink)
    }
}

} // verus!
