use crate::channel;
use crate::graph::{added_node, ActivationGuard, AnyNodeImpl, AsyncPolicy, Graph, NodeKind};
use crate::node_ref::{NodeId, NodeKey, NodeRef, NodeScope};
use crate::sender::Sender;
use crate::value_store::ValueStore;
use std::marker::PhantomData;
use std::sync::mpsc;
use vstd::prelude::*;

verus! {

/// Builder for closure-based source nodes.
pub struct SourceBuilder<T> {
    key: String,
    _marker: PhantomData<T>,
}

/// An activation callback that may be called with any sender.
#[verifier::reject_recursive_types(T)]
#[verifier::reject_recursive_types(G)]
pub struct ActivationFn<T, F: FnOnce(Sender<T>) -> G, G> {
    f: F,
    _marker: PhantomData<(T, G)>,
}

impl<T, F: FnOnce(Sender<T>) -> G, G> ActivationFn<T, F, G> {
    #[verifier::type_invariant]
    closed spec fn callable(self) -> bool {
        forall|tx: Sender<T>| call_requires(self.f, (tx,))
    }

    /// The callback.
    pub closed spec fn callback(&self) -> F {
        self.f
    }

    /// Wrap `f`, which accepts every sender.
    pub fn new(f: F) -> (r: Self)
        requires
            forall|tx: Sender<T>| call_requires(f, (tx,)),
        ensures
            r.callback() == f,
    {
        ActivationFn { f, _marker: PhantomData }
    }

    /// Call the callback with `tx`; what comes back is what it returns.
    pub fn call(self, tx: Sender<T>) -> (r: G)
        ensures
            call_ensures(self.callback(), (tx,), r),
    {
        proof {
            use_type_invariant(&self);
        }
        (self.f)(tx)
    }
}

/// Builder for a closure-based source whose activation callback is set.
#[verifier::reject_recursive_types(T)]
#[verifier::reject_recursive_types(G)]
pub struct SourceBuilderWith<T, F: FnOnce(Sender<T>) -> G, G> {
    key: String,
    activate_fn: ActivationFn<T, F, G>,
}

impl<T, F: FnOnce(Sender<T>) -> G, G> SourceBuilderWith<T, F, G> {
    /// The key the source will be registered under.
    pub closed spec fn key_view(&self) -> Seq<char> {
        self.key@
    }
}

impl<T> SourceBuilder<T> {
    /// The key the source will be registered under.
    pub closed spec fn key_view(&self) -> Seq<char> {
        self.key@
    }

    /// Start building a source under `key`.
    pub fn new(key: &str) -> (r: Self)
        ensures
            r.key_view() == key@,
    {
        SourceBuilder { key: key.to_string(), _marker: PhantomData }
    }

    /// Set the activation callback: it is called once, with a sender for the
    /// source, when the source is first activated; what it returns is kept as
    /// the source's guard while the source stays active.
    pub fn on_activate<G: Send + 'static, F: FnOnce(Sender<T>) -> G + Send + 'static>(self, f: F) -> (r: SourceBuilderWith<T, F, G>)
        requires
            forall|tx: Sender<T>| call_requires(f, (tx,)),
        ensures
            r.key_view() == self.key_view(),
    {
        SourceBuilderWith { key: self.key, activate_fn: ActivationFn::new(f) }
    }

    /// Consume into key and node impl, for a source without an activation callback.
    pub fn into_parts<W>(self) -> (r: (String, Box<dyn AnyNodeImpl<T, W>>))
        where T: Send + 'static, W: 'static,
        ensures
            r.0@ == self.key_view(),
    {
        (self.key, Box::new(IdleSource { _marker: PhantomData }))
    }

    /// Finalize and register the source in the graph.
    pub fn build<W>(self, graph: &mut Graph<T, W>) -> (r: NodeRef<T>)
        where T: Send + 'static, W: 'static,
        requires
            old(graph).wf(),
            old(graph).room_for((NodeScope::ClosureSource, self.key_view())),
        ensures
            r.id@ == (NodeScope::ClosureSource, self.key_view()),
            final(graph).wf(),
            added_node(old(graph).nodes(), final(graph).nodes(), r.id@, NodeKind::Source, Seq::empty()),
            final(graph).values() == old(graph).values(),
    {
        let (key, node_impl) = self.into_parts();
        let id = NodeId::scoped(NodeScope::ClosureSource, key.as_str());
        let node_ref = NodeRef { id: id.clone(), _marker: PhantomData };
        let deps: Vec<NodeId> = Vec::new();
        assert(crate::node_ref::ids_view(deps@) =~= Seq::<NodeKey>::empty());
        graph.add_entry(id, NodeKind::Source, deps, node_impl);
        node_ref
    }
}

impl<T: Send + 'static, F: FnOnce(Sender<T>) -> G + Send + 'static, G: Send + 'static> SourceBuilderWith<T, F, G> {
    /// Consume into key and node impl.
    pub fn into_parts<W: 'static>(self) -> (r: (String, Box<dyn AnyNodeImpl<T, W>>))
        ensures
            r.0@ == self.key_view(),
    {
        let node = ClosureSourceActivatable { activate_fn: Some(self.activate_fn) };
        (self.key, Box::new(node))
    }

    /// Finalize and register the source in the graph.
    pub fn build<W: 'static>(self, graph: &mut Graph<T, W>) -> (r: NodeRef<T>)
        requires
            old(graph).wf(),
            old(graph).room_for((NodeScope::ClosureSource, self.key_view())),
        ensures
            r.id@ == (NodeScope::ClosureSource, self.key_view()),
            final(graph).wf(),
            added_node(old(graph).nodes(), final(graph).nodes(), r.id@, NodeKind::Source, Seq::empty()),
            final(graph).values() == old(graph).values(),
    {
        let (key, node_impl) = self.into_parts();
        let id = NodeId::scoped(NodeScope::ClosureSource, key.as_str());
        let node_ref = NodeRef { id: id.clone(), _marker: PhantomData };
        let deps: Vec<NodeId> = Vec::new();
        assert(crate::node_ref::ids_view(deps@) =~= Seq::<NodeKey>::empty());
        graph.add_entry(id, NodeKind::Source, deps, node_impl);
        node_ref
    }
}

/// A closure source that has no activation callback: it never hands out a guard.
pub struct IdleSource<T> {
    _marker: PhantomData<T>,
}

impl<T: Send, W> AnyNodeImpl<T, W> for IdleSource<T> {
    fn async_policy(&self) -> (r: AsyncPolicy) {
        AsyncPolicy::LatestWins
    }

    fn concurrency_group_id(&self) -> (r: Option<usize>) {
        None
    }

    open spec fn gives_guard(&self) -> bool {
        false
    }

    fn activate(&mut self, _id: &NodeId, _tx: &mpsc::Sender<(NodeId, T)>) -> Option<Box<dyn ActivationGuard>> {
        None
    }

    closed spec fn computes(&self, inputs: Seq<Option<T>>, out: Option<T>) -> bool {
        out is None
    }

    fn compute(&self, _deps: &[NodeId], _store: &ValueStore<T>) -> (r: Option<T>) {
        None
    }

    fn emit(&self, _deps: &[NodeId], _store: &ValueStore<T>) {
    }

    open spec fn spec_kind(&self) -> NodeKind {
        NodeKind::Source
    }

    fn kind(&self) -> (r: NodeKind) {
        NodeKind::Source
    }

    closed spec fn starts(&self, inputs: Seq<Option<T>>, out: Option<W>) -> bool {
        out is None
    }

    fn compute_async(&self, _deps: &[NodeId], _store: &ValueStore<T>) -> (r: Option<W>) {
        None
    }
}

/// Closure source that can be activated once: the first activation calls the
/// callback and hands out what it returns as the guard.
#[verifier::reject_recursive_types(T)]
#[verifier::reject_recursive_types(G)]
pub struct ClosureSourceActivatable<T, F: FnOnce(Sender<T>) -> G, G> {
    activate_fn: Option<ActivationFn<T, F, G>>,
}

impl<T, F: FnOnce(Sender<T>) -> G, G> ClosureSourceActivatable<T, F, G> {
    /// The callback has not been called yet.
    pub closed spec fn armed(&self) -> bool {
        self.activate_fn is Some
    }

    /// The callback, while it has not been called.
    pub closed spec fn callback(&self) -> F {
        self.activate_fn->Some_0.callback()
    }
}

impl<T: Send, W, F: FnOnce(Sender<T>) -> G + Send, G: Send + 'static> AnyNodeImpl<T, W> for ClosureSourceActivatable<T, F, G> {
    fn async_policy(&self) -> (r: AsyncPolicy) {
        AsyncPolicy::LatestWins
    }

    fn concurrency_group_id(&self) -> (r: Option<usize>) {
        None
    }

    open spec fn gives_guard(&self) -> bool {
        self.armed()
    }

    /// The callback is called on the first activation only.
    open spec fn rearms(&self) -> bool {
        false
    }

    /// An armed source calls its callback with a sender for the source `id`.
    open spec fn activation_call(&self, id: NodeKey) -> bool {
        self.armed() ==> exists|tx: Sender<T>, g: G|
            #[trigger] call_ensures(self.callback(), (tx,), g) && tx.source() == id
    }

    fn activate(&mut self, id: &NodeId, tx: &mpsc::Sender<(NodeId, T)>) -> Option<Box<dyn ActivationGuard>> {
        let taken = self.activate_fn.take();
        match taken {
            Some(f) => {
                let sender = Sender::new(id.clone(), channel::clone_sender(tx));
                let ghost s = sender;
                let guard = f.call(sender);
                assert(call_ensures(old(self).callback(), (s,), guard));
                Some(Box::new(guard))
            },
            None => None,
        }
    }

    closed spec fn computes(&self, inputs: Seq<Option<T>>, out: Option<T>) -> bool {
        out is None
    }

    fn compute(&self, _deps: &[NodeId], _store: &ValueStore<T>) -> (r: Option<T>) {
        None
    }

    fn emit(&self, _deps: &[NodeId], _store: &ValueStore<T>) {
    }

    open spec fn spec_kind(&self) -> NodeKind {
        NodeKind::Source
    }

    fn kind(&self) -> (r: NodeKind) {
        NodeKind::Source
    }

    closed spec fn starts(&self, inputs: Seq<Option<T>>, out: Option<W>) -> bool {
        out is None
    }

    fn compute_async(&self, _deps: &[NodeId], _store: &ValueStore<T>) -> (r: Option<W>) {
        None
    }
}

} // verus!
