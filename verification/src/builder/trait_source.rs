use crate::channel;
use crate::graph::{added_node, ActivationGuard, AnyNodeImpl, AsyncPolicy, Graph, NodeKind};
use crate::node::{Node, Source};
use crate::node_ref::{ids_view, NodeId, NodeKey, NodeRef};
use crate::sender::Sender;
use crate::value_store::ValueStore;
use std::marker::PhantomData;
use std::sync::mpsc;
use vstd::prelude::*;

verus! {

/// Create the node implementation of a trait-based source: a source node
/// that holds `source`, computes nothing, and hands out a guard on every
/// activation.
pub fn make_source_impl<V: 'static, W: 'static, S: Source<Output = V> + Send + 'static>(source: S) -> (r: TraitSourceImpl<S>)
    ensures
        r.held() == source,
        AnyNodeImpl::<V, W>::spec_kind(&r) == NodeKind::Source,
        AnyNodeImpl::<V, W>::gives_guard(&r),
        forall|ins: Seq<Option<V>>, out: Option<V>| AnyNodeImpl::<V, W>::computes(&r, ins, out) <==> out is None,
{
    TraitSourceImpl { source }
}

/// Register a trait-based source in the graph, under its key scoped by its type.
pub fn register_source<V: 'static, W: 'static, S: Source<Output = V> + Send + 'static>(graph: &mut Graph<V, W>, source: S) -> (r: NodeRef<V>)
    requires
        old(graph).wf(),
        old(graph).room_for_all(),
    ensures
        r.id@.0 is Typed,
        final(graph).wf(),
        added_node(old(graph).nodes(), final(graph).nodes(), r.id@, NodeKind::Source, Seq::empty()),
        final(graph).values() == old(graph).values(),
{
    let id = NodeId::from_key::<S::Key, S>(&source.key());
    let node_ref = NodeRef { id: id.clone(), _marker: PhantomData };
    let node_impl = Box::new(make_source_impl::<V, W, S>(source));
    let deps: Vec<NodeId> = Vec::new();
    assert(ids_view(deps@) =~= Seq::<NodeKey>::empty());
    assert(graph.room_for(id@));
    graph.add_entry(id, NodeKind::Source, deps, node_impl);
    node_ref
}

/// A trait-based source: each activation calls the source's `activate`.
pub struct TraitSourceImpl<S> {
    source: S,
}

impl<S> TraitSourceImpl<S> {
    /// The source it holds.
    pub closed spec fn held(&self) -> S {
        self.source
    }
}

impl<V, W, S: Source<Output = V> + Send> AnyNodeImpl<V, W> for TraitSourceImpl<S> {
    fn async_policy(&self) -> (r: AsyncPolicy) {
        AsyncPolicy::LatestWins
    }

    fn concurrency_group_id(&self) -> (r: Option<usize>) {
        None
    }

    open spec fn gives_guard(&self) -> bool {
        true
    }

    fn activate(&mut self, id: &NodeId, tx: &mpsc::Sender<(NodeId, V)>) -> Option<Box<dyn ActivationGuard>> {
        let sender = Sender::new(id.clone(), channel::clone_sender(tx));
        let guard = self.source.activate(sender);
        Some(Box::new(guard))
    }

    closed spec fn computes(&self, inputs: Seq<Option<V>>, out: Option<V>) -> bool {
        out is None
    }

    fn compute(&self, _deps: &[NodeId], _store: &ValueStore<V>) -> (r: Option<V>) {
        None
    }

    fn emit(&self, _deps: &[NodeId], _store: &ValueStore<V>) {
    }

    open spec fn spec_kind(&self) -> NodeKind {
        NodeKind::Source
    }

    fn kind(&self) -> (r: NodeKind) {
        NodeKind::Source
    }

    closed spec fn starts(&self, inputs: Seq<Option<V>>, out: Option<W>) -> bool {
        out is None
    }

    fn compute_async(&self, _deps: &[NodeId], _store: &ValueStore<V>) -> (r: Option<W>) {
        None
    }
}

} // verus!
