use crate::graph::{added_node, ActivationGuard, AnyNodeImpl, AsyncPolicy, Graph, NodeKind};
use crate::node::Sink;
use crate::node_ref::{ids_view, NodeId, NodeKey, NodeRef};
use crate::value_store::ValueStore;
use std::marker::PhantomData;
use std::sync::mpsc;
use vstd::prelude::*;

verus! {

/// Helper trait on tuple types to produce type-erased node implementations
/// for sink nodes.
pub trait SinkDispatch<V, W, S>: Sized {
    /// The node implementation type.
    type NodeImpl: AnyNodeImpl<V, W> + 'static;

    /// `node` is the node implementation made from `sink`.
    spec fn holds(node: Self::NodeImpl, sink: S) -> bool;

    fn make_node_impl(sink: S) -> (r: Self::NodeImpl)
        ensures
            Self::holds(r, sink),
    ;
}

/// Typestate builder for trait-based sink nodes.
#[verifier::reject_recursive_types(V)]
#[verifier::reject_recursive_types(W)]
pub struct TraitSinkBuilder<'g, V, W, S: Sink, Remaining> {
    pub graph: &'g mut Graph<V, W>,
    pub sink: S,
    pub dep_ids: Vec<NodeId>,
    pub _remaining: PhantomData<Remaining>,
}

impl<'g, V, W, S: Sink, Remaining> TraitSinkBuilder<'g, V, W, S, Remaining> {
    /// The dependencies wired so far, in order.
    pub open spec fn deps_view(&self) -> Seq<NodeKey> {
        ids_view(self.dep_ids@)
    }
}

impl<'g, V, W, S: Sink> TraitSinkBuilder<'g, V, W, S, S::Inputs> {
    /// Start building a trait-based sink in `graph`.
    pub fn new(graph: &'g mut Graph<V, W>, sink: S) -> (r: Self)
        ensures
            r.deps_view() == Seq::<NodeKey>::empty(),
            r.sink == sink,
            *r.graph == *old(graph),
    {
        let r = TraitSinkBuilder { graph, sink, dep_ids: Vec::new(), _remaining: PhantomData };
        assert(r.deps_view() =~= Seq::<NodeKey>::empty());
        r
    }
}

impl<'g, V: 'static, W: 'static, S: Sink + 'static> TraitSinkBuilder<'g, V, W, S, ()> where S::Inputs: SinkDispatch<V, W, S> {
    /// Finalize and register the sink, under its key scoped by its type.
    pub fn build(self) -> (r: NodeRef<()>)
        requires
            self.graph.wf(),
            self.graph.room_for_all(),
        ensures
            r.id@.0 is Typed,
            final(self.graph).wf(),
            added_node(old(self.graph).nodes(), final(self.graph).nodes(), r.id@, NodeKind::Sink, self.deps_view()),
            final(self.graph).values() == old(self.graph).values(),
    {
        let id = NodeId::from_key::<S::Key, S>(&self.sink.key());
        let node_ref = NodeRef { id: id.clone(), _marker: PhantomData };
        let node_impl = Box::new(<S::Inputs as SinkDispatch<V, W, S>>::make_node_impl(self.sink));
        assert(self.graph.room_for(id@));
        self.graph.add_entry(id, NodeKind::Sink, self.dep_ids, node_impl);
        node_ref
    }
}

impl<'g, V, W, S: Sink, A> TraitSinkBuilder<'g, V, W, S, (A,)> {
    /// Wire the next dependency.
    pub fn dep(self, node: NodeRef<A>) -> (r: TraitSinkBuilder<'g, V, W, S, ()>)
        ensures
            r.deps_view() == self.deps_view().push(node.id@),
            *r.graph == *old(self.graph),
            r.sink == self.sink,
    {
        let ghost d0 = self.deps_view();
        let mut dep_ids = self.dep_ids;
        dep_ids.push(node.id);
        let r = TraitSinkBuilder { graph: self.graph, sink: self.sink, dep_ids, _remaining: PhantomData };
        assert(r.deps_view() =~= d0.push(node.id@));
        r
    }
}

/// A trait-based sink with 1 input(s): it emits when all of its inputs
/// have a value.
#[verifier::reject_recursive_types(V)]
pub struct TraitSinkNode1<V, S> {
    pub sink: S,
    _marker: PhantomData<V>,
}

impl<V: Send + 'static, W: 'static, S: Sink<Inputs = (V,)> + Send + 'static> SinkDispatch<V, W, S> for (V,) {
    type NodeImpl = TraitSinkNode1<V, S>;

    closed spec fn holds(node: TraitSinkNode1<V, S>, sink: S) -> bool {
        node.sink == sink
    }

    fn make_node_impl(sink: S) -> (r: TraitSinkNode1<V, S>) {
        TraitSinkNode1 { sink, _marker: PhantomData }
    }
}

impl<V: Send + 'static, W, S: Sink<Inputs = (V,)> + Send> AnyNodeImpl<V, W> for TraitSinkNode1<V, S> {
    fn async_policy(&self) -> (r: AsyncPolicy) {
        AsyncPolicy::LatestWins
    }

    fn concurrency_group_id(&self) -> (r: Option<usize>) {
        None
    }

    open spec fn gives_guard(&self) -> bool {
        false
    }

    fn activate(&mut self, _id: &NodeId, _tx: &mpsc::Sender<(NodeId, V)>) -> Option<Box<dyn ActivationGuard>> {
        None
    }

    closed spec fn computes(&self, inputs: Seq<Option<V>>, out: Option<V>) -> bool {
        out is None
    }

    fn compute(&self, _deps: &[NodeId], _store: &ValueStore<V>) -> (r: Option<V>) {
        None
    }

    fn emit(&self, deps: &[NodeId], store: &ValueStore<V>) {
        if deps.len() != 1 {
            return;
        }
        let a0 = match store.get_by_id(&deps[0]) {
            Some(v) => v,
            None => {
                return;
            },
        };
        self.sink.emit((a0,));
    }

    open spec fn spec_kind(&self) -> NodeKind {
        NodeKind::Sink
    }

    fn kind(&self) -> (r: NodeKind) {
        NodeKind::Sink
    }

    closed spec fn starts(&self, inputs: Seq<Option<V>>, out: Option<W>) -> bool {
        out is None
    }

    fn compute_async(&self, _deps: &[NodeId], _store: &ValueStore<V>) -> (r: Option<W>) {
        None
    }
}

impl<'g, V, W, S: Sink, A, B> TraitSinkBuilder<'g, V, W, S, (A, B,)> {
    /// Wire the next dependency.
    pub fn dep(self, node: NodeRef<A>) -> (r: TraitSinkBuilder<'g, V, W, S, (B,)>)
        ensures
            r.deps_view() == self.deps_view().push(node.id@),
            *r.graph == *old(self.graph),
            r.sink == self.sink,
    {
        let ghost d0 = self.deps_view();
        let mut dep_ids = self.dep_ids;
        dep_ids.push(node.id);
        let r = TraitSinkBuilder { graph: self.graph, sink: self.sink, dep_ids, _remaining: PhantomData };
        assert(r.deps_view() =~= d0.push(node.id@));
        r
    }
}

/// A trait-based sink with 2 input(s): it emits when all of its inputs
/// have a value.
#[verifier::reject_recursive_types(V)]
pub struct TraitSinkNode2<V, S> {
    pub sink: S,
    _marker: PhantomData<V>,
}

impl<V: Send + 'static, W: 'static, S: Sink<Inputs = (V, V,)> + Send + 'static> SinkDispatch<V, W, S> for (V, V,) {
    type NodeImpl = TraitSinkNode2<V, S>;

    closed spec fn holds(node: TraitSinkNode2<V, S>, sink: S) -> bool {
        node.sink == sink
    }

    fn make_node_impl(sink: S) -> (r: TraitSinkNode2<V, S>) {
        TraitSinkNode2 { sink, _marker: PhantomData }
    }
}

impl<V: Send + 'static, W, S: Sink<Inputs = (V, V,)> + Send> AnyNodeImpl<V, W> for TraitSinkNode2<V, S> {
    fn async_policy(&self) -> (r: AsyncPolicy) {
        AsyncPolicy::LatestWins
    }

    fn concurrency_group_id(&self) -> (r: Option<usize>) {
        None
    }

    open spec fn gives_guard(&self) -> bool {
        false
    }

    fn activate(&mut self, _id: &NodeId, _tx: &mpsc::Sender<(NodeId, V)>) -> Option<Box<dyn ActivationGuard>> {
        None
    }

    closed spec fn computes(&self, inputs: Seq<Option<V>>, out: Option<V>) -> bool {
        out is None
    }

    fn compute(&self, _deps: &[NodeId], _store: &ValueStore<V>) -> (r: Option<V>) {
        None
    }

    fn emit(&self, deps: &[NodeId], store: &ValueStore<V>) {
        if deps.len() != 2 {
            return;
        }
        let a0 = match store.get_by_id(&deps[0]) {
            Some(v) => v,
            None => {
                return;
            },
        };
        let a1 = match store.get_by_id(&deps[1]) {
            Some(v) => v,
            None => {
                return;
            },
        };
        self.sink.emit((a0, a1,));
    }

    open spec fn spec_kind(&self) -> NodeKind {
        NodeKind::Sink
    }

    fn kind(&self) -> (r: NodeKind) {
        NodeKind::Sink
    }

    closed spec fn starts(&self, inputs: Seq<Option<V>>, out: Option<W>) -> bool {
        out is None
    }

    fn compute_async(&self, _deps: &[NodeId], _store: &ValueStore<V>) -> (r: Option<W>) {
        None
    }
}

impl<'g, V, W, S: Sink, A, B, Cc> TraitSinkBuilder<'g, V, W, S, (A, B, Cc,)> {
    /// Wire the next dependency.
    pub fn dep(self, node: NodeRef<A>) -> (r: TraitSinkBuilder<'g, V, W, S, (B, Cc,)>)
        ensures
            r.deps_view() == self.deps_view().push(node.id@),
            *r.graph == *old(self.graph),
            r.sink == self.sink,
    {
        let ghost d0 = self.deps_view();
        let mut dep_ids = self.dep_ids;
        dep_ids.push(node.id);
        let r = TraitSinkBuilder { graph: self.graph, sink: self.sink, dep_ids, _remaining: PhantomData };
        assert(r.deps_view() =~= d0.push(node.id@));
        r
    }
}

/// A trait-based sink with 3 input(s): it emits when all of its inputs
/// have a value.
#[verifier::reject_recursive_types(V)]
pub struct TraitSinkNode3<V, S> {
    pub sink: S,
    _marker: PhantomData<V>,
}

impl<V: Send + 'static, W: 'static, S: Sink<Inputs = (V, V, V,)> + Send + 'static> SinkDispatch<V, W, S> for (V, V, V,) {
    type NodeImpl = TraitSinkNode3<V, S>;

    closed spec fn holds(node: TraitSinkNode3<V, S>, sink: S) -> bool {
        node.sink == sink
    }

    fn make_node_impl(sink: S) -> (r: TraitSinkNode3<V, S>) {
        TraitSinkNode3 { sink, _marker: PhantomData }
    }
}

impl<V: Send + 'static, W, S: Sink<Inputs = (V, V, V,)> + Send> AnyNodeImpl<V, W> for TraitSinkNode3<V, S> {
    fn async_policy(&self) -> (r: AsyncPolicy) {
        AsyncPolicy::LatestWins
    }

    fn concurrency_group_id(&self) -> (r: Option<usize>) {
        None
    }

    open spec fn gives_guard(&self) -> bool {
        false
    }

    fn activate(&mut self, _id: &NodeId, _tx: &mpsc::Sender<(NodeId, V)>) -> Option<Box<dyn ActivationGuard>> {
        None
    }

    closed spec fn computes(&self, inputs: Seq<Option<V>>, out: Option<V>) -> bool {
        out is None
    }

    fn compute(&self, _deps: &[NodeId], _store: &ValueStore<V>) -> (r: Option<V>) {
        None
    }

    fn emit(&self, deps: &[NodeId], store: &ValueStore<V>) {
        if deps.len() != 3 {
            return;
        }
        let a0 = match store.get_by_id(&deps[0]) {
            Some(v) => v,
            None => {
                return;
            },
        };
        let a1 = match store.get_by_id(&deps[1]) {
            Some(v) => v,
            None => {
                return;
            },
        };
        let a2 = match store.get_by_id(&deps[2]) {
            Some(v) => v,
            None => {
                return;
            },
        };
        self.sink.emit((a0, a1, a2,));
    }

    open spec fn spec_kind(&self) -> NodeKind {
        NodeKind::Sink
    }

    fn kind(&self) -> (r: NodeKind) {
        NodeKind::Sink
    }

    closed spec fn starts(&self, inputs: Seq<Option<V>>, out: Option<W>) -> bool {
        out is None
    }

    fn compute_async(&self, _deps: &[NodeId], _store: &ValueStore<V>) -> (r: Option<W>) {
        None
    }
}

impl<'g, V, W, S: Sink, A, B, Cc, D> TraitSinkBuilder<'g, V, W, S, (A, B, Cc, D,)> {
    /// Wire the next dependency.
    pub fn dep(self, node: NodeRef<A>) -> (r: TraitSinkBuilder<'g, V, W, S, (B, Cc, D,)>)
        ensures
            r.deps_view() == self.deps_view().push(node.id@),
            *r.graph == *old(self.graph),
            r.sink == self.sink,
    {
        let ghost d0 = self.deps_view();
        let mut dep_ids = self.dep_ids;
        dep_ids.push(node.id);
        let r = TraitSinkBuilder { graph: self.graph, sink: self.sink, dep_ids, _remaining: PhantomData };
        assert(r.deps_view() =~= d0.push(node.id@));
        r
    }
}

/// A trait-based sink with 4 input(s): it emits when all of its inputs
/// have a value.
#[verifier::reject_recursive_types(V)]
pub struct TraitSinkNode4<V, S> {
    pub sink: S,
    _marker: PhantomData<V>,
}

impl<V: Send + 'static, W: 'static, S: Sink<Inputs = (V, V, V, V,)> + Send + 'static> SinkDispatch<V, W, S> for (V, V, V, V,) {
    type NodeImpl = TraitSinkNode4<V, S>;

    closed spec fn holds(node: TraitSinkNode4<V, S>, sink: S) -> bool {
        node.sink == sink
    }

    fn make_node_impl(sink: S) -> (r: TraitSinkNode4<V, S>) {
        TraitSinkNode4 { sink, _marker: PhantomData }
    }
}

impl<V: Send + 'static, W, S: Sink<Inputs = (V, V, V, V,)> + Send> AnyNodeImpl<V, W> for TraitSinkNode4<V, S> {
    fn async_policy(&self) -> (r: AsyncPolicy) {
        AsyncPolicy::LatestWins
    }

    fn concurrency_group_id(&self) -> (r: Option<usize>) {
        None
    }

    open spec fn gives_guard(&self) -> bool {
        false
    }

    fn activate(&mut self, _id: &NodeId, _tx: &mpsc::Sender<(NodeId, V)>) -> Option<Box<dyn ActivationGuard>> {
        None
    }

    closed spec fn computes(&self, inputs: Seq<Option<V>>, out: Option<V>) -> bool {
        out is None
    }

    fn compute(&self, _deps: &[NodeId], _store: &ValueStore<V>) -> (r: Option<V>) {
        None
    }

    fn emit(&self, deps: &[NodeId], store: &ValueStore<V>) {
        if deps.len() != 4 {
            return;
        }
        let a0 = match store.get_by_id(&deps[0]) {
            Some(v) => v,
            None => {
                return;
            },
        };
        let a1 = match store.get_by_id(&deps[1]) {
            Some(v) => v,
            None => {
                return;
            },
        };
        let a2 = match store.get_by_id(&deps[2]) {
            Some(v) => v,
            None => {
                return;
            },
        };
        let a3 = match store.get_by_id(&deps[3]) {
            Some(v) => v,
            None => {
                return;
            },
        };
        self.sink.emit((a0, a1, a2, a3,));
    }

    open spec fn spec_kind(&self) -> NodeKind {
        NodeKind::Sink
    }

    fn kind(&self) -> (r: NodeKind) {
        NodeKind::Sink
    }

    closed spec fn starts(&self, inputs: Seq<Option<V>>, out: Option<W>) -> bool {
        out is None
    }

    fn compute_async(&self, _deps: &[NodeId], _store: &ValueStore<V>) -> (r: Option<W>) {
        None
    }
}

impl<'g, V, W, S: Sink, A, B, Cc, D, E> TraitSinkBuilder<'g, V, W, S, (A, B, Cc, D, E,)> {
    /// Wire the next dependency.
    pub fn dep(self, node: NodeRef<A>) -> (r: TraitSinkBuilder<'g, V, W, S, (B, Cc, D, E,)>)
        ensures
            r.deps_view() == self.deps_view().push(node.id@),
            *r.graph == *old(self.graph),
            r.sink == self.sink,
    {
        let ghost d0 = self.deps_view();
        let mut dep_ids = self.dep_ids;
        dep_ids.push(node.id);
        let r = TraitSinkBuilder { graph: self.graph, sink: self.sink, dep_ids, _remaining: PhantomData };
        assert(r.deps_view() =~= d0.push(node.id@));
        r
    }
}

/// A trait-based sink with 5 input(s): it emits when all of its inputs
/// have a value.
#[verifier::reject_recursive_types(V)]
pub struct TraitSinkNode5<V, S> {
    pub sink: S,
    _marker: PhantomData<V>,
}

impl<V: Send + 'static, W: 'static, S: Sink<Inputs = (V, V, V, V, V,)> + Send + 'static> SinkDispatch<V, W, S> for (V, V, V, V, V,) {
    type NodeImpl = TraitSinkNode5<V, S>;

    closed spec fn holds(node: TraitSinkNode5<V, S>, sink: S) -> bool {
        node.sink == sink
    }

    fn make_node_impl(sink: S) -> (r: TraitSinkNode5<V, S>) {
        TraitSinkNode5 { sink, _marker: PhantomData }
    }
}

impl<V: Send + 'static, W, S: Sink<Inputs = (V, V, V, V, V,)> + Send> AnyNodeImpl<V, W> for TraitSinkNode5<V, S> {
    fn async_policy(&self) -> (r: AsyncPolicy) {
        AsyncPolicy::LatestWins
    }

    fn concurrency_group_id(&self) -> (r: Option<usize>) {
        None
    }

    open spec fn gives_guard(&self) -> bool {
        false
    }

    fn activate(&mut self, _id: &NodeId, _tx: &mpsc::Sender<(NodeId, V)>) -> Option<Box<dyn ActivationGuard>> {
        None
    }

    closed spec fn computes(&self, inputs: Seq<Option<V>>, out: Option<V>) -> bool {
        out is None
    }

    fn compute(&self, _deps: &[NodeId], _store: &ValueStore<V>) -> (r: Option<V>) {
        None
    }

    fn emit(&self, deps: &[NodeId], store: &ValueStore<V>) {
        if deps.len() != 5 {
            return;
        }
        let a0 = match store.get_by_id(&deps[0]) {
            Some(v) => v,
            None => {
                return;
            },
        };
        let a1 = match store.get_by_id(&deps[1]) {
            Some(v) => v,
            None => {
                return;
            },
        };
        let a2 = match store.get_by_id(&deps[2]) {
            Some(v) => v,
            None => {
                return;
            },
        };
        let a3 = match store.get_by_id(&deps[3]) {
            Some(v) => v,
            None => {
                return;
            },
        };
        let a4 = match store.get_by_id(&deps[4]) {
            Some(v) => v,
            None => {
                return;
            },
        };
        self.sink.emit((a0, a1, a2, a3, a4,));
    }

    open spec fn spec_kind(&self) -> NodeKind {
        NodeKind::Sink
    }

    fn kind(&self) -> (r: NodeKind) {
        NodeKind::Sink
    }

    closed spec fn starts(&self, inputs: Seq<Option<V>>, out: Option<W>) -> bool {
        out is None
    }

    fn compute_async(&self, _deps: &[NodeId], _store: &ValueStore<V>) -> (r: Option<W>) {
        None
    }
}

impl<'g, V, W, S: Sink, A, B, Cc, D, E, Ff> TraitSinkBuilder<'g, V, W, S, (A, B, Cc, D, E, Ff,)> {
    /// Wire the next dependency.
    pub fn dep(self, node: NodeRef<A>) -> (r: TraitSinkBuilder<'g, V, W, S, (B, Cc, D, E, Ff,)>)
        ensures
            r.deps_view() == self.deps_view().push(node.id@),
            *r.graph == *old(self.graph),
            r.sink == self.sink,
    {
        let ghost d0 = self.deps_view();
        let mut dep_ids = self.dep_ids;
        dep_ids.push(node.id);
        let r = TraitSinkBuilder { graph: self.graph, sink: self.sink, dep_ids, _remaining: PhantomData };
        assert(r.deps_view() =~= d0.push(node.id@));
        r
    }
}

/// A trait-based sink with 6 input(s): it emits when all of its inputs
/// have a value.
#[verifier::reject_recursive_types(V)]
pub struct TraitSinkNode6<V, S> {
    pub sink: S,
    _marker: PhantomData<V>,
}

impl<V: Send + 'static, W: 'static, S: Sink<Inputs = (V, V, V, V, V, V,)> + Send + 'static> SinkDispatch<V, W, S> for (V, V, V, V, V, V,) {
    type NodeImpl = TraitSinkNode6<V, S>;

    closed spec fn holds(node: TraitSinkNode6<V, S>, sink: S) -> bool {
        node.sink == sink
    }

    fn make_node_impl(sink: S) -> (r: TraitSinkNode6<V, S>) {
        TraitSinkNode6 { sink, _marker: PhantomData }
    }
}

impl<V: Send + 'static, W, S: Sink<Inputs = (V, V, V, V, V, V,)> + Send> AnyNodeImpl<V, W> for TraitSinkNode6<V, S> {
    fn async_policy(&self) -> (r: AsyncPolicy) {
        AsyncPolicy::LatestWins
    }

    fn concurrency_group_id(&self) -> (r: Option<usize>) {
        None
    }

    open spec fn gives_guard(&self) -> bool {
        false
    }

    fn activate(&mut self, _id: &NodeId, _tx: &mpsc::Sender<(NodeId, V)>) -> Option<Box<dyn ActivationGuard>> {
        None
    }

    closed spec fn computes(&self, inputs: Seq<Option<V>>, out: Option<V>) -> bool {
        out is None
    }

    fn compute(&self, _deps: &[NodeId], _store: &ValueStore<V>) -> (r: Option<V>) {
        None
    }

    fn emit(&self, deps: &[NodeId], store: &ValueStore<V>) {
        if deps.len() != 6 {
            return;
        }
        let a0 = match store.get_by_id(&deps[0]) {
            Some(v) => v,
            None => {
                return;
            },
        };
        let a1 = match store.get_by_id(&deps[1]) {
            Some(v) => v,
            None => {
                return;
            },
        };
        let a2 = match store.get_by_id(&deps[2]) {
            Some(v) => v,
            None => {
                return;
            },
        };
        let a3 = match store.get_by_id(&deps[3]) {
            Some(v) => v,
            None => {
                return;
            },
        };
        let a4 = match store.get_by_id(&deps[4]) {
            Some(v) => v,
            None => {
                return;
            },
        };
        let a5 = match store.get_by_id(&deps[5]) {
            Some(v) => v,
            None => {
                return;
            },
        };
        self.sink.emit((a0, a1, a2, a3, a4, a5,));
    }

    open spec fn spec_kind(&self) -> NodeKind {
        NodeKind::Sink
    }

    fn kind(&self) -> (r: NodeKind) {
        NodeKind::Sink
    }

    closed spec fn starts(&self, inputs: Seq<Option<V>>, out: Option<W>) -> bool {
        out is None
    }

    fn compute_async(&self, _deps: &[NodeId], _store: &ValueStore<V>) -> (r: Option<W>) {
        None
    }
}

impl<'g, V, W, S: Sink, A, B, Cc, D, E, Ff, G> TraitSinkBuilder<'g, V, W, S, (A, B, Cc, D, E, Ff, G,)> {
    /// Wire the next dependency.
    pub fn dep(self, node: NodeRef<A>) -> (r: TraitSinkBuilder<'g, V, W, S, (B, Cc, D, E, Ff, G,)>)
        ensures
            r.deps_view() == self.deps_view().push(node.id@),
            *r.graph == *old(self.graph),
            r.sink == self.sink,
    {
        let ghost d0 = self.deps_view();
        let mut dep_ids = self.dep_ids;
        dep_ids.push(node.id);
        let r = TraitSinkBuilder { graph: self.graph, sink: self.sink, dep_ids, _remaining: PhantomData };
        assert(r.deps_view() =~= d0.push(node.id@));
        r
    }
}

/// A trait-based sink with 7 input(s): it emits when all of its inputs
/// have a value.
#[verifier::reject_recursive_types(V)]
pub struct TraitSinkNode7<V, S> {
    pub sink: S,
    _marker: PhantomData<V>,
}

impl<V: Send + 'static, W: 'static, S: Sink<Inputs = (V, V, V, V, V, V, V,)> + Send + 'static> SinkDispatch<V, W, S> for (V, V, V, V, V, V, V,) {
    type NodeImpl = TraitSinkNode7<V, S>;

    closed spec fn holds(node: TraitSinkNode7<V, S>, sink: S) -> bool {
        node.sink == sink
    }

    fn make_node_impl(sink: S) -> (r: TraitSinkNode7<V, S>) {
        TraitSinkNode7 { sink, _marker: PhantomData }
    }
}

impl<V: Send + 'static, W, S: Sink<Inputs = (V, V, V, V, V, V, V,)> + Send> AnyNodeImpl<V, W> for TraitSinkNode7<V, S> {
    fn async_policy(&self) -> (r: AsyncPolicy) {
        AsyncPolicy::LatestWins
    }

    fn concurrency_group_id(&self) -> (r: Option<usize>) {
        None
    }

    open spec fn gives_guard(&self) -> bool {
        false
    }

    fn activate(&mut self, _id: &NodeId, _tx: &mpsc::Sender<(NodeId, V)>) -> Option<Box<dyn ActivationGuard>> {
        None
    }

    closed spec fn computes(&self, inputs: Seq<Option<V>>, out: Option<V>) -> bool {
        out is None
    }

    fn compute(&self, _deps: &[NodeId], _store: &ValueStore<V>) -> (r: Option<V>) {
        None
    }

    fn emit(&self, deps: &[NodeId], store: &ValueStore<V>) {
        if deps.len() != 7 {
            return;
        }
        let a0 = match store.get_by_id(&deps[0]) {
            Some(v) => v,
            None => {
                return;
            },
        };
        let a1 = match store.get_by_id(&deps[1]) {
            Some(v) => v,
            None => {
                return;
            },
        };
        let a2 = match store.get_by_id(&deps[2]) {
            Some(v) => v,
            None => {
                return;
            },
        };
        let a3 = match store.get_by_id(&deps[3]) {
            Some(v) => v,
            None => {
                return;
            },
        };
        let a4 = match store.get_by_id(&deps[4]) {
            Some(v) => v,
            None => {
                return;
            },
        };
        let a5 = match store.get_by_id(&deps[5]) {
            Some(v) => v,
            None => {
                return;
            },
        };
        let a6 = match store.get_by_id(&deps[6]) {
            Some(v) => v,
            None => {
                return;
            },
        };
        self.sink.emit((a0, a1, a2, a3, a4, a5, a6,));
    }

    open spec fn spec_kind(&self) -> NodeKind {
        NodeKind::Sink
    }

    fn kind(&self) -> (r: NodeKind) {
        NodeKind::Sink
    }

    closed spec fn starts(&self, inputs: Seq<Option<V>>, out: Option<W>) -> bool {
        out is None
    }

    fn compute_async(&self, _deps: &[NodeId], _store: &ValueStore<V>) -> (r: Option<W>) {
        None
    }
}

impl<'g, V, W, S: Sink, A, B, Cc, D, E, Ff, G, H> TraitSinkBuilder<'g, V, W, S, (A, B, Cc, D, E, Ff, G, H,)> {
    /// Wire the next dependency.
    pub fn dep(self, node: NodeRef<A>) -> (r: TraitSinkBuilder<'g, V, W, S, (B, Cc, D, E, Ff, G, H,)>)
        ensures
            r.deps_view() == self.deps_view().push(node.id@),
            *r.graph == *old(self.graph),
            r.sink == self.sink,
    {
        let ghost d0 = self.deps_view();
        let mut dep_ids = self.dep_ids;
        dep_ids.push(node.id);
        let r = TraitSinkBuilder { graph: self.graph, sink: self.sink, dep_ids, _remaining: PhantomData };
        assert(r.deps_view() =~= d0.push(node.id@));
        r
    }
}

/// A trait-based sink with 8 input(s): it emits when all of its inputs
/// have a value.
#[verifier::reject_recursive_types(V)]
pub struct TraitSinkNode8<V, S> {
    pub sink: S,
    _marker: PhantomData<V>,
}

impl<V: Send + 'static, W: 'static, S: Sink<Inputs = (V, V, V, V, V, V, V, V,)> + Send + 'static> SinkDispatch<V, W, S> for (V, V, V, V, V, V, V, V,) {
    type NodeImpl = TraitSinkNode8<V, S>;

    closed spec fn holds(node: TraitSinkNode8<V, S>, sink: S) -> bool {
        node.sink == sink
    }

    fn make_node_impl(sink: S) -> (r: TraitSinkNode8<V, S>) {
        TraitSinkNode8 { sink, _marker: PhantomData }
    }
}

impl<V: Send + 'static, W, S: Sink<Inputs = (V, V, V, V, V, V, V, V,)> + Send> AnyNodeImpl<V, W> for TraitSinkNode8<V, S> {
    fn async_policy(&self) -> (r: AsyncPolicy) {
        AsyncPolicy::LatestWins
    }

    fn concurrency_group_id(&self) -> (r: Option<usize>) {
        None
    }

    open spec fn gives_guard(&self) -> bool {
        false
    }

    fn activate(&mut self, _id: &NodeId, _tx: &mpsc::Sender<(NodeId, V)>) -> Option<Box<dyn ActivationGuard>> {
        None
    }

    closed spec fn computes(&self, inputs: Seq<Option<V>>, out: Option<V>) -> bool {
        out is None
    }

    fn compute(&self, _deps: &[NodeId], _store: &ValueStore<V>) -> (r: Option<V>) {
        None
    }

    fn emit(&self, deps: &[NodeId], store: &ValueStore<V>) {
        if deps.len() != 8 {
            return;
        }
        let a0 = match store.get_by_id(&deps[0]) {
            Some(v) => v,
            None => {
                return;
            },
        };
        let a1 = match store.get_by_id(&deps[1]) {
            Some(v) => v,
            None => {
                return;
            },
        };
        let a2 = match store.get_by_id(&deps[2]) {
            Some(v) => v,
            None => {
                return;
            },
        };
        let a3 = match store.get_by_id(&deps[3]) {
            Some(v) => v,
            None => {
                return;
            },
        };
        let a4 = match store.get_by_id(&deps[4]) {
            Some(v) => v,
            None => {
                return;
            },
        };
        let a5 = match store.get_by_id(&deps[5]) {
            Some(v) => v,
            None => {
                return;
            },
        };
        let a6 = match store.get_by_id(&deps[6]) {
            Some(v) => v,
            None => {
                return;
            },
        };
        let a7 = match store.get_by_id(&deps[7]) {
            Some(v) => v,
            None => {
                return;
            },
        };
        self.sink.emit((a0, a1, a2, a3, a4, a5, a6, a7,));
    }

    open spec fn spec_kind(&self) -> NodeKind {
        NodeKind::Sink
    }

    fn kind(&self) -> (r: NodeKind) {
        NodeKind::Sink
    }

    closed spec fn starts(&self, inputs: Seq<Option<V>>, out: Option<W>) -> bool {
        out is None
    }

    fn compute_async(&self, _deps: &[NodeId], _store: &ValueStore<V>) -> (r: Option<W>) {
        None
    }
}

} // verus!
