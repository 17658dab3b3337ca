use crate::graph::{added_node, ActivationGuard, AnyNodeImpl, AsyncPolicy, Graph, NodeKind};
use crate::node::{Compute, Node};
use crate::node_ref::{ids_view, NodeId, NodeKey, NodeRef};
use crate::value_store::ValueStore;
use std::marker::PhantomData;
use std::sync::mpsc;
use vstd::prelude::*;

verus! {

/// Helper trait on tuple types to produce type-erased node implementations
/// for compute nodes.
pub trait ComputeDispatch<V, W, C>: Sized {
    /// The node implementation type.
    type NodeImpl: AnyNodeImpl<V, W> + 'static;

    /// `node` is the node implementation made from `compute`.
    spec fn holds(node: Self::NodeImpl, compute: C) -> bool;

    fn make_node_impl(compute: C) -> (r: Self::NodeImpl)
        ensures
            Self::holds(r, compute),
    ;
}

/// Typestate builder for trait-based compute nodes.
/// `Remaining` starts as `C::Inputs` and shrinks as deps are wired via `.dep()`.
#[verifier::reject_recursive_types(V)]
#[verifier::reject_recursive_types(W)]
pub struct TraitComputeBuilder<'g, V, W, C: Compute, Remaining> {
    pub graph: &'g mut Graph<V, W>,
    pub compute: C,
    pub dep_ids: Vec<NodeId>,
    pub _remaining: PhantomData<Remaining>,
}

impl<'g, V, W, C: Compute, Remaining> TraitComputeBuilder<'g, V, W, C, Remaining> {
    /// The dependencies wired so far, in order.
    pub open spec fn deps_view(&self) -> Seq<NodeKey> {
        ids_view(self.dep_ids@)
    }
}

impl<'g, V, W, C: Compute> TraitComputeBuilder<'g, V, W, C, C::Inputs> {
    /// Start building a trait-based compute node in `graph`.
    pub fn new(graph: &'g mut Graph<V, W>, compute: C) -> (r: Self)
        ensures
            r.deps_view() == Seq::<NodeKey>::empty(),
            r.compute == compute,
            *r.graph == *old(graph),
    {
        let r = TraitComputeBuilder { graph, compute, dep_ids: Vec::new(), _remaining: PhantomData };
        assert(r.deps_view() =~= Seq::<NodeKey>::empty());
        r
    }
}

impl<'g, V: 'static, W: 'static, C: Compute + 'static> TraitComputeBuilder<'g, V, W, C, ()> where C::Inputs: ComputeDispatch<V, W, C> {
    /// Finalize and register the compute node, under its key scoped by its type.
    pub fn build(self) -> (r: NodeRef<C::Output>)
        requires
            self.graph.wf(),
            self.graph.room_for_all(),
        ensures
            r.id@.0 is Typed,
            final(self.graph).wf(),
            added_node(old(self.graph).nodes(), final(self.graph).nodes(), r.id@, NodeKind::Compute, self.deps_view()),
            final(self.graph).values() == old(self.graph).values(),
    {
        let id = NodeId::from_key::<C::Key, C>(&self.compute.key());
        let node_ref = NodeRef { id: id.clone(), _marker: PhantomData };
        let node_impl = Box::new(<C::Inputs as ComputeDispatch<V, W, C>>::make_node_impl(self.compute));
        assert(self.graph.room_for(id@));
        self.graph.add_entry(id, NodeKind::Compute, self.dep_ids, node_impl);
        node_ref
    }
}

impl<'g, V, W, C: Compute, A> TraitComputeBuilder<'g, V, W, C, (A,)> {
    /// Wire the next dependency.
    pub fn dep(self, node: NodeRef<A>) -> (r: TraitComputeBuilder<'g, V, W, C, ()>)
        ensures
            r.deps_view() == self.deps_view().push(node.id@),
            *r.graph == *old(self.graph),
            r.compute == self.compute,
    {
        let ghost d0 = self.deps_view();
        let mut dep_ids = self.dep_ids;
        dep_ids.push(node.id);
        let r = TraitComputeBuilder { graph: self.graph, compute: self.compute, dep_ids, _remaining: PhantomData };
        assert(r.deps_view() =~= d0.push(node.id@));
        r
    }
}

/// A trait-based compute node with 1 input(s): it computes a value exactly
/// when all of its inputs have one.
#[verifier::reject_recursive_types(V)]
pub struct TraitComputeNode1<V, C> {
    pub compute: C,
    _marker: PhantomData<V>,
}

impl<V: Send + 'static, W: 'static, C: Compute<Inputs = (V,), Output = V> + Send + 'static> ComputeDispatch<V, W, C> for (V,) {
    type NodeImpl = TraitComputeNode1<V, C>;

    closed spec fn holds(node: TraitComputeNode1<V, C>, compute: C) -> bool {
        node.compute == compute
    }

    fn make_node_impl(compute: C) -> (r: TraitComputeNode1<V, C>) {
        TraitComputeNode1 { compute, _marker: PhantomData }
    }
}

impl<V: Send + 'static, W, C: Compute<Inputs = (V,), Output = V> + Send> AnyNodeImpl<V, W> for TraitComputeNode1<V, C> {
    fn async_policy(&self) -> (r: AsyncPolicy) {
        AsyncPolicy::LatestWins
    }

    fn concurrency_group_id(&self) -> (r: Option<usize>) {
        None
    }

    open spec fn gives_guard(&self) -> bool {
        false
    }

    fn activate(&mut self, _id: &NodeId, _tx: &mpsc::Sender<(NodeId, V)>) -> Option<Box<dyn ActivationGuard>> {
        None
    }

    closed spec fn computes(&self, inputs: Seq<Option<V>>, out: Option<V>) -> bool {
        if inputs.len() == 1 && inputs[0] is Some {
            out is Some
        } else {
            out is None
        }
    }

    fn compute(&self, deps: &[NodeId], store: &ValueStore<V>) -> (r: Option<V>) {
        if deps.len() != 1 {
            return None;
        }
        let a0 = match store.get_by_id(&deps[0]) {
            Some(v) => v,
            None => {
                return None;
            },
        };
        Some(self.compute.compute((a0,)))
    }

    fn emit(&self, _deps: &[NodeId], _store: &ValueStore<V>) {
    }

    open spec fn spec_kind(&self) -> NodeKind {
        NodeKind::Compute
    }

    fn kind(&self) -> (r: NodeKind) {
        NodeKind::Compute
    }

    closed spec fn starts(&self, inputs: Seq<Option<V>>, out: Option<W>) -> bool {
        out is None
    }

    fn compute_async(&self, _deps: &[NodeId], _store: &ValueStore<V>) -> (r: Option<W>) {
        None
    }
}

impl<'g, V, W, C: Compute, A, B> TraitComputeBuilder<'g, V, W, C, (A, B,)> {
    /// Wire the next dependency.
    pub fn dep(self, node: NodeRef<A>) -> (r: TraitComputeBuilder<'g, V, W, C, (B,)>)
        ensures
            r.deps_view() == self.deps_view().push(node.id@),
            *r.graph == *old(self.graph),
            r.compute == self.compute,
    {
        let ghost d0 = self.deps_view();
        let mut dep_ids = self.dep_ids;
        dep_ids.push(node.id);
        let r = TraitComputeBuilder { graph: self.graph, compute: self.compute, dep_ids, _remaining: PhantomData };
        assert(r.deps_view() =~= d0.push(node.id@));
        r
    }
}

/// A trait-based compute node with 2 input(s): it computes a value exactly
/// when all of its inputs have one.
#[verifier::reject_recursive_types(V)]
pub struct TraitComputeNode2<V, C> {
    pub compute: C,
    _marker: PhantomData<V>,
}

impl<V: Send + 'static, W: 'static, C: Compute<Inputs = (V, V,), Output = V> + Send + 'static> ComputeDispatch<V, W, C> for (V, V,) {
    type NodeImpl = TraitComputeNode2<V, C>;

    closed spec fn holds(node: TraitComputeNode2<V, C>, compute: C) -> bool {
        node.compute == compute
    }

    fn make_node_impl(compute: C) -> (r: TraitComputeNode2<V, C>) {
        TraitComputeNode2 { compute, _marker: PhantomData }
    }
}

impl<V: Send + 'static, W, C: Compute<Inputs = (V, V,), Output = V> + Send> AnyNodeImpl<V, W> for TraitComputeNode2<V, C> {
    fn async_policy(&self) -> (r: AsyncPolicy) {
        AsyncPolicy::LatestWins
    }

    fn concurrency_group_id(&self) -> (r: Option<usize>) {
        None
    }

    open spec fn gives_guard(&self) -> bool {
        false
    }

    fn activate(&mut self, _id: &NodeId, _tx: &mpsc::Sender<(NodeId, V)>) -> Option<Box<dyn ActivationGuard>> {
        None
    }

    closed spec fn computes(&self, inputs: Seq<Option<V>>, out: Option<V>) -> bool {
        if inputs.len() == 2 && inputs[0] is Some && inputs[1] is Some {
            out is Some
        } else {
            out is None
        }
    }

    fn compute(&self, deps: &[NodeId], store: &ValueStore<V>) -> (r: Option<V>) {
        if deps.len() != 2 {
            return None;
        }
        let a0 = match store.get_by_id(&deps[0]) {
            Some(v) => v,
            None => {
                return None;
            },
        };
        let a1 = match store.get_by_id(&deps[1]) {
            Some(v) => v,
            None => {
                return None;
            },
        };
        Some(self.compute.compute((a0, a1,)))
    }

    fn emit(&self, _deps: &[NodeId], _store: &ValueStore<V>) {
    }

    open spec fn spec_kind(&self) -> NodeKind {
        NodeKind::Compute
    }

    fn kind(&self) -> (r: NodeKind) {
        NodeKind::Compute
    }

    closed spec fn starts(&self, inputs: Seq<Option<V>>, out: Option<W>) -> bool {
        out is None
    }

    fn compute_async(&self, _deps: &[NodeId], _store: &ValueStore<V>) -> (r: Option<W>) {
        None
    }
}

impl<'g, V, W, C: Compute, A, B, Cc> TraitComputeBuilder<'g, V, W, C, (A, B, Cc,)> {
    /// Wire the next dependency.
    pub fn dep(self, node: NodeRef<A>) -> (r: TraitComputeBuilder<'g, V, W, C, (B, Cc,)>)
        ensures
            r.deps_view() == self.deps_view().push(node.id@),
            *r.graph == *old(self.graph),
            r.compute == self.compute,
    {
        let ghost d0 = self.deps_view();
        let mut dep_ids = self.dep_ids;
        dep_ids.push(node.id);
        let r = TraitComputeBuilder { graph: self.graph, compute: self.compute, dep_ids, _remaining: PhantomData };
        assert(r.deps_view() =~= d0.push(node.id@));
        r
    }
}

/// A trait-based compute node with 3 input(s): it computes a value exactly
/// when all of its inputs have one.
#[verifier::reject_recursive_types(V)]
pub struct TraitComputeNode3<V, C> {
    pub compute: C,
    _marker: PhantomData<V>,
}

impl<V: Send + 'static, W: 'static, C: Compute<Inputs = (V, V, V,), Output = V> + Send + 'static> ComputeDispatch<V, W, C> for (V, V, V,) {
    type NodeImpl = TraitComputeNode3<V, C>;

    closed spec fn holds(node: TraitComputeNode3<V, C>, compute: C) -> bool {
        node.compute == compute
    }

    fn make_node_impl(compute: C) -> (r: TraitComputeNode3<V, C>) {
        TraitComputeNode3 { compute, _marker: PhantomData }
    }
}

impl<V: Send + 'static, W, C: Compute<Inputs = (V, V, V,), Output = V> + Send> AnyNodeImpl<V, W> for TraitComputeNode3<V, C> {
    fn async_policy(&self) -> (r: AsyncPolicy) {
        AsyncPolicy::LatestWins
    }

    fn concurrency_group_id(&self) -> (r: Option<usize>) {
        None
    }

    open spec fn gives_guard(&self) -> bool {
        false
    }

    fn activate(&mut self, _id: &NodeId, _tx: &mpsc::Sender<(NodeId, V)>) -> Option<Box<dyn ActivationGuard>> {
        None
    }

    closed spec fn computes(&self, inputs: Seq<Option<V>>, out: Option<V>) -> bool {
        if inputs.len() == 3 && inputs[0] is Some && inputs[1] is Some && inputs[2] is Some {
            out is Some
        } else {
            out is None
        }
    }

    fn compute(&self, deps: &[NodeId], store: &ValueStore<V>) -> (r: Option<V>) {
        if deps.len() != 3 {
            return None;
        }
        let a0 = match store.get_by_id(&deps[0]) {
            Some(v) => v,
            None => {
                return None;
            },
        };
        let a1 = match store.get_by_id(&deps[1]) {
            Some(v) => v,
            None => {
                return None;
            },
        };
        let a2 = match store.get_by_id(&deps[2]) {
            Some(v) => v,
            None => {
                return None;
            },
        };
        Some(self.compute.compute((a0, a1, a2,)))
    }

    fn emit(&self, _deps: &[NodeId], _store: &ValueStore<V>) {
    }

    open spec fn spec_kind(&self) -> NodeKind {
        NodeKind::Compute
    }

    fn kind(&self) -> (r: NodeKind) {
        NodeKind::Compute
    }

    closed spec fn starts(&self, inputs: Seq<Option<V>>, out: Option<W>) -> bool {
        out is None
    }

    fn compute_async(&self, _deps: &[NodeId], _store: &ValueStore<V>) -> (r: Option<W>) {
        None
    }
}

impl<'g, V, W, C: Compute, A, B, Cc, D> TraitComputeBuilder<'g, V, W, C, (A, B, Cc, D,)> {
    /// Wire the next dependency.
    pub fn dep(self, node: NodeRef<A>) -> (r: TraitComputeBuilder<'g, V, W, C, (B, Cc, D,)>)
        ensures
            r.deps_view() == self.deps_view().push(node.id@),
            *r.graph == *old(self.graph),
            r.compute == self.compute,
    {
        let ghost d0 = self.deps_view();
        let mut dep_ids = self.dep_ids;
        dep_ids.push(node.id);
        let r = TraitComputeBuilder { graph: self.graph, compute: self.compute, dep_ids, _remaining: PhantomData };
        assert(r.deps_view() =~= d0.push(node.id@));
        r
    }
}

/// A trait-based compute node with 4 input(s): it computes a value exactly
/// when all of its inputs have one.
#[verifier::reject_recursive_types(V)]
pub struct TraitComputeNode4<V, C> {
    pub compute: C,
    _marker: PhantomData<V>,
}

impl<V: Send + 'static, W: 'static, C: Compute<Inputs = (V, V, V, V,), Output = V> + Send + 'static> ComputeDispatch<V, W, C> for (V, V, V, V,) {
    type NodeImpl = TraitComputeNode4<V, C>;

    closed spec fn holds(node: TraitComputeNode4<V, C>, compute: C) -> bool {
        node.compute == compute
    }

    fn make_node_impl(compute: C) -> (r: TraitComputeNode4<V, C>) {
        TraitComputeNode4 { compute, _marker: PhantomData }
    }
}

impl<V: Send + 'static, W, C: Compute<Inputs = (V, V, V, V,), Output = V> + Send> AnyNodeImpl<V, W> for TraitComputeNode4<V, C> {
    fn async_policy(&self) -> (r: AsyncPolicy) {
        AsyncPolicy::LatestWins
    }

    fn concurrency_group_id(&self) -> (r: Option<usize>) {
        None
    }

    open spec fn gives_guard(&self) -> bool {
        false
    }

    fn activate(&mut self, _id: &NodeId, _tx: &mpsc::Sender<(NodeId, V)>) -> Option<Box<dyn ActivationGuard>> {
        None
    }

    closed spec fn computes(&self, inputs: Seq<Option<V>>, out: Option<V>) -> bool {
        if inputs.len() == 4 && inputs[0] is Some && inputs[1] is Some && inputs[2] is Some && inputs[3] is Some {
            out is Some
        } else {
            out is None
        }
    }

    fn compute(&self, deps: &[NodeId], store: &ValueStore<V>) -> (r: Option<V>) {
        if deps.len() != 4 {
            return None;
        }
        let a0 = match store.get_by_id(&deps[0]) {
            Some(v) => v,
            None => {
                return None;
            },
        };
        let a1 = match store.get_by_id(&deps[1]) {
            Some(v) => v,
            None => {
                return None;
            },
        };
        let a2 = match store.get_by_id(&deps[2]) {
            Some(v) => v,
            None => {
                return None;
            },
        };
        let a3 = match store.get_by_id(&deps[3]) {
            Some(v) => v,
            None => {
                return None;
            },
        };
        Some(self.compute.compute((a0, a1, a2, a3,)))
    }

    fn emit(&self, _deps: &[NodeId], _store: &ValueStore<V>) {
    }

    open spec fn spec_kind(&self) -> NodeKind {
        NodeKind::Compute
    }

    fn kind(&self) -> (r: NodeKind) {
        NodeKind::Compute
    }

    closed spec fn starts(&self, inputs: Seq<Option<V>>, out: Option<W>) -> bool {
        out is None
    }

    fn compute_async(&self, _deps: &[NodeId], _store: &ValueStore<V>) -> (r: Option<W>) {
        None
    }
}

impl<'g, V, W, C: Compute, A, B, Cc, D, E> TraitComputeBuilder<'g, V, W, C, (A, B, Cc, D, E,)> {
    /// Wire the next dependency.
    pub fn dep(self, node: NodeRef<A>) -> (r: TraitComputeBuilder<'g, V, W, C, (B, Cc, D, E,)>)
        ensures
            r.deps_view() == self.deps_view().push(node.id@),
            *r.graph == *old(self.graph),
            r.compute == self.compute,
    {
        let ghost d0 = self.deps_view();
        let mut dep_ids = self.dep_ids;
        dep_ids.push(node.id);
        let r = TraitComputeBuilder { graph: self.graph, compute: self.compute, dep_ids, _remaining: PhantomData };
        assert(r.deps_view() =~= d0.push(node.id@));
        r
    }
}

/// A trait-based compute node with 5 input(s): it computes a value exactly
/// when all of its inputs have one.
#[verifier::reject_recursive_types(V)]
pub struct TraitComputeNode5<V, C> {
    pub compute: C,
    _marker: PhantomData<V>,
}

impl<V: Send + 'static, W: 'static, C: Compute<Inputs = (V, V, V, V, V,), Output = V> + Send + 'static> ComputeDispatch<V, W, C> for (V, V, V, V, V,) {
    type NodeImpl = TraitComputeNode5<V, C>;

    closed spec fn holds(node: TraitComputeNode5<V, C>, compute: C) -> bool {
        node.compute == compute
    }

    fn make_node_impl(compute: C) -> (r: TraitComputeNode5<V, C>) {
        TraitComputeNode5 { compute, _marker: PhantomData }
    }
}

impl<V: Send + 'static, W, C: Compute<Inputs = (V, V, V, V, V,), Output = V> + Send> AnyNodeImpl<V, W> for TraitComputeNode5<V, C> {
    fn async_policy(&self) -> (r: AsyncPolicy) {
        AsyncPolicy::LatestWins
    }

    fn concurrency_group_id(&self) -> (r: Option<usize>) {
        None
    }

    open spec fn gives_guard(&self) -> bool {
        false
    }

    fn activate(&mut self, _id: &NodeId, _tx: &mpsc::Sender<(NodeId, V)>) -> Option<Box<dyn ActivationGuard>> {
        None
    }

    closed spec fn computes(&self, inputs: Seq<Option<V>>, out: Option<V>) -> bool {
        if inputs.len() == 5 && inputs[0] is Some && inputs[1] is Some && inputs[2] is Some && inputs[3] is Some && inputs[4] is Some {
            out is Some
        } else {
            out is None
        }
    }

    fn compute(&self, deps: &[NodeId], store: &ValueStore<V>) -> (r: Option<V>) {
        if deps.len() != 5 {
            return None;
        }
        let a0 = match store.get_by_id(&deps[0]) {
            Some(v) => v,
            None => {
                return None;
            },
        };
        let a1 = match store.get_by_id(&deps[1]) {
            Some(v) => v,
            None => {
                return None;
            },
        };
        let a2 = match store.get_by_id(&deps[2]) {
            Some(v) => v,
            None => {
                return None;
            },
        };
        let a3 = match store.get_by_id(&deps[3]) {
            Some(v) => v,
            None => {
                return None;
            },
        };
        let a4 = match store.get_by_id(&deps[4]) {
            Some(v) => v,
            None => {
                return None;
            },
        };
        Some(self.compute.compute((a0, a1, a2, a3, a4,)))
    }

    fn emit(&self, _deps: &[NodeId], _store: &ValueStore<V>) {
    }

    open spec fn spec_kind(&self) -> NodeKind {
        NodeKind::Compute
    }

    fn kind(&self) -> (r: NodeKind) {
        NodeKind::Compute
    }

    closed spec fn starts(&self, inputs: Seq<Option<V>>, out: Option<W>) -> bool {
        out is None
    }

    fn compute_async(&self, _deps: &[NodeId], _store: &ValueStore<V>) -> (r: Option<W>) {
        None
    }
}

impl<'g, V, W, C: Compute, A, B, Cc, D, E, Ff> TraitComputeBuilder<'g, V, W, C, (A, B, Cc, D, E, Ff,)> {
    /// Wire the next dependency.
    pub fn dep(self, node: NodeRef<A>) -> (r: TraitComputeBuilder<'g, V, W, C, (B, Cc, D, E, Ff,)>)
        ensures
            r.deps_view() == self.deps_view().push(node.id@),
            *r.graph == *old(self.graph),
            r.compute == self.compute,
    {
        let ghost d0 = self.deps_view();
        let mut dep_ids = self.dep_ids;
        dep_ids.push(node.id);
        let r = TraitComputeBuilder { graph: self.graph, compute: self.compute, dep_ids, _remaining: PhantomData };
        assert(r.deps_view() =~= d0.push(node.id@));
        r
    }
}

/// A trait-based compute node with 6 input(s): it computes a value exactly
/// when all of its inputs have one.
#[verifier::reject_recursive_types(V)]
pub struct TraitComputeNode6<V, C> {
    pub compute: C,
    _marker: PhantomData<V>,
}

impl<V: Send + 'static, W: 'static, C: Compute<Inputs = (V, V, V, V, V, V,), Output = V> + Send + 'static> ComputeDispatch<V, W, C> for (V, V, V, V, V, V,) {
    type NodeImpl = TraitComputeNode6<V, C>;

    closed spec fn holds(node: TraitComputeNode6<V, C>, compute: C) -> bool {
        node.compute == compute
    }

    fn make_node_impl(compute: C) -> (r: TraitComputeNode6<V, C>) {
        TraitComputeNode6 { compute, _marker: PhantomData }
    }
}

impl<V: Send + 'static, W, C: Compute<Inputs = (V, V, V, V, V, V,), Output = V> + Send> AnyNodeImpl<V, W> for TraitComputeNode6<V, C> {
    fn async_policy(&self) -> (r: AsyncPolicy) {
        AsyncPolicy::LatestWins
    }

    fn concurrency_group_id(&self) -> (r: Option<usize>) {
        None
    }

    open spec fn gives_guard(&self) -> bool {
        false
    }

    fn activate(&mut self, _id: &NodeId, _tx: &mpsc::Sender<(NodeId, V)>) -> Option<Box<dyn ActivationGuard>> {
        None
    }

    closed spec fn computes(&self, inputs: Seq<Option<V>>, out: Option<V>) -> bool {
        if inputs.len() == 6 && inputs[0] is Some && inputs[1] is Some && inputs[2] is Some && inputs[3] is Some && inputs[4] is Some && inputs[5] is Some {
            out is Some
        } else {
            out is None
        }
    }

    fn compute(&self, deps: &[NodeId], store: &ValueStore<V>) -> (r: Option<V>) {
        if deps.len() != 6 {
            return None;
        }
        let a0 = match store.get_by_id(&deps[0]) {
            Some(v) => v,
            None => {
                return None;
            },
        };
        let a1 = match store.get_by_id(&deps[1]) {
            Some(v) => v,
            None => {
                return None;
            },
        };
        let a2 = match store.get_by_id(&deps[2]) {
            Some(v) => v,
            None => {
                return None;
            },
        };
        let a3 = match store.get_by_id(&deps[3]) {
            Some(v) => v,
            None => {
                return None;
            },
        };
        let a4 = match store.get_by_id(&deps[4]) {
            Some(v) => v,
            None => {
                return None;
            },
        };
        let a5 = match store.get_by_id(&deps[5]) {
            Some(v) => v,
            None => {
                return None;
            },
        };
        Some(self.compute.compute((a0, a1, a2, a3, a4, a5,)))
    }

    fn emit(&self, _deps: &[NodeId], _store: &ValueStore<V>) {
    }

    open spec fn spec_kind(&self) -> NodeKind {
        NodeKind::Compute
    }

    fn kind(&self) -> (r: NodeKind) {
        NodeKind::Compute
    }

    closed spec fn starts(&self, inputs: Seq<Option<V>>, out: Option<W>) -> bool {
        out is None
    }

    fn compute_async(&self, _deps: &[NodeId], _store: &ValueStore<V>) -> (r: Option<W>) {
        None
    }
}

impl<'g, V, W, C: Compute, A, B, Cc, D, E, Ff, G> TraitComputeBuilder<'g, V, W, C, (A, B, Cc, D, E, Ff, G,)> {
    /// Wire the next dependency.
    pub fn dep(self, node: NodeRef<A>) -> (r: TraitComputeBuilder<'g, V, W, C, (B, Cc, D, E, Ff, G,)>)
        ensures
            r.deps_view() == self.deps_view().push(node.id@),
            *r.graph == *old(self.graph),
            r.compute == self.compute,
    {
        let ghost d0 = self.deps_view();
        let mut dep_ids = self.dep_ids;
        dep_ids.push(node.id);
        let r = TraitComputeBuilder { graph: self.graph, compute: self.compute, dep_ids, _remaining: PhantomData };
        assert(r.deps_view() =~= d0.push(node.id@));
        r
    }
}

/// A trait-based compute node with 7 input(s): it computes a value exactly
/// when all of its inputs have one.
#[verifier::reject_recursive_types(V)]
pub struct TraitComputeNode7<V, C> {
    pub compute: C,
    _marker: PhantomData<V>,
}

impl<V: Send + 'static, W: 'static, C: Compute<Inputs = (V, V, V, V, V, V, V,), Output = V> + Send + 'static> ComputeDispatch<V, W, C> for (V, V, V, V, V, V, V,) {
    type NodeImpl = TraitComputeNode7<V, C>;

    closed spec fn holds(node: TraitComputeNode7<V, C>, compute: C) -> bool {
        node.compute == compute
    }

    fn make_node_impl(compute: C) -> (r: TraitComputeNode7<V, C>) {
        TraitComputeNode7 { compute, _marker: PhantomData }
    }
}

impl<V: Send + 'static, W, C: Compute<Inputs = (V, V, V, V, V, V, V,), Output = V> + Send> AnyNodeImpl<V, W> for TraitComputeNode7<V, C> {
    fn async_policy(&self) -> (r: AsyncPolicy) {
        AsyncPolicy::LatestWins
    }

    fn concurrency_group_id(&self) -> (r: Option<usize>) {
        None
    }

    open spec fn gives_guard(&self) -> bool {
        false
    }

    fn activate(&mut self, _id: &NodeId, _tx: &mpsc::Sender<(NodeId, V)>) -> Option<Box<dyn ActivationGuard>> {
        None
    }

    closed spec fn computes(&self, inputs: Seq<Option<V>>, out: Option<V>) -> bool {
        if inputs.len() == 7 && inputs[0] is Some && inputs[1] is Some && inputs[2] is Some && inputs[3] is Some && inputs[4] is Some && inputs[5] is Some && inputs[6] is Some {
            out is Some
        } else {
            out is None
        }
    }

    fn compute(&self, deps: &[NodeId], store: &ValueStore<V>) -> (r: Option<V>) {
        if deps.len() != 7 {
            return None;
        }
        let a0 = match store.get_by_id(&deps[0]) {
            Some(v) => v,
            None => {
                return None;
            },
        };
        let a1 = match store.get_by_id(&deps[1]) {
            Some(v) => v,
            None => {
                return None;
            },
        };
        let a2 = match store.get_by_id(&deps[2]) {
            Some(v) => v,
            None => {
                return None;
            },
        };
        let a3 = match store.get_by_id(&deps[3]) {
            Some(v) => v,
            None => {
                return None;
            },
        };
        let a4 = match store.get_by_id(&deps[4]) {
            Some(v) => v,
            None => {
                return None;
            },
        };
        let a5 = match store.get_by_id(&deps[5]) {
            Some(v) => v,
            None => {
                return None;
            },
        };
        let a6 = match store.get_by_id(&deps[6]) {
            Some(v) => v,
            None => {
                return None;
            },
        };
        Some(self.compute.compute((a0, a1, a2, a3, a4, a5, a6,)))
    }

    fn emit(&self, _deps: &[NodeId], _store: &ValueStore<V>) {
    }

    open spec fn spec_kind(&self) -> NodeKind {
        NodeKind::Compute
    }

    fn kind(&self) -> (r: NodeKind) {
        NodeKind::Compute
    }

    closed spec fn starts(&self, inputs: Seq<Option<V>>, out: Option<W>) -> bool {
        out is None
    }

    fn compute_async(&self, _deps: &[NodeId], _store: &ValueStore<V>) -> (r: Option<W>) {
        None
    }
}

impl<'g, V, W, C: Compute, A, B, Cc, D, E, Ff, G, H> TraitComputeBuilder<'g, V, W, C, (A, B, Cc, D, E, Ff, G, H,)> {
    /// Wire the next dependency.
    pub fn dep(self, node: NodeRef<A>) -> (r: TraitComputeBuilder<'g, V, W, C, (B, Cc, D, E, Ff, G, H,)>)
        ensures
            r.deps_view() == self.deps_view().push(node.id@),
            *r.graph == *old(self.graph),
            r.compute == self.compute,
    {
        let ghost d0 = self.deps_view();
        let mut dep_ids = self.dep_ids;
        dep_ids.push(node.id);
        let r = TraitComputeBuilder { graph: self.graph, compute: self.compute, dep_ids, _remaining: PhantomData };
        assert(r.deps_view() =~= d0.push(node.id@));
        r
    }
}

/// A trait-based compute node with 8 input(s): it computes a value exactly
/// when all of its inputs have one.
#[verifier::reject_recursive_types(V)]
pub struct TraitComputeNode8<V, C> {
    pub compute: C,
    _marker: PhantomData<V>,
}

impl<V: Send + 'static, W: 'static, C: Compute<Inputs = (V, V, V, V, V, V, V, V,), Output = V> + Send + 'static> ComputeDispatch<V, W, C> for (V, V, V, V, V, V, V, V,) {
    type NodeImpl = TraitComputeNode8<V, C>;

    closed spec fn holds(node: TraitComputeNode8<V, C>, compute: C) -> bool {
        node.compute == compute
    }

    fn make_node_impl(compute: C) -> (r: TraitComputeNode8<V, C>) {
        TraitComputeNode8 { compute, _marker: PhantomData }
    }
}

impl<V: Send + 'static, W, C: Compute<Inputs = (V, V, V, V, V, V, V, V,), Output = V> + Send> AnyNodeImpl<V, W> for TraitComputeNode8<V, C> {
    fn async_policy(&self) -> (r: AsyncPolicy) {
        AsyncPolicy::LatestWins
    }

    fn concurrency_group_id(&self) -> (r: Option<usize>) {
        None
    }

    open spec fn gives_guard(&self) -> bool {
        false
    }

    fn activate(&mut self, _id: &NodeId, _tx: &mpsc::Sender<(NodeId, V)>) -> Option<Box<dyn ActivationGuard>> {
        None
    }

    closed spec fn computes(&self, inputs: Seq<Option<V>>, out: Option<V>) -> bool {
        if inputs.len() == 8 && inputs[0] is Some && inputs[1] is Some && inputs[2] is Some && inputs[3] is Some && inputs[4] is Some && inputs[5] is Some && inputs[6] is Some && inputs[7] is Some {
            out is Some
        } else {
            out is None
        }
    }

    fn compute(&self, deps: &[NodeId], store: &ValueStore<V>) -> (r: Option<V>) {
        if deps.len() != 8 {
            return None;
        }
        let a0 = match store.get_by_id(&deps[0]) {
            Some(v) => v,
            None => {
                return None;
            },
        };
        let a1 = match store.get_by_id(&deps[1]) {
            Some(v) => v,
            None => {
                return None;
            },
        };
        let a2 = match store.get_by_id(&deps[2]) {
            Some(v) => v,
            None => {
                return None;
            },
        };
        let a3 = match store.get_by_id(&deps[3]) {
            Some(v) => v,
            None => {
                return None;
            },
        };
        let a4 = match store.get_by_id(&deps[4]) {
            Some(v) => v,
            None => {
                return None;
            },
        };
        let a5 = match store.get_by_id(&deps[5]) {
            Some(v) => v,
            None => {
                return None;
            },
        };
        let a6 = match store.get_by_id(&deps[6]) {
            Some(v) => v,
            None => {
                return None;
            },
        };
        let a7 = match store.get_by_id(&deps[7]) {
            Some(v) => v,
            None => {
                return None;
            },
        };
        Some(self.compute.compute((a0, a1, a2, a3, a4, a5, a6, a7,)))
    }

    fn emit(&self, _deps: &[NodeId], _store: &ValueStore<V>) {
    }

    open spec fn spec_kind(&self) -> NodeKind {
        NodeKind::Compute
    }

    fn kind(&self) -> (r: NodeKind) {
        NodeKind::Compute
    }

    closed spec fn starts(&self, inputs: Seq<Option<V>>, out: Option<W>) -> bool {
        out is None
    }

    fn compute_async(&self, _deps: &[NodeId], _store: &ValueStore<V>) -> (r: Option<W>) {
        None
    }
}

} // verus!
