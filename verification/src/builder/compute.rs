use crate::graph::{added_node, ActivationGuard, AnyNodeImpl, AsyncPolicy, Graph, NodeKind};
use crate::node_ref::{ids_view, NodeId, NodeKey, NodeRef, NodeScope};
use crate::value_store::ValueStore;
use std::marker::PhantomData;
use std::sync::mpsc;
use vstd::prelude::*;

verus! {

/// Builder for closure-based compute nodes.
/// `Deps` accumulates dependency types as a tuple via typestate.
pub struct ComputeBuilder<Out, Deps> {
    pub(crate) key: String,
    pub(crate) dep_ids: Vec<NodeId>,
    pub(crate) _marker: PhantomData<(Out, Deps)>,
}

impl<Out, Deps> ComputeBuilder<Out, Deps> {
    /// The key the node will be registered under.
    pub closed spec fn key_view(&self) -> Seq<char> {
        self.key@
    }

    /// The dependencies wired so far, in order.
    pub closed spec fn deps_view(&self) -> Seq<NodeKey> {
        ids_view(self.dep_ids@)
    }
}

impl<Out> ComputeBuilder<Out, ()> {
    /// Start building a compute node under `key`, with no dependencies yet.
    pub fn new(key: &str) -> (r: Self)
        ensures
            r.key_view() == key@,
            r.deps_view() == Seq::<NodeKey>::empty(),
    {
        let r = ComputeBuilder { key: key.to_string(), dep_ids: Vec::new(), _marker: PhantomData };
        assert(r.deps_view() =~= Seq::<NodeKey>::empty());
        r
    }
}

/// Builder after `.compute()` has been called with the closure.
#[verifier::reject_recursive_types(Out)]
#[verifier::reject_recursive_types(W)]
pub struct ComputeBuilderReady<Out, W> {
    key: String,
    dep_ids: Vec<NodeId>,
    node_impl: Box<dyn AnyNodeImpl<Out, W>>,
}

impl<Out, W> ComputeBuilderReady<Out, W> {
    /// The key the node will be registered under.
    pub closed spec fn key_view(&self) -> Seq<char> {
        self.key@
    }

    /// The dependencies of the node, in order.
    pub closed spec fn deps_view(&self) -> Seq<NodeKey> {
        ids_view(self.dep_ids@)
    }

    /// Consume into key, dependency ids and node implementation.
    pub fn into_parts(self) -> (r: (String, Vec<NodeId>, Box<dyn AnyNodeImpl<Out, W>>))
        ensures
            r.0@ == self.key_view(),
            ids_view(r.1@) == self.deps_view(),
    {
        (self.key, self.dep_ids, self.node_impl)
    }

    /// Finalize and register the compute node in the graph.
    pub fn build(self, graph: &mut Graph<Out, W>) -> (r: NodeRef<Out>)
        requires
            old(graph).wf(),
            old(graph).room_for((NodeScope::ClosureCompute, self.key_view())),
        ensures
            r.id@ == (NodeScope::ClosureCompute, self.key_view()),
            final(graph).wf(),
            added_node(old(graph).nodes(), final(graph).nodes(), r.id@, NodeKind::Compute, self.deps_view()),
            final(graph).values() == old(graph).values(),
    {
        let (key, dep_ids, node_impl) = self.into_parts();
        let id = NodeId::scoped(NodeScope::ClosureCompute, key.as_str());
        let node_ref = NodeRef { id: id.clone(), _marker: PhantomData };
        graph.add_entry(id, NodeKind::Compute, dep_ids, node_impl);
        node_ref
    }
}

/// What a closure of 1 argument(s) may give for `inputs`: its result when
/// there are exactly 1 inputs and all have a value, nothing otherwise.
pub open spec fn closure_computes_1<V, F: Fn(&V) -> V>(f: F, inputs: Seq<Option<V>>, out: Option<V>) -> bool {
    if inputs.len() == 1 && inputs[0] is Some {
        out is Some && call_ensures(f, (&inputs[0]->0,), out->0)
    } else {
        out is None
    }
}

/// Type-erased compute implementation that stores a closure of 1 argument(s).
#[verifier::reject_recursive_types(V)]
pub struct ClosureComputeNode1<V, F: Fn(&V) -> V> {
    compute_fn: F,
    _marker: PhantomData<V>,
}

impl<V, F: Fn(&V) -> V> ClosureComputeNode1<V, F> {
    #[verifier::type_invariant]
    closed spec fn callable(self) -> bool {
        forall|a0: &V| call_requires(self.compute_fn, (a0,))
    }
}

impl<V: Send, W, F: Fn(&V) -> V + Send> AnyNodeImpl<V, W> for ClosureComputeNode1<V, F> {
    fn async_policy(&self) -> (r: AsyncPolicy) {
        AsyncPolicy::LatestWins
    }

    fn concurrency_group_id(&self) -> (r: Option<usize>) {
        None
    }

    open spec fn gives_guard(&self) -> bool {
        false
    }

    fn activate(&mut self, _id: &NodeId, _tx: &mpsc::Sender<(NodeId, V)>) -> Option<Box<dyn ActivationGuard>> {
        None
    }

    closed spec fn computes(&self, inputs: Seq<Option<V>>, out: Option<V>) -> bool {
        closure_computes_1(self.compute_fn, inputs, out)
    }

    fn compute(&self, deps: &[NodeId], store: &ValueStore<V>) -> (r: Option<V>) {
        proof {
            use_type_invariant(self);
        }
        if deps.len() != 1 {
            return None;
        }
        let a0 = match store.get_by_id(&deps[0]) {
            Some(v) => v,
            None => {
                return None;
            },
        };
        Some((self.compute_fn)(a0))
    }

    fn emit(&self, _deps: &[NodeId], _store: &ValueStore<V>) {
    }

    open spec fn spec_kind(&self) -> NodeKind {
        NodeKind::Compute
    }

    fn kind(&self) -> (r: NodeKind) {
        NodeKind::Compute
    }

    closed spec fn starts(&self, inputs: Seq<Option<V>>, out: Option<W>) -> bool {
        out is None
    }

    fn compute_async(&self, _deps: &[NodeId], _store: &ValueStore<V>) -> (r: Option<W>) {
        None
    }
}

/// What a closure of 2 argument(s) may give for `inputs`: its result when
/// there are exactly 2 inputs and all have a value, nothing otherwise.
pub open spec fn closure_computes_2<V, F: Fn(&V, &V) -> V>(f: F, inputs: Seq<Option<V>>, out: Option<V>) -> bool {
    if inputs.len() == 2 && inputs[0] is Some && inputs[1] is Some {
        out is Some && call_ensures(f, (&inputs[0]->0, &inputs[1]->0,), out->0)
    } else {
        out is None
    }
}

/// Type-erased compute implementation that stores a closure of 2 argument(s).
#[verifier::reject_recursive_types(V)]
pub struct ClosureComputeNode2<V, F: Fn(&V, &V) -> V> {
    compute_fn: F,
    _marker: PhantomData<V>,
}

impl<V, F: Fn(&V, &V) -> V> ClosureComputeNode2<V, F> {
    #[verifier::type_invariant]
    closed spec fn callable(self) -> bool {
        forall|a0: &V, a1: &V| call_requires(self.compute_fn, (a0, a1,))
    }
}

impl<V: Send, W, F: Fn(&V, &V) -> V + Send> AnyNodeImpl<V, W> for ClosureComputeNode2<V, F> {
    fn async_policy(&self) -> (r: AsyncPolicy) {
        AsyncPolicy::LatestWins
    }

    fn concurrency_group_id(&self) -> (r: Option<usize>) {
        None
    }

    open spec fn gives_guard(&self) -> bool {
        false
    }

    fn activate(&mut self, _id: &NodeId, _tx: &mpsc::Sender<(NodeId, V)>) -> Option<Box<dyn ActivationGuard>> {
        None
    }

    closed spec fn computes(&self, inputs: Seq<Option<V>>, out: Option<V>) -> bool {
        closure_computes_2(self.compute_fn, inputs, out)
    }

    fn compute(&self, deps: &[NodeId], store: &ValueStore<V>) -> (r: Option<V>) {
        proof {
            use_type_invariant(self);
        }
        if deps.len() != 2 {
            return None;
        }
        let a0 = match store.get_by_id(&deps[0]) {
            Some(v) => v,
            None => {
                return None;
            },
        };
        let a1 = match store.get_by_id(&deps[1]) {
            Some(v) => v,
            None => {
                return None;
            },
        };
        Some((self.compute_fn)(a0, a1))
    }

    fn emit(&self, _deps: &[NodeId], _store: &ValueStore<V>) {
    }

    open spec fn spec_kind(&self) -> NodeKind {
        NodeKind::Compute
    }

    fn kind(&self) -> (r: NodeKind) {
        NodeKind::Compute
    }

    closed spec fn starts(&self, inputs: Seq<Option<V>>, out: Option<W>) -> bool {
        out is None
    }

    fn compute_async(&self, _deps: &[NodeId], _store: &ValueStore<V>) -> (r: Option<W>) {
        None
    }
}

/// What a closure of 3 argument(s) may give for `inputs`: its result when
/// there are exactly 3 inputs and all have a value, nothing otherwise.
pub open spec fn closure_computes_3<V, F: Fn(&V, &V, &V) -> V>(f: F, inputs: Seq<Option<V>>, out: Option<V>) -> bool {
    if inputs.len() == 3 && inputs[0] is Some && inputs[1] is Some && inputs[2] is Some {
        out is Some && call_ensures(f, (&inputs[0]->0, &inputs[1]->0, &inputs[2]->0,), out->0)
    } else {
        out is None
    }
}

/// Type-erased compute implementation that stores a closure of 3 argument(s).
#[verifier::reject_recursive_types(V)]
pub struct ClosureComputeNode3<V, F: Fn(&V, &V, &V) -> V> {
    compute_fn: F,
    _marker: PhantomData<V>,
}

impl<V, F: Fn(&V, &V, &V) -> V> ClosureComputeNode3<V, F> {
    #[verifier::type_invariant]
    closed spec fn callable(self) -> bool {
        forall|a0: &V, a1: &V, a2: &V| call_requires(self.compute_fn, (a0, a1, a2,))
    }
}

impl<V: Send, W, F: Fn(&V, &V, &V) -> V + Send> AnyNodeImpl<V, W> for ClosureComputeNode3<V, F> {
    fn async_policy(&self) -> (r: AsyncPolicy) {
        AsyncPolicy::LatestWins
    }

    fn concurrency_group_id(&self) -> (r: Option<usize>) {
        None
    }

    open spec fn gives_guard(&self) -> bool {
        false
    }

    fn activate(&mut self, _id: &NodeId, _tx: &mpsc::Sender<(NodeId, V)>) -> Option<Box<dyn ActivationGuard>> {
        None
    }

    closed spec fn computes(&self, inputs: Seq<Option<V>>, out: Option<V>) -> bool {
        closure_computes_3(self.compute_fn, inputs, out)
    }

    fn compute(&self, deps: &[NodeId], store: &ValueStore<V>) -> (r: Option<V>) {
        proof {
            use_type_invariant(self);
        }
        if deps.len() != 3 {
            return None;
        }
        let a0 = match store.get_by_id(&deps[0]) {
            Some(v) => v,
            None => {
                return None;
            },
        };
        let a1 = match store.get_by_id(&deps[1]) {
            Some(v) => v,
            None => {
                return None;
            },
        };
        let a2 = match store.get_by_id(&deps[2]) {
            Some(v) => v,
            None => {
                return None;
            },
        };
        Some((self.compute_fn)(a0, a1, a2))
    }

    fn emit(&self, _deps: &[NodeId], _store: &ValueStore<V>) {
    }

    open spec fn spec_kind(&self) -> NodeKind {
        NodeKind::Compute
    }

    fn kind(&self) -> (r: NodeKind) {
        NodeKind::Compute
    }

    closed spec fn starts(&self, inputs: Seq<Option<V>>, out: Option<W>) -> bool {
        out is None
    }

    fn compute_async(&self, _deps: &[NodeId], _store: &ValueStore<V>) -> (r: Option<W>) {
        None
    }
}

/// What a closure of 4 argument(s) may give for `inputs`: its result when
/// there are exactly 4 inputs and all have a value, nothing otherwise.
pub open spec fn closure_computes_4<V, F: Fn(&V, &V, &V, &V) -> V>(f: F, inputs: Seq<Option<V>>, out: Option<V>) -> bool {
    if inputs.len() == 4 && inputs[0] is Some && inputs[1] is Some && inputs[2] is Some && inputs[3] is Some {
        out is Some && call_ensures(f, (&inputs[0]->0, &inputs[1]->0, &inputs[2]->0, &inputs[3]->0,), out->0)
    } else {
        out is None
    }
}

/// Type-erased compute implementation that stores a closure of 4 argument(s).
#[verifier::reject_recursive_types(V)]
pub struct ClosureComputeNode4<V, F: Fn(&V, &V, &V, &V) -> V> {
    compute_fn: F,
    _marker: PhantomData<V>,
}

impl<V, F: Fn(&V, &V, &V, &V) -> V> ClosureComputeNode4<V, F> {
    #[verifier::type_invariant]
    closed spec fn callable(self) -> bool {
        forall|a0: &V, a1: &V, a2: &V, a3: &V| call_requires(self.compute_fn, (a0, a1, a2, a3,))
    }
}

impl<V: Send, W, F: Fn(&V, &V, &V, &V) -> V + Send> AnyNodeImpl<V, W> for ClosureComputeNode4<V, F> {
    fn async_policy(&self) -> (r: AsyncPolicy) {
        AsyncPolicy::LatestWins
    }

    fn concurrency_group_id(&self) -> (r: Option<usize>) {
        None
    }

    open spec fn gives_guard(&self) -> bool {
        false
    }

    fn activate(&mut self, _id: &NodeId, _tx: &mpsc::Sender<(NodeId, V)>) -> Option<Box<dyn ActivationGuard>> {
        None
    }

    closed spec fn computes(&self, inputs: Seq<Option<V>>, out: Option<V>) -> bool {
        closure_computes_4(self.compute_fn, inputs, out)
    }

    fn compute(&self, deps: &[NodeId], store: &ValueStore<V>) -> (r: Option<V>) {
        proof {
            use_type_invariant(self);
        }
        if deps.len() != 4 {
            return None;
        }
        let a0 = match store.get_by_id(&deps[0]) {
            Some(v) => v,
            None => {
                return None;
            },
        };
        let a1 = match store.get_by_id(&deps[1]) {
            Some(v) => v,
            None => {
                return None;
            },
        };
        let a2 = match store.get_by_id(&deps[2]) {
            Some(v) => v,
            None => {
                return None;
            },
        };
        let a3 = match store.get_by_id(&deps[3]) {
            Some(v) => v,
            None => {
                return None;
            },
        };
        Some((self.compute_fn)(a0, a1, a2, a3))
    }

    fn emit(&self, _deps: &[NodeId], _store: &ValueStore<V>) {
    }

    open spec fn spec_kind(&self) -> NodeKind {
        NodeKind::Compute
    }

    fn kind(&self) -> (r: NodeKind) {
        NodeKind::Compute
    }

    closed spec fn starts(&self, inputs: Seq<Option<V>>, out: Option<W>) -> bool {
        out is None
    }

    fn compute_async(&self, _deps: &[NodeId], _store: &ValueStore<V>) -> (r: Option<W>) {
        None
    }
}

/// What a closure of 5 argument(s) may give for `inputs`: its result when
/// there are exactly 5 inputs and all have a value, nothing otherwise.
pub open spec fn closure_computes_5<V, F: Fn(&V, &V, &V, &V, &V) -> V>(f: F, inputs: Seq<Option<V>>, out: Option<V>) -> bool {
    if inputs.len() == 5 && inputs[0] is Some && inputs[1] is Some && inputs[2] is Some && inputs[3] is Some && inputs[4] is Some {
        out is Some && call_ensures(f, (&inputs[0]->0, &inputs[1]->0, &inputs[2]->0, &inputs[3]->0, &inputs[4]->0,), out->0)
    } else {
        out is None
    }
}

/// Type-erased compute implementation that stores a closure of 5 argument(s).
#[verifier::reject_recursive_types(V)]
pub struct ClosureComputeNode5<V, F: Fn(&V, &V, &V, &V, &V) -> V> {
    compute_fn: F,
    _marker: PhantomData<V>,
}

impl<V, F: Fn(&V, &V, &V, &V, &V) -> V> ClosureComputeNode5<V, F> {
    #[verifier::type_invariant]
    closed spec fn callable(self) -> bool {
        forall|a0: &V, a1: &V, a2: &V, a3: &V, a4: &V| call_requires(self.compute_fn, (a0, a1, a2, a3, a4,))
    }
}

impl<V: Send, W, F: Fn(&V, &V, &V, &V, &V) -> V + Send> AnyNodeImpl<V, W> for ClosureComputeNode5<V, F> {
    fn async_policy(&self) -> (r: AsyncPolicy) {
        AsyncPolicy::LatestWins
    }

    fn concurrency_group_id(&self) -> (r: Option<usize>) {
        None
    }

    open spec fn gives_guard(&self) -> bool {
        false
    }

    fn activate(&mut self, _id: &NodeId, _tx: &mpsc::Sender<(NodeId, V)>) -> Option<Box<dyn ActivationGuard>> {
        None
    }

    closed spec fn computes(&self, inputs: Seq<Option<V>>, out: Option<V>) -> bool {
        closure_computes_5(self.compute_fn, inputs, out)
    }

    fn compute(&self, deps: &[NodeId], store: &ValueStore<V>) -> (r: Option<V>) {
        proof {
            use_type_invariant(self);
        }
        if deps.len() != 5 {
            return None;
        }
        let a0 = match store.get_by_id(&deps[0]) {
            Some(v) => v,
            None => {
                return None;
            },
        };
        let a1 = match store.get_by_id(&deps[1]) {
            Some(v) => v,
            None => {
                return None;
            },
        };
        let a2 = match store.get_by_id(&deps[2]) {
            Some(v) => v,
            None => {
                return None;
            },
        };
        let a3 = match store.get_by_id(&deps[3]) {
            Some(v) => v,
            None => {
                return None;
            },
        };
        let a4 = match store.get_by_id(&deps[4]) {
            Some(v) => v,
            None => {
                return None;
            },
        };
        Some((self.compute_fn)(a0, a1, a2, a3, a4))
    }

    fn emit(&self, _deps: &[NodeId], _store: &ValueStore<V>) {
    }

    open spec fn spec_kind(&self) -> NodeKind {
        NodeKind::Compute
    }

    fn kind(&self) -> (r: NodeKind) {
        NodeKind::Compute
    }

    closed spec fn starts(&self, inputs: Seq<Option<V>>, out: Option<W>) -> bool {
        out is None
    }

    fn compute_async(&self, _deps: &[NodeId], _store: &ValueStore<V>) -> (r: Option<W>) {
        None
    }
}

/// What a closure of 6 argument(s) may give for `inputs`: its result when
/// there are exactly 6 inputs and all have a value, nothing otherwise.
pub open spec fn closure_computes_6<V, F: Fn(&V, &V, &V, &V, &V, &V) -> V>(f: F, inputs: Seq<Option<V>>, out: Option<V>) -> bool {
    if inputs.len() == 6 && inputs[0] is Some && inputs[1] is Some && inputs[2] is Some && inputs[3] is Some && inputs[4] is Some && inputs[5] is Some {
        out is Some && call_ensures(f, (&inputs[0]->0, &inputs[1]->0, &inputs[2]->0, &inputs[3]->0, &inputs[4]->0, &inputs[5]->0,), out->0)
    } else {
        out is None
    }
}

/// Type-erased compute implementation that stores a closure of 6 argument(s).
#[verifier::reject_recursive_types(V)]
pub struct ClosureComputeNode6<V, F: Fn(&V, &V, &V, &V, &V, &V) -> V> {
    compute_fn: F,
    _marker: PhantomData<V>,
}

impl<V, F: Fn(&V, &V, &V, &V, &V, &V) -> V> ClosureComputeNode6<V, F> {
    #[verifier::type_invariant]
    closed spec fn callable(self) -> bool {
        forall|a0: &V, a1: &V, a2: &V, a3: &V, a4: &V, a5: &V| call_requires(self.compute_fn, (a0, a1, a2, a3, a4, a5,))
    }
}

impl<V: Send, W, F: Fn(&V, &V, &V, &V, &V, &V) -> V + Send> AnyNodeImpl<V, W> for ClosureComputeNode6<V, F> {
    fn async_policy(&self) -> (r: AsyncPolicy) {
        AsyncPolicy::LatestWins
    }

    fn concurrency_group_id(&self) -> (r: Option<usize>) {
        None
    }

    open spec fn gives_guard(&self) -> bool {
        false
    }

    fn activate(&mut self, _id: &NodeId, _tx: &mpsc::Sender<(NodeId, V)>) -> Option<Box<dyn ActivationGuard>> {
        None
    }

    closed spec fn computes(&self, inputs: Seq<Option<V>>, out: Option<V>) -> bool {
        closure_computes_6(self.compute_fn, inputs, out)
    }

    fn compute(&self, deps: &[NodeId], store: &ValueStore<V>) -> (r: Option<V>) {
        proof {
            use_type_invariant(self);
        }
        if deps.len() != 6 {
            return None;
        }
        let a0 = match store.get_by_id(&deps[0]) {
            Some(v) => v,
            None => {
                return None;
            },
        };
        let a1 = match store.get_by_id(&deps[1]) {
            Some(v) => v,
            None => {
                return None;
            },
        };
        let a2 = match store.get_by_id(&deps[2]) {
            Some(v) => v,
            None => {
                return None;
            },
        };
        let a3 = match store.get_by_id(&deps[3]) {
            Some(v) => v,
            None => {
                return None;
            },
        };
        let a4 = match store.get_by_id(&deps[4]) {
            Some(v) => v,
            None => {
                return None;
            },
        };
        let a5 = match store.get_by_id(&deps[5]) {
            Some(v) => v,
            None => {
                return None;
            },
        };
        Some((self.compute_fn)(a0, a1, a2, a3, a4, a5))
    }

    fn emit(&self, _deps: &[NodeId], _store: &ValueStore<V>) {
    }

    open spec fn spec_kind(&self) -> NodeKind {
        NodeKind::Compute
    }

    fn kind(&self) -> (r: NodeKind) {
        NodeKind::Compute
    }

    closed spec fn starts(&self, inputs: Seq<Option<V>>, out: Option<W>) -> bool {
        out is None
    }

    fn compute_async(&self, _deps: &[NodeId], _store: &ValueStore<V>) -> (r: Option<W>) {
        None
    }
}

/// What a closure of 7 argument(s) may give for `inputs`: its result when
/// there are exactly 7 inputs and all have a value, nothing otherwise.
pub open spec fn closure_computes_7<V, F: Fn(&V, &V, &V, &V, &V, &V, &V) -> V>(f: F, inputs: Seq<Option<V>>, out: Option<V>) -> bool {
    if inputs.len() == 7 && inputs[0] is Some && inputs[1] is Some && inputs[2] is Some && inputs[3] is Some && inputs[4] is Some && inputs[5] is Some && inputs[6] is Some {
        out is Some && call_ensures(f, (&inputs[0]->0, &inputs[1]->0, &inputs[2]->0, &inputs[3]->0, &inputs[4]->0, &inputs[5]->0, &inputs[6]->0,), out->0)
    } else {
        out is None
    }
}

/// Type-erased compute implementation that stores a closure of 7 argument(s).
#[verifier::reject_recursive_types(V)]
pub struct ClosureComputeNode7<V, F: Fn(&V, &V, &V, &V, &V, &V, &V) -> V> {
    compute_fn: F,
    _marker: PhantomData<V>,
}

impl<V, F: Fn(&V, &V, &V, &V, &V, &V, &V) -> V> ClosureComputeNode7<V, F> {
    #[verifier::type_invariant]
    closed spec fn callable(self) -> bool {
        forall|a0: &V, a1: &V, a2: &V, a3: &V, a4: &V, a5: &V, a6: &V| call_requires(self.compute_fn, (a0, a1, a2, a3, a4, a5, a6,))
    }
}

impl<V: Send, W, F: Fn(&V, &V, &V, &V, &V, &V, &V) -> V + Send> AnyNodeImpl<V, W> for ClosureComputeNode7<V, F> {
    fn async_policy(&self) -> (r: AsyncPolicy) {
        AsyncPolicy::LatestWins
    }

    fn concurrency_group_id(&self) -> (r: Option<usize>) {
        None
    }

    open spec fn gives_guard(&self) -> bool {
        false
    }

    fn activate(&mut self, _id: &NodeId, _tx: &mpsc::Sender<(NodeId, V)>) -> Option<Box<dyn ActivationGuard>> {
        None
    }

    closed spec fn computes(&self, inputs: Seq<Option<V>>, out: Option<V>) -> bool {
        closure_computes_7(self.compute_fn, inputs, out)
    }

    fn compute(&self, deps: &[NodeId], store: &ValueStore<V>) -> (r: Option<V>) {
        proof {
            use_type_invariant(self);
        }
        if deps.len() != 7 {
            return None;
        }
        let a0 = match store.get_by_id(&deps[0]) {
            Some(v) => v,
            None => {
                return None;
            },
        };
        let a1 = match store.get_by_id(&deps[1]) {
            Some(v) => v,
            None => {
                return None;
            },
        };
        let a2 = match store.get_by_id(&deps[2]) {
            Some(v) => v,
            None => {
                return None;
            },
        };
        let a3 = match store.get_by_id(&deps[3]) {
            Some(v) => v,
            None => {
                return None;
            },
        };
        let a4 = match store.get_by_id(&deps[4]) {
            Some(v) => v,
            None => {
                return None;
            },
        };
        let a5 = match store.get_by_id(&deps[5]) {
            Some(v) => v,
            None => {
                return None;
            },
        };
        let a6 = match store.get_by_id(&deps[6]) {
            Some(v) => v,
            None => {
                return None;
            },
        };
        Some((self.compute_fn)(a0, a1, a2, a3, a4, a5, a6))
    }

    fn emit(&self, _deps: &[NodeId], _store: &ValueStore<V>) {
    }

    open spec fn spec_kind(&self) -> NodeKind {
        NodeKind::Compute
    }

    fn kind(&self) -> (r: NodeKind) {
        NodeKind::Compute
    }

    closed spec fn starts(&self, inputs: Seq<Option<V>>, out: Option<W>) -> bool {
        out is None
    }

    fn compute_async(&self, _deps: &[NodeId], _store: &ValueStore<V>) -> (r: Option<W>) {
        None
    }
}

/// What a closure of 8 argument(s) may give for `inputs`: its result when
/// there are exactly 8 inputs and all have a value, nothing otherwise.
pub open spec fn closure_computes_8<V, F: Fn(&V, &V, &V, &V, &V, &V, &V, &V) -> V>(f: F, inputs: Seq<Option<V>>, out: Option<V>) -> bool {
    if inputs.len() == 8 && inputs[0] is Some && inputs[1] is Some && inputs[2] is Some && inputs[3] is Some && inputs[4] is Some && inputs[5] is Some && inputs[6] is Some && inputs[7] is Some {
        out is Some && call_ensures(f, (&inputs[0]->0, &inputs[1]->0, &inputs[2]->0, &inputs[3]->0, &inputs[4]->0, &inputs[5]->0, &inputs[6]->0, &inputs[7]->0,), out->0)
    } else {
        out is None
    }
}

/// Type-erased compute implementation that stores a closure of 8 argument(s).
#[verifier::reject_recursive_types(V)]
pub struct ClosureComputeNode8<V, F: Fn(&V, &V, &V, &V, &V, &V, &V, &V) -> V> {
    compute_fn: F,
    _marker: PhantomData<V>,
}

impl<V, F: Fn(&V, &V, &V, &V, &V, &V, &V, &V) -> V> ClosureComputeNode8<V, F> {
    #[verifier::type_invariant]
    closed spec fn callable(self) -> bool {
        forall|a0: &V, a1: &V, a2: &V, a3: &V, a4: &V, a5: &V, a6: &V, a7: &V| call_requires(self.compute_fn, (a0, a1, a2, a3, a4, a5, a6, a7,))
    }
}

impl<V: Send, W, F: Fn(&V, &V, &V, &V, &V, &V, &V, &V) -> V + Send> AnyNodeImpl<V, W> for ClosureComputeNode8<V, F> {
    fn async_policy(&self) -> (r: AsyncPolicy) {
        AsyncPolicy::LatestWins
    }

    fn concurrency_group_id(&self) -> (r: Option<usize>) {
        None
    }

    open spec fn gives_guard(&self) -> bool {
        false
    }

    fn activate(&mut self, _id: &NodeId, _tx: &mpsc::Sender<(NodeId, V)>) -> Option<Box<dyn ActivationGuard>> {
        None
    }

    closed spec fn computes(&self, inputs: Seq<Option<V>>, out: Option<V>) -> bool {
        closure_computes_8(self.compute_fn, inputs, out)
    }

    fn compute(&self, deps: &[NodeId], store: &ValueStore<V>) -> (r: Option<V>) {
        proof {
            use_type_invariant(self);
        }
        if deps.len() != 8 {
            return None;
        }
        let a0 = match store.get_by_id(&deps[0]) {
            Some(v) => v,
            None => {
                return None;
            },
        };
        let a1 = match store.get_by_id(&deps[1]) {
            Some(v) => v,
            None => {
                return None;
            },
        };
        let a2 = match store.get_by_id(&deps[2]) {
            Some(v) => v,
            None => {
                return None;
            },
        };
        let a3 = match store.get_by_id(&deps[3]) {
            Some(v) => v,
            None => {
                return None;
            },
        };
        let a4 = match store.get_by_id(&deps[4]) {
            Some(v) => v,
            None => {
                return None;
            },
        };
        let a5 = match store.get_by_id(&deps[5]) {
            Some(v) => v,
            None => {
                return None;
            },
        };
        let a6 = match store.get_by_id(&deps[6]) {
            Some(v) => v,
            None => {
                return None;
            },
        };
        let a7 = match store.get_by_id(&deps[7]) {
            Some(v) => v,
            None => {
                return None;
            },
        };
        Some((self.compute_fn)(a0, a1, a2, a3, a4, a5, a6, a7))
    }

    fn emit(&self, _deps: &[NodeId], _store: &ValueStore<V>) {
    }

    open spec fn spec_kind(&self) -> NodeKind {
        NodeKind::Compute
    }

    fn kind(&self) -> (r: NodeKind) {
        NodeKind::Compute
    }

    closed spec fn starts(&self, inputs: Seq<Option<V>>, out: Option<W>) -> bool {
        out is None
    }

    fn compute_async(&self, _deps: &[NodeId], _store: &ValueStore<V>) -> (r: Option<W>) {
        None
    }
}

impl<Out> ComputeBuilder<Out, ()> {
    /// Wire the first dependency.
    pub fn dep<A>(self, node: NodeRef<A>) -> (r: ComputeBuilder<Out, (A,)>)
        ensures
            r.key_view() == self.key_view(),
            r.deps_view() == self.deps_view().push(node.id@),
    {
        let mut dep_ids = self.dep_ids;
        dep_ids.push(node.id);
        let r = ComputeBuilder { key: self.key, dep_ids, _marker: PhantomData };
        assert(r.deps_view() =~= self.deps_view().push(node.id@));
        r
    }
}

impl<Out: Send + 'static, A> ComputeBuilder<Out, (A,)> {
    /// Wire the next dependency.
    pub fn dep<Z>(self, node: NodeRef<Z>) -> (r: ComputeBuilder<Out, (A, Z)>)
        ensures
            r.key_view() == self.key_view(),
            r.deps_view() == self.deps_view().push(node.id@),
    {
        let mut dep_ids = self.dep_ids;
        dep_ids.push(node.id);
        let r = ComputeBuilder { key: self.key, dep_ids, _marker: PhantomData };
        assert(r.deps_view() =~= self.deps_view().push(node.id@));
        r
    }

    /// Give the closure that computes the node from its dependencies' values.
    pub fn compute<W: 'static, F: Fn(&Out) -> Out + Send + 'static>(self, f: F) -> (r: ComputeBuilderReady<Out, W>)
        requires
            forall|a0: &Out| call_requires(f, (a0,)),
        ensures
            r.key_view() == self.key_view(),
            r.deps_view() == self.deps_view(),
    {
        let node = ClosureComputeNode1 { compute_fn: f, _marker: PhantomData };
        ComputeBuilderReady { key: self.key, dep_ids: self.dep_ids, node_impl: Box::new(node) }
    }
}

impl<Out: Send + 'static, A, B> ComputeBuilder<Out, (A, B,)> {
    /// Wire the next dependency.
    pub fn dep<Z>(self, node: NodeRef<Z>) -> (r: ComputeBuilder<Out, (A, B, Z)>)
        ensures
            r.key_view() == self.key_view(),
            r.deps_view() == self.deps_view().push(node.id@),
    {
        let mut dep_ids = self.dep_ids;
        dep_ids.push(node.id);
        let r = ComputeBuilder { key: self.key, dep_ids, _marker: PhantomData };
        assert(r.deps_view() =~= self.deps_view().push(node.id@));
        r
    }

    /// Give the closure that computes the node from its dependencies' values.
    pub fn compute<W: 'static, F: Fn(&Out, &Out) -> Out + Send + 'static>(self, f: F) -> (r: ComputeBuilderReady<Out, W>)
        requires
            forall|a0: &Out, a1: &Out| call_requires(f, (a0, a1,)),
        ensures
            r.key_view() == self.key_view(),
            r.deps_view() == self.deps_view(),
    {
        let node = ClosureComputeNode2 { compute_fn: f, _marker: PhantomData };
        ComputeBuilderReady { key: self.key, dep_ids: self.dep_ids, node_impl: Box::new(node) }
    }
}

impl<Out: Send + 'static, A, B, Cc> ComputeBuilder<Out, (A, B, Cc,)> {
    /// Wire the next dependency.
    pub fn dep<Z>(self, node: NodeRef<Z>) -> (r: ComputeBuilder<Out, (A, B, Cc, Z)>)
        ensures
            r.key_view() == self.key_view(),
            r.deps_view() == self.deps_view().push(node.id@),
    {
        let mut dep_ids = self.dep_ids;
        dep_ids.push(node.id);
        let r = ComputeBuilder { key: self.key, dep_ids, _marker: PhantomData };
        assert(r.deps_view() =~= self.deps_view().push(node.id@));
        r
    }

    /// Give the closure that computes the node from its dependencies' values.
    pub fn compute<W: 'static, F: Fn(&Out, &Out, &Out) -> Out + Send + 'static>(self, f: F) -> (r: ComputeBuilderReady<Out, W>)
        requires
            forall|a0: &Out, a1: &Out, a2: &Out| call_requires(f, (a0, a1, a2,)),
        ensures
            r.key_view() == self.key_view(),
            r.deps_view() == self.deps_view(),
    {
        let node = ClosureComputeNode3 { compute_fn: f, _marker: PhantomData };
        ComputeBuilderReady { key: self.key, dep_ids: self.dep_ids, node_impl: Box::new(node) }
    }
}

impl<Out: Send + 'static, A, B, Cc, D> ComputeBuilder<Out, (A, B, Cc, D,)> {
    /// Wire the next dependency.
    pub fn dep<Z>(self, node: NodeRef<Z>) -> (r: ComputeBuilder<Out, (A, B, Cc, D, Z)>)
        ensures
            r.key_view() == self.key_view(),
            r.deps_view() == self.deps_view().push(node.id@),
    {
        let mut dep_ids = self.dep_ids;
        dep_ids.push(node.id);
        let r = ComputeBuilder { key: self.key, dep_ids, _marker: PhantomData };
        assert(r.deps_view() =~= self.deps_view().push(node.id@));
        r
    }

    /// Give the closure that computes the node from its dependencies' values.
    pub fn compute<W: 'static, F: Fn(&Out, &Out, &Out, &Out) -> Out + Send + 'static>(self, f: F) -> (r: ComputeBuilderReady<Out, W>)
        requires
            forall|a0: &Out, a1: &Out, a2: &Out, a3: &Out| call_requires(f, (a0, a1, a2, a3,)),
        ensures
            r.key_view() == self.key_view(),
            r.deps_view() == self.deps_view(),
    {
        let node = ClosureComputeNode4 { compute_fn: f, _marker: PhantomData };
        ComputeBuilderReady { key: self.key, dep_ids: self.dep_ids, node_impl: Box::new(node) }
    }
}

impl<Out: Send + 'static, A, B, Cc, D, E> ComputeBuilder<Out, (A, B, Cc, D, E,)> {
    /// Wire the next dependency.
    pub fn dep<Z>(self, node: NodeRef<Z>) -> (r: ComputeBuilder<Out, (A, B, Cc, D, E, Z)>)
        ensures
            r.key_view() == self.key_view(),
            r.deps_view() == self.deps_view().push(node.id@),
    {
        let mut dep_ids = self.dep_ids;
        dep_ids.push(node.id);
        let r = ComputeBuilder { key: self.key, dep_ids, _marker: PhantomData };
        assert(r.deps_view() =~= self.deps_view().push(node.id@));
        r
    }

    /// Give the closure that computes the node from its dependencies' values.
    pub fn compute<W: 'static, F: Fn(&Out, &Out, &Out, &Out, &Out) -> Out + Send + 'static>(self, f: F) -> (r: ComputeBuilderReady<Out, W>)
        requires
            forall|a0: &Out, a1: &Out, a2: &Out, a3: &Out, a4: &Out| call_requires(f, (a0, a1, a2, a3, a4,)),
        ensures
            r.key_view() == self.key_view(),
            r.deps_view() == self.deps_view(),
    {
        let node = ClosureComputeNode5 { compute_fn: f, _marker: PhantomData };
        ComputeBuilderReady { key: self.key, dep_ids: self.dep_ids, node_impl: Box::new(node) }
    }
}

impl<Out: Send + 'static, A, B, Cc, D, E, Ff> ComputeBuilder<Out, (A, B, Cc, D, E, Ff,)> {
    /// Wire the next dependency.
    pub fn dep<Z>(self, node: NodeRef<Z>) -> (r: ComputeBuilder<Out, (A, B, Cc, D, E, Ff, Z)>)
        ensures
            r.key_view() == self.key_view(),
            r.deps_view() == self.deps_view().push(node.id@),
    {
        let mut dep_ids = self.dep_ids;
        dep_ids.push(node.id);
        let r = ComputeBuilder { key: self.key, dep_ids, _marker: PhantomData };
        assert(r.deps_view() =~= self.deps_view().push(node.id@));
        r
    }

    /// Give the closure that computes the node from its dependencies' values.
    pub fn compute<W: 'static, F: Fn(&Out, &Out, &Out, &Out, &Out, &Out) -> Out + Send + 'static>(self, f: F) -> (r: ComputeBuilderReady<Out, W>)
        requires
            forall|a0: &Out, a1: &Out, a2: &Out, a3: &Out, a4: &Out, a5: &Out| call_requires(f, (a0, a1, a2, a3, a4, a5,)),
        ensures
            r.key_view() == self.key_view(),
            r.deps_view() == self.deps_view(),
    {
        let node = ClosureComputeNode6 { compute_fn: f, _marker: PhantomData };
        ComputeBuilderReady { key: self.key, dep_ids: self.dep_ids, node_impl: Box::new(node) }
    }
}

impl<Out: Send + 'static, A, B, Cc, D, E, Ff, G> ComputeBuilder<Out, (A, B, Cc, D, E, Ff, G,)> {
    /// Wire the next dependency.
    pub fn dep<Z>(self, node: NodeRef<Z>) -> (r: ComputeBuilder<Out, (A, B, Cc, D, E, Ff, G, Z)>)
        ensures
            r.key_view() == self.key_view(),
            r.deps_view() == self.deps_view().push(node.id@),
    {
        let mut dep_ids = self.dep_ids;
        dep_ids.push(node.id);
        let r = ComputeBuilder { key: self.key, dep_ids, _marker: PhantomData };
        assert(r.deps_view() =~= self.deps_view().push(node.id@));
        r
    }

    /// Give the closure that computes the node from its dependencies' values.
    pub fn compute<W: 'static, F: Fn(&Out, &Out, &Out, &Out, &Out, &Out, &Out) -> Out + Send + 'static>(self, f: F) -> (r: ComputeBuilderReady<Out, W>)
        requires
            forall|a0: &Out, a1: &Out, a2: &Out, a3: &Out, a4: &Out, a5: &Out, a6: &Out| call_requires(f, (a0, a1, a2, a3, a4, a5, a6,)),
        ensures
            r.key_view() == self.key_view(),
            r.deps_view() == self.deps_view(),
    {
        let node = ClosureComputeNode7 { compute_fn: f, _marker: PhantomData };
        ComputeBuilderReady { key: self.key, dep_ids: self.dep_ids, node_impl: Box::new(node) }
    }
}

impl<Out: Send + 'static, A, B, Cc, D, E, Ff, G, H> ComputeBuilder<Out, (A, B, Cc, D, E, Ff, G, H,)> {
    /// Give the closure that computes the node from its dependencies' values.
    pub fn compute<W: 'static, F: Fn(&Out, &Out, &Out, &Out, &Out, &Out, &Out, &Out) -> Out + Send + 'static>(self, f: F) -> (r: ComputeBuilderReady<Out, W>)
        requires
            forall|a0: &Out, a1: &Out, a2: &Out, a3: &Out, a4: &Out, a5: &Out, a6: &Out, a7: &Out| call_requires(f, (a0, a1, a2, a3, a4, a5, a6, a7,)),
        ensures
            r.key_view() == self.key_view(),
            r.deps_view() == self.deps_view(),
    {
        let node = ClosureComputeNode8 { compute_fn: f, _marker: PhantomData };
        ComputeBuilderReady { key: self.key, dep_ids: self.dep_ids, node_impl: Box::new(node) }
    }
}

} // verus!
