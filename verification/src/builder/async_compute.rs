use crate::async_compute::ConcurrencyGroupHandle;
use crate::graph::{added_node, ActivationGuard, AnyNodeImpl, AsyncPolicy, Graph, NodeEntry, NodeKind};
use crate::node::{AsyncCompute, Node};
use crate::node_ref::{ids_view, NodeId, NodeKey, NodeRef, NodeScope};
use crate::value_store::ValueStore;
use std::marker::PhantomData;
use std::sync::mpsc;
use vstd::prelude::*;

verus! {

/// Builder for closure-based async compute nodes.
pub struct AsyncComputeBuilder<Out, Deps> {
    pub(crate) key: String,
    pub(crate) dep_ids: Vec<NodeId>,
    pub(crate) _marker: PhantomData<(Out, Deps)>,
}

impl<Out, Deps> AsyncComputeBuilder<Out, Deps> {
    /// The key the node will be registered under.
    pub closed spec fn key_view(&self) -> Seq<char> {
        self.key@
    }

    /// The dependencies wired so far, in order.
    pub closed spec fn deps_view(&self) -> Seq<NodeKey> {
        ids_view(self.dep_ids@)
    }
}

impl<Out> AsyncComputeBuilder<Out, ()> {
    /// Start building an async compute node under `key`, with no dependencies yet.
    pub fn new(key: &str) -> (r: Self)
        ensures
            r.key_view() == key@,
            r.deps_view() == Seq::<NodeKey>::empty(),
    {
        let r = AsyncComputeBuilder { key: key.to_string(), dep_ids: Vec::new(), _marker: PhantomData };
        assert(r.deps_view() =~= Seq::<NodeKey>::empty());
        r
    }

    /// Wire the first dependency.
    pub fn dep<A>(self, node: NodeRef<A>) -> (r: AsyncComputeBuilder<Out, (A,)>)
        ensures
            r.key_view() == self.key_view(),
            r.deps_view() == self.deps_view().push(node.id@),
    {
        let mut dep_ids = self.dep_ids;
        dep_ids.push(node.id);
        let r = AsyncComputeBuilder { key: self.key, dep_ids, _marker: PhantomData };
        assert(r.deps_view() =~= self.deps_view().push(node.id@));
        r
    }
}

/// Builder after `.compute_async()` has been called.
#[verifier::reject_recursive_types(Out)]
#[verifier::reject_recursive_types(W)]
pub struct AsyncComputeBuilderReady<Out, W> {
    key: String,
    dep_ids: Vec<NodeId>,
    node_impl: Box<dyn AnyNodeImpl<Out, W>>,
    policy: AsyncPolicy,
    group: Option<ConcurrencyGroupHandle>,
}

impl<Out: 'static, W: 'static> AsyncComputeBuilderReady<Out, W> {
    /// The key the node will be registered under.
    pub closed spec fn key_view(&self) -> Seq<char> {
        self.key@
    }

    /// The dependencies of the node, in order.
    pub closed spec fn deps_view(&self) -> Seq<NodeKey> {
        ids_view(self.dep_ids@)
    }

    /// The policy the node will run with.
    pub closed spec fn policy_view(&self) -> AsyncPolicy {
        self.policy
    }

    /// The concurrency group the node will run in, if any.
    pub closed spec fn group_view(&self) -> Option<ConcurrencyGroupHandle> {
        self.group
    }

    /// The node implementation that will be registered.
    pub closed spec fn impl_view(&self) -> Box<dyn AnyNodeImpl<Out, W>> {
        self.node_impl
    }

    /// Set the async policy.
    pub fn policy(self, policy: AsyncPolicy) -> (r: Self)
        ensures
            r.key_view() == self.key_view(),
            r.deps_view() == self.deps_view(),
            r.policy_view() == policy,
            r.group_view() == self.group_view(),
            r.impl_view() == self.impl_view(),
    {
        AsyncComputeBuilderReady { policy, ..self }
    }

    /// Set the concurrency group.
    pub fn group(self, group: ConcurrencyGroupHandle) -> (r: Self)
        ensures
            r.key_view() == self.key_view(),
            r.deps_view() == self.deps_view(),
            r.policy_view() == self.policy_view(),
            r.group_view() == Some(group),
            r.impl_view() == self.impl_view(),
    {
        AsyncComputeBuilderReady { group: Some(group), ..self }
    }

    /// Consume into key, dependency ids, node implementation, policy and group.
    pub fn into_parts(self) -> (r: (String, Vec<NodeId>, Box<dyn AnyNodeImpl<Out, W>>, AsyncPolicy, Option<ConcurrencyGroupHandle>))
        ensures
            r.0@ == self.key_view(),
            ids_view(r.1@) == self.deps_view(),
            r.3 == self.policy_view(),
            r.4 == self.group_view(),
    {
        (self.key, self.dep_ids, self.node_impl, self.policy, self.group)
    }

    /// Finalize and register the node, running with the builder's policy and group.
    pub fn build(self, graph: &mut Graph<Out, W>) -> (r: NodeRef<Out>)
        requires
            old(graph).wf(),
            old(graph).room_for((NodeScope::ClosureAsyncCompute, self.key_view())),
        ensures
            r.id@ == (NodeScope::ClosureAsyncCompute, self.key_view()),
            final(graph).wf(),
            added_node(old(graph).nodes(), final(graph).nodes(), r.id@, NodeKind::AsyncCompute, self.deps_view()),
            !old(graph).nodes().contains_key(r.id@) ==> final(graph).nodes()[r.id@].node_impl.chosen_policy()
                == self.policy_view(),
            !old(graph).nodes().contains_key(r.id@) ==> final(graph).nodes()[r.id@].node_impl.chosen_group() == (
            match self.group_view() {
                Some(g) => Some(g.0),
                None => None,
            }),
            final(graph).values() == old(graph).values(),
    {
        let (key, dep_ids, inner, policy, group) = self.into_parts();
        let id = NodeId::scoped(NodeScope::ClosureAsyncCompute, key.as_str());
        let node_ref = NodeRef { id: id.clone(), _marker: PhantomData };
        let group_id = match group {
            Some(g) => Some(g.0),
            None => None,
        };
        let entry = NodeEntry {
            id,
            kind: NodeKind::AsyncCompute,
            deps: dep_ids,
            ref_count: 1,
            node_impl: Box::new(AsyncPolicyWrapper { inner, policy, group_id }),
        };
        assert(entry.node_impl.chosen_policy() == policy && entry.node_impl.chosen_group() == group_id);
        graph.add_node_entry(entry);
        node_ref
    }
}

/// Wrapper that overrides the async policy and concurrency group of any
/// node implementation and passes everything else through.
#[verifier::reject_recursive_types(V)]
#[verifier::reject_recursive_types(W)]
pub struct AsyncPolicyWrapper<V, W> {
    inner: Box<dyn AnyNodeImpl<V, W>>,
    policy: AsyncPolicy,
    group_id: Option<usize>,
}

impl<V, W> AsyncPolicyWrapper<V, W> {
    /// The policy the node runs with.
    pub closed spec fn policy_view(&self) -> AsyncPolicy {
        self.policy
    }

    /// The concurrency group the node runs in, if any.
    pub closed spec fn group_view(&self) -> Option<usize> {
        self.group_id
    }
}

impl<V, W> AnyNodeImpl<V, W> for AsyncPolicyWrapper<V, W> {
    open spec fn chosen_policy(&self) -> AsyncPolicy {
        self.policy_view()
    }

    open spec fn chosen_group(&self) -> Option<usize> {
        self.group_view()
    }

    closed spec fn gives_guard(&self) -> bool {
        self.inner.gives_guard()
    }

    fn activate(&mut self, id: &NodeId, tx: &mpsc::Sender<(NodeId, V)>) -> Option<Box<dyn ActivationGuard>> {
        self.inner.activate(id, tx)
    }

    closed spec fn computes(&self, inputs: Seq<Option<V>>, out: Option<V>) -> bool {
        self.inner.computes(inputs, out)
    }

    fn compute(&self, deps: &[NodeId], store: &ValueStore<V>) -> (r: Option<V>) {
        self.inner.compute(deps, store)
    }

    closed spec fn emits(&self, inputs: Seq<Option<V>>) -> bool {
        self.inner.emits(inputs)
    }

    fn emit(&self, deps: &[NodeId], store: &ValueStore<V>) {
        self.inner.emit(deps, store)
    }

    closed spec fn spec_kind(&self) -> NodeKind {
        self.inner.spec_kind()
    }

    fn kind(&self) -> (r: NodeKind) {
        self.inner.kind()
    }

    closed spec fn starts(&self, inputs: Seq<Option<V>>, out: Option<W>) -> bool {
        self.inner.starts(inputs, out)
    }

    fn compute_async(&self, deps: &[NodeId], store: &ValueStore<V>) -> (r: Option<W>) {
        self.inner.compute_async(deps, store)
    }

    fn async_policy(&self) -> (r: AsyncPolicy)
        ensures
            r == self.policy_view(),
    {
        self.policy
    }

    fn concurrency_group_id(&self) -> (r: Option<usize>)
        ensures
            r == self.group_view(),
    {
        self.group_id
    }
}

/// What a closure of 1 argument(s) may hand out for `inputs`: its work when
/// there are exactly 1 inputs and all have a value, nothing otherwise.
pub open spec fn closure_starts_1<V, W, F: Fn(&V) -> W>(f: F, inputs: Seq<Option<V>>, out: Option<W>) -> bool {
    if inputs.len() == 1 && inputs[0] is Some {
        out is Some && call_ensures(f, (&inputs[0]->0,), out->0)
    } else {
        out is None
    }
}

/// Type-erased async compute implementation that stores a closure of 1 argument(s).
#[verifier::reject_recursive_types(V)]
#[verifier::reject_recursive_types(W)]
pub struct ClosureAsyncComputeNode1<V, W, F: Fn(&V) -> W> {
    func: F,
    policy: AsyncPolicy,
    group_id: Option<usize>,
    _marker: PhantomData<(V, W)>,
}

impl<V, W, F: Fn(&V) -> W> ClosureAsyncComputeNode1<V, W, F> {
    /// The policy the node runs with.
    pub closed spec fn policy_view(&self) -> AsyncPolicy {
        self.policy
    }

    /// The concurrency group the node runs in, if any.
    pub closed spec fn group_view(&self) -> Option<usize> {
        self.group_id
    }
}

impl<V, W, F: Fn(&V) -> W> ClosureAsyncComputeNode1<V, W, F> {
    #[verifier::type_invariant]
    closed spec fn callable(self) -> bool {
        forall|a0: &V| call_requires(self.func, (a0,))
    }
}

impl<V: Send, W: Send, F: Fn(&V) -> W + Send> AnyNodeImpl<V, W> for ClosureAsyncComputeNode1<V, W, F> {
    open spec fn chosen_policy(&self) -> AsyncPolicy {
        self.policy_view()
    }

    open spec fn chosen_group(&self) -> Option<usize> {
        self.group_view()
    }

    open spec fn gives_guard(&self) -> bool {
        false
    }

    fn activate(&mut self, _id: &NodeId, _tx: &mpsc::Sender<(NodeId, V)>) -> Option<Box<dyn ActivationGuard>> {
        None
    }

    closed spec fn computes(&self, inputs: Seq<Option<V>>, out: Option<V>) -> bool {
        out is None
    }

    fn compute(&self, _deps: &[NodeId], _store: &ValueStore<V>) -> (r: Option<V>) {
        None
    }

    fn emit(&self, _deps: &[NodeId], _store: &ValueStore<V>) {
    }

    open spec fn spec_kind(&self) -> NodeKind {
        NodeKind::AsyncCompute
    }

    fn kind(&self) -> (r: NodeKind) {
        NodeKind::AsyncCompute
    }

    closed spec fn starts(&self, inputs: Seq<Option<V>>, out: Option<W>) -> bool {
        closure_starts_1(self.func, inputs, out)
    }

    fn compute_async(&self, deps: &[NodeId], store: &ValueStore<V>) -> (r: Option<W>) {
        proof {
            use_type_invariant(self);
        }
        if deps.len() != 1 {
            return None;
        }
        let a0 = match store.get_by_id(&deps[0]) {
            Some(v) => v,
            None => {
                return None;
            },
        };
        Some((self.func)(a0))
    }

    fn async_policy(&self) -> (r: AsyncPolicy)
        ensures
            r == self.policy_view(),
    {
        self.policy
    }

    fn concurrency_group_id(&self) -> (r: Option<usize>)
        ensures
            r == self.group_view(),
    {
        self.group_id
    }
}

/// What a closure of 2 argument(s) may hand out for `inputs`: its work when
/// there are exactly 2 inputs and all have a value, nothing otherwise.
pub open spec fn closure_starts_2<V, W, F: Fn(&V, &V) -> W>(f: F, inputs: Seq<Option<V>>, out: Option<W>) -> bool {
    if inputs.len() == 2 && inputs[0] is Some && inputs[1] is Some {
        out is Some && call_ensures(f, (&inputs[0]->0, &inputs[1]->0,), out->0)
    } else {
        out is None
    }
}

/// Type-erased async compute implementation that stores a closure of 2 argument(s).
#[verifier::reject_recursive_types(V)]
#[verifier::reject_recursive_types(W)]
pub struct ClosureAsyncComputeNode2<V, W, F: Fn(&V, &V) -> W> {
    func: F,
    policy: AsyncPolicy,
    group_id: Option<usize>,
    _marker: PhantomData<(V, W)>,
}

impl<V, W, F: Fn(&V, &V) -> W> ClosureAsyncComputeNode2<V, W, F> {
    /// The policy the node runs with.
    pub closed spec fn policy_view(&self) -> AsyncPolicy {
        self.policy
    }

    /// The concurrency group the node runs in, if any.
    pub closed spec fn group_view(&self) -> Option<usize> {
        self.group_id
    }
}

impl<V, W, F: Fn(&V, &V) -> W> ClosureAsyncComputeNode2<V, W, F> {
    #[verifier::type_invariant]
    closed spec fn callable(self) -> bool {
        forall|a0: &V, a1: &V| call_requires(self.func, (a0, a1,))
    }
}

impl<V: Send, W: Send, F: Fn(&V, &V) -> W + Send> AnyNodeImpl<V, W> for ClosureAsyncComputeNode2<V, W, F> {
    open spec fn chosen_policy(&self) -> AsyncPolicy {
        self.policy_view()
    }

    open spec fn chosen_group(&self) -> Option<usize> {
        self.group_view()
    }

    open spec fn gives_guard(&self) -> bool {
        false
    }

    fn activate(&mut self, _id: &NodeId, _tx: &mpsc::Sender<(NodeId, V)>) -> Option<Box<dyn ActivationGuard>> {
        None
    }

    closed spec fn computes(&self, inputs: Seq<Option<V>>, out: Option<V>) -> bool {
        out is None
    }

    fn compute(&self, _deps: &[NodeId], _store: &ValueStore<V>) -> (r: Option<V>) {
        None
    }

    fn emit(&self, _deps: &[NodeId], _store: &ValueStore<V>) {
    }

    open spec fn spec_kind(&self) -> NodeKind {
        NodeKind::AsyncCompute
    }

    fn kind(&self) -> (r: NodeKind) {
        NodeKind::AsyncCompute
    }

    closed spec fn starts(&self, inputs: Seq<Option<V>>, out: Option<W>) -> bool {
        closure_starts_2(self.func, inputs, out)
    }

    fn compute_async(&self, deps: &[NodeId], store: &ValueStore<V>) -> (r: Option<W>) {
        proof {
            use_type_invariant(self);
        }
        if deps.len() != 2 {
            return None;
        }
        let a0 = match store.get_by_id(&deps[0]) {
            Some(v) => v,
            None => {
                return None;
            },
        };
        let a1 = match store.get_by_id(&deps[1]) {
            Some(v) => v,
            None => {
                return None;
            },
        };
        Some((self.func)(a0, a1))
    }

    fn async_policy(&self) -> (r: AsyncPolicy)
        ensures
            r == self.policy_view(),
    {
        self.policy
    }

    fn concurrency_group_id(&self) -> (r: Option<usize>)
        ensures
            r == self.group_view(),
    {
        self.group_id
    }
}

/// What a closure of 3 argument(s) may hand out for `inputs`: its work when
/// there are exactly 3 inputs and all have a value, nothing otherwise.
pub open spec fn closure_starts_3<V, W, F: Fn(&V, &V, &V) -> W>(f: F, inputs: Seq<Option<V>>, out: Option<W>) -> bool {
    if inputs.len() == 3 && inputs[0] is Some && inputs[1] is Some && inputs[2] is Some {
        out is Some && call_ensures(f, (&inputs[0]->0, &inputs[1]->0, &inputs[2]->0,), out->0)
    } else {
        out is None
    }
}

/// Type-erased async compute implementation that stores a closure of 3 argument(s).
#[verifier::reject_recursive_types(V)]
#[verifier::reject_recursive_types(W)]
pub struct ClosureAsyncComputeNode3<V, W, F: Fn(&V, &V, &V) -> W> {
    func: F,
    policy: AsyncPolicy,
    group_id: Option<usize>,
    _marker: PhantomData<(V, W)>,
}

impl<V, W, F: Fn(&V, &V, &V) -> W> ClosureAsyncComputeNode3<V, W, F> {
    /// The policy the node runs with.
    pub closed spec fn policy_view(&self) -> AsyncPolicy {
        self.policy
    }

    /// The concurrency group the node runs in, if any.
    pub closed spec fn group_view(&self) -> Option<usize> {
        self.group_id
    }
}

impl<V, W, F: Fn(&V, &V, &V) -> W> ClosureAsyncComputeNode3<V, W, F> {
    #[verifier::type_invariant]
    closed spec fn callable(self) -> bool {
        forall|a0: &V, a1: &V, a2: &V| call_requires(self.func, (a0, a1, a2,))
    }
}

impl<V: Send, W: Send, F: Fn(&V, &V, &V) -> W + Send> AnyNodeImpl<V, W> for ClosureAsyncComputeNode3<V, W, F> {
    open spec fn chosen_policy(&self) -> AsyncPolicy {
        self.policy_view()
    }

    open spec fn chosen_group(&self) -> Option<usize> {
        self.group_view()
    }

    open spec fn gives_guard(&self) -> bool {
        false
    }

    fn activate(&mut self, _id: &NodeId, _tx: &mpsc::Sender<(NodeId, V)>) -> Option<Box<dyn ActivationGuard>> {
        None
    }

    closed spec fn computes(&self, inputs: Seq<Option<V>>, out: Option<V>) -> bool {
        out is None
    }

    fn compute(&self, _deps: &[NodeId], _store: &ValueStore<V>) -> (r: Option<V>) {
        None
    }

    fn emit(&self, _deps: &[NodeId], _store: &ValueStore<V>) {
    }

    open spec fn spec_kind(&self) -> NodeKind {
        NodeKind::AsyncCompute
    }

    fn kind(&self) -> (r: NodeKind) {
        NodeKind::AsyncCompute
    }

    closed spec fn starts(&self, inputs: Seq<Option<V>>, out: Option<W>) -> bool {
        closure_starts_3(self.func, inputs, out)
    }

    fn compute_async(&self, deps: &[NodeId], store: &ValueStore<V>) -> (r: Option<W>) {
        proof {
            use_type_invariant(self);
        }
        if deps.len() != 3 {
            return None;
        }
        let a0 = match store.get_by_id(&deps[0]) {
            Some(v) => v,
            None => {
                return None;
            },
        };
        let a1 = match store.get_by_id(&deps[1]) {
            Some(v) => v,
            None => {
                return None;
            },
        };
        let a2 = match store.get_by_id(&deps[2]) {
            Some(v) => v,
            None => {
                return None;
            },
        };
        Some((self.func)(a0, a1, a2))
    }

    fn async_policy(&self) -> (r: AsyncPolicy)
        ensures
            r == self.policy_view(),
    {
        self.policy
    }

    fn concurrency_group_id(&self) -> (r: Option<usize>)
        ensures
            r == self.group_view(),
    {
        self.group_id
    }
}

/// What a closure of 4 argument(s) may hand out for `inputs`: its work when
/// there are exactly 4 inputs and all have a value, nothing otherwise.
pub open spec fn closure_starts_4<V, W, F: Fn(&V, &V, &V, &V) -> W>(f: F, inputs: Seq<Option<V>>, out: Option<W>) -> bool {
    if inputs.len() == 4 && inputs[0] is Some && inputs[1] is Some && inputs[2] is Some && inputs[3] is Some {
        out is Some && call_ensures(f, (&inputs[0]->0, &inputs[1]->0, &inputs[2]->0, &inputs[3]->0,), out->0)
    } else {
        out is None
    }
}

/// Type-erased async compute implementation that stores a closure of 4 argument(s).
#[verifier::reject_recursive_types(V)]
#[verifier::reject_recursive_types(W)]
pub struct ClosureAsyncComputeNode4<V, W, F: Fn(&V, &V, &V, &V) -> W> {
    func: F,
    policy: AsyncPolicy,
    group_id: Option<usize>,
    _marker: PhantomData<(V, W)>,
}

impl<V, W, F: Fn(&V, &V, &V, &V) -> W> ClosureAsyncComputeNode4<V, W, F> {
    /// The policy the node runs with.
    pub closed spec fn policy_view(&self) -> AsyncPolicy {
        self.policy
    }

    /// The concurrency group the node runs in, if any.
    pub closed spec fn group_view(&self) -> Option<usize> {
        self.group_id
    }
}

impl<V, W, F: Fn(&V, &V, &V, &V) -> W> ClosureAsyncComputeNode4<V, W, F> {
    #[verifier::type_invariant]
    closed spec fn callable(self) -> bool {
        forall|a0: &V, a1: &V, a2: &V, a3: &V| call_requires(self.func, (a0, a1, a2, a3,))
    }
}

impl<V: Send, W: Send, F: Fn(&V, &V, &V, &V) -> W + Send> AnyNodeImpl<V, W> for ClosureAsyncComputeNode4<V, W, F> {
    open spec fn chosen_policy(&self) -> AsyncPolicy {
        self.policy_view()
    }

    open spec fn chosen_group(&self) -> Option<usize> {
        self.group_view()
    }

    open spec fn gives_guard(&self) -> bool {
        false
    }

    fn activate(&mut self, _id: &NodeId, _tx: &mpsc::Sender<(NodeId, V)>) -> Option<Box<dyn ActivationGuard>> {
        None
    }

    closed spec fn computes(&self, inputs: Seq<Option<V>>, out: Option<V>) -> bool {
        out is None
    }

    fn compute(&self, _deps: &[NodeId], _store: &ValueStore<V>) -> (r: Option<V>) {
        None
    }

    fn emit(&self, _deps: &[NodeId], _store: &ValueStore<V>) {
    }

    open spec fn spec_kind(&self) -> NodeKind {
        NodeKind::AsyncCompute
    }

    fn kind(&self) -> (r: NodeKind) {
        NodeKind::AsyncCompute
    }

    closed spec fn starts(&self, inputs: Seq<Option<V>>, out: Option<W>) -> bool {
        closure_starts_4(self.func, inputs, out)
    }

    fn compute_async(&self, deps: &[NodeId], store: &ValueStore<V>) -> (r: Option<W>) {
        proof {
            use_type_invariant(self);
        }
        if deps.len() != 4 {
            return None;
        }
        let a0 = match store.get_by_id(&deps[0]) {
            Some(v) => v,
            None => {
                return None;
            },
        };
        let a1 = match store.get_by_id(&deps[1]) {
            Some(v) => v,
            None => {
                return None;
            },
        };
        let a2 = match store.get_by_id(&deps[2]) {
            Some(v) => v,
            None => {
                return None;
            },
        };
        let a3 = match store.get_by_id(&deps[3]) {
            Some(v) => v,
            None => {
                return None;
            },
        };
        Some((self.func)(a0, a1, a2, a3))
    }

    fn async_policy(&self) -> (r: AsyncPolicy)
        ensures
            r == self.policy_view(),
    {
        self.policy
    }

    fn concurrency_group_id(&self) -> (r: Option<usize>)
        ensures
            r == self.group_view(),
    {
        self.group_id
    }
}

/// What a closure of 5 argument(s) may hand out for `inputs`: its work when
/// there are exactly 5 inputs and all have a value, nothing otherwise.
pub open spec fn closure_starts_5<V, W, F: Fn(&V, &V, &V, &V, &V) -> W>(f: F, inputs: Seq<Option<V>>, out: Option<W>) -> bool {
    if inputs.len() == 5 && inputs[0] is Some && inputs[1] is Some && inputs[2] is Some && inputs[3] is Some && inputs[4] is Some {
        out is Some && call_ensures(f, (&inputs[0]->0, &inputs[1]->0, &inputs[2]->0, &inputs[3]->0, &inputs[4]->0,), out->0)
    } else {
        out is None
    }
}

/// Type-erased async compute implementation that stores a closure of 5 argument(s).
#[verifier::reject_recursive_types(V)]
#[verifier::reject_recursive_types(W)]
pub struct ClosureAsyncComputeNode5<V, W, F: Fn(&V, &V, &V, &V, &V) -> W> {
    func: F,
    policy: AsyncPolicy,
    group_id: Option<usize>,
    _marker: PhantomData<(V, W)>,
}

impl<V, W, F: Fn(&V, &V, &V, &V, &V) -> W> ClosureAsyncComputeNode5<V, W, F> {
    /// The policy the node runs with.
    pub closed spec fn policy_view(&self) -> AsyncPolicy {
        self.policy
    }

    /// The concurrency group the node runs in, if any.
    pub closed spec fn group_view(&self) -> Option<usize> {
        self.group_id
    }
}

impl<V, W, F: Fn(&V, &V, &V, &V, &V) -> W> ClosureAsyncComputeNode5<V, W, F> {
    #[verifier::type_invariant]
    closed spec fn callable(self) -> bool {
        forall|a0: &V, a1: &V, a2: &V, a3: &V, a4: &V| call_requires(self.func, (a0, a1, a2, a3, a4,))
    }
}

impl<V: Send, W: Send, F: Fn(&V, &V, &V, &V, &V) -> W + Send> AnyNodeImpl<V, W> for ClosureAsyncComputeNode5<V, W, F> {
    open spec fn chosen_policy(&self) -> AsyncPolicy {
        self.policy_view()
    }

    open spec fn chosen_group(&self) -> Option<usize> {
        self.group_view()
    }

    open spec fn gives_guard(&self) -> bool {
        false
    }

    fn activate(&mut self, _id: &NodeId, _tx: &mpsc::Sender<(NodeId, V)>) -> Option<Box<dyn ActivationGuard>> {
        None
    }

    closed spec fn computes(&self, inputs: Seq<Option<V>>, out: Option<V>) -> bool {
        out is None
    }

    fn compute(&self, _deps: &[NodeId], _store: &ValueStore<V>) -> (r: Option<V>) {
        None
    }

    fn emit(&self, _deps: &[NodeId], _store: &ValueStore<V>) {
    }

    open spec fn spec_kind(&self) -> NodeKind {
        NodeKind::AsyncCompute
    }

    fn kind(&self) -> (r: NodeKind) {
        NodeKind::AsyncCompute
    }

    closed spec fn starts(&self, inputs: Seq<Option<V>>, out: Option<W>) -> bool {
        closure_starts_5(self.func, inputs, out)
    }

    fn compute_async(&self, deps: &[NodeId], store: &ValueStore<V>) -> (r: Option<W>) {
        proof {
            use_type_invariant(self);
        }
        if deps.len() != 5 {
            return None;
        }
        let a0 = match store.get_by_id(&deps[0]) {
            Some(v) => v,
            None => {
                return None;
            },
        };
        let a1 = match store.get_by_id(&deps[1]) {
            Some(v) => v,
            None => {
                return None;
            },
        };
        let a2 = match store.get_by_id(&deps[2]) {
            Some(v) => v,
            None => {
                return None;
            },
        };
        let a3 = match store.get_by_id(&deps[3]) {
            Some(v) => v,
            None => {
                return None;
            },
        };
        let a4 = match store.get_by_id(&deps[4]) {
            Some(v) => v,
            None => {
                return None;
            },
        };
        Some((self.func)(a0, a1, a2, a3, a4))
    }

    fn async_policy(&self) -> (r: AsyncPolicy)
        ensures
            r == self.policy_view(),
    {
        self.policy
    }

    fn concurrency_group_id(&self) -> (r: Option<usize>)
        ensures
            r == self.group_view(),
    {
        self.group_id
    }
}

/// What a closure of 6 argument(s) may hand out for `inputs`: its work when
/// there are exactly 6 inputs and all have a value, nothing otherwise.
pub open spec fn closure_starts_6<V, W, F: Fn(&V, &V, &V, &V, &V, &V) -> W>(f: F, inputs: Seq<Option<V>>, out: Option<W>) -> bool {
    if inputs.len() == 6 && inputs[0] is Some && inputs[1] is Some && inputs[2] is Some && inputs[3] is Some && inputs[4] is Some && inputs[5] is Some {
        out is Some && call_ensures(f, (&inputs[0]->0, &inputs[1]->0, &inputs[2]->0, &inputs[3]->0, &inputs[4]->0, &inputs[5]->0,), out->0)
    } else {
        out is None
    }
}

/// Type-erased async compute implementation that stores a closure of 6 argument(s).
#[verifier::reject_recursive_types(V)]
#[verifier::reject_recursive_types(W)]
pub struct ClosureAsyncComputeNode6<V, W, F: Fn(&V, &V, &V, &V, &V, &V) -> W> {
    func: F,
    policy: AsyncPolicy,
    group_id: Option<usize>,
    _marker: PhantomData<(V, W)>,
}

impl<V, W, F: Fn(&V, &V, &V, &V, &V, &V) -> W> ClosureAsyncComputeNode6<V, W, F> {
    /// The policy the node runs with.
    pub closed spec fn policy_view(&self) -> AsyncPolicy {
        self.policy
    }

    /// The concurrency group the node runs in, if any.
    pub closed spec fn group_view(&self) -> Option<usize> {
        self.group_id
    }
}

impl<V, W, F: Fn(&V, &V, &V, &V, &V, &V) -> W> ClosureAsyncComputeNode6<V, W, F> {
    #[verifier::type_invariant]
    closed spec fn callable(self) -> bool {
        forall|a0: &V, a1: &V, a2: &V, a3: &V, a4: &V, a5: &V| call_requires(self.func, (a0, a1, a2, a3, a4, a5,))
    }
}

impl<V: Send, W: Send, F: Fn(&V, &V, &V, &V, &V, &V) -> W + Send> AnyNodeImpl<V, W> for ClosureAsyncComputeNode6<V, W, F> {
    open spec fn chosen_policy(&self) -> AsyncPolicy {
        self.policy_view()
    }

    open spec fn chosen_group(&self) -> Option<usize> {
        self.group_view()
    }

    open spec fn gives_guard(&self) -> bool {
        false
    }

    fn activate(&mut self, _id: &NodeId, _tx: &mpsc::Sender<(NodeId, V)>) -> Option<Box<dyn ActivationGuard>> {
        None
    }

    closed spec fn computes(&self, inputs: Seq<Option<V>>, out: Option<V>) -> bool {
        out is None
    }

    fn compute(&self, _deps: &[NodeId], _store: &ValueStore<V>) -> (r: Option<V>) {
        None
    }

    fn emit(&self, _deps: &[NodeId], _store: &ValueStore<V>) {
    }

    open spec fn spec_kind(&self) -> NodeKind {
        NodeKind::AsyncCompute
    }

    fn kind(&self) -> (r: NodeKind) {
        NodeKind::AsyncCompute
    }

    closed spec fn starts(&self, inputs: Seq<Option<V>>, out: Option<W>) -> bool {
        closure_starts_6(self.func, inputs, out)
    }

    fn compute_async(&self, deps: &[NodeId], store: &ValueStore<V>) -> (r: Option<W>) {
        proof {
            use_type_invariant(self);
        }
        if deps.len() != 6 {
            return None;
        }
        let a0 = match store.get_by_id(&deps[0]) {
            Some(v) => v,
            None => {
                return None;
            },
        };
        let a1 = match store.get_by_id(&deps[1]) {
            Some(v) => v,
            None => {
                return None;
            },
        };
        let a2 = match store.get_by_id(&deps[2]) {
            Some(v) => v,
            None => {
                return None;
            },
        };
        let a3 = match store.get_by_id(&deps[3]) {
            Some(v) => v,
            None => {
                return None;
            },
        };
        let a4 = match store.get_by_id(&deps[4]) {
            Some(v) => v,
            None => {
                return None;
            },
        };
        let a5 = match store.get_by_id(&deps[5]) {
            Some(v) => v,
            None => {
                return None;
            },
        };
        Some((self.func)(a0, a1, a2, a3, a4, a5))
    }

    fn async_policy(&self) -> (r: AsyncPolicy)
        ensures
            r == self.policy_view(),
    {
        self.policy
    }

    fn concurrency_group_id(&self) -> (r: Option<usize>)
        ensures
            r == self.group_view(),
    {
        self.group_id
    }
}

/// What a closure of 7 argument(s) may hand out for `inputs`: its work when
/// there are exactly 7 inputs and all have a value, nothing otherwise.
pub open spec fn closure_starts_7<V, W, F: Fn(&V, &V, &V, &V, &V, &V, &V) -> W>(f: F, inputs: Seq<Option<V>>, out: Option<W>) -> bool {
    if inputs.len() == 7 && inputs[0] is Some && inputs[1] is Some && inputs[2] is Some && inputs[3] is Some && inputs[4] is Some && inputs[5] is Some && inputs[6] is Some {
        out is Some && call_ensures(f, (&inputs[0]->0, &inputs[1]->0, &inputs[2]->0, &inputs[3]->0, &inputs[4]->0, &inputs[5]->0, &inputs[6]->0,), out->0)
    } else {
        out is None
    }
}

/// Type-erased async compute implementation that stores a closure of 7 argument(s).
#[verifier::reject_recursive_types(V)]
#[verifier::reject_recursive_types(W)]
pub struct ClosureAsyncComputeNode7<V, W, F: Fn(&V, &V, &V, &V, &V, &V, &V) -> W> {
    func: F,
    policy: AsyncPolicy,
    group_id: Option<usize>,
    _marker: PhantomData<(V, W)>,
}

impl<V, W, F: Fn(&V, &V, &V, &V, &V, &V, &V) -> W> ClosureAsyncComputeNode7<V, W, F> {
    /// The policy the node runs with.
    pub closed spec fn policy_view(&self) -> AsyncPolicy {
        self.policy
    }

    /// The concurrency group the node runs in, if any.
    pub closed spec fn group_view(&self) -> Option<usize> {
        self.group_id
    }
}

impl<V, W, F: Fn(&V, &V, &V, &V, &V, &V, &V) -> W> ClosureAsyncComputeNode7<V, W, F> {
    #[verifier::type_invariant]
    closed spec fn callable(self) -> bool {
        forall|a0: &V, a1: &V, a2: &V, a3: &V, a4: &V, a5: &V, a6: &V| call_requires(self.func, (a0, a1, a2, a3, a4, a5, a6,))
    }
}

impl<V: Send, W: Send, F: Fn(&V, &V, &V, &V, &V, &V, &V) -> W + Send> AnyNodeImpl<V, W> for ClosureAsyncComputeNode7<V, W, F> {
    open spec fn chosen_policy(&self) -> AsyncPolicy {
        self.policy_view()
    }

    open spec fn chosen_group(&self) -> Option<usize> {
        self.group_view()
    }

    open spec fn gives_guard(&self) -> bool {
        false
    }

    fn activate(&mut self, _id: &NodeId, _tx: &mpsc::Sender<(NodeId, V)>) -> Option<Box<dyn ActivationGuard>> {
        None
    }

    closed spec fn computes(&self, inputs: Seq<Option<V>>, out: Option<V>) -> bool {
        out is None
    }

    fn compute(&self, _deps: &[NodeId], _store: &ValueStore<V>) -> (r: Option<V>) {
        None
    }

    fn emit(&self, _deps: &[NodeId], _store: &ValueStore<V>) {
    }

    open spec fn spec_kind(&self) -> NodeKind {
        NodeKind::AsyncCompute
    }

    fn kind(&self) -> (r: NodeKind) {
        NodeKind::AsyncCompute
    }

    closed spec fn starts(&self, inputs: Seq<Option<V>>, out: Option<W>) -> bool {
        closure_starts_7(self.func, inputs, out)
    }

    fn compute_async(&self, deps: &[NodeId], store: &ValueStore<V>) -> (r: Option<W>) {
        proof {
            use_type_invariant(self);
        }
        if deps.len() != 7 {
            return None;
        }
        let a0 = match store.get_by_id(&deps[0]) {
            Some(v) => v,
            None => {
                return None;
            },
        };
        let a1 = match store.get_by_id(&deps[1]) {
            Some(v) => v,
            None => {
                return None;
            },
        };
        let a2 = match store.get_by_id(&deps[2]) {
            Some(v) => v,
            None => {
                return None;
            },
        };
        let a3 = match store.get_by_id(&deps[3]) {
            Some(v) => v,
            None => {
                return None;
            },
        };
        let a4 = match store.get_by_id(&deps[4]) {
            Some(v) => v,
            None => {
                return None;
            },
        };
        let a5 = match store.get_by_id(&deps[5]) {
            Some(v) => v,
            None => {
                return None;
            },
        };
        let a6 = match store.get_by_id(&deps[6]) {
            Some(v) => v,
            None => {
                return None;
            },
        };
        Some((self.func)(a0, a1, a2, a3, a4, a5, a6))
    }

    fn async_policy(&self) -> (r: AsyncPolicy)
        ensures
            r == self.policy_view(),
    {
        self.policy
    }

    fn concurrency_group_id(&self) -> (r: Option<usize>)
        ensures
            r == self.group_view(),
    {
        self.group_id
    }
}

/// What a closure of 8 argument(s) may hand out for `inputs`: its work when
/// there are exactly 8 inputs and all have a value, nothing otherwise.
pub open spec fn closure_starts_8<V, W, F: Fn(&V, &V, &V, &V, &V, &V, &V, &V) -> W>(f: F, inputs: Seq<Option<V>>, out: Option<W>) -> bool {
    if inputs.len() == 8 && inputs[0] is Some && inputs[1] is Some && inputs[2] is Some && inputs[3] is Some && inputs[4] is Some && inputs[5] is Some && inputs[6] is Some && inputs[7] is Some {
        out is Some && call_ensures(f, (&inputs[0]->0, &inputs[1]->0, &inputs[2]->0, &inputs[3]->0, &inputs[4]->0, &inputs[5]->0, &inputs[6]->0, &inputs[7]->0,), out->0)
    } else {
        out is None
    }
}

/// Type-erased async compute implementation that stores a closure of 8 argument(s).
#[verifier::reject_recursive_types(V)]
#[verifier::reject_recursive_types(W)]
pub struct ClosureAsyncComputeNode8<V, W, F: Fn(&V, &V, &V, &V, &V, &V, &V, &V) -> W> {
    func: F,
    policy: AsyncPolicy,
    group_id: Option<usize>,
    _marker: PhantomData<(V, W)>,
}

impl<V, W, F: Fn(&V, &V, &V, &V, &V, &V, &V, &V) -> W> ClosureAsyncComputeNode8<V, W, F> {
    /// The policy the node runs with.
    pub closed spec fn policy_view(&self) -> AsyncPolicy {
        self.policy
    }

    /// The concurrency group the node runs in, if any.
    pub closed spec fn group_view(&self) -> Option<usize> {
        self.group_id
    }
}

impl<V, W, F: Fn(&V, &V, &V, &V, &V, &V, &V, &V) -> W> ClosureAsyncComputeNode8<V, W, F> {
    #[verifier::type_invariant]
    closed spec fn callable(self) -> bool {
        forall|a0: &V, a1: &V, a2: &V, a3: &V, a4: &V, a5: &V, a6: &V, a7: &V| call_requires(self.func, (a0, a1, a2, a3, a4, a5, a6, a7,))
    }
}

impl<V: Send, W: Send, F: Fn(&V, &V, &V, &V, &V, &V, &V, &V) -> W + Send> AnyNodeImpl<V, W> for ClosureAsyncComputeNode8<V, W, F> {
    open spec fn chosen_policy(&self) -> AsyncPolicy {
        self.policy_view()
    }

    open spec fn chosen_group(&self) -> Option<usize> {
        self.group_view()
    }

    open spec fn gives_guard(&self) -> bool {
        false
    }

    fn activate(&mut self, _id: &NodeId, _tx: &mpsc::Sender<(NodeId, V)>) -> Option<Box<dyn ActivationGuard>> {
        None
    }

    closed spec fn computes(&self, inputs: Seq<Option<V>>, out: Option<V>) -> bool {
        out is None
    }

    fn compute(&self, _deps: &[NodeId], _store: &ValueStore<V>) -> (r: Option<V>) {
        None
    }

    fn emit(&self, _deps: &[NodeId], _store: &ValueStore<V>) {
    }

    open spec fn spec_kind(&self) -> NodeKind {
        NodeKind::AsyncCompute
    }

    fn kind(&self) -> (r: NodeKind) {
        NodeKind::AsyncCompute
    }

    closed spec fn starts(&self, inputs: Seq<Option<V>>, out: Option<W>) -> bool {
        closure_starts_8(self.func, inputs, out)
    }

    fn compute_async(&self, deps: &[NodeId], store: &ValueStore<V>) -> (r: Option<W>) {
        proof {
            use_type_invariant(self);
        }
        if deps.len() != 8 {
            return None;
        }
        let a0 = match store.get_by_id(&deps[0]) {
            Some(v) => v,
            None => {
                return None;
            },
        };
        let a1 = match store.get_by_id(&deps[1]) {
            Some(v) => v,
            None => {
                return None;
            },
        };
        let a2 = match store.get_by_id(&deps[2]) {
            Some(v) => v,
            None => {
                return None;
            },
        };
        let a3 = match store.get_by_id(&deps[3]) {
            Some(v) => v,
            None => {
                return None;
            },
        };
        let a4 = match store.get_by_id(&deps[4]) {
            Some(v) => v,
            None => {
                return None;
            },
        };
        let a5 = match store.get_by_id(&deps[5]) {
            Some(v) => v,
            None => {
                return None;
            },
        };
        let a6 = match store.get_by_id(&deps[6]) {
            Some(v) => v,
            None => {
                return None;
            },
        };
        let a7 = match store.get_by_id(&deps[7]) {
            Some(v) => v,
            None => {
                return None;
            },
        };
        Some((self.func)(a0, a1, a2, a3, a4, a5, a6, a7))
    }

    fn async_policy(&self) -> (r: AsyncPolicy)
        ensures
            r == self.policy_view(),
    {
        self.policy
    }

    fn concurrency_group_id(&self) -> (r: Option<usize>)
        ensures
            r == self.group_view(),
    {
        self.group_id
    }
}

impl<Out: Send + 'static, A> AsyncComputeBuilder<Out, (A,)> {
    /// Wire the next dependency.
    pub fn dep<Z>(self, node: NodeRef<Z>) -> (r: AsyncComputeBuilder<Out, (A, Z)>)
        ensures
            r.key_view() == self.key_view(),
            r.deps_view() == self.deps_view().push(node.id@),
    {
        let mut dep_ids = self.dep_ids;
        dep_ids.push(node.id);
        let r = AsyncComputeBuilder { key: self.key, dep_ids, _marker: PhantomData };
        assert(r.deps_view() =~= self.deps_view().push(node.id@));
        r
    }

    /// Give the closure that hands out the node's work from its dependencies' values.
    pub fn compute_async<W: Send + 'static, F: Fn(&Out) -> W + Send + 'static>(self, f: F) -> (r: AsyncComputeBuilderReady<Out, W>)
        requires
            forall|a0: &Out| call_requires(f, (a0,)),
        ensures
            r.key_view() == self.key_view(),
            r.deps_view() == self.deps_view(),
            r.policy_view() == AsyncPolicy::LatestWins,
            r.group_view() is None,
    {
        let node = ClosureAsyncComputeNode1 { func: f, policy: AsyncPolicy::LatestWins, group_id: None, _marker: PhantomData };
        AsyncComputeBuilderReady {
            key: self.key,
            dep_ids: self.dep_ids,
            node_impl: Box::new(node),
            policy: AsyncPolicy::LatestWins,
            group: None,
        }
    }
}

impl<Out: Send + 'static, A, B> AsyncComputeBuilder<Out, (A, B,)> {
    /// Wire the next dependency.
    pub fn dep<Z>(self, node: NodeRef<Z>) -> (r: AsyncComputeBuilder<Out, (A, B, Z)>)
        ensures
            r.key_view() == self.key_view(),
            r.deps_view() == self.deps_view().push(node.id@),
    {
        let mut dep_ids = self.dep_ids;
        dep_ids.push(node.id);
        let r = AsyncComputeBuilder { key: self.key, dep_ids, _marker: PhantomData };
        assert(r.deps_view() =~= self.deps_view().push(node.id@));
        r
    }

    /// Give the closure that hands out the node's work from its dependencies' values.
    pub fn compute_async<W: Send + 'static, F: Fn(&Out, &Out) -> W + Send + 'static>(self, f: F) -> (r: AsyncComputeBuilderReady<Out, W>)
        requires
            forall|a0: &Out, a1: &Out| call_requires(f, (a0, a1,)),
        ensures
            r.key_view() == self.key_view(),
            r.deps_view() == self.deps_view(),
            r.policy_view() == AsyncPolicy::LatestWins,
            r.group_view() is None,
    {
        let node = ClosureAsyncComputeNode2 { func: f, policy: AsyncPolicy::LatestWins, group_id: None, _marker: PhantomData };
        AsyncComputeBuilderReady {
            key: self.key,
            dep_ids: self.dep_ids,
            node_impl: Box::new(node),
            policy: AsyncPolicy::LatestWins,
            group: None,
        }
    }
}

impl<Out: Send + 'static, A, B, Cc> AsyncComputeBuilder<Out, (A, B, Cc,)> {
    /// Wire the next dependency.
    pub fn dep<Z>(self, node: NodeRef<Z>) -> (r: AsyncComputeBuilder<Out, (A, B, Cc, Z)>)
        ensures
            r.key_view() == self.key_view(),
            r.deps_view() == self.deps_view().push(node.id@),
    {
        let mut dep_ids = self.dep_ids;
        dep_ids.push(node.id);
        let r = AsyncComputeBuilder { key: self.key, dep_ids, _marker: PhantomData };
        assert(r.deps_view() =~= self.deps_view().push(node.id@));
        r
    }

    /// Give the closure that hands out the node's work from its dependencies' values.
    pub fn compute_async<W: Send + 'static, F: Fn(&Out, &Out, &Out) -> W + Send + 'static>(self, f: F) -> (r: AsyncComputeBuilderReady<Out, W>)
        requires
            forall|a0: &Out, a1: &Out, a2: &Out| call_requires(f, (a0, a1, a2,)),
        ensures
            r.key_view() == self.key_view(),
            r.deps_view() == self.deps_view(),
            r.policy_view() == AsyncPolicy::LatestWins,
            r.group_view() is None,
    {
        let node = ClosureAsyncComputeNode3 { func: f, policy: AsyncPolicy::LatestWins, group_id: None, _marker: PhantomData };
        AsyncComputeBuilderReady {
            key: self.key,
            dep_ids: self.dep_ids,
            node_impl: Box::new(node),
            policy: AsyncPolicy::LatestWins,
            group: None,
        }
    }
}

impl<Out: Send + 'static, A, B, Cc, D> AsyncComputeBuilder<Out, (A, B, Cc, D,)> {
    /// Wire the next dependency.
    pub fn dep<Z>(self, node: NodeRef<Z>) -> (r: AsyncComputeBuilder<Out, (A, B, Cc, D, Z)>)
        ensures
            r.key_view() == self.key_view(),
            r.deps_view() == self.deps_view().push(node.id@),
    {
        let mut dep_ids = self.dep_ids;
        dep_ids.push(node.id);
        let r = AsyncComputeBuilder { key: self.key, dep_ids, _marker: PhantomData };
        assert(r.deps_view() =~= self.deps_view().push(node.id@));
        r
    }

    /// Give the closure that hands out the node's work from its dependencies' values.
    pub fn compute_async<W: Send + 'static, F: Fn(&Out, &Out, &Out, &Out) -> W + Send + 'static>(self, f: F) -> (r: AsyncComputeBuilderReady<Out, W>)
        requires
            forall|a0: &Out, a1: &Out, a2: &Out, a3: &Out| call_requires(f, (a0, a1, a2, a3,)),
        ensures
            r.key_view() == self.key_view(),
            r.deps_view() == self.deps_view(),
            r.policy_view() == AsyncPolicy::LatestWins,
            r.group_view() is None,
    {
        let node = ClosureAsyncComputeNode4 { func: f, policy: AsyncPolicy::LatestWins, group_id: None, _marker: PhantomData };
        AsyncComputeBuilderReady {
            key: self.key,
            dep_ids: self.dep_ids,
            node_impl: Box::new(node),
            policy: AsyncPolicy::LatestWins,
            group: None,
        }
    }
}

impl<Out: Send + 'static, A, B, Cc, D, E> AsyncComputeBuilder<Out, (A, B, Cc, D, E,)> {
    /// Wire the next dependency.
    pub fn dep<Z>(self, node: NodeRef<Z>) -> (r: AsyncComputeBuilder<Out, (A, B, Cc, D, E, Z)>)
        ensures
            r.key_view() == self.key_view(),
            r.deps_view() == self.deps_view().push(node.id@),
    {
        let mut dep_ids = self.dep_ids;
        dep_ids.push(node.id);
        let r = AsyncComputeBuilder { key: self.key, dep_ids, _marker: PhantomData };
        assert(r.deps_view() =~= self.deps_view().push(node.id@));
        r
    }

    /// Give the closure that hands out the node's work from its dependencies' values.
    pub fn compute_async<W: Send + 'static, F: Fn(&Out, &Out, &Out, &Out, &Out) -> W + Send + 'static>(self, f: F) -> (r: AsyncComputeBuilderReady<Out, W>)
        requires
            forall|a0: &Out, a1: &Out, a2: &Out, a3: &Out, a4: &Out| call_requires(f, (a0, a1, a2, a3, a4,)),
        ensures
            r.key_view() == self.key_view(),
            r.deps_view() == self.deps_view(),
            r.policy_view() == AsyncPolicy::LatestWins,
            r.group_view() is None,
    {
        let node = ClosureAsyncComputeNode5 { func: f, policy: AsyncPolicy::LatestWins, group_id: None, _marker: PhantomData };
        AsyncComputeBuilderReady {
            key: self.key,
            dep_ids: self.dep_ids,
            node_impl: Box::new(node),
            policy: AsyncPolicy::LatestWins,
            group: None,
        }
    }
}

impl<Out: Send + 'static, A, B, Cc, D, E, Ff> AsyncComputeBuilder<Out, (A, B, Cc, D, E, Ff,)> {
    /// Wire the next dependency.
    pub fn dep<Z>(self, node: NodeRef<Z>) -> (r: AsyncComputeBuilder<Out, (A, B, Cc, D, E, Ff, Z)>)
        ensures
            r.key_view() == self.key_view(),
            r.deps_view() == self.deps_view().push(node.id@),
    {
        let mut dep_ids = self.dep_ids;
        dep_ids.push(node.id);
        let r = AsyncComputeBuilder { key: self.key, dep_ids, _marker: PhantomData };
        assert(r.deps_view() =~= self.deps_view().push(node.id@));
        r
    }

    /// Give the closure that hands out the node's work from its dependencies' values.
    pub fn compute_async<W: Send + 'static, F: Fn(&Out, &Out, &Out, &Out, &Out, &Out) -> W + Send + 'static>(self, f: F) -> (r: AsyncComputeBuilderReady<Out, W>)
        requires
            forall|a0: &Out, a1: &Out, a2: &Out, a3: &Out, a4: &Out, a5: &Out| call_requires(f, (a0, a1, a2, a3, a4, a5,)),
        ensures
            r.key_view() == self.key_view(),
            r.deps_view() == self.deps_view(),
            r.policy_view() == AsyncPolicy::LatestWins,
            r.group_view() is None,
    {
        let node = ClosureAsyncComputeNode6 { func: f, policy: AsyncPolicy::LatestWins, group_id: None, _marker: PhantomData };
        AsyncComputeBuilderReady {
            key: self.key,
            dep_ids: self.dep_ids,
            node_impl: Box::new(node),
            policy: AsyncPolicy::LatestWins,
            group: None,
        }
    }
}

impl<Out: Send + 'static, A, B, Cc, D, E, Ff, G> AsyncComputeBuilder<Out, (A, B, Cc, D, E, Ff, G,)> {
    /// Wire the next dependency.
    pub fn dep<Z>(self, node: NodeRef<Z>) -> (r: AsyncComputeBuilder<Out, (A, B, Cc, D, E, Ff, G, Z)>)
        ensures
            r.key_view() == self.key_view(),
            r.deps_view() == self.deps_view().push(node.id@),
    {
        let mut dep_ids = self.dep_ids;
        dep_ids.push(node.id);
        let r = AsyncComputeBuilder { key: self.key, dep_ids, _marker: PhantomData };
        assert(r.deps_view() =~= self.deps_view().push(node.id@));
        r
    }

    /// Give the closure that hands out the node's work from its dependencies' values.
    pub fn compute_async<W: Send + 'static, F: Fn(&Out, &Out, &Out, &Out, &Out, &Out, &Out) -> W + Send + 'static>(self, f: F) -> (r: AsyncComputeBuilderReady<Out, W>)
        requires
            forall|a0: &Out, a1: &Out, a2: &Out, a3: &Out, a4: &Out, a5: &Out, a6: &Out| call_requires(f, (a0, a1, a2, a3, a4, a5, a6,)),
        ensures
            r.key_view() == self.key_view(),
            r.deps_view() == self.deps_view(),
            r.policy_view() == AsyncPolicy::LatestWins,
            r.group_view() is None,
    {
        let node = ClosureAsyncComputeNode7 { func: f, policy: AsyncPolicy::LatestWins, group_id: None, _marker: PhantomData };
        AsyncComputeBuilderReady {
            key: self.key,
            dep_ids: self.dep_ids,
            node_impl: Box::new(node),
            policy: AsyncPolicy::LatestWins,
            group: None,
        }
    }
}

impl<Out: Send + 'static, A, B, Cc, D, E, Ff, G, H> AsyncComputeBuilder<Out, (A, B, Cc, D, E, Ff, G, H,)> {
    /// Give the closure that hands out the node's work from its dependencies' values.
    pub fn compute_async<W: Send + 'static, F: Fn(&Out, &Out, &Out, &Out, &Out, &Out, &Out, &Out) -> W + Send + 'static>(self, f: F) -> (r: AsyncComputeBuilderReady<Out, W>)
        requires
            forall|a0: &Out, a1: &Out, a2: &Out, a3: &Out, a4: &Out, a5: &Out, a6: &Out, a7: &Out| call_requires(f, (a0, a1, a2, a3, a4, a5, a6, a7,)),
        ensures
            r.key_view() == self.key_view(),
            r.deps_view() == self.deps_view(),
            r.policy_view() == AsyncPolicy::LatestWins,
            r.group_view() is None,
    {
        let node = ClosureAsyncComputeNode8 { func: f, policy: AsyncPolicy::LatestWins, group_id: None, _marker: PhantomData };
        AsyncComputeBuilderReady {
            key: self.key,
            dep_ids: self.dep_ids,
            node_impl: Box::new(node),
            policy: AsyncPolicy::LatestWins,
            group: None,
        }
    }
}

/// Helper trait on tuple types to produce type-erased node implementations
/// for async compute nodes.
pub trait AsyncComputeDispatch<V, W, AC>: Sized {
    /// The node implementation type.
    type NodeImpl: AnyNodeImpl<V, W> + 'static;

    fn make_node_impl(ac: AC, policy: AsyncPolicy, group_id: Option<usize>) -> (r: Self::NodeImpl)
        ensures
            r.chosen_policy() == policy,
            r.chosen_group() == group_id,
    ;

    /// A registry entry for a new async node `id` with dependencies `deps`,
    /// whose implementation runs `ac` with `policy` in the group `group_id`.
    fn make_entry(id: NodeId, deps: Vec<NodeId>, ac: AC, policy: AsyncPolicy, group_id: Option<usize>) -> (r: NodeEntry<
        V,
        W,
    >)
        ensures
            r.id@ == id@,
            r.kind == NodeKind::AsyncCompute,
            r.deps@ == deps@,
            r.ref_count == 1,
            r.node_impl.chosen_policy() == policy,
            r.node_impl.chosen_group() == group_id,
    ;
}

/// Typestate builder for trait-based async compute nodes.
#[verifier::reject_recursive_types(V)]
#[verifier::reject_recursive_types(W)]
pub struct TraitAsyncComputeBuilder<'g, V, W, AC: AsyncCompute, Remaining> {
    pub graph: &'g mut Graph<V, W>,
    pub ac: AC,
    pub dep_ids: Vec<NodeId>,
    pub policy: AsyncPolicy,
    pub group: Option<ConcurrencyGroupHandle>,
    pub _remaining: PhantomData<Remaining>,
}

impl<'g, V, W, AC: AsyncCompute, Remaining> TraitAsyncComputeBuilder<'g, V, W, AC, Remaining> {
    /// The dependencies wired so far, in order.
    pub open spec fn deps_view(&self) -> Seq<NodeKey> {
        ids_view(self.dep_ids@)
    }
}

impl<'g, V, W, AC: AsyncCompute> TraitAsyncComputeBuilder<'g, V, W, AC, AC::Inputs> {
    /// Start building a trait-based async compute node in `graph`, with the
    /// default policy and no group.
    pub fn new(graph: &'g mut Graph<V, W>, ac: AC) -> (r: Self)
        ensures
            r.deps_view() == Seq::<NodeKey>::empty(),
            r.policy == AsyncPolicy::LatestWins,
            r.group is None,
            r.ac == ac,
            *r.graph == *old(graph),
    {
        let r = TraitAsyncComputeBuilder {
            graph,
            ac,
            dep_ids: Vec::new(),
            policy: AsyncPolicy::LatestWins,
            group: None,
            _remaining: PhantomData,
        };
        assert(r.deps_view() =~= Seq::<NodeKey>::empty());
        r
    }
}

impl<'g, V: 'static, W: 'static, AC: AsyncCompute + 'static> TraitAsyncComputeBuilder<'g, V, W, AC, ()> where AC::Inputs: AsyncComputeDispatch<V, W, AC> {
    /// Set the async policy.
    pub fn policy(self, policy: AsyncPolicy) -> (r: Self)
        ensures
            r.deps_view() == self.deps_view(),
            r.policy == policy,
            r.group == self.group,
            *r.graph == *old(self.graph),
            r.ac == self.ac,
    {
        TraitAsyncComputeBuilder { policy, ..self }
    }

    /// Set the concurrency group.
    pub fn group(self, group: ConcurrencyGroupHandle) -> (r: Self)
        ensures
            r.deps_view() == self.deps_view(),
            r.policy == self.policy,
            r.group == Some(group),
            *r.graph == *old(self.graph),
            r.ac == self.ac,
    {
        TraitAsyncComputeBuilder { group: Some(group), ..self }
    }

    /// Finalize and register the node, under its key scoped by its type.
    pub fn build(self) -> (r: NodeRef<AC::Output>)
        requires
            self.graph.wf(),
            self.graph.room_for_all(),
        ensures
            r.id@.0 is Typed,
            final(self.graph).wf(),
            added_node(old(self.graph).nodes(), final(self.graph).nodes(), r.id@, NodeKind::AsyncCompute, self.deps_view()),
            !old(self.graph).nodes().contains_key(r.id@) ==> final(self.graph).nodes()[r.id@].node_impl.chosen_policy()
                == self.policy,
            !old(self.graph).nodes().contains_key(r.id@) ==> final(self.graph).nodes()[r.id@].node_impl.chosen_group()
                == (match self.group {
                Some(g) => Some(g.0),
                None => None,
            }),
            final(self.graph).values() == old(self.graph).values(),
    {
        let id = NodeId::from_key::<AC::Key, AC>(&self.ac.key());
        let node_ref = NodeRef { id: id.clone(), _marker: PhantomData };
        let group_id = match self.group {
            Some(g) => Some(g.0),
            None => None,
        };
        assert(self.graph.room_for(id@));
        let entry = <AC::Inputs as AsyncComputeDispatch<V, W, AC>>::make_entry(id, self.dep_ids, self.ac, self.policy, group_id);
        self.graph.add_node_entry(entry);
        node_ref
    }
}

impl<'g, V, W, AC: AsyncCompute, A> TraitAsyncComputeBuilder<'g, V, W, AC, (A,)> {
    /// Wire the next dependency.
    pub fn dep(self, node: NodeRef<A>) -> (r: TraitAsyncComputeBuilder<'g, V, W, AC, ()>)
        ensures
            r.deps_view() == self.deps_view().push(node.id@),
            r.policy == self.policy,
            r.group == self.group,
            *r.graph == *old(self.graph),
            r.ac == self.ac,
    {
        let ghost d0 = self.deps_view();
        let mut dep_ids = self.dep_ids;
        dep_ids.push(node.id);
        let r = TraitAsyncComputeBuilder {
            graph: self.graph,
            ac: self.ac,
            dep_ids,
            policy: self.policy,
            group: self.group,
            _remaining: PhantomData,
        };
        assert(r.deps_view() =~= d0.push(node.id@));
        r
    }
}

/// A trait-based async compute node with 1 input(s): it hands out work
/// exactly when all of its inputs have a value.
#[verifier::reject_recursive_types(V)]
pub struct TraitAsyncComputeNode1<V, AC> {
    ac: AC,
    policy: AsyncPolicy,
    group_id: Option<usize>,
    _marker: PhantomData<V>,
}

impl<V, AC> TraitAsyncComputeNode1<V, AC> {
    /// The policy the node runs with.
    pub closed spec fn policy_view(&self) -> AsyncPolicy {
        self.policy
    }

    /// The concurrency group the node runs in, if any.
    pub closed spec fn group_view(&self) -> Option<usize> {
        self.group_id
    }

    /// The async computation the node runs.
    pub closed spec fn work_source(&self) -> AC {
        self.ac
    }
}

impl<V: Send + 'static, W: 'static, AC: AsyncCompute<Inputs = (V,), Output = V, Work = W> + Send + 'static> AsyncComputeDispatch<V, W, AC> for (V,) {
    type NodeImpl = TraitAsyncComputeNode1<V, AC>;

    fn make_node_impl(ac: AC, policy: AsyncPolicy, group_id: Option<usize>) -> (r: TraitAsyncComputeNode1<V, AC>)
        ensures
            r.work_source() == ac,
            r.policy_view() == policy,
            r.group_view() == group_id,
    {
        TraitAsyncComputeNode1 { ac, policy, group_id, _marker: PhantomData }
    }

    fn make_entry(id: NodeId, deps: Vec<NodeId>, ac: AC, policy: AsyncPolicy, group_id: Option<usize>) -> (r: NodeEntry<
        V,
        W,
    >) {
        NodeEntry {
            id,
            kind: NodeKind::AsyncCompute,
            deps,
            ref_count: 1,
            node_impl: Box::new(TraitAsyncComputeNode1 { ac, policy, group_id, _marker: PhantomData }),
        }
    }
}

impl<V: Send + 'static, W, AC: AsyncCompute<Inputs = (V,), Output = V, Work = W> + Send> AnyNodeImpl<V, W> for TraitAsyncComputeNode1<V, AC> {
    open spec fn chosen_policy(&self) -> AsyncPolicy {
        self.policy_view()
    }

    open spec fn chosen_group(&self) -> Option<usize> {
        self.group_view()
    }

    open spec fn gives_guard(&self) -> bool {
        false
    }

    fn activate(&mut self, _id: &NodeId, _tx: &mpsc::Sender<(NodeId, V)>) -> Option<Box<dyn ActivationGuard>> {
        None
    }

    closed spec fn computes(&self, inputs: Seq<Option<V>>, out: Option<V>) -> bool {
        out is None
    }

    fn compute(&self, _deps: &[NodeId], _store: &ValueStore<V>) -> (r: Option<V>) {
        None
    }

    fn emit(&self, _deps: &[NodeId], _store: &ValueStore<V>) {
    }

    open spec fn spec_kind(&self) -> NodeKind {
        NodeKind::AsyncCompute
    }

    fn kind(&self) -> (r: NodeKind) {
        NodeKind::AsyncCompute
    }

    closed spec fn starts(&self, inputs: Seq<Option<V>>, out: Option<W>) -> bool {
        if inputs.len() == 1 && inputs[0] is Some {
            out is Some
        } else {
            out is None
        }
    }

    fn compute_async(&self, deps: &[NodeId], store: &ValueStore<V>) -> (r: Option<W>) {
        if deps.len() != 1 {
            return None;
        }
        let a0 = match store.get_by_id(&deps[0]) {
            Some(v) => v,
            None => {
                return None;
            },
        };
        Some(self.ac.compute((a0,)))
    }

    fn async_policy(&self) -> (r: AsyncPolicy)
        ensures
            r == self.policy_view(),
    {
        self.policy
    }

    fn concurrency_group_id(&self) -> (r: Option<usize>)
        ensures
            r == self.group_view(),
    {
        self.group_id
    }
}

impl<'g, V, W, AC: AsyncCompute, A, B> TraitAsyncComputeBuilder<'g, V, W, AC, (A, B,)> {
    /// Wire the next dependency.
    pub fn dep(self, node: NodeRef<A>) -> (r: TraitAsyncComputeBuilder<'g, V, W, AC, (B,)>)
        ensures
            r.deps_view() == self.deps_view().push(node.id@),
            r.policy == self.policy,
            r.group == self.group,
            *r.graph == *old(self.graph),
            r.ac == self.ac,
    {
        let ghost d0 = self.deps_view();
        let mut dep_ids = self.dep_ids;
        dep_ids.push(node.id);
        let r = TraitAsyncComputeBuilder {
            graph: self.graph,
            ac: self.ac,
            dep_ids,
            policy: self.policy,
            group: self.group,
            _remaining: PhantomData,
        };
        assert(r.deps_view() =~= d0.push(node.id@));
        r
    }
}

/// A trait-based async compute node with 2 input(s): it hands out work
/// exactly when all of its inputs have a value.
#[verifier::reject_recursive_types(V)]
pub struct TraitAsyncComputeNode2<V, AC> {
    ac: AC,
    policy: AsyncPolicy,
    group_id: Option<usize>,
    _marker: PhantomData<V>,
}

impl<V, AC> TraitAsyncComputeNode2<V, AC> {
    /// The policy the node runs with.
    pub closed spec fn policy_view(&self) -> AsyncPolicy {
        self.policy
    }

    /// The concurrency group the node runs in, if any.
    pub closed spec fn group_view(&self) -> Option<usize> {
        self.group_id
    }

    /// The async computation the node runs.
    pub closed spec fn work_source(&self) -> AC {
        self.ac
    }
}

impl<V: Send + 'static, W: 'static, AC: AsyncCompute<Inputs = (V, V,), Output = V, Work = W> + Send + 'static> AsyncComputeDispatch<V, W, AC> for (V, V,) {
    type NodeImpl = TraitAsyncComputeNode2<V, AC>;

    fn make_node_impl(ac: AC, policy: AsyncPolicy, group_id: Option<usize>) -> (r: TraitAsyncComputeNode2<V, AC>)
        ensures
            r.work_source() == ac,
            r.policy_view() == policy,
            r.group_view() == group_id,
    {
        TraitAsyncComputeNode2 { ac, policy, group_id, _marker: PhantomData }
    }

    fn make_entry(id: NodeId, deps: Vec<NodeId>, ac: AC, policy: AsyncPolicy, group_id: Option<usize>) -> (r: NodeEntry<
        V,
        W,
    >) {
        NodeEntry {
            id,
            kind: NodeKind::AsyncCompute,
            deps,
            ref_count: 1,
            node_impl: Box::new(TraitAsyncComputeNode2 { ac, policy, group_id, _marker: PhantomData }),
        }
    }
}

impl<V: Send + 'static, W, AC: AsyncCompute<Inputs = (V, V,), Output = V, Work = W> + Send> AnyNodeImpl<V, W> for TraitAsyncComputeNode2<V, AC> {
    open spec fn chosen_policy(&self) -> AsyncPolicy {
        self.policy_view()
    }

    open spec fn chosen_group(&self) -> Option<usize> {
        self.group_view()
    }

    open spec fn gives_guard(&self) -> bool {
        false
    }

    fn activate(&mut self, _id: &NodeId, _tx: &mpsc::Sender<(NodeId, V)>) -> Option<Box<dyn ActivationGuard>> {
        None
    }

    closed spec fn computes(&self, inputs: Seq<Option<V>>, out: Option<V>) -> bool {
        out is None
    }

    fn compute(&self, _deps: &[NodeId], _store: &ValueStore<V>) -> (r: Option<V>) {
        None
    }

    fn emit(&self, _deps: &[NodeId], _store: &ValueStore<V>) {
    }

    open spec fn spec_kind(&self) -> NodeKind {
        NodeKind::AsyncCompute
    }

    fn kind(&self) -> (r: NodeKind) {
        NodeKind::AsyncCompute
    }

    closed spec fn starts(&self, inputs: Seq<Option<V>>, out: Option<W>) -> bool {
        if inputs.len() == 2 && inputs[0] is Some && inputs[1] is Some {
            out is Some
        } else {
            out is None
        }
    }

    fn compute_async(&self, deps: &[NodeId], store: &ValueStore<V>) -> (r: Option<W>) {
        if deps.len() != 2 {
            return None;
        }
        let a0 = match store.get_by_id(&deps[0]) {
            Some(v) => v,
            None => {
                return None;
            },
        };
        let a1 = match store.get_by_id(&deps[1]) {
            Some(v) => v,
            None => {
                return None;
            },
        };
        Some(self.ac.compute((a0, a1,)))
    }

    fn async_policy(&self) -> (r: AsyncPolicy)
        ensures
            r == self.policy_view(),
    {
        self.policy
    }

    fn concurrency_group_id(&self) -> (r: Option<usize>)
        ensures
            r == self.group_view(),
    {
        self.group_id
    }
}

impl<'g, V, W, AC: AsyncCompute, A, B, Cc> TraitAsyncComputeBuilder<'g, V, W, AC, (A, B, Cc,)> {
    /// Wire the next dependency.
    pub fn dep(self, node: NodeRef<A>) -> (r: TraitAsyncComputeBuilder<'g, V, W, AC, (B, Cc,)>)
        ensures
            r.deps_view() == self.deps_view().push(node.id@),
            r.policy == self.policy,
            r.group == self.group,
            *r.graph == *old(self.graph),
            r.ac == self.ac,
    {
        let ghost d0 = self.deps_view();
        let mut dep_ids = self.dep_ids;
        dep_ids.push(node.id);
        let r = TraitAsyncComputeBuilder {
            graph: self.graph,
            ac: self.ac,
            dep_ids,
            policy: self.policy,
            group: self.group,
            _remaining: PhantomData,
        };
        assert(r.deps_view() =~= d0.push(node.id@));
        r
    }
}

/// A trait-based async compute node with 3 input(s): it hands out work
/// exactly when all of its inputs have a value.
#[verifier::reject_recursive_types(V)]
pub struct TraitAsyncComputeNode3<V, AC> {
    ac: AC,
    policy: AsyncPolicy,
    group_id: Option<usize>,
    _marker: PhantomData<V>,
}

impl<V, AC> TraitAsyncComputeNode3<V, AC> {
    /// The policy the node runs with.
    pub closed spec fn policy_view(&self) -> AsyncPolicy {
        self.policy
    }

    /// The concurrency group the node runs in, if any.
    pub closed spec fn group_view(&self) -> Option<usize> {
        self.group_id
    }

    /// The async computation the node runs.
    pub closed spec fn work_source(&self) -> AC {
        self.ac
    }
}

impl<V: Send + 'static, W: 'static, AC: AsyncCompute<Inputs = (V, V, V,), Output = V, Work = W> + Send + 'static> AsyncComputeDispatch<V, W, AC> for (V, V, V,) {
    type NodeImpl = TraitAsyncComputeNode3<V, AC>;

    fn make_node_impl(ac: AC, policy: AsyncPolicy, group_id: Option<usize>) -> (r: TraitAsyncComputeNode3<V, AC>)
        ensures
            r.work_source() == ac,
            r.policy_view() == policy,
            r.group_view() == group_id,
    {
        TraitAsyncComputeNode3 { ac, policy, group_id, _marker: PhantomData }
    }

    fn make_entry(id: NodeId, deps: Vec<NodeId>, ac: AC, policy: AsyncPolicy, group_id: Option<usize>) -> (r: NodeEntry<
        V,
        W,
    >) {
        NodeEntry {
            id,
            kind: NodeKind::AsyncCompute,
            deps,
            ref_count: 1,
            node_impl: Box::new(TraitAsyncComputeNode3 { ac, policy, group_id, _marker: PhantomData }),
        }
    }
}

impl<V: Send + 'static, W, AC: AsyncCompute<Inputs = (V, V, V,), Output = V, Work = W> + Send> AnyNodeImpl<V, W> for TraitAsyncComputeNode3<V, AC> {
    open spec fn chosen_policy(&self) -> AsyncPolicy {
        self.policy_view()
    }

    open spec fn chosen_group(&self) -> Option<usize> {
        self.group_view()
    }

    open spec fn gives_guard(&self) -> bool {
        false
    }

    fn activate(&mut self, _id: &NodeId, _tx: &mpsc::Sender<(NodeId, V)>) -> Option<Box<dyn ActivationGuard>> {
        None
    }

    closed spec fn computes(&self, inputs: Seq<Option<V>>, out: Option<V>) -> bool {
        out is None
    }

    fn compute(&self, _deps: &[NodeId], _store: &ValueStore<V>) -> (r: Option<V>) {
        None
    }

    fn emit(&self, _deps: &[NodeId], _store: &ValueStore<V>) {
    }

    open spec fn spec_kind(&self) -> NodeKind {
        NodeKind::AsyncCompute
    }

    fn kind(&self) -> (r: NodeKind) {
        NodeKind::AsyncCompute
    }

    closed spec fn starts(&self, inputs: Seq<Option<V>>, out: Option<W>) -> bool {
        if inputs.len() == 3 && inputs[0] is Some && inputs[1] is Some && inputs[2] is Some {
            out is Some
        } else {
            out is None
        }
    }

    fn compute_async(&self, deps: &[NodeId], store: &ValueStore<V>) -> (r: Option<W>) {
        if deps.len() != 3 {
            return None;
        }
        let a0 = match store.get_by_id(&deps[0]) {
            Some(v) => v,
            None => {
                return None;
            },
        };
        let a1 = match store.get_by_id(&deps[1]) {
            Some(v) => v,
            None => {
                return None;
            },
        };
        let a2 = match store.get_by_id(&deps[2]) {
            Some(v) => v,
            None => {
                return None;
            },
        };
        Some(self.ac.compute((a0, a1, a2,)))
    }

    fn async_policy(&self) -> (r: AsyncPolicy)
        ensures
            r == self.policy_view(),
    {
        self.policy
    }

    fn concurrency_group_id(&self) -> (r: Option<usize>)
        ensures
            r == self.group_view(),
    {
        self.group_id
    }
}

impl<'g, V, W, AC: AsyncCompute, A, B, Cc, D> TraitAsyncComputeBuilder<'g, V, W, AC, (A, B, Cc, D,)> {
    /// Wire the next dependency.
    pub fn dep(self, node: NodeRef<A>) -> (r: TraitAsyncComputeBuilder<'g, V, W, AC, (B, Cc, D,)>)
        ensures
            r.deps_view() == self.deps_view().push(node.id@),
            r.policy == self.policy,
            r.group == self.group,
            *r.graph == *old(self.graph),
            r.ac == self.ac,
    {
        let ghost d0 = self.deps_view();
        let mut dep_ids = self.dep_ids;
        dep_ids.push(node.id);
        let r = TraitAsyncComputeBuilder {
            graph: self.graph,
            ac: self.ac,
            dep_ids,
            policy: self.policy,
            group: self.group,
            _remaining: PhantomData,
        };
        assert(r.deps_view() =~= d0.push(node.id@));
        r
    }
}

/// A trait-based async compute node with 4 input(s): it hands out work
/// exactly when all of its inputs have a value.
#[verifier::reject_recursive_types(V)]
pub struct TraitAsyncComputeNode4<V, AC> {
    ac: AC,
    policy: AsyncPolicy,
    group_id: Option<usize>,
    _marker: PhantomData<V>,
}

impl<V, AC> TraitAsyncComputeNode4<V, AC> {
    /// The policy the node runs with.
    pub closed spec fn policy_view(&self) -> AsyncPolicy {
        self.policy
    }

    /// The concurrency group the node runs in, if any.
    pub closed spec fn group_view(&self) -> Option<usize> {
        self.group_id
    }

    /// The async computation the node runs.
    pub closed spec fn work_source(&self) -> AC {
        self.ac
    }
}

impl<V: Send + 'static, W: 'static, AC: AsyncCompute<Inputs = (V, V, V, V,), Output = V, Work = W> + Send + 'static> AsyncComputeDispatch<V, W, AC> for (V, V, V, V,) {
    type NodeImpl = TraitAsyncComputeNode4<V, AC>;

    fn make_node_impl(ac: AC, policy: AsyncPolicy, group_id: Option<usize>) -> (r: TraitAsyncComputeNode4<V, AC>)
        ensures
            r.work_source() == ac,
            r.policy_view() == policy,
            r.group_view() == group_id,
    {
        TraitAsyncComputeNode4 { ac, policy, group_id, _marker: PhantomData }
    }

    fn make_entry(id: NodeId, deps: Vec<NodeId>, ac: AC, policy: AsyncPolicy, group_id: Option<usize>) -> (r: NodeEntry<
        V,
        W,
    >) {
        NodeEntry {
            id,
            kind: NodeKind::AsyncCompute,
            deps,
            ref_count: 1,
            node_impl: Box::new(TraitAsyncComputeNode4 { ac, policy, group_id, _marker: PhantomData }),
        }
    }
}

impl<V: Send + 'static, W, AC: AsyncCompute<Inputs = (V, V, V, V,), Output = V, Work = W> + Send> AnyNodeImpl<V, W> for TraitAsyncComputeNode4<V, AC> {
    open spec fn chosen_policy(&self) -> AsyncPolicy {
        self.policy_view()
    }

    open spec fn chosen_group(&self) -> Option<usize> {
        self.group_view()
    }

    open spec fn gives_guard(&self) -> bool {
        false
    }

    fn activate(&mut self, _id: &NodeId, _tx: &mpsc::Sender<(NodeId, V)>) -> Option<Box<dyn ActivationGuard>> {
        None
    }

    closed spec fn computes(&self, inputs: Seq<Option<V>>, out: Option<V>) -> bool {
        out is None
    }

    fn compute(&self, _deps: &[NodeId], _store: &ValueStore<V>) -> (r: Option<V>) {
        None
    }

    fn emit(&self, _deps: &[NodeId], _store: &ValueStore<V>) {
    }

    open spec fn spec_kind(&self) -> NodeKind {
        NodeKind::AsyncCompute
    }

    fn kind(&self) -> (r: NodeKind) {
        NodeKind::AsyncCompute
    }

    closed spec fn starts(&self, inputs: Seq<Option<V>>, out: Option<W>) -> bool {
        if inputs.len() == 4 && inputs[0] is Some && inputs[1] is Some && inputs[2] is Some && inputs[3] is Some {
            out is Some
        } else {
            out is None
        }
    }

    fn compute_async(&self, deps: &[NodeId], store: &ValueStore<V>) -> (r: Option<W>) {
        if deps.len() != 4 {
            return None;
        }
        let a0 = match store.get_by_id(&deps[0]) {
            Some(v) => v,
            None => {
                return None;
            },
        };
        let a1 = match store.get_by_id(&deps[1]) {
            Some(v) => v,
            None => {
                return None;
            },
        };
        let a2 = match store.get_by_id(&deps[2]) {
            Some(v) => v,
            None => {
                return None;
            },
        };
        let a3 = match store.get_by_id(&deps[3]) {
            Some(v) => v,
            None => {
                return None;
            },
        };
        Some(self.ac.compute((a0, a1, a2, a3,)))
    }

    fn async_policy(&self) -> (r: AsyncPolicy)
        ensures
            r == self.policy_view(),
    {
        self.policy
    }

    fn concurrency_group_id(&self) -> (r: Option<usize>)
        ensures
            r == self.group_view(),
    {
        self.group_id
    }
}

impl<'g, V, W, AC: AsyncCompute, A, B, Cc, D, E> TraitAsyncComputeBuilder<'g, V, W, AC, (A, B, Cc, D, E,)> {
    /// Wire the next dependency.
    pub fn dep(self, node: NodeRef<A>) -> (r: TraitAsyncComputeBuilder<'g, V, W, AC, (B, Cc, D, E,)>)
        ensures
            r.deps_view() == self.deps_view().push(node.id@),
            r.policy == self.policy,
            r.group == self.group,
            *r.graph == *old(self.graph),
            r.ac == self.ac,
    {
        let ghost d0 = self.deps_view();
        let mut dep_ids = self.dep_ids;
        dep_ids.push(node.id);
        let r = TraitAsyncComputeBuilder {
            graph: self.graph,
            ac: self.ac,
            dep_ids,
            policy: self.policy,
            group: self.group,
            _remaining: PhantomData,
        };
        assert(r.deps_view() =~= d0.push(node.id@));
        r
    }
}

/// A trait-based async compute node with 5 input(s): it hands out work
/// exactly when all of its inputs have a value.
#[verifier::reject_recursive_types(V)]
pub struct TraitAsyncComputeNode5<V, AC> {
    ac: AC,
    policy: AsyncPolicy,
    group_id: Option<usize>,
    _marker: PhantomData<V>,
}

impl<V, AC> TraitAsyncComputeNode5<V, AC> {
    /// The policy the node runs with.
    pub closed spec fn policy_view(&self) -> AsyncPolicy {
        self.policy
    }

    /// The concurrency group the node runs in, if any.
    pub closed spec fn group_view(&self) -> Option<usize> {
        self.group_id
    }

    /// The async computation the node runs.
    pub closed spec fn work_source(&self) -> AC {
        self.ac
    }
}

impl<V: Send + 'static, W: 'static, AC: AsyncCompute<Inputs = (V, V, V, V, V,), Output = V, Work = W> + Send + 'static> AsyncComputeDispatch<V, W, AC> for (V, V, V, V, V,) {
    type NodeImpl = TraitAsyncComputeNode5<V, AC>;

    fn make_node_impl(ac: AC, policy: AsyncPolicy, group_id: Option<usize>) -> (r: TraitAsyncComputeNode5<V, AC>)
        ensures
            r.work_source() == ac,
            r.policy_view() == policy,
            r.group_view() == group_id,
    {
        TraitAsyncComputeNode5 { ac, policy, group_id, _marker: PhantomData }
    }

    fn make_entry(id: NodeId, deps: Vec<NodeId>, ac: AC, policy: AsyncPolicy, group_id: Option<usize>) -> (r: NodeEntry<
        V,
        W,
    >) {
        NodeEntry {
            id,
            kind: NodeKind::AsyncCompute,
            deps,
            ref_count: 1,
            node_impl: Box::new(TraitAsyncComputeNode5 { ac, policy, group_id, _marker: PhantomData }),
        }
    }
}

impl<V: Send + 'static, W, AC: AsyncCompute<Inputs = (V, V, V, V, V,), Output = V, Work = W> + Send> AnyNodeImpl<V, W> for TraitAsyncComputeNode5<V, AC> {
    open spec fn chosen_policy(&self) -> AsyncPolicy {
        self.policy_view()
    }

    open spec fn chosen_group(&self) -> Option<usize> {
        self.group_view()
    }

    open spec fn gives_guard(&self) -> bool {
        false
    }

    fn activate(&mut self, _id: &NodeId, _tx: &mpsc::Sender<(NodeId, V)>) -> Option<Box<dyn ActivationGuard>> {
        None
    }

    closed spec fn computes(&self, inputs: Seq<Option<V>>, out: Option<V>) -> bool {
        out is None
    }

    fn compute(&self, _deps: &[NodeId], _store: &ValueStore<V>) -> (r: Option<V>) {
        None
    }

    fn emit(&self, _deps: &[NodeId], _store: &ValueStore<V>) {
    }

    open spec fn spec_kind(&self) -> NodeKind {
        NodeKind::AsyncCompute
    }

    fn kind(&self) -> (r: NodeKind) {
        NodeKind::AsyncCompute
    }

    closed spec fn starts(&self, inputs: Seq<Option<V>>, out: Option<W>) -> bool {
        if inputs.len() == 5 && inputs[0] is Some && inputs[1] is Some && inputs[2] is Some && inputs[3] is Some && inputs[4] is Some {
            out is Some
        } else {
            out is None
        }
    }

    fn compute_async(&self, deps: &[NodeId], store: &ValueStore<V>) -> (r: Option<W>) {
        if deps.len() != 5 {
            return None;
        }
        let a0 = match store.get_by_id(&deps[0]) {
            Some(v) => v,
            None => {
                return None;
            },
        };
        let a1 = match store.get_by_id(&deps[1]) {
            Some(v) => v,
            None => {
                return None;
            },
        };
        let a2 = match store.get_by_id(&deps[2]) {
            Some(v) => v,
            None => {
                return None;
            },
        };
        let a3 = match store.get_by_id(&deps[3]) {
            Some(v) => v,
            None => {
                return None;
            },
        };
        let a4 = match store.get_by_id(&deps[4]) {
            Some(v) => v,
            None => {
                return None;
            },
        };
        Some(self.ac.compute((a0, a1, a2, a3, a4,)))
    }

    fn async_policy(&self) -> (r: AsyncPolicy)
        ensures
            r == self.policy_view(),
    {
        self.policy
    }

    fn concurrency_group_id(&self) -> (r: Option<usize>)
        ensures
            r == self.group_view(),
    {
        self.group_id
    }
}

impl<'g, V, W, AC: AsyncCompute, A, B, Cc, D, E, Ff> TraitAsyncComputeBuilder<'g, V, W, AC, (A, B, Cc, D, E, Ff,)> {
    /// Wire the next dependency.
    pub fn dep(self, node: NodeRef<A>) -> (r: TraitAsyncComputeBuilder<'g, V, W, AC, (B, Cc, D, E, Ff,)>)
        ensures
            r.deps_view() == self.deps_view().push(node.id@),
            r.policy == self.policy,
            r.group == self.group,
            *r.graph == *old(self.graph),
            r.ac == self.ac,
    {
        let ghost d0 = self.deps_view();
        let mut dep_ids = self.dep_ids;
        dep_ids.push(node.id);
        let r = TraitAsyncComputeBuilder {
            graph: self.graph,
            ac: self.ac,
            dep_ids,
            policy: self.policy,
            group: self.group,
            _remaining: PhantomData,
        };
        assert(r.deps_view() =~= d0.push(node.id@));
        r
    }
}

/// A trait-based async compute node with 6 input(s): it hands out work
/// exactly when all of its inputs have a value.
#[verifier::reject_recursive_types(V)]
pub struct TraitAsyncComputeNode6<V, AC> {
    ac: AC,
    policy: AsyncPolicy,
    group_id: Option<usize>,
    _marker: PhantomData<V>,
}

impl<V, AC> TraitAsyncComputeNode6<V, AC> {
    /// The policy the node runs with.
    pub closed spec fn policy_view(&self) -> AsyncPolicy {
        self.policy
    }

    /// The concurrency group the node runs in, if any.
    pub closed spec fn group_view(&self) -> Option<usize> {
        self.group_id
    }

    /// The async computation the node runs.
    pub closed spec fn work_source(&self) -> AC {
        self.ac
    }
}

impl<V: Send + 'static, W: 'static, AC: AsyncCompute<Inputs = (V, V, V, V, V, V,), Output = V, Work = W> + Send + 'static> AsyncComputeDispatch<V, W, AC> for (V, V, V, V, V, V,) {
    type NodeImpl = TraitAsyncComputeNode6<V, AC>;

    fn make_node_impl(ac: AC, policy: AsyncPolicy, group_id: Option<usize>) -> (r: TraitAsyncComputeNode6<V, AC>)
        ensures
            r.work_source() == ac,
            r.policy_view() == policy,
            r.group_view() == group_id,
    {
        TraitAsyncComputeNode6 { ac, policy, group_id, _marker: PhantomData }
    }

    fn make_entry(id: NodeId, deps: Vec<NodeId>, ac: AC, policy: AsyncPolicy, group_id: Option<usize>) -> (r: NodeEntry<
        V,
        W,
    >) {
        NodeEntry {
            id,
            kind: NodeKind::AsyncCompute,
            deps,
            ref_count: 1,
            node_impl: Box::new(TraitAsyncComputeNode6 { ac, policy, group_id, _marker: PhantomData }),
        }
    }
}

impl<V: Send + 'static, W, AC: AsyncCompute<Inputs = (V, V, V, V, V, V,), Output = V, Work = W> + Send> AnyNodeImpl<V, W> for TraitAsyncComputeNode6<V, AC> {
    open spec fn chosen_policy(&self) -> AsyncPolicy {
        self.policy_view()
    }

    open spec fn chosen_group(&self) -> Option<usize> {
        self.group_view()
    }

    open spec fn gives_guard(&self) -> bool {
        false
    }

    fn activate(&mut self, _id: &NodeId, _tx: &mpsc::Sender<(NodeId, V)>) -> Option<Box<dyn ActivationGuard>> {
        None
    }

    closed spec fn computes(&self, inputs: Seq<Option<V>>, out: Option<V>) -> bool {
        out is None
    }

    fn compute(&self, _deps: &[NodeId], _store: &ValueStore<V>) -> (r: Option<V>) {
        None
    }

    fn emit(&self, _deps: &[NodeId], _store: &ValueStore<V>) {
    }

    open spec fn spec_kind(&self) -> NodeKind {
        NodeKind::AsyncCompute
    }

    fn kind(&self) -> (r: NodeKind) {
        NodeKind::AsyncCompute
    }

    closed spec fn starts(&self, inputs: Seq<Option<V>>, out: Option<W>) -> bool {
        if inputs.len() == 6 && inputs[0] is Some && inputs[1] is Some && inputs[2] is Some && inputs[3] is Some && inputs[4] is Some && inputs[5] is Some {
            out is Some
        } else {
            out is None
        }
    }

    fn compute_async(&self, deps: &[NodeId], store: &ValueStore<V>) -> (r: Option<W>) {
        if deps.len() != 6 {
            return None;
        }
        let a0 = match store.get_by_id(&deps[0]) {
            Some(v) => v,
            None => {
                return None;
            },
        };
        let a1 = match store.get_by_id(&deps[1]) {
            Some(v) => v,
            None => {
                return None;
            },
        };
        let a2 = match store.get_by_id(&deps[2]) {
            Some(v) => v,
            None => {
                return None;
            },
        };
        let a3 = match store.get_by_id(&deps[3]) {
            Some(v) => v,
            None => {
                return None;
            },
        };
        let a4 = match store.get_by_id(&deps[4]) {
            Some(v) => v,
            None => {
                return None;
            },
        };
        let a5 = match store.get_by_id(&deps[5]) {
            Some(v) => v,
            None => {
                return None;
            },
        };
        Some(self.ac.compute((a0, a1, a2, a3, a4, a5,)))
    }

    fn async_policy(&self) -> (r: AsyncPolicy)
        ensures
            r == self.policy_view(),
    {
        self.policy
    }

    fn concurrency_group_id(&self) -> (r: Option<usize>)
        ensures
            r == self.group_view(),
    {
        self.group_id
    }
}

impl<'g, V, W, AC: AsyncCompute, A, B, Cc, D, E, Ff, G> TraitAsyncComputeBuilder<'g, V, W, AC, (A, B, Cc, D, E, Ff, G,)> {
    /// Wire the next dependency.
    pub fn dep(self, node: NodeRef<A>) -> (r: TraitAsyncComputeBuilder<'g, V, W, AC, (B, Cc, D, E, Ff, G,)>)
        ensures
            r.deps_view() == self.deps_view().push(node.id@),
            r.policy == self.policy,
            r.group == self.group,
            *r.graph == *old(self.graph),
            r.ac == self.ac,
    {
        let ghost d0 = self.deps_view();
        let mut dep_ids = self.dep_ids;
        dep_ids.push(node.id);
        let r = TraitAsyncComputeBuilder {
            graph: self.graph,
            ac: self.ac,
            dep_ids,
            policy: self.policy,
            group: self.group,
            _remaining: PhantomData,
        };
        assert(r.deps_view() =~= d0.push(node.id@));
        r
    }
}

/// A trait-based async compute node with 7 input(s): it hands out work
/// exactly when all of its inputs have a value.
#[verifier::reject_recursive_types(V)]
pub struct TraitAsyncComputeNode7<V, AC> {
    ac: AC,
    policy: AsyncPolicy,
    group_id: Option<usize>,
    _marker: PhantomData<V>,
}

impl<V, AC> TraitAsyncComputeNode7<V, AC> {
    /// The policy the node runs with.
    pub closed spec fn policy_view(&self) -> AsyncPolicy {
        self.policy
    }

    /// The concurrency group the node runs in, if any.
    pub closed spec fn group_view(&self) -> Option<usize> {
        self.group_id
    }

    /// The async computation the node runs.
    pub closed spec fn work_source(&self) -> AC {
        self.ac
    }
}

impl<V: Send + 'static, W: 'static, AC: AsyncCompute<Inputs = (V, V, V, V, V, V, V,), Output = V, Work = W> + Send + 'static> AsyncComputeDispatch<V, W, AC> for (V, V, V, V, V, V, V,) {
    type NodeImpl = TraitAsyncComputeNode7<V, AC>;

    fn make_node_impl(ac: AC, policy: AsyncPolicy, group_id: Option<usize>) -> (r: TraitAsyncComputeNode7<V, AC>)
        ensures
            r.work_source() == ac,
            r.policy_view() == policy,
            r.group_view() == group_id,
    {
        TraitAsyncComputeNode7 { ac, policy, group_id, _marker: PhantomData }
    }

    fn make_entry(id: NodeId, deps: Vec<NodeId>, ac: AC, policy: AsyncPolicy, group_id: Option<usize>) -> (r: NodeEntry<
        V,
        W,
    >) {
        NodeEntry {
            id,
            kind: NodeKind::AsyncCompute,
            deps,
            ref_count: 1,
            node_impl: Box::new(TraitAsyncComputeNode7 { ac, policy, group_id, _marker: PhantomData }),
        }
    }
}

impl<V: Send + 'static, W, AC: AsyncCompute<Inputs = (V, V, V, V, V, V, V,), Output = V, Work = W> + Send> AnyNodeImpl<V, W> for TraitAsyncComputeNode7<V, AC> {
    open spec fn chosen_policy(&self) -> AsyncPolicy {
        self.policy_view()
    }

    open spec fn chosen_group(&self) -> Option<usize> {
        self.group_view()
    }

    open spec fn gives_guard(&self) -> bool {
        false
    }

    fn activate(&mut self, _id: &NodeId, _tx: &mpsc::Sender<(NodeId, V)>) -> Option<Box<dyn ActivationGuard>> {
        None
    }

    closed spec fn computes(&self, inputs: Seq<Option<V>>, out: Option<V>) -> bool {
        out is None
    }

    fn compute(&self, _deps: &[NodeId], _store: &ValueStore<V>) -> (r: Option<V>) {
        None
    }

    fn emit(&self, _deps: &[NodeId], _store: &ValueStore<V>) {
    }

    open spec fn spec_kind(&self) -> NodeKind {
        NodeKind::AsyncCompute
    }

    fn kind(&self) -> (r: NodeKind) {
        NodeKind::AsyncCompute
    }

    closed spec fn starts(&self, inputs: Seq<Option<V>>, out: Option<W>) -> bool {
        if inputs.len() == 7 && inputs[0] is Some && inputs[1] is Some && inputs[2] is Some && inputs[3] is Some && inputs[4] is Some && inputs[5] is Some && inputs[6] is Some {
            out is Some
        } else {
            out is None
        }
    }

    fn compute_async(&self, deps: &[NodeId], store: &ValueStore<V>) -> (r: Option<W>) {
        if deps.len() != 7 {
            return None;
        }
        let a0 = match store.get_by_id(&deps[0]) {
            Some(v) => v,
            None => {
                return None;
            },
        };
        let a1 = match store.get_by_id(&deps[1]) {
            Some(v) => v,
            None => {
                return None;
            },
        };
        let a2 = match store.get_by_id(&deps[2]) {
            Some(v) => v,
            None => {
                return None;
            },
        };
        let a3 = match store.get_by_id(&deps[3]) {
            Some(v) => v,
            None => {
                return None;
            },
        };
        let a4 = match store.get_by_id(&deps[4]) {
            Some(v) => v,
            None => {
                return None;
            },
        };
        let a5 = match store.get_by_id(&deps[5]) {
            Some(v) => v,
            None => {
                return None;
            },
        };
        let a6 = match store.get_by_id(&deps[6]) {
            Some(v) => v,
            None => {
                return None;
            },
        };
        Some(self.ac.compute((a0, a1, a2, a3, a4, a5, a6,)))
    }

    fn async_policy(&self) -> (r: AsyncPolicy)
        ensures
            r == self.policy_view(),
    {
        self.policy
    }

    fn concurrency_group_id(&self) -> (r: Option<usize>)
        ensures
            r == self.group_view(),
    {
        self.group_id
    }
}

impl<'g, V, W, AC: AsyncCompute, A, B, Cc, D, E, Ff, G, H> TraitAsyncComputeBuilder<'g, V, W, AC, (A, B, Cc, D, E, Ff, G, H,)> {
    /// Wire the next dependency.
    pub fn dep(self, node: NodeRef<A>) -> (r: TraitAsyncComputeBuilder<'g, V, W, AC, (B, Cc, D, E, Ff, G, H,)>)
        ensures
            r.deps_view() == self.deps_view().push(node.id@),
            r.policy == self.policy,
            r.group == self.group,
            *r.graph == *old(self.graph),
            r.ac == self.ac,
    {
        let ghost d0 = self.deps_view();
        let mut dep_ids = self.dep_ids;
        dep_ids.push(node.id);
        let r = TraitAsyncComputeBuilder {
            graph: self.graph,
            ac: self.ac,
            dep_ids,
            policy: self.policy,
            group: self.group,
            _remaining: PhantomData,
        };
        assert(r.deps_view() =~= d0.push(node.id@));
        r
    }
}

/// A trait-based async compute node with 8 input(s): it hands out work
/// exactly when all of its inputs have a value.
#[verifier::reject_recursive_types(V)]
pub struct TraitAsyncComputeNode8<V, AC> {
    ac: AC,
    policy: AsyncPolicy,
    group_id: Option<usize>,
    _marker: PhantomData<V>,
}

impl<V, AC> TraitAsyncComputeNode8<V, AC> {
    /// The policy the node runs with.
    pub closed spec fn policy_view(&self) -> AsyncPolicy {
        self.policy
    }

    /// The concurrency group the node runs in, if any.
    pub closed spec fn group_view(&self) -> Option<usize> {
        self.group_id
    }

    /// The async computation the node runs.
    pub closed spec fn work_source(&self) -> AC {
        self.ac
    }
}

impl<V: Send + 'static, W: 'static, AC: AsyncCompute<Inputs = (V, V, V, V, V, V, V, V,), Output = V, Work = W> + Send + 'static> AsyncComputeDispatch<V, W, AC> for (V, V, V, V, V, V, V, V,) {
    type NodeImpl = TraitAsyncComputeNode8<V, AC>;

    fn make_node_impl(ac: AC, policy: AsyncPolicy, group_id: Option<usize>) -> (r: TraitAsyncComputeNode8<V, AC>)
        ensures
            r.work_source() == ac,
            r.policy_view() == policy,
            r.group_view() == group_id,
    {
        TraitAsyncComputeNode8 { ac, policy, group_id, _marker: PhantomData }
    }

    fn make_entry(id: NodeId, deps: Vec<NodeId>, ac: AC, policy: AsyncPolicy, group_id: Option<usize>) -> (r: NodeEntry<
        V,
        W,
    >) {
        NodeEntry {
            id,
            kind: NodeKind::AsyncCompute,
            deps,
            ref_count: 1,
            node_impl: Box::new(TraitAsyncComputeNode8 { ac, policy, group_id, _marker: PhantomData }),
        }
    }
}

impl<V: Send + 'static, W, AC: AsyncCompute<Inputs = (V, V, V, V, V, V, V, V,), Output = V, Work = W> + Send> AnyNodeImpl<V, W> for TraitAsyncComputeNode8<V, AC> {
    open spec fn chosen_policy(&self) -> AsyncPolicy {
        self.policy_view()
    }

    open spec fn chosen_group(&self) -> Option<usize> {
        self.group_view()
    }

    open spec fn gives_guard(&self) -> bool {
        false
    }

    fn activate(&mut self, _id: &NodeId, _tx: &mpsc::Sender<(NodeId, V)>) -> Option<Box<dyn ActivationGuard>> {
        None
    }

    closed spec fn computes(&self, inputs: Seq<Option<V>>, out: Option<V>) -> bool {
        out is None
    }

    fn compute(&self, _deps: &[NodeId], _store: &ValueStore<V>) -> (r: Option<V>) {
        None
    }

    fn emit(&self, _deps: &[NodeId], _store: &ValueStore<V>) {
    }

    open spec fn spec_kind(&self) -> NodeKind {
        NodeKind::AsyncCompute
    }

    fn kind(&self) -> (r: NodeKind) {
        NodeKind::AsyncCompute
    }

    closed spec fn starts(&self, inputs: Seq<Option<V>>, out: Option<W>) -> bool {
        if inputs.len() == 8 && inputs[0] is Some && inputs[1] is Some && inputs[2] is Some && inputs[3] is Some && inputs[4] is Some && inputs[5] is Some && inputs[6] is Some && inputs[7] is Some {
            out is Some
        } else {
            out is None
        }
    }

    fn compute_async(&self, deps: &[NodeId], store: &ValueStore<V>) -> (r: Option<W>) {
        if deps.len() != 8 {
            return None;
        }
        let a0 = match store.get_by_id(&deps[0]) {
            Some(v) => v,
            None => {
                return None;
            },
        };
        let a1 = match store.get_by_id(&deps[1]) {
            Some(v) => v,
            None => {
                return None;
            },
        };
        let a2 = match store.get_by_id(&deps[2]) {
            Some(v) => v,
            None => {
                return None;
            },
        };
        let a3 = match store.get_by_id(&deps[3]) {
            Some(v) => v,
            None => {
                return None;
            },
        };
        let a4 = match store.get_by_id(&deps[4]) {
            Some(v) => v,
            None => {
                return None;
            },
        };
        let a5 = match store.get_by_id(&deps[5]) {
            Some(v) => v,
            None => {
                return None;
            },
        };
        let a6 = match store.get_by_id(&deps[6]) {
            Some(v) => v,
            None => {
                return None;
            },
        };
        let a7 = match store.get_by_id(&deps[7]) {
            Some(v) => v,
            None => {
                return None;
            },
        };
        Some(self.ac.compute((a0, a1, a2, a3, a4, a5, a6, a7,)))
    }

    fn async_policy(&self) -> (r: AsyncPolicy)
        ensures
            r == self.policy_view(),
    {
        self.policy
    }

    fn concurrency_group_id(&self) -> (r: Option<usize>)
        ensures
            r == self.group_view(),
    {
        self.group_id
    }
}

} // verus!
