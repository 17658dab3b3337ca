use crate::graph::{added_node, ActivationGuard, AnyNodeImpl, AsyncPolicy, Graph, NodeKind};
use crate::node_ref::{ids_view, NodeId, NodeKey, NodeRef, NodeScope};
use crate::value_store::ValueStore;
use std::marker::PhantomData;
use std::sync::mpsc;
use vstd::prelude::*;

verus! {

/// Builder for closure-based sink nodes.
pub struct SinkBuilder<Deps> {
    pub(crate) key: String,
    pub(crate) dep_ids: Vec<NodeId>,
    pub(crate) _marker: PhantomData<Deps>,
}

impl<Deps> SinkBuilder<Deps> {
    /// The key the node will be registered under.
    pub closed spec fn key_view(&self) -> Seq<char> {
        self.key@
    }

    /// The dependencies wired so far, in order.
    pub closed spec fn deps_view(&self) -> Seq<NodeKey> {
        ids_view(self.dep_ids@)
    }
}

impl SinkBuilder<()> {
    /// Start building a sink under `key`, with no dependencies yet.
    pub fn new(key: &str) -> (r: Self)
        ensures
            r.key_view() == key@,
            r.deps_view() == Seq::<NodeKey>::empty(),
    {
        let r = SinkBuilder { key: key.to_string(), dep_ids: Vec::new(), _marker: PhantomData };
        assert(r.deps_view() =~= Seq::<NodeKey>::empty());
        r
    }

    /// Wire the first dependency.
    pub fn dep<A>(self, node: NodeRef<A>) -> (r: SinkBuilder<(A,)>)
        ensures
            r.key_view() == self.key_view(),
            r.deps_view() == self.deps_view().push(node.id@),
    {
        let mut dep_ids = self.dep_ids;
        dep_ids.push(node.id);
        let r = SinkBuilder { key: self.key, dep_ids, _marker: PhantomData };
        assert(r.deps_view() =~= self.deps_view().push(node.id@));
        r
    }
}

/// Builder after `.on_emit()` has been called.
#[verifier::reject_recursive_types(V)]
#[verifier::reject_recursive_types(W)]
pub struct SinkBuilderReady<V, W> {
    key: String,
    dep_ids: Vec<NodeId>,
    node_impl: Box<dyn AnyNodeImpl<V, W>>,
}

impl<V, W> SinkBuilderReady<V, W> {
    /// The key the node will be registered under.
    pub closed spec fn key_view(&self) -> Seq<char> {
        self.key@
    }

    /// The dependencies of the node, in order.
    pub closed spec fn deps_view(&self) -> Seq<NodeKey> {
        ids_view(self.dep_ids@)
    }

    /// Consume into key, dependency ids and node implementation.
    pub fn into_parts(self) -> (r: (String, Vec<NodeId>, Box<dyn AnyNodeImpl<V, W>>))
        ensures
            r.0@ == self.key_view(),
            ids_view(r.1@) == self.deps_view(),
    {
        (self.key, self.dep_ids, self.node_impl)
    }

    /// Finalize and register the sink in the graph.
    pub fn build(self, graph: &mut Graph<V, W>) -> (r: NodeRef<()>)
        requires
            old(graph).wf(),
            old(graph).room_for((NodeScope::ClosureSink, self.key_view())),
        ensures
            r.id@ == (NodeScope::ClosureSink, self.key_view()),
            final(graph).wf(),
            added_node(old(graph).nodes(), final(graph).nodes(), r.id@, NodeKind::Sink, self.deps_view()),
            final(graph).values() == old(graph).values(),
    {
        let (key, dep_ids, node_impl) = self.into_parts();
        let id = NodeId::scoped(NodeScope::ClosureSink, key.as_str());
        let node_ref = NodeRef { id: id.clone(), _marker: PhantomData };
        graph.add_entry(id, NodeKind::Sink, dep_ids, node_impl);
        node_ref
    }
}

/// What calling a sink closure of 1 argument(s) on `inputs` means: when
/// there are exactly 1 inputs and all have a value, the closure was called
/// with them, argument `i` being the value of the `i`-th dependency.
pub open spec fn closure_emits_1<V, F: Fn(&V)>(f: F, inputs: Seq<Option<V>>) -> bool {
    if inputs.len() == 1 && inputs[0] is Some {
        call_ensures(f, (&inputs[0]->0,), ())
    } else {
        true
    }
}

/// Type-erased sink implementation that stores a closure of 1 argument(s).
#[verifier::reject_recursive_types(V)]
pub struct ClosureSinkNode1<V, F: Fn(&V)> {
    emit_fn: F,
    _marker: PhantomData<V>,
}

impl<V, F: Fn(&V)> ClosureSinkNode1<V, F> {
    /// The closure the sink calls.
    pub closed spec fn callback(&self) -> F {
        self.emit_fn
    }

    #[verifier::type_invariant]
    closed spec fn callable(self) -> bool {
        forall|a0: &V| call_requires(self.emit_fn, (a0,))
    }
}

impl<V: Send, W, F: Fn(&V) + Send> AnyNodeImpl<V, W> for ClosureSinkNode1<V, F> {
    fn async_policy(&self) -> (r: AsyncPolicy) {
        AsyncPolicy::LatestWins
    }

    fn concurrency_group_id(&self) -> (r: Option<usize>) {
        None
    }

    open spec fn gives_guard(&self) -> bool {
        false
    }

    fn activate(&mut self, _id: &NodeId, _tx: &mpsc::Sender<(NodeId, V)>) -> Option<Box<dyn ActivationGuard>> {
        None
    }

    closed spec fn computes(&self, inputs: Seq<Option<V>>, out: Option<V>) -> bool {
        out is None
    }

    fn compute(&self, _deps: &[NodeId], _store: &ValueStore<V>) -> (r: Option<V>) {
        None
    }

    closed spec fn emits(&self, inputs: Seq<Option<V>>) -> bool {
        closure_emits_1(self.emit_fn, inputs)
    }

    fn emit(&self, deps: &[NodeId], store: &ValueStore<V>) {
        proof {
            use_type_invariant(self);
        }
        if deps.len() != 1 {
            return;
        }
        let a0 = match store.get_by_id(&deps[0]) {
            Some(v) => v,
            None => {
                return;
            },
        };
        (self.emit_fn)(a0);
    }

    open spec fn spec_kind(&self) -> NodeKind {
        NodeKind::Sink
    }

    fn kind(&self) -> (r: NodeKind) {
        NodeKind::Sink
    }

    closed spec fn starts(&self, inputs: Seq<Option<V>>, out: Option<W>) -> bool {
        out is None
    }

    fn compute_async(&self, _deps: &[NodeId], _store: &ValueStore<V>) -> (r: Option<W>) {
        None
    }
}

/// What calling a sink closure of 2 argument(s) on `inputs` means: when
/// there are exactly 2 inputs and all have a value, the closure was called
/// with them, argument `i` being the value of the `i`-th dependency.
pub open spec fn closure_emits_2<V, F: Fn(&V, &V)>(f: F, inputs: Seq<Option<V>>) -> bool {
    if inputs.len() == 2 && inputs[0] is Some && inputs[1] is Some {
        call_ensures(f, (&inputs[0]->0, &inputs[1]->0,), ())
    } else {
        true
    }
}

/// Type-erased sink implementation that stores a closure of 2 argument(s).
#[verifier::reject_recursive_types(V)]
pub struct ClosureSinkNode2<V, F: Fn(&V, &V)> {
    emit_fn: F,
    _marker: PhantomData<V>,
}

impl<V, F: Fn(&V, &V)> ClosureSinkNode2<V, F> {
    /// The closure the sink calls.
    pub closed spec fn callback(&self) -> F {
        self.emit_fn
    }

    #[verifier::type_invariant]
    closed spec fn callable(self) -> bool {
        forall|a0: &V, a1: &V| call_requires(self.emit_fn, (a0, a1,))
    }
}

impl<V: Send, W, F: Fn(&V, &V) + Send> AnyNodeImpl<V, W> for ClosureSinkNode2<V, F> {
    fn async_policy(&self) -> (r: AsyncPolicy) {
        AsyncPolicy::LatestWins
    }

    fn concurrency_group_id(&self) -> (r: Option<usize>) {
        None
    }

    open spec fn gives_guard(&self) -> bool {
        false
    }

    fn activate(&mut self, _id: &NodeId, _tx: &mpsc::Sender<(NodeId, V)>) -> Option<Box<dyn ActivationGuard>> {
        None
    }

    closed spec fn computes(&self, inputs: Seq<Option<V>>, out: Option<V>) -> bool {
        out is None
    }

    fn compute(&self, _deps: &[NodeId], _store: &ValueStore<V>) -> (r: Option<V>) {
        None
    }

    closed spec fn emits(&self, inputs: Seq<Option<V>>) -> bool {
        closure_emits_2(self.emit_fn, inputs)
    }

    fn emit(&self, deps: &[NodeId], store: &ValueStore<V>) {
        proof {
            use_type_invariant(self);
        }
        if deps.len() != 2 {
            return;
        }
        let a0 = match store.get_by_id(&deps[0]) {
            Some(v) => v,
            None => {
                return;
            },
        };
        let a1 = match store.get_by_id(&deps[1]) {
            Some(v) => v,
            None => {
                return;
            },
        };
        (self.emit_fn)(a0, a1);
    }

    open spec fn spec_kind(&self) -> NodeKind {
        NodeKind::Sink
    }

    fn kind(&self) -> (r: NodeKind) {
        NodeKind::Sink
    }

    closed spec fn starts(&self, inputs: Seq<Option<V>>, out: Option<W>) -> bool {
        out is None
    }

    fn compute_async(&self, _deps: &[NodeId], _store: &ValueStore<V>) -> (r: Option<W>) {
        None
    }
}

/// What calling a sink closure of 3 argument(s) on `inputs` means: when
/// there are exactly 3 inputs and all have a value, the closure was called
/// with them, argument `i` being the value of the `i`-th dependency.
pub open spec fn closure_emits_3<V, F: Fn(&V, &V, &V)>(f: F, inputs: Seq<Option<V>>) -> bool {
    if inputs.len() == 3 && inputs[0] is Some && inputs[1] is Some && inputs[2] is Some {
        call_ensures(f, (&inputs[0]->0, &inputs[1]->0, &inputs[2]->0,), ())
    } else {
        true
    }
}

/// Type-erased sink implementation that stores a closure of 3 argument(s).
#[verifier::reject_recursive_types(V)]
pub struct ClosureSinkNode3<V, F: Fn(&V, &V, &V)> {
    emit_fn: F,
    _marker: PhantomData<V>,
}

impl<V, F: Fn(&V, &V, &V)> ClosureSinkNode3<V, F> {
    /// The closure the sink calls.
    pub closed spec fn callback(&self) -> F {
        self.emit_fn
    }

    #[verifier::type_invariant]
    closed spec fn callable(self) -> bool {
        forall|a0: &V, a1: &V, a2: &V| call_requires(self.emit_fn, (a0, a1, a2,))
    }
}

impl<V: Send, W, F: Fn(&V, &V, &V) + Send> AnyNodeImpl<V, W> for ClosureSinkNode3<V, F> {
    fn async_policy(&self) -> (r: AsyncPolicy) {
        AsyncPolicy::LatestWins
    }

    fn concurrency_group_id(&self) -> (r: Option<usize>) {
        None
    }

    open spec fn gives_guard(&self) -> bool {
        false
    }

    fn activate(&mut self, _id: &NodeId, _tx: &mpsc::Sender<(NodeId, V)>) -> Option<Box<dyn ActivationGuard>> {
        None
    }

    closed spec fn computes(&self, inputs: Seq<Option<V>>, out: Option<V>) -> bool {
        out is None
    }

    fn compute(&self, _deps: &[NodeId], _store: &ValueStore<V>) -> (r: Option<V>) {
        None
    }

    closed spec fn emits(&self, inputs: Seq<Option<V>>) -> bool {
        closure_emits_3(self.emit_fn, inputs)
    }

    fn emit(&self, deps: &[NodeId], store: &ValueStore<V>) {
        proof {
            use_type_invariant(self);
        }
        if deps.len() != 3 {
            return;
        }
        let a0 = match store.get_by_id(&deps[0]) {
            Some(v) => v,
            None => {
                return;
            },
        };
        let a1 = match store.get_by_id(&deps[1]) {
            Some(v) => v,
            None => {
                return;
            },
        };
        let a2 = match store.get_by_id(&deps[2]) {
            Some(v) => v,
            None => {
                return;
            },
        };
        (self.emit_fn)(a0, a1, a2);
    }

    open spec fn spec_kind(&self) -> NodeKind {
        NodeKind::Sink
    }

    fn kind(&self) -> (r: NodeKind) {
        NodeKind::Sink
    }

    closed spec fn starts(&self, inputs: Seq<Option<V>>, out: Option<W>) -> bool {
        out is None
    }

    fn compute_async(&self, _deps: &[NodeId], _store: &ValueStore<V>) -> (r: Option<W>) {
        None
    }
}

/// What calling a sink closure of 4 argument(s) on `inputs` means: when
/// there are exactly 4 inputs and all have a value, the closure was called
/// with them, argument `i` being the value of the `i`-th dependency.
pub open spec fn closure_emits_4<V, F: Fn(&V, &V, &V, &V)>(f: F, inputs: Seq<Option<V>>) -> bool {
    if inputs.len() == 4 && inputs[0] is Some && inputs[1] is Some && inputs[2] is Some && inputs[3] is Some {
        call_ensures(f, (&inputs[0]->0, &inputs[1]->0, &inputs[2]->0, &inputs[3]->0,), ())
    } else {
        true
    }
}

/// Type-erased sink implementation that stores a closure of 4 argument(s).
#[verifier::reject_recursive_types(V)]
pub struct ClosureSinkNode4<V, F: Fn(&V, &V, &V, &V)> {
    emit_fn: F,
    _marker: PhantomData<V>,
}

impl<V, F: Fn(&V, &V, &V, &V)> ClosureSinkNode4<V, F> {
    /// The closure the sink calls.
    pub closed spec fn callback(&self) -> F {
        self.emit_fn
    }

    #[verifier::type_invariant]
    closed spec fn callable(self) -> bool {
        forall|a0: &V, a1: &V, a2: &V, a3: &V| call_requires(self.emit_fn, (a0, a1, a2, a3,))
    }
}

impl<V: Send, W, F: Fn(&V, &V, &V, &V) + Send> AnyNodeImpl<V, W> for ClosureSinkNode4<V, F> {
    fn async_policy(&self) -> (r: AsyncPolicy) {
        AsyncPolicy::LatestWins
    }

    fn concurrency_group_id(&self) -> (r: Option<usize>) {
        None
    }

    open spec fn gives_guard(&self) -> bool {
        false
    }

    fn activate(&mut self, _id: &NodeId, _tx: &mpsc::Sender<(NodeId, V)>) -> Option<Box<dyn ActivationGuard>> {
        None
    }

    closed spec fn computes(&self, inputs: Seq<Option<V>>, out: Option<V>) -> bool {
        out is None
    }

    fn compute(&self, _deps: &[NodeId], _store: &ValueStore<V>) -> (r: Option<V>) {
        None
    }

    closed spec fn emits(&self, inputs: Seq<Option<V>>) -> bool {
        closure_emits_4(self.emit_fn, inputs)
    }

    fn emit(&self, deps: &[NodeId], store: &ValueStore<V>) {
        proof {
            use_type_invariant(self);
        }
        if deps.len() != 4 {
            return;
        }
        let a0 = match store.get_by_id(&deps[0]) {
            Some(v) => v,
            None => {
                return;
            },
        };
        let a1 = match store.get_by_id(&deps[1]) {
            Some(v) => v,
            None => {
                return;
            },
        };
        let a2 = match store.get_by_id(&deps[2]) {
            Some(v) => v,
            None => {
                return;
            },
        };
        let a3 = match store.get_by_id(&deps[3]) {
            Some(v) => v,
            None => {
                return;
            },
        };
        (self.emit_fn)(a0, a1, a2, a3);
    }

    open spec fn spec_kind(&self) -> NodeKind {
        NodeKind::Sink
    }

    fn kind(&self) -> (r: NodeKind) {
        NodeKind::Sink
    }

    closed spec fn starts(&self, inputs: Seq<Option<V>>, out: Option<W>) -> bool {
        out is None
    }

    fn compute_async(&self, _deps: &[NodeId], _store: &ValueStore<V>) -> (r: Option<W>) {
        None
    }
}

/// What calling a sink closure of 5 argument(s) on `inputs` means: when
/// there are exactly 5 inputs and all have a value, the closure was called
/// with them, argument `i` being the value of the `i`-th dependency.
pub open spec fn closure_emits_5<V, F: Fn(&V, &V, &V, &V, &V)>(f: F, inputs: Seq<Option<V>>) -> bool {
    if inputs.len() == 5 && inputs[0] is Some && inputs[1] is Some && inputs[2] is Some && inputs[3] is Some && inputs[4] is Some {
        call_ensures(f, (&inputs[0]->0, &inputs[1]->0, &inputs[2]->0, &inputs[3]->0, &inputs[4]->0,), ())
    } else {
        true
    }
}

/// Type-erased sink implementation that stores a closure of 5 argument(s).
#[verifier::reject_recursive_types(V)]
pub struct ClosureSinkNode5<V, F: Fn(&V, &V, &V, &V, &V)> {
    emit_fn: F,
    _marker: PhantomData<V>,
}

impl<V, F: Fn(&V, &V, &V, &V, &V)> ClosureSinkNode5<V, F> {
    /// The closure the sink calls.
    pub closed spec fn callback(&self) -> F {
        self.emit_fn
    }

    #[verifier::type_invariant]
    closed spec fn callable(self) -> bool {
        forall|a0: &V, a1: &V, a2: &V, a3: &V, a4: &V| call_requires(self.emit_fn, (a0, a1, a2, a3, a4,))
    }
}

impl<V: Send, W, F: Fn(&V, &V, &V, &V, &V) + Send> AnyNodeImpl<V, W> for ClosureSinkNode5<V, F> {
    fn async_policy(&self) -> (r: AsyncPolicy) {
        AsyncPolicy::LatestWins
    }

    fn concurrency_group_id(&self) -> (r: Option<usize>) {
        None
    }

    open spec fn gives_guard(&self) -> bool {
        false
    }

    fn activate(&mut self, _id: &NodeId, _tx: &mpsc::Sender<(NodeId, V)>) -> Option<Box<dyn ActivationGuard>> {
        None
    }

    closed spec fn computes(&self, inputs: Seq<Option<V>>, out: Option<V>) -> bool {
        out is None
    }

    fn compute(&self, _deps: &[NodeId], _store: &ValueStore<V>) -> (r: Option<V>) {
        None
    }

    closed spec fn emits(&self, inputs: Seq<Option<V>>) -> bool {
        closure_emits_5(self.emit_fn, inputs)
    }

    fn emit(&self, deps: &[NodeId], store: &ValueStore<V>) {
        proof {
            use_type_invariant(self);
        }
        if deps.len() != 5 {
            return;
        }
        let a0 = match store.get_by_id(&deps[0]) {
            Some(v) => v,
            None => {
                return;
            },
        };
        let a1 = match store.get_by_id(&deps[1]) {
            Some(v) => v,
            None => {
                return;
            },
        };
        let a2 = match store.get_by_id(&deps[2]) {
            Some(v) => v,
            None => {
                return;
            },
        };
        let a3 = match store.get_by_id(&deps[3]) {
            Some(v) => v,
            None => {
                return;
            },
        };
        let a4 = match store.get_by_id(&deps[4]) {
            Some(v) => v,
            None => {
                return;
            },
        };
        (self.emit_fn)(a0, a1, a2, a3, a4);
    }

    open spec fn spec_kind(&self) -> NodeKind {
        NodeKind::Sink
    }

    fn kind(&self) -> (r: NodeKind) {
        NodeKind::Sink
    }

    closed spec fn starts(&self, inputs: Seq<Option<V>>, out: Option<W>) -> bool {
        out is None
    }

    fn compute_async(&self, _deps: &[NodeId], _store: &ValueStore<V>) -> (r: Option<W>) {
        None
    }
}

/// What calling a sink closure of 6 argument(s) on `inputs` means: when
/// there are exactly 6 inputs and all have a value, the closure was called
/// with them, argument `i` being the value of the `i`-th dependency.
pub open spec fn closure_emits_6<V, F: Fn(&V, &V, &V, &V, &V, &V)>(f: F, inputs: Seq<Option<V>>) -> bool {
    if inputs.len() == 6 && inputs[0] is Some && inputs[1] is Some && inputs[2] is Some && inputs[3] is Some && inputs[4] is Some && inputs[5] is Some {
        call_ensures(f, (&inputs[0]->0, &inputs[1]->0, &inputs[2]->0, &inputs[3]->0, &inputs[4]->0, &inputs[5]->0,), ())
    } else {
        true
    }
}

/// Type-erased sink implementation that stores a closure of 6 argument(s).
#[verifier::reject_recursive_types(V)]
pub struct ClosureSinkNode6<V, F: Fn(&V, &V, &V, &V, &V, &V)> {
    emit_fn: F,
    _marker: PhantomData<V>,
}

impl<V, F: Fn(&V, &V, &V, &V, &V, &V)> ClosureSinkNode6<V, F> {
    /// The closure the sink calls.
    pub closed spec fn callback(&self) -> F {
        self.emit_fn
    }

    #[verifier::type_invariant]
    closed spec fn callable(self) -> bool {
        forall|a0: &V, a1: &V, a2: &V, a3: &V, a4: &V, a5: &V| call_requires(self.emit_fn, (a0, a1, a2, a3, a4, a5,))
    }
}

impl<V: Send, W, F: Fn(&V, &V, &V, &V, &V, &V) + Send> AnyNodeImpl<V, W> for ClosureSinkNode6<V, F> {
    fn async_policy(&self) -> (r: AsyncPolicy) {
        AsyncPolicy::LatestWins
    }

    fn concurrency_group_id(&self) -> (r: Option<usize>) {
        None
    }

    open spec fn gives_guard(&self) -> bool {
        false
    }

    fn activate(&mut self, _id: &NodeId, _tx: &mpsc::Sender<(NodeId, V)>) -> Option<Box<dyn ActivationGuard>> {
        None
    }

    closed spec fn computes(&self, inputs: Seq<Option<V>>, out: Option<V>) -> bool {
        out is None
    }

    fn compute(&self, _deps: &[NodeId], _store: &ValueStore<V>) -> (r: Option<V>) {
        None
    }

    closed spec fn emits(&self, inputs: Seq<Option<V>>) -> bool {
        closure_emits_6(self.emit_fn, inputs)
    }

    fn emit(&self, deps: &[NodeId], store: &ValueStore<V>) {
        proof {
            use_type_invariant(self);
        }
        if deps.len() != 6 {
            return;
        }
        let a0 = match store.get_by_id(&deps[0]) {
            Some(v) => v,
            None => {
                return;
            },
        };
        let a1 = match store.get_by_id(&deps[1]) {
            Some(v) => v,
            None => {
                return;
            },
        };
        let a2 = match store.get_by_id(&deps[2]) {
            Some(v) => v,
            None => {
                return;
            },
        };
        let a3 = match store.get_by_id(&deps[3]) {
            Some(v) => v,
            None => {
                return;
            },
        };
        let a4 = match store.get_by_id(&deps[4]) {
            Some(v) => v,
            None => {
                return;
            },
        };
        let a5 = match store.get_by_id(&deps[5]) {
            Some(v) => v,
            None => {
                return;
            },
        };
        (self.emit_fn)(a0, a1, a2, a3, a4, a5);
    }

    open spec fn spec_kind(&self) -> NodeKind {
        NodeKind::Sink
    }

    fn kind(&self) -> (r: NodeKind) {
        NodeKind::Sink
    }

    closed spec fn starts(&self, inputs: Seq<Option<V>>, out: Option<W>) -> bool {
        out is None
    }

    fn compute_async(&self, _deps: &[NodeId], _store: &ValueStore<V>) -> (r: Option<W>) {
        None
    }
}

/// What calling a sink closure of 7 argument(s) on `inputs` means: when
/// there are exactly 7 inputs and all have a value, the closure was called
/// with them, argument `i` being the value of the `i`-th dependency.
pub open spec fn closure_emits_7<V, F: Fn(&V, &V, &V, &V, &V, &V, &V)>(f: F, inputs: Seq<Option<V>>) -> bool {
    if inputs.len() == 7 && inputs[0] is Some && inputs[1] is Some && inputs[2] is Some && inputs[3] is Some && inputs[4] is Some && inputs[5] is Some && inputs[6] is Some {
        call_ensures(f, (&inputs[0]->0, &inputs[1]->0, &inputs[2]->0, &inputs[3]->0, &inputs[4]->0, &inputs[5]->0, &inputs[6]->0,), ())
    } else {
        true
    }
}

/// Type-erased sink implementation that stores a closure of 7 argument(s).
#[verifier::reject_recursive_types(V)]
pub struct ClosureSinkNode7<V, F: Fn(&V, &V, &V, &V, &V, &V, &V)> {
    emit_fn: F,
    _marker: PhantomData<V>,
}

impl<V, F: Fn(&V, &V, &V, &V, &V, &V, &V)> ClosureSinkNode7<V, F> {
    /// The closure the sink calls.
    pub closed spec fn callback(&self) -> F {
        self.emit_fn
    }

    #[verifier::type_invariant]
    closed spec fn callable(self) -> bool {
        forall|a0: &V, a1: &V, a2: &V, a3: &V, a4: &V, a5: &V, a6: &V| call_requires(self.emit_fn, (a0, a1, a2, a3, a4, a5, a6,))
    }
}

impl<V: Send, W, F: Fn(&V, &V, &V, &V, &V, &V, &V) + Send> AnyNodeImpl<V, W> for ClosureSinkNode7<V, F> {
    fn async_policy(&self) -> (r: AsyncPolicy) {
        AsyncPolicy::LatestWins
    }

    fn concurrency_group_id(&self) -> (r: Option<usize>) {
        None
    }

    open spec fn gives_guard(&self) -> bool {
        false
    }

    fn activate(&mut self, _id: &NodeId, _tx: &mpsc::Sender<(NodeId, V)>) -> Option<Box<dyn ActivationGuard>> {
        None
    }

    closed spec fn computes(&self, inputs: Seq<Option<V>>, out: Option<V>) -> bool {
        out is None
    }

    fn compute(&self, _deps: &[NodeId], _store: &ValueStore<V>) -> (r: Option<V>) {
        None
    }

    closed spec fn emits(&self, inputs: Seq<Option<V>>) -> bool {
        closure_emits_7(self.emit_fn, inputs)
    }

    fn emit(&self, deps: &[NodeId], store: &ValueStore<V>) {
        proof {
            use_type_invariant(self);
        }
        if deps.len() != 7 {
            return;
        }
        let a0 = match store.get_by_id(&deps[0]) {
            Some(v) => v,
            None => {
                return;
            },
        };
        let a1 = match store.get_by_id(&deps[1]) {
            Some(v) => v,
            None => {
                return;
            },
        };
        let a2 = match store.get_by_id(&deps[2]) {
            Some(v) => v,
            None => {
                return;
            },
        };
        let a3 = match store.get_by_id(&deps[3]) {
            Some(v) => v,
            None => {
                return;
            },
        };
        let a4 = match store.get_by_id(&deps[4]) {
            Some(v) => v,
            None => {
                return;
            },
        };
        let a5 = match store.get_by_id(&deps[5]) {
            Some(v) => v,
            None => {
                return;
            },
        };
        let a6 = match store.get_by_id(&deps[6]) {
            Some(v) => v,
            None => {
                return;
            },
        };
        (self.emit_fn)(a0, a1, a2, a3, a4, a5, a6);
    }

    open spec fn spec_kind(&self) -> NodeKind {
        NodeKind::Sink
    }

    fn kind(&self) -> (r: NodeKind) {
        NodeKind::Sink
    }

    closed spec fn starts(&self, inputs: Seq<Option<V>>, out: Option<W>) -> bool {
        out is None
    }

    fn compute_async(&self, _deps: &[NodeId], _store: &ValueStore<V>) -> (r: Option<W>) {
        None
    }
}

/// What calling a sink closure of 8 argument(s) on `inputs` means: when
/// there are exactly 8 inputs and all have a value, the closure was called
/// with them, argument `i` being the value of the `i`-th dependency.
pub open spec fn closure_emits_8<V, F: Fn(&V, &V, &V, &V, &V, &V, &V, &V)>(f: F, inputs: Seq<Option<V>>) -> bool {
    if inputs.len() == 8 && inputs[0] is Some && inputs[1] is Some && inputs[2] is Some && inputs[3] is Some && inputs[4] is Some && inputs[5] is Some && inputs[6] is Some && inputs[7] is Some {
        call_ensures(f, (&inputs[0]->0, &inputs[1]->0, &inputs[2]->0, &inputs[3]->0, &inputs[4]->0, &inputs[5]->0, &inputs[6]->0, &inputs[7]->0,), ())
    } else {
        true
    }
}

/// Type-erased sink implementation that stores a closure of 8 argument(s).
#[verifier::reject_recursive_types(V)]
pub struct ClosureSinkNode8<V, F: Fn(&V, &V, &V, &V, &V, &V, &V, &V)> {
    emit_fn: F,
    _marker: PhantomData<V>,
}

impl<V, F: Fn(&V, &V, &V, &V, &V, &V, &V, &V)> ClosureSinkNode8<V, F> {
    /// The closure the sink calls.
    pub closed spec fn callback(&self) -> F {
        self.emit_fn
    }

    #[verifier::type_invariant]
    closed spec fn callable(self) -> bool {
        forall|a0: &V, a1: &V, a2: &V, a3: &V, a4: &V, a5: &V, a6: &V, a7: &V| call_requires(self.emit_fn, (a0, a1, a2, a3, a4, a5, a6, a7,))
    }
}

impl<V: Send, W, F: Fn(&V, &V, &V, &V, &V, &V, &V, &V) + Send> AnyNodeImpl<V, W> for ClosureSinkNode8<V, F> {
    fn async_policy(&self) -> (r: AsyncPolicy) {
        AsyncPolicy::LatestWins
    }

    fn concurrency_group_id(&self) -> (r: Option<usize>) {
        None
    }

    open spec fn gives_guard(&self) -> bool {
        false
    }

    fn activate(&mut self, _id: &NodeId, _tx: &mpsc::Sender<(NodeId, V)>) -> Option<Box<dyn ActivationGuard>> {
        None
    }

    closed spec fn computes(&self, inputs: Seq<Option<V>>, out: Option<V>) -> bool {
        out is None
    }

    fn compute(&self, _deps: &[NodeId], _store: &ValueStore<V>) -> (r: Option<V>) {
        None
    }

    closed spec fn emits(&self, inputs: Seq<Option<V>>) -> bool {
        closure_emits_8(self.emit_fn, inputs)
    }

    fn emit(&self, deps: &[NodeId], store: &ValueStore<V>) {
        proof {
            use_type_invariant(self);
        }
        if deps.len() != 8 {
            return;
        }
        let a0 = match store.get_by_id(&deps[0]) {
            Some(v) => v,
            None => {
                return;
            },
        };
        let a1 = match store.get_by_id(&deps[1]) {
            Some(v) => v,
            None => {
                return;
            },
        };
        let a2 = match store.get_by_id(&deps[2]) {
            Some(v) => v,
            None => {
                return;
            },
        };
        let a3 = match store.get_by_id(&deps[3]) {
            Some(v) => v,
            None => {
                return;
            },
        };
        let a4 = match store.get_by_id(&deps[4]) {
            Some(v) => v,
            None => {
                return;
            },
        };
        let a5 = match store.get_by_id(&deps[5]) {
            Some(v) => v,
            None => {
                return;
            },
        };
        let a6 = match store.get_by_id(&deps[6]) {
            Some(v) => v,
            None => {
                return;
            },
        };
        let a7 = match store.get_by_id(&deps[7]) {
            Some(v) => v,
            None => {
                return;
            },
        };
        (self.emit_fn)(a0, a1, a2, a3, a4, a5, a6, a7);
    }

    open spec fn spec_kind(&self) -> NodeKind {
        NodeKind::Sink
    }

    fn kind(&self) -> (r: NodeKind) {
        NodeKind::Sink
    }

    closed spec fn starts(&self, inputs: Seq<Option<V>>, out: Option<W>) -> bool {
        out is None
    }

    fn compute_async(&self, _deps: &[NodeId], _store: &ValueStore<V>) -> (r: Option<W>) {
        None
    }
}

impl<A> SinkBuilder<(A,)> {
    /// Wire the next dependency.
    pub fn dep<Z>(self, node: NodeRef<Z>) -> (r: SinkBuilder<(A, Z)>)
        ensures
            r.key_view() == self.key_view(),
            r.deps_view() == self.deps_view().push(node.id@),
    {
        let mut dep_ids = self.dep_ids;
        dep_ids.push(node.id);
        let r = SinkBuilder { key: self.key, dep_ids, _marker: PhantomData };
        assert(r.deps_view() =~= self.deps_view().push(node.id@));
        r
    }

    /// Give the closure that the sink calls with its dependencies' values.
    pub fn on_emit<V: Send + 'static, W: 'static, F: Fn(&V) + Send + 'static>(self, f: F) -> (r: SinkBuilderReady<V, W>)
        requires
            forall|a0: &V| call_requires(f, (a0,)),
        ensures
            r.key_view() == self.key_view(),
            r.deps_view() == self.deps_view(),
    {
        let node = ClosureSinkNode1 { emit_fn: f, _marker: PhantomData };
        SinkBuilderReady { key: self.key, dep_ids: self.dep_ids, node_impl: Box::new(node) }
    }
}

impl<A, B> SinkBuilder<(A, B,)> {
    /// Wire the next dependency.
    pub fn dep<Z>(self, node: NodeRef<Z>) -> (r: SinkBuilder<(A, B, Z)>)
        ensures
            r.key_view() == self.key_view(),
            r.deps_view() == self.deps_view().push(node.id@),
    {
        let mut dep_ids = self.dep_ids;
        dep_ids.push(node.id);
        let r = SinkBuilder { key: self.key, dep_ids, _marker: PhantomData };
        assert(r.deps_view() =~= self.deps_view().push(node.id@));
        r
    }

    /// Give the closure that the sink calls with its dependencies' values.
    pub fn on_emit<V: Send + 'static, W: 'static, F: Fn(&V, &V) + Send + 'static>(self, f: F) -> (r: SinkBuilderReady<V, W>)
        requires
            forall|a0: &V, a1: &V| call_requires(f, (a0, a1,)),
        ensures
            r.key_view() == self.key_view(),
            r.deps_view() == self.deps_view(),
    {
        let node = ClosureSinkNode2 { emit_fn: f, _marker: PhantomData };
        SinkBuilderReady { key: self.key, dep_ids: self.dep_ids, node_impl: Box::new(node) }
    }
}

impl<A, B, Cc> SinkBuilder<(A, B, Cc,)> {
    /// Wire the next dependency.
    pub fn dep<Z>(self, node: NodeRef<Z>) -> (r: SinkBuilder<(A, B, Cc, Z)>)
        ensures
            r.key_view() == self.key_view(),
            r.deps_view() == self.deps_view().push(node.id@),
    {
        let mut dep_ids = self.dep_ids;
        dep_ids.push(node.id);
        let r = SinkBuilder { key: self.key, dep_ids, _marker: PhantomData };
        assert(r.deps_view() =~= self.deps_view().push(node.id@));
        r
    }

    /// Give the closure that the sink calls with its dependencies' values.
    pub fn on_emit<V: Send + 'static, W: 'static, F: Fn(&V, &V, &V) + Send + 'static>(self, f: F) -> (r: SinkBuilderReady<V, W>)
        requires
            forall|a0: &V, a1: &V, a2: &V| call_requires(f, (a0, a1, a2,)),
        ensures
            r.key_view() == self.key_view(),
            r.deps_view() == self.deps_view(),
    {
        let node = ClosureSinkNode3 { emit_fn: f, _marker: PhantomData };
        SinkBuilderReady { key: self.key, dep_ids: self.dep_ids, node_impl: Box::new(node) }
    }
}

impl<A, B, Cc, D> SinkBuilder<(A, B, Cc, D,)> {
    /// Wire the next dependency.
    pub fn dep<Z>(self, node: NodeRef<Z>) -> (r: SinkBuilder<(A, B, Cc, D, Z)>)
        ensures
            r.key_view() == self.key_view(),
            r.deps_view() == self.deps_view().push(node.id@),
    {
        let mut dep_ids = self.dep_ids;
        dep_ids.push(node.id);
        let r = SinkBuilder { key: self.key, dep_ids, _marker: PhantomData };
        assert(r.deps_view() =~= self.deps_view().push(node.id@));
        r
    }

    /// Give the closure that the sink calls with its dependencies' values.
    pub fn on_emit<V: Send + 'static, W: 'static, F: Fn(&V, &V, &V, &V) + Send + 'static>(self, f: F) -> (r: SinkBuilderReady<V, W>)
        requires
            forall|a0: &V, a1: &V, a2: &V, a3: &V| call_requires(f, (a0, a1, a2, a3,)),
        ensures
            r.key_view() == self.key_view(),
            r.deps_view() == self.deps_view(),
    {
        let node = ClosureSinkNode4 { emit_fn: f, _marker: PhantomData };
        SinkBuilderReady { key: self.key, dep_ids: self.dep_ids, node_impl: Box::new(node) }
    }
}

impl<A, B, Cc, D, E> SinkBuilder<(A, B, Cc, D, E,)> {
    /// Wire the next dependency.
    pub fn dep<Z>(self, node: NodeRef<Z>) -> (r: SinkBuilder<(A, B, Cc, D, E, Z)>)
        ensures
            r.key_view() == self.key_view(),
            r.deps_view() == self.deps_view().push(node.id@),
    {
        let mut dep_ids = self.dep_ids;
        dep_ids.push(node.id);
        let r = SinkBuilder { key: self.key, dep_ids, _marker: PhantomData };
        assert(r.deps_view() =~= self.deps_view().push(node.id@));
        r
    }

    /// Give the closure that the sink calls with its dependencies' values.
    pub fn on_emit<V: Send + 'static, W: 'static, F: Fn(&V, &V, &V, &V, &V) + Send + 'static>(self, f: F) -> (r: SinkBuilderReady<V, W>)
        requires
            forall|a0: &V, a1: &V, a2: &V, a3: &V, a4: &V| call_requires(f, (a0, a1, a2, a3, a4,)),
        ensures
            r.key_view() == self.key_view(),
            r.deps_view() == self.deps_view(),
    {
        let node = ClosureSinkNode5 { emit_fn: f, _marker: PhantomData };
        SinkBuilderReady { key: self.key, dep_ids: self.dep_ids, node_impl: Box::new(node) }
    }
}

impl<A, B, Cc, D, E, Ff> SinkBuilder<(A, B, Cc, D, E, Ff,)> {
    /// Wire the next dependency.
    pub fn dep<Z>(self, node: NodeRef<Z>) -> (r: SinkBuilder<(A, B, Cc, D, E, Ff, Z)>)
        ensures
            r.key_view() == self.key_view(),
            r.deps_view() == self.deps_view().push(node.id@),
    {
        let mut dep_ids = self.dep_ids;
        dep_ids.push(node.id);
        let r = SinkBuilder { key: self.key, dep_ids, _marker: PhantomData };
        assert(r.deps_view() =~= self.deps_view().push(node.id@));
        r
    }

    /// Give the closure that the sink calls with its dependencies' values.
    pub fn on_emit<V: Send + 'static, W: 'static, F: Fn(&V, &V, &V, &V, &V, &V) + Send + 'static>(self, f: F) -> (r: SinkBuilderReady<V, W>)
        requires
            forall|a0: &V, a1: &V, a2: &V, a3: &V, a4: &V, a5: &V| call_requires(f, (a0, a1, a2, a3, a4, a5,)),
        ensures
            r.key_view() == self.key_view(),
            r.deps_view() == self.deps_view(),
    {
        let node = ClosureSinkNode6 { emit_fn: f, _marker: PhantomData };
        SinkBuilderReady { key: self.key, dep_ids: self.dep_ids, node_impl: Box::new(node) }
    }
}

impl<A, B, Cc, D, E, Ff, G> SinkBuilder<(A, B, Cc, D, E, Ff, G,)> {
    /// Wire the next dependency.
    pub fn dep<Z>(self, node: NodeRef<Z>) -> (r: SinkBuilder<(A, B, Cc, D, E, Ff, G, Z)>)
        ensures
            r.key_view() == self.key_view(),
            r.deps_view() == self.deps_view().push(node.id@),
    {
        let mut dep_ids = self.dep_ids;
        dep_ids.push(node.id);
        let r = SinkBuilder { key: self.key, dep_ids, _marker: PhantomData };
        assert(r.deps_view() =~= self.deps_view().push(node.id@));
        r
    }

    /// Give the closure that the sink calls with its dependencies' values.
    pub fn on_emit<V: Send + 'static, W: 'static, F: Fn(&V, &V, &V, &V, &V, &V, &V) + Send + 'static>(self, f: F) -> (r: SinkBuilderReady<V, W>)
        requires
            forall|a0: &V, a1: &V, a2: &V, a3: &V, a4: &V, a5: &V, a6: &V| call_requires(f, (a0, a1, a2, a3, a4, a5, a6,)),
        ensures
            r.key_view() == self.key_view(),
            r.deps_view() == self.deps_view(),
    {
        let node = ClosureSinkNode7 { emit_fn: f, _marker: PhantomData };
        SinkBuilderReady { key: self.key, dep_ids: self.dep_ids, node_impl: Box::new(node) }
    }
}

impl<A, B, Cc, D, E, Ff, G, H> SinkBuilder<(A, B, Cc, D, E, Ff, G, H,)> {
    /// Give the closure that the sink calls with its dependencies' values.
    pub fn on_emit<V: Send + 'static, W: 'static, F: Fn(&V, &V, &V, &V, &V, &V, &V, &V) + Send + 'static>(self, f: F) -> (r: SinkBuilderReady<V, W>)
        requires
            forall|a0: &V, a1: &V, a2: &V, a3: &V, a4: &V, a5: &V, a6: &V, a7: &V| call_requires(f, (a0, a1, a2, a3, a4, a5, a6, a7,)),
        ensures
            r.key_view() == self.key_view(),
            r.deps_view() == self.deps_view(),
    {
        let node = ClosureSinkNode8 { emit_fn: f, _marker: PhantomData };
        SinkBuilderReady { key: self.key, dep_ids: self.dep_ids, node_impl: Box::new(node) }
    }
}

/// A sink built from a closure of 1 argument(s) hands it the values of its
/// dependencies in wiring order: when it emits on the values a0, the
/// closure was called with exactly these, in this order.
pub proof fn law_sink1_calls_closure_in_wiring_order<V: Send, W, F: Fn(&V) + Send>(
    node: &ClosureSinkNode1<V, F>,
    a0: V,
)
    requires
        AnyNodeImpl::<V, W>::emits(node, seq![Some(a0)]),
    ensures
        call_ensures(node.callback(), (&a0,), ()),
{
}

/// A sink built from a closure of 2 argument(s) hands it the values of its
/// dependencies in wiring order: when it emits on the values a0, a1, the
/// closure was called with exactly these, in this order.
pub proof fn law_sink2_calls_closure_in_wiring_order<V: Send, W, F: Fn(&V, &V) + Send>(
    node: &ClosureSinkNode2<V, F>,
    a0: V, a1: V,
)
    requires
        AnyNodeImpl::<V, W>::emits(node, seq![Some(a0), Some(a1)]),
    ensures
        call_ensures(node.callback(), (&a0, &a1,), ()),
{
}

/// A sink built from a closure of 3 argument(s) hands it the values of its
/// dependencies in wiring order: when it emits on the values a0, a1, a2, the
/// closure was called with exactly these, in this order.
pub proof fn law_sink3_calls_closure_in_wiring_order<V: Send, W, F: Fn(&V, &V, &V) + Send>(
    node: &ClosureSinkNode3<V, F>,
    a0: V, a1: V, a2: V,
)
    requires
        AnyNodeImpl::<V, W>::emits(node, seq![Some(a0), Some(a1), Some(a2)]),
    ensures
        call_ensures(node.callback(), (&a0, &a1, &a2,), ()),
{
}

/// A sink built from a closure of 4 argument(s) hands it the values of its
/// dependencies in wiring order: when it emits on the values a0, a1, a2, a3, the
/// closure was called with exactly these, in this order.
pub proof fn law_sink4_calls_closure_in_wiring_order<V: Send, W, F: Fn(&V, &V, &V, &V) + Send>(
    node: &ClosureSinkNode4<V, F>,
    a0: V, a1: V, a2: V, a3: V,
)
    requires
        AnyNodeImpl::<V, W>::emits(node, seq![Some(a0), Some(a1), Some(a2), Some(a3)]),
    ensures
        call_ensures(node.callback(), (&a0, &a1, &a2, &a3,), ()),
{
}

/// A sink built from a closure of 5 argument(s) hands it the values of its
/// dependencies in wiring order: when it emits on the values a0, a1, a2, a3, a4, the
/// closure was called with exactly these, in this order.
pub proof fn law_sink5_calls_closure_in_wiring_order<V: Send, W, F: Fn(&V, &V, &V, &V, &V) + Send>(
    node: &ClosureSinkNode5<V, F>,
    a0: V, a1: V, a2: V, a3: V, a4: V,
)
    requires
        AnyNodeImpl::<V, W>::emits(node, seq![Some(a0), Some(a1), Some(a2), Some(a3), Some(a4)]),
    ensures
        call_ensures(node.callback(), (&a0, &a1, &a2, &a3, &a4,), ()),
{
}

/// A sink built from a closure of 6 argument(s) hands it the values of its
/// dependencies in wiring order: when it emits on the values a0, a1, a2, a3, a4, a5, the
/// closure was called with exactly these, in this order.
pub proof fn law_sink6_calls_closure_in_wiring_order<V: Send, W, F: Fn(&V, &V, &V, &V, &V, &V) + Send>(
    node: &ClosureSinkNode6<V, F>,
    a0: V, a1: V, a2: V, a3: V, a4: V, a5: V,
)
    requires
        AnyNodeImpl::<V, W>::emits(node, seq![Some(a0), Some(a1), Some(a2), Some(a3), Some(a4), Some(a5)]),
    ensures
        call_ensures(node.callback(), (&a0, &a1, &a2, &a3, &a4, &a5,), ()),
{
}

/// A sink built from a closure of 7 argument(s) hands it the values of its
/// dependencies in wiring order: when it emits on the values a0, a1, a2, a3, a4, a5, a6, the
/// closure was called with exactly these, in this order.
pub proof fn law_sink7_calls_closure_in_wiring_order<V: Send, W, F: Fn(&V, &V, &V, &V, &V, &V, &V) + Send>(
    node: &ClosureSinkNode7<V, F>,
    a0: V, a1: V, a2: V, a3: V, a4: V, a5: V, a6: V,
)
    requires
        AnyNodeImpl::<V, W>::emits(node, seq![Some(a0), Some(a1), Some(a2), Some(a3), Some(a4), Some(a5), Some(a6)]),
    ensures
        call_ensures(node.callback(), (&a0, &a1, &a2, &a3, &a4, &a5, &a6,), ()),
{
}

/// A sink built from a closure of 8 argument(s) hands it the values of its
/// dependencies in wiring order: when it emits on the values a0, a1, a2, a3, a4, a5, a6, a7, the
/// closure was called with exactly these, in this order.
pub proof fn law_sink8_calls_closure_in_wiring_order<V: Send, W, F: Fn(&V, &V, &V, &V, &V, &V, &V, &V) + Send>(
    node: &ClosureSinkNode8<V, F>,
    a0: V, a1: V, a2: V, a3: V, a4: V, a5: V, a6: V, a7: V,
)
    requires
        AnyNodeImpl::<V, W>::emits(node, seq![Some(a0), Some(a1), Some(a2), Some(a3), Some(a4), Some(a5), Some(a6), Some(a7)]),
    ensures
        call_ensures(node.callback(), (&a0, &a1, &a2, &a3, &a4, &a5, &a6, &a7,), ()),
{
}

} // verus!
