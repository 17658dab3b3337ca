use crate::builder::compute::ComputeBuilder;
use crate::builder::compute::ComputeBuilderReady;
use crate::builder::sink::{SinkBuilder, SinkBuilderReady};
use crate::builder::source::{SourceBuilder, SourceBuilderWith};
use crate::builder::trait_compute::ComputeDispatch;
use crate::builder::trait_sink::SinkDispatch;
use crate::builder::trait_source::make_source_impl;
use crate::graph::{AnyNodeImpl, NodeKind};
use crate::id_map::IdSet;
use crate::node::{Compute, Node, Sink, Source};
use crate::engine::{deps_keys, release_order, Engine};
use crate::topology::{count_of, lemma_count_of_reverse};
use crate::node_ref::{clone_ids, ids_view, NodeId, NodeKey, NodeRef, NodeScope};
use crate::sender::Sender;
use std::marker::PhantomData;
use vstd::prelude::*;

verus! {

/// A descriptor for a node to be merged into the engine.
#[verifier::reject_recursive_types(V)]
#[verifier::reject_recursive_types(W)]
pub struct NodeDescriptor<V, W> {
    pub id: NodeId,
    pub kind: NodeKind,
    pub deps: Vec<NodeId>,
    pub node_impl: Box<dyn AnyNodeImpl<V, W>>,
}

/// A descriptor as contracts see it: the node, its kind and its dependencies.
pub open spec fn descriptor_view<V, W>(d: NodeDescriptor<V, W>) -> (NodeKey, NodeKind, Seq<NodeKey>) {
    (d.id@, d.kind, ids_view(d.deps@))
}

/// Descriptors as contracts see them.
pub open spec fn descriptors_view<V, W>(s: Seq<NodeDescriptor<V, W>>) -> Seq<(NodeKey, NodeKind, Seq<NodeKey>)> {
    s.map_values(|d: NodeDescriptor<V, W>| descriptor_view(d))
}

/// The keys of a sequence of descriptor views.
pub open spec fn described_keys(ds: Seq<(NodeKey, NodeKind, Seq<NodeKey>)>) -> Seq<NodeKey> {
    ds.map_values(|d: (NodeKey, NodeKind, Seq<NodeKey>)| d.0)
}

/// A built subgraph ready to be merged into an engine.
#[verifier::reject_recursive_types(V)]
#[verifier::reject_recursive_types(W)]
pub struct Subgraph<V, W = ()> {
    pub(crate) descriptors: Vec<NodeDescriptor<V, W>>,
    pub(crate) node_ids: Vec<NodeId>,
}

impl<V, W> Subgraph<V, W> {
    /// The nodes described, each once, in order of first registration.
    pub closed spec fn described(&self) -> Seq<(NodeKey, NodeKind, Seq<NodeKey>)> {
        self.descriptors@.map_values(|d: NodeDescriptor<V, W>| descriptor_view(d))
    }

    /// Every registration made while building, in order, repeats included.
    pub closed spec fn ids(&self) -> Seq<NodeKey> {
        ids_view(self.node_ids@)
    }

    /// A subgraph comes from a builder, which describes each node once.
    #[verifier::type_invariant]
    spec fn describes_each_once(&self) -> bool {
        described_keys(self.described()).no_duplicates()
    }
}

/// Builder for constructing graph fragments outside the engine, with the
/// same builder API as the graph.
#[verifier::reject_recursive_types(V)]
#[verifier::reject_recursive_types(W)]
pub struct SubgraphBuilder<V, W = ()> {
    descriptors: Vec<NodeDescriptor<V, W>>,
    node_ids: Vec<NodeId>,
    registered: IdSet,
}

impl<V, W> SubgraphBuilder<V, W> {
    /// The nodes described so far, each once, in order of first registration.
    pub closed spec fn described(&self) -> Seq<(NodeKey, NodeKind, Seq<NodeKey>)> {
        self.descriptors@.map_values(|d: NodeDescriptor<V, W>| descriptor_view(d))
    }

    /// Every registration so far, in order, repeats included.
    pub closed spec fn ids(&self) -> Seq<NodeKey> {
        ids_view(self.node_ids@)
    }

    /// The set of registered nodes is that of the described ones, and no node
    /// is described twice.
    pub closed spec fn wf(&self) -> bool {
        &&& self.registered.wf()
        &&& self.registered@ == described_keys(self.described()).to_set()
        &&& described_keys(self.described()).no_duplicates()
    }

    /// An empty builder.
    pub fn new() -> (r: Self)
        ensures
            r.wf(),
            r.described() == Seq::<(NodeKey, NodeKind, Seq<NodeKey>)>::empty(),
            r.ids() == Seq::<NodeKey>::empty(),
    {
        let r = SubgraphBuilder { descriptors: Vec::new(), node_ids: Vec::new(), registered: IdSet::new() };
        assert(r.described() =~= Seq::<(NodeKey, NodeKind, Seq<NodeKey>)>::empty());
        assert(r.ids() =~= Seq::<NodeKey>::empty());
        assert(described_keys(r.described()).to_set() =~= Set::<NodeKey>::empty());
        r
    }

    /// Register a node descriptor. Returns true if newly added, false if the
    /// node was already described; the registration is recorded either way.
    fn register_node(&mut self, id: NodeId, kind: NodeKind, deps: Vec<NodeId>, node_impl: Box<dyn AnyNodeImpl<V, W>>) -> (r: bool)
        requires
            old(self).wf(),
        ensures
            final(self).wf(),
            final(self).ids() == old(self).ids().push(id@),
            r == !described_keys(old(self).described()).contains(id@),
            r ==> final(self).described() == old(self).described().push((id@, kind, ids_view(deps@))),
            !r ==> final(self).described() == old(self).described(),
    {
        let ghost k = id@;
        let ghost d0 = self.described();
        self.node_ids.push(id.clone());
        assert(self.ids() =~= old(self).ids().push(k));
        proof {
            self.registered.lemma_view();
            described_keys(d0).lemma_to_set_map_commutes(|x: NodeKey| x);
        }
        assert(self.registered@.contains(k) == described_keys(d0).contains(k)) by {
            assert(described_keys(d0).to_set().contains(k) == described_keys(d0).contains(k));
        }
        let ghost reg0 = self.registered@;
        if !self.registered.insert(id.clone()) {
            assert(self.registered@ =~= reg0);
            return false;
        }
        let ghost dv = ids_view(deps@);
        let d = NodeDescriptor { id, kind, deps, node_impl };
        assert(descriptor_view(d) == (k, kind, dv));
        let ghost descs0 = self.descriptors@;
        self.descriptors.push(d);
        proof {
            assert(self.descriptors@ == descs0.push(d));
            crate::facts::lemma_push_index(descs0, d);
            assert(d0 == descs0.map_values(|x: NodeDescriptor<V, W>| descriptor_view(x)));
            assert forall|i: int| 0 <= i < self.described().len() implies #[trigger] self.described()[i] == d0.push((k, kind, dv))[i] by {
                if i < descs0.len() {
                    assert(self.descriptors@[i] == descs0[i]);
                } else {
                    assert(self.descriptors@[i] == d);
                }
            }
            assert(self.described() =~= d0.push((k, kind, dv)));
            assert(described_keys(self.described()) =~= described_keys(d0).push(k));
            described_keys(d0).lemma_push_to_set_commute(k);
        }
        true
    }

    /// Consume the builder into a subgraph ready for merging.
    pub fn build(self) -> (r: Subgraph<V, W>)
        requires
            self.wf(),
        ensures
            r.described() == self.described(),
            r.ids() == self.ids(),
    {
        Subgraph { descriptors: self.descriptors, node_ids: self.node_ids }
    }
}

impl<V: 'static, W: 'static> SubgraphBuilder<V, W> {
    /// Add a trait-based source, under its key scoped by its type.
    pub fn add_source<S: Source<Output = V> + Send + 'static>(&mut self, source: S) -> (r: NodeRef<V>)
        requires
            old(self).wf(),
        ensures
            final(self).wf(),
            r.id@.0 is Typed,
            final(self).ids() == old(self).ids().push(r.id@),
            described_keys(old(self).described()).contains(r.id@) ==> final(self).described() == old(self).described(),
            !described_keys(old(self).described()).contains(r.id@) ==> final(self).described() == old(self).described().push(
                (r.id@, NodeKind::Source, Seq::empty()),
            ),
    {
        let id = NodeId::from_key::<S::Key, S>(&source.key());
        let node_ref = NodeRef { id: id.clone(), _marker: PhantomData };
        let node_impl = Box::new(make_source_impl::<V, W, S>(source));
        let deps: Vec<NodeId> = Vec::new();
        assert(ids_view(deps@) =~= Seq::<NodeKey>::empty());
        self.register_node(id, NodeKind::Source, deps, node_impl);
        node_ref
    }

    /// Start building a trait-based compute node in this subgraph.
    pub fn add_compute<C: Compute>(&mut self, compute: C) -> (r: SubgraphTraitComputeBuilder<'_, V, W, C, C::Inputs>)
        ensures
            r.deps_view() == Seq::<NodeKey>::empty(),
            *r.builder == *old(self),
            r.compute == compute,
    {
        let r = SubgraphTraitComputeBuilder { builder: self, compute, dep_ids: Vec::new(), _remaining: PhantomData };
        assert(r.deps_view() =~= Seq::<NodeKey>::empty());
        r
    }

    /// Start building a trait-based sink in this subgraph.
    pub fn add_sink<S: Sink>(&mut self, sink: S) -> (r: SubgraphTraitSinkBuilder<'_, V, W, S, S::Inputs>)
        ensures
            r.deps_view() == Seq::<NodeKey>::empty(),
            *r.builder == *old(self),
            r.sink == sink,
    {
        let r = SubgraphTraitSinkBuilder { builder: self, sink, dep_ids: Vec::new(), _remaining: PhantomData };
        assert(r.deps_view() =~= Seq::<NodeKey>::empty());
        r
    }
}

impl SubgraphBuilder<(), ()> {
    /// Start building a closure-based source.
    pub fn source<T>(key: &str) -> (r: SourceBuilder<T>)
        ensures
            r.key_view() == key@,
    {
        SourceBuilder::new(key)
    }

    /// Start building a closure-based compute node.
    pub fn compute<T>(key: &str) -> (r: ComputeBuilder<T, ()>)
        ensures
            r.key_view() == key@,
            r.deps_view() == Seq::<NodeKey>::empty(),
    {
        ComputeBuilder::new(key)
    }

    /// Start building a closure-based sink.
    pub fn sink(key: &str) -> (r: SinkBuilder<()>)
        ensures
            r.key_view() == key@,
            r.deps_view() == Seq::<NodeKey>::empty(),
    {
        SinkBuilder::new(key)
    }
}

impl<T: Send + 'static> SourceBuilder<T> {
    /// Register the source (without activation callback) in a subgraph.
    pub fn build_sub<W: 'static>(self, builder: &mut SubgraphBuilder<T, W>) -> (r: NodeRef<T>)
        requires
            old(builder).wf(),
        ensures
            final(builder).wf(),
            r.id@ == (NodeScope::ClosureSource, self.key_view()),
            final(builder).ids() == old(builder).ids().push(r.id@),
            described_keys(old(builder).described()).contains(r.id@) ==> final(builder).described() == old(builder).described(),
            !described_keys(old(builder).described()).contains(r.id@) ==> final(builder).described() == old(builder).described().push(
                (r.id@, NodeKind::Source, Seq::empty()),
            ),
    {
        let (key, node_impl) = self.into_parts();
        let id = NodeId::scoped(NodeScope::ClosureSource, key.as_str());
        let node_ref = NodeRef { id: id.clone(), _marker: PhantomData };
        let deps: Vec<NodeId> = Vec::new();
        assert(ids_view(deps@) =~= Seq::<NodeKey>::empty());
        builder.register_node(id, NodeKind::Source, deps, node_impl);
        node_ref
    }
}

impl<T: Send + 'static, F: FnOnce(Sender<T>) -> G + Send + 'static, G: Send + 'static> SourceBuilderWith<T, F, G> {
    /// Register the source in a subgraph.
    pub fn build_sub<W: 'static>(self, builder: &mut SubgraphBuilder<T, W>) -> (r: NodeRef<T>)
        requires
            old(builder).wf(),
        ensures
            final(builder).wf(),
            r.id@ == (NodeScope::ClosureSource, self.key_view()),
            final(builder).ids() == old(builder).ids().push(r.id@),
            described_keys(old(builder).described()).contains(r.id@) ==> final(builder).described() == old(builder).described(),
            !described_keys(old(builder).described()).contains(r.id@) ==> final(builder).described() == old(builder).described().push(
                (r.id@, NodeKind::Source, Seq::empty()),
            ),
    {
        let (key, node_impl) = self.into_parts();
        let id = NodeId::scoped(NodeScope::ClosureSource, key.as_str());
        let node_ref = NodeRef { id: id.clone(), _marker: PhantomData };
        let deps: Vec<NodeId> = Vec::new();
        assert(ids_view(deps@) =~= Seq::<NodeKey>::empty());
        builder.register_node(id, NodeKind::Source, deps, node_impl);
        node_ref
    }
}

impl<Out: 'static, W: 'static> ComputeBuilderReady<Out, W> {
    /// Register the compute node in a subgraph.
    pub fn build_sub(self, builder: &mut SubgraphBuilder<Out, W>) -> (r: NodeRef<Out>)
        requires
            old(builder).wf(),
        ensures
            final(builder).wf(),
            r.id@ == (NodeScope::ClosureCompute, self.key_view()),
            final(builder).ids() == old(builder).ids().push(r.id@),
            described_keys(old(builder).described()).contains(r.id@) ==> final(builder).described() == old(builder).described(),
            !described_keys(old(builder).described()).contains(r.id@) ==> final(builder).described() == old(builder).described().push(
                (r.id@, NodeKind::Compute, self.deps_view()),
            ),
    {
        let (key, dep_ids, node_impl) = self.into_parts();
        let id = NodeId::scoped(NodeScope::ClosureCompute, key.as_str());
        let node_ref = NodeRef { id: id.clone(), _marker: PhantomData };
        builder.register_node(id, NodeKind::Compute, dep_ids, node_impl);
        node_ref
    }
}

impl<V: 'static, W: 'static> SinkBuilderReady<V, W> {
    /// Register the sink in a subgraph.
    pub fn build_sub(self, builder: &mut SubgraphBuilder<V, W>) -> (r: NodeRef<()>)
        requires
            old(builder).wf(),
        ensures
            final(builder).wf(),
            r.id@ == (NodeScope::ClosureSink, self.key_view()),
            final(builder).ids() == old(builder).ids().push(r.id@),
            described_keys(old(builder).described()).contains(r.id@) ==> final(builder).described() == old(builder).described(),
            !described_keys(old(builder).described()).contains(r.id@) ==> final(builder).described() == old(builder).described().push(
                (r.id@, NodeKind::Sink, self.deps_view()),
            ),
    {
        let (key, dep_ids, node_impl) = self.into_parts();
        let id = NodeId::scoped(NodeScope::ClosureSink, key.as_str());
        let node_ref = NodeRef { id: id.clone(), _marker: PhantomData };
        builder.register_node(id, NodeKind::Sink, dep_ids, node_impl);
        node_ref
    }
}

/// Typestate builder for trait-based compute nodes of a subgraph.
#[verifier::reject_recursive_types(V)]
#[verifier::reject_recursive_types(W)]
pub struct SubgraphTraitComputeBuilder<'g, V, W, C: Compute, Remaining> {
    pub builder: &'g mut SubgraphBuilder<V, W>,
    pub compute: C,
    pub dep_ids: Vec<NodeId>,
    pub _remaining: PhantomData<Remaining>,
}

impl<'g, V, W, C: Compute, Remaining> SubgraphTraitComputeBuilder<'g, V, W, C, Remaining> {
    /// The dependencies wired so far, in order.
    pub open spec fn deps_view(&self) -> Seq<NodeKey> {
        ids_view(self.dep_ids@)
    }
}

/// Typestate builder for trait-based sinks of a subgraph.
#[verifier::reject_recursive_types(V)]
#[verifier::reject_recursive_types(W)]
pub struct SubgraphTraitSinkBuilder<'g, V, W, S: Sink, Remaining> {
    pub builder: &'g mut SubgraphBuilder<V, W>,
    pub sink: S,
    pub dep_ids: Vec<NodeId>,
    pub _remaining: PhantomData<Remaining>,
}

impl<'g, V, W, S: Sink, Remaining> SubgraphTraitSinkBuilder<'g, V, W, S, Remaining> {
    /// The dependencies wired so far, in order.
    pub open spec fn deps_view(&self) -> Seq<NodeKey> {
        ids_view(self.dep_ids@)
    }
}

impl<'g, V: 'static, W: 'static, C: Compute + 'static> SubgraphTraitComputeBuilder<'g, V, W, C, ()> where C::Inputs: ComputeDispatch<V, W, C> {
    /// Register the compute node in the subgraph, under its key scoped by its type.
    pub fn build(self) -> (r: NodeRef<C::Output>)
        requires
            self.builder.wf(),
        ensures
            r.id@.0 is Typed,
            final(self.builder).wf(),
            final(self.builder).ids() == old(self.builder).ids().push(r.id@),
            described_keys(old(self.builder).described()).contains(r.id@) ==> final(self.builder).described() == old(self.builder).described(),
            !described_keys(old(self.builder).described()).contains(r.id@) ==> final(self.builder).described() == old(self.builder).described().push(
                (r.id@, NodeKind::Compute, self.deps_view()),
            ),
    {
        let id = NodeId::from_key::<C::Key, C>(&self.compute.key());
        let node_ref = NodeRef { id: id.clone(), _marker: PhantomData };
        let node_impl = Box::new(<C::Inputs as ComputeDispatch<V, W, C>>::make_node_impl(self.compute));
        self.builder.register_node(id, NodeKind::Compute, self.dep_ids, node_impl);
        node_ref
    }
}

impl<'g, V: 'static, W: 'static, S: Sink + 'static> SubgraphTraitSinkBuilder<'g, V, W, S, ()> where S::Inputs: SinkDispatch<V, W, S> {
    /// Register the sink in the subgraph, under its key scoped by its type.
    pub fn build(self) -> (r: NodeRef<()>)
        requires
            self.builder.wf(),
        ensures
            r.id@.0 is Typed,
            final(self.builder).wf(),
            final(self.builder).ids() == old(self.builder).ids().push(r.id@),
            described_keys(old(self.builder).described()).contains(r.id@) ==> final(self.builder).described() == old(self.builder).described(),
            !described_keys(old(self.builder).described()).contains(r.id@) ==> final(self.builder).described() == old(self.builder).described().push(
                (r.id@, NodeKind::Sink, self.deps_view()),
            ),
    {
        let id = NodeId::from_key::<S::Key, S>(&self.sink.key());
        let node_ref = NodeRef { id: id.clone(), _marker: PhantomData };
        let node_impl = Box::new(<S::Inputs as SinkDispatch<V, W, S>>::make_node_impl(self.sink));
        self.builder.register_node(id, NodeKind::Sink, self.dep_ids, node_impl);
        node_ref
    }
}

impl<'g, V, W, C: Compute, A> SubgraphTraitComputeBuilder<'g, V, W, C, (A,)> {
    /// Wire the next dependency.
    pub fn dep(self, node: NodeRef<A>) -> (r: SubgraphTraitComputeBuilder<'g, V, W, C, ()>)
        ensures
            r.deps_view() == self.deps_view().push(node.id@),
            *r.builder == *old(self.builder),
    {
        let ghost d0 = self.deps_view();
        let mut dep_ids = self.dep_ids;
        dep_ids.push(node.id);
        let r = SubgraphTraitComputeBuilder { builder: self.builder, compute: self.compute, dep_ids, _remaining: PhantomData };
        assert(r.deps_view() =~= d0.push(node.id@));
        r
    }
}

impl<'g, V, W, C: Compute, A, B> SubgraphTraitComputeBuilder<'g, V, W, C, (A, B,)> {
    /// Wire the next dependency.
    pub fn dep(self, node: NodeRef<A>) -> (r: SubgraphTraitComputeBuilder<'g, V, W, C, (B,)>)
        ensures
            r.deps_view() == self.deps_view().push(node.id@),
            *r.builder == *old(self.builder),
    {
        let ghost d0 = self.deps_view();
        let mut dep_ids = self.dep_ids;
        dep_ids.push(node.id);
        let r = SubgraphTraitComputeBuilder { builder: self.builder, compute: self.compute, dep_ids, _remaining: PhantomData };
        assert(r.deps_view() =~= d0.push(node.id@));
        r
    }
}

impl<'g, V, W, C: Compute, A, B, Cc> SubgraphTraitComputeBuilder<'g, V, W, C, (A, B, Cc,)> {
    /// Wire the next dependency.
    pub fn dep(self, node: NodeRef<A>) -> (r: SubgraphTraitComputeBuilder<'g, V, W, C, (B, Cc,)>)
        ensures
            r.deps_view() == self.deps_view().push(node.id@),
            *r.builder == *old(self.builder),
    {
        let ghost d0 = self.deps_view();
        let mut dep_ids = self.dep_ids;
        dep_ids.push(node.id);
        let r = SubgraphTraitComputeBuilder { builder: self.builder, compute: self.compute, dep_ids, _remaining: PhantomData };
        assert(r.deps_view() =~= d0.push(node.id@));
        r
    }
}

impl<'g, V, W, C: Compute, A, B, Cc, D> SubgraphTraitComputeBuilder<'g, V, W, C, (A, B, Cc, D,)> {
    /// Wire the next dependency.
    pub fn dep(self, node: NodeRef<A>) -> (r: SubgraphTraitComputeBuilder<'g, V, W, C, (B, Cc, D,)>)
        ensures
            r.deps_view() == self.deps_view().push(node.id@),
            *r.builder == *old(self.builder),
    {
        let ghost d0 = self.deps_view();
        let mut dep_ids = self.dep_ids;
        dep_ids.push(node.id);
        let r = SubgraphTraitComputeBuilder { builder: self.builder, compute: self.compute, dep_ids, _remaining: PhantomData };
        assert(r.deps_view() =~= d0.push(node.id@));
        r
    }
}

impl<'g, V, W, S: Sink, A> SubgraphTraitSinkBuilder<'g, V, W, S, (A,)> {
    /// Wire the next dependency.
    pub fn dep(self, node: NodeRef<A>) -> (r: SubgraphTraitSinkBuilder<'g, V, W, S, ()>)
        ensures
            r.deps_view() == self.deps_view().push(node.id@),
            *r.builder == *old(self.builder),
    {
        let ghost d0 = self.deps_view();
        let mut dep_ids = self.dep_ids;
        dep_ids.push(node.id);
        let r = SubgraphTraitSinkBuilder { builder: self.builder, sink: self.sink, dep_ids, _remaining: PhantomData };
        assert(r.deps_view() =~= d0.push(node.id@));
        r
    }
}

impl<'g, V, W, S: Sink, A, B> SubgraphTraitSinkBuilder<'g, V, W, S, (A, B,)> {
    /// Wire the next dependency.
    pub fn dep(self, node: NodeRef<A>) -> (r: SubgraphTraitSinkBuilder<'g, V, W, S, (B,)>)
        ensures
            r.deps_view() == self.deps_view().push(node.id@),
            *r.builder == *old(self.builder),
    {
        let ghost d0 = self.deps_view();
        let mut dep_ids = self.dep_ids;
        dep_ids.push(node.id);
        let r = SubgraphTraitSinkBuilder { builder: self.builder, sink: self.sink, dep_ids, _remaining: PhantomData };
        assert(r.deps_view() =~= d0.push(node.id@));
        r
    }
}

impl<'g, V, W, S: Sink, A, B, Cc> SubgraphTraitSinkBuilder<'g, V, W, S, (A, B, Cc,)> {
    /// Wire the next dependency.
    pub fn dep(self, node: NodeRef<A>) -> (r: SubgraphTraitSinkBuilder<'g, V, W, S, (B, Cc,)>)
        ensures
            r.deps_view() == self.deps_view().push(node.id@),
            *r.builder == *old(self.builder),
    {
        let ghost d0 = self.deps_view();
        let mut dep_ids = self.dep_ids;
        dep_ids.push(node.id);
        let r = SubgraphTraitSinkBuilder { builder: self.builder, sink: self.sink, dep_ids, _remaining: PhantomData };
        assert(r.deps_view() =~= d0.push(node.id@));
        r
    }
}

impl<'g, V, W, S: Sink, A, B, Cc, D> SubgraphTraitSinkBuilder<'g, V, W, S, (A, B, Cc, D,)> {
    /// Wire the next dependency.
    pub fn dep(self, node: NodeRef<A>) -> (r: SubgraphTraitSinkBuilder<'g, V, W, S, (B, Cc, D,)>)
        ensures
            r.deps_view() == self.deps_view().push(node.id@),
            *r.builder == *old(self.builder),
    {
        let ghost d0 = self.deps_view();
        let mut dep_ids = self.dep_ids;
        dep_ids.push(node.id);
        let r = SubgraphTraitSinkBuilder { builder: self.builder, sink: self.sink, dep_ids, _remaining: PhantomData };
        assert(r.deps_view() =~= d0.push(node.id@));
        r
    }
}

} // verus!

verus! {

/// Handle returned when merging a subgraph. Releasing it queues the
/// deactivation of the contributed nodes, which the engine carries out at
/// the start of its next public call.
pub struct SubgraphHandle {
    node_ids: Vec<NodeId>,
}

impl SubgraphHandle {
    /// The registrations the merged subgraph made, in order.
    pub closed spec fn ids(&self) -> Seq<NodeKey> {
        ids_view(self.node_ids@)
    }

    /// `after` is `before` with the nodes of this subgraph queued for
    /// deactivation (nothing is queued for an empty subgraph).
    pub open spec fn queued<V, W>(&self, before: &Engine<V, W>, after: &Engine<V, W>) -> bool {
        &&& self.ids().len() > 0 ==> after.pending_removals@.len() == before.pending_removals@.len() + 1
            && ids_view(after.pending_removals@.last()@) == self.ids() && after.pending_removals@.drop_last()
            == before.pending_removals@
        &&& self.ids().len() == 0 ==> after.pending_removals == before.pending_removals
        &&& after.graph == before.graph
        &&& after.topology == before.topology
        &&& after.active == before.active
        &&& after.guards == before.guards
        &&& after.error_strategies == before.error_strategies
        &&& after.metrics == before.metrics
        &&& after.async_manager == before.async_manager
    }

    /// Release the subgraph: its nodes are queued for deactivation in
    /// `engine` (nothing is queued for an empty subgraph).
    pub fn release<V, W>(self, engine: &mut Engine<V, W>)
        ensures
            self.queued(&*old(engine), &*final(engine)),
    {
        if self.node_ids.len() > 0 {
            let ghost p0 = engine.pending_removals@;
            engine.pending_removals.push(self.node_ids);
            assert(engine.pending_removals@.drop_last() =~= p0);
        }
    }
}

impl<V: 'static, W: 'static> Engine<V, W> {
    /// What merging `subgraph` does from `self` to `after`, handing back
    /// `handle`: released subgraphs are deactivated; every described node is
    /// registered, a new one with one reference, a known one with one more;
    /// each sink of the subgraph is active, and so is every registered
    /// dependency of a node that became active; and the handle names the
    /// subgraph's registrations.
    pub open spec fn merged(&self, subgraph: &Subgraph<V, W>, after: &Self, handle: SubgraphHandle) -> bool {
        &&& after.wf()
        &&& handle.ids() == subgraph.ids()
        &&& after.pending_removals@.len() == 0
        &&& after.metrics == self.metrics
        &&& after.emissions == self.emissions
        &&& forall|i: int|
            0 <= i < subgraph.described().len() ==> after.graph.nodes().contains_key(
                #[trigger] subgraph.described()[i].0,
            )
        &&& forall|i: int|
            0 <= i < subgraph.described().len() && !self.graph.nodes().contains_key(
                #[trigger] subgraph.described()[i].0,
            ) ==> after.graph.nodes()[subgraph.described()[i].0].kind == subgraph.described()[i].1
                && deps_keys(after.graph.nodes()[subgraph.described()[i].0]) == subgraph.described()[i].2
        &&& forall|i: int|
            0 <= i < subgraph.described().len() && !self.graph.nodes().contains_key(
                #[trigger] subgraph.described()[i].0,
            ) ==> after.graph.nodes()[subgraph.described()[i].0].ref_count == 1
        &&& self.pending_removals@.len() == 0 ==> forall|i: int|
            0 <= i < subgraph.described().len() && self.graph.nodes().contains_key(
                #[trigger] subgraph.described()[i].0,
            ) ==> after.graph.nodes()[subgraph.described()[i].0].ref_count == self.graph.nodes()[subgraph.described()[i].0].ref_count + 1
                && after.graph.nodes()[subgraph.described()[i].0].kind == self.graph.nodes()[subgraph.described()[i].0].kind
                && after.graph.nodes()[subgraph.described()[i].0].deps == self.graph.nodes()[subgraph.described()[i].0].deps
        &&& forall|i: int|
            0 <= i < subgraph.ids().len() && after.graph.nodes().contains_key(#[trigger] subgraph.ids()[i])
                && after.graph.nodes()[subgraph.ids()[i]].kind == NodeKind::Sink ==> after.active@.contains(
                subgraph.ids()[i],
            )
        &&& after.graph.nodes().dom().subset_of(
            self.graph.nodes().dom() + described_keys(subgraph.described()).to_set(),
        )
        &&& self.pending_removals@.len() == 0 ==> after.graph.nodes().dom() == self.graph.nodes().dom()
            + described_keys(subgraph.described()).to_set()
        &&& forall|j: NodeKey, d: NodeKey|
            #![trigger self.newly_active(after, j), deps_keys(after.graph.nodes()[j]).contains(d)]
            self.newly_active(after, j) && deps_keys(after.graph.nodes()[j]).contains(d)
                && after.graph.nodes().contains_key(d) ==> after.active@.contains(d)
    }

    /// Merge a subgraph into the live engine: deactivate released subgraphs,
    /// register every described node (a known one counts one more
    /// reference), then activate each of the subgraph's sinks. The handle
    /// releases the subgraph again.
    pub fn merge(&mut self, subgraph: Subgraph<V, W>) -> (r: SubgraphHandle)
        requires
            old(self).wf(),
            old(self).graph.room_for_all(),
        ensures
            old(self).merged(&subgraph, &*final(self), r),
    {
        proof {
            use_type_invariant(&subgraph);
        }
        self.drain_pending_removals();
        let ghost act0 = self.active@;
        proof {
            assert(act0.subset_of(old(self).active@)) by {
                assert forall|x: NodeKey| act0.contains(x) implies old(self).active@.contains(x) by {
                    if !self.graph.nodes().contains_key(x) && old(self).graph.nodes().contains_key(x) {
                        assert(old(self).gone(&*self, x));
                    }
                }
            }
        }
        let ghost dom0 = self.graph.nodes().dom();
        let ghost np = self.graph.nodes();
        let ghost ds = subgraph.described();
        let ghost dk = described_keys(ds);
        let node_ids = clone_ids(&subgraph.node_ids);
        let mut descriptors = subgraph.descriptors;
        let ghost mut done: int = 0;
        proof {
            assert(dk.take(0) =~= Seq::<NodeKey>::empty());
            assert forall|k: NodeKey| #[trigger] self.graph.room_for(k) by {
                if self.graph.nodes().contains_key(k) {
                    assert(old(self).graph.room_for(k));
                }
            }
        }
        while descriptors.len() > 0
            invariant
                self.wf(),
                0 <= done <= ds.len(),
                dk == described_keys(ds),
                dk.no_duplicates(),
                descriptors_view(descriptors@) == ds.skip(done),
                forall|k: NodeKey| !dk.skip(done).contains(k) || #[trigger] self.graph.room_for(k),
                forall|t: int| 0 <= t < done ==> self.graph.nodes().contains_key(#[trigger] dk[t]),
                self.graph.nodes().dom() == dom0 + dk.take(done).to_set(),
                self.pending_removals@.len() == 0,
                self.metrics == old(self).metrics,
                self.emissions == old(self).emissions,
                self.active@ == act0,
                forall|t: int|
                    0 <= t < done && !dom0.contains(#[trigger] dk[t]) ==> self.graph.nodes()[dk[t]].ref_count == 1,
                forall|t: int|
                    0 <= t < done && !dom0.contains(#[trigger] dk[t]) ==> self.graph.nodes()[dk[t]].kind == ds[t].1
                        && deps_keys(self.graph.nodes()[dk[t]]) == ds[t].2,
                forall|t: int|
                    0 <= t < done && dom0.contains(#[trigger] dk[t]) ==> self.graph.nodes()[dk[t]].ref_count
                        == np[dk[t]].ref_count + 1 && self.graph.nodes()[dk[t]].kind == np[dk[t]].kind
                        && self.graph.nodes()[dk[t]].deps == np[dk[t]].deps,
                dom0 == np.dom(),
                forall|x: NodeKey|
                    #[trigger] dom0.contains(x) && !dk.take(done).contains(x) ==> self.graph.nodes()[x] == np[x],
            decreases descriptors@.len(),
        {
            let ghost d_before = descriptors@;
            let desc = descriptors.remove(0);
            let ghost g0 = self.graph;
            let ghost n0 = self.graph.nodes();
            proof {
                crate::facts::lemma_push_index(d_before.drop_first(), desc);
                assert(descriptors_view(d_before).len() == d_before.len());
                assert(done < ds.len());
                assert(descriptor_view(d_before[0]) == ds.skip(done)[0]);
                assert(ds.skip(done)[0] == ds[done]);
                assert(desc.id@ == dk[done]);
                assert(dk.skip(done)[0] == dk[done]);
                assert(dk.skip(done).contains(dk[done]));
                assert forall|j: int| 0 <= j < descriptors@.len() implies #[trigger] descriptors_view(descriptors@)[j] == ds.skip(done + 1)[j] by {
                    assert(descriptors@[j] == d_before[j + 1]);
                    assert(descriptors_view(d_before)[j + 1] == ds.skip(done)[j + 1]);
                }
                assert(descriptors_view(descriptors@) =~= ds.skip(done + 1));
            }
            self.graph.add_entry(desc.id, desc.kind, desc.deps, desc.node_impl);
            proof {
                let n1 = self.graph.nodes();
                let k = dk[done];
                assert forall|x: NodeKey| #[trigger] self.active@.contains(x) implies n1.contains_key(x)
                    && self.topology.deps_view()[x] == deps_keys(n1[x]) by {
                    assert(n0.contains_key(x));
                }
                assert forall|x: NodeKey| #[trigger] self.guards.view().contains_key(x) implies self.active@.contains(x)
                    && n1[x].kind == NodeKind::Source by {
                    assert(n0.contains_key(x));
                }
                assert forall|x: NodeKey| !dk.skip(done + 1).contains(x) || #[trigger] self.graph.room_for(x) by {
                    if dk.skip(done + 1).contains(x) {
                        let j = choose|j: int| 0 <= j < dk.skip(done + 1).len() && #[trigger] dk.skip(done + 1)[j] == x;
                        assert(dk[done + 1 + j] == x);
                        assert(dk.skip(done)[j + 1] == x);
                        assert(dk.skip(done).contains(x));
                        assert(g0.room_for(x));
                        assert(dk[done + 1 + j] != dk[done]);
                        assert(x != k);
                        if n0.contains_key(x) {
                            assert(n1[x] == n0[x]);
                        }
                    }
                }
                assert forall|t: int|
                    0 <= t < done + 1 && !dom0.contains(#[trigger] dk[t]) implies self.graph.nodes()[dk[t]].kind
                        == ds[t].1 && deps_keys(self.graph.nodes()[dk[t]]) == ds[t].2 by {
                    if t < done {
                        assert(dk[t] != k);
                        assert(n0.contains_key(dk[t]));
                    } else {
                        assert(!dk.take(done).contains(k)) by {
                            if dk.take(done).contains(k) {
                                let u = choose|u: int| 0 <= u < done && dk.take(done)[u] == k;
                                assert(dk[u] == dk[done]);
                            }
                        }
                        assert(!dk.take(done).to_set().contains(k));
                        assert(!n0.contains_key(k));
                        assert(descriptor_view(d_before[0]) == ds[done]);
                    }
                }
                assert forall|t: int|
                    0 <= t < done + 1 && !dom0.contains(#[trigger] dk[t]) implies self.graph.nodes()[dk[t]].ref_count
                        == 1 by {
                    if t < done {
                        assert(dk[t] != k);
                        assert(n0.contains_key(dk[t]));
                    } else {
                        assert(!dk.take(done).contains(k)) by {
                            if dk.take(done).contains(k) {
                                let u = choose|u: int| 0 <= u < done && dk.take(done)[u] == k;
                                assert(dk[u] == dk[done]);
                            }
                        }
                        assert(!dk.take(done).to_set().contains(k));
                        assert(!n0.contains_key(k));
                    }
                }
                assert forall|t: int|
                    0 <= t < done + 1 && dom0.contains(#[trigger] dk[t]) implies self.graph.nodes()[dk[t]].ref_count
                        == np[dk[t]].ref_count + 1 && self.graph.nodes()[dk[t]].kind == np[dk[t]].kind
                        && self.graph.nodes()[dk[t]].deps == np[dk[t]].deps by {
                    if t < done {
                        assert(dk[t] != k);
                        assert(n0.contains_key(dk[t]));
                    } else {
                        assert(!dk.take(done).contains(k)) by {
                            if dk.take(done).contains(k) {
                                let u = choose|u: int| 0 <= u < done && dk.take(done)[u] == k;
                                assert(dk[u] == dk[done]);
                            }
                        }
                        assert(!dk.take(done).to_set().contains(k));
                        assert(n0.contains_key(k));
                        assert(dom0.contains(k) && !dk.take(done).contains(k));
                        assert(n0[k] == np[k]);
                        assert(g0.room_for(k));
                        assert(n1[k].ref_count == n0[k].ref_count + 1);
                    }
                }
                assert(dk.take(done + 1) =~= dk.take(done).push(k));
                assert forall|x: NodeKey|
                    #[trigger] dom0.contains(x) && !dk.take(done + 1).contains(x) implies self.graph.nodes()[x] == np[x] by {
                    assert(x != k) by {
                        assert(dk.take(done + 1)[done] == k);
                    }
                    if dk.take(done).contains(x) {
                        let u = choose|u: int| 0 <= u < done && dk.take(done)[u] == x;
                        assert(dk.take(done + 1)[u] == x);
                    }
                    assert(n0.contains_key(x));
                    assert(n1[x] == n0[x]);
                }
                dk.take(done).lemma_push_to_set_commute(k);
                assert(self.graph.nodes().dom() =~= dom0 + dk.take(done + 1).to_set());
                done = done + 1;
            }
        }
        proof {
            assert(descriptors_view(descriptors@).len() == 0);
            assert(done == ds.len());
            assert(dk.take(done) =~= dk);
        }
        let ghost dom1 = self.graph.nodes().dom();
        let ghost idv = ids_view(node_ids@);
        let mut i: usize = 0;
        while i < node_ids.len()
            invariant
                self.wf(),
                i <= node_ids@.len(),
                idv == ids_view(node_ids@),
                self.graph.nodes().dom() == dom1,
                dom1 == dom0 + dk.to_set(),
                self.pending_removals@.len() == 0,
                self.metrics == old(self).metrics,
                self.emissions == old(self).emissions,
                forall|t: int|
                    0 <= t < dk.len() && !dom0.contains(#[trigger] dk[t]) ==> self.graph.nodes()[dk[t]].ref_count == 1,
                forall|t: int|
                    0 <= t < dk.len() && !dom0.contains(#[trigger] dk[t]) ==> self.graph.nodes()[dk[t]].kind == ds[t].1
                        && deps_keys(self.graph.nodes()[dk[t]]) == ds[t].2,
                forall|t: int|
                    0 <= t < dk.len() && dom0.contains(#[trigger] dk[t]) ==> self.graph.nodes()[dk[t]].ref_count
                        == np[dk[t]].ref_count + 1 && self.graph.nodes()[dk[t]].kind == np[dk[t]].kind
                        && self.graph.nodes()[dk[t]].deps == np[dk[t]].deps,
                dom0 == np.dom(),
                forall|t: int|
                    0 <= t < i && self.graph.nodes().contains_key(#[trigger] idv[t]) && self.graph.nodes()[idv[t]].kind
                        == NodeKind::Sink ==> self.active@.contains(idv[t]),
                act0.subset_of(self.active@),
                forall|j: NodeKey, d: NodeKey|
                    #![trigger self.active@.contains(j), deps_keys(self.graph.nodes()[j]).contains(d)]
                    self.active@.contains(j) && !act0.contains(j) && deps_keys(self.graph.nodes()[j]).contains(d)
                        && self.graph.nodes().contains_key(d) ==> self.active@.contains(d),
            decreases node_ids@.len() - i,
        {
            let is_sink = match self.graph.get_entry(&node_ids[i]) {
                Some(entry) => entry.kind == NodeKind::Sink,
                None => false,
            };
            if is_sink {
                let ghost before = *self;
                self.activate_sink(&node_ids[i]);
                proof {
                    assert forall|t: int|
                        0 <= t < dk.len() && !dom0.contains(#[trigger] dk[t]) implies self.graph.nodes()[dk[t]].kind
                            == ds[t].1 && deps_keys(self.graph.nodes()[dk[t]]) == ds[t].2 by {
                        assert(dk.to_set().contains(dk[t]));
                        assert(before.graph.nodes().contains_key(dk[t]));
                        assert(before.graph.nodes()[dk[t]].deps == self.graph.nodes()[dk[t]].deps);
                    }
                    assert forall|t: int|
                        0 <= t < dk.len() && !dom0.contains(#[trigger] dk[t]) implies self.graph.nodes()[dk[t]].ref_count
                            == 1 by {
                        assert(dk.to_set().contains(dk[t]));
                        assert(before.graph.nodes().contains_key(dk[t]));
                    }
                    assert forall|t: int|
                        0 <= t < dk.len() && dom0.contains(#[trigger] dk[t]) implies self.graph.nodes()[dk[t]].ref_count
                            == np[dk[t]].ref_count + 1 && self.graph.nodes()[dk[t]].kind == np[dk[t]].kind
                            && self.graph.nodes()[dk[t]].deps == np[dk[t]].deps by {
                        assert(before.graph.nodes().contains_key(dk[t]));
                    }
                    assert forall|j: NodeKey, d: NodeKey|
                        self.active@.contains(j) && !act0.contains(j) && deps_keys(self.graph.nodes()[j]).contains(d)
                            && self.graph.nodes().contains_key(d) implies self.active@.contains(d) by {
                        assert(before.graph.nodes().contains_key(j));
                        assert(before.graph.nodes().contains_key(d));
                        assert(before.graph.nodes()[j].deps == self.graph.nodes()[j].deps);
                        assert(deps_keys(before.graph.nodes()[j]).contains(d));
                        if before.active@.contains(j) {
                            assert(before.active@.contains(d));
                        } else {
                            assert(before.newly_active(&*self, j));
                        }
                    }
                    assert forall|t: int|
                        0 <= t < i + 1 && self.graph.nodes().contains_key(#[trigger] idv[t])
                            && self.graph.nodes()[idv[t]].kind == NodeKind::Sink implies self.active@.contains(idv[t]) by {
                        if t < i {
                            assert(before.graph.nodes()[idv[t]].kind == self.graph.nodes()[idv[t]].kind);
                            assert(before.active@.contains(idv[t]));
                        }
                    }
                }
            } else {
                proof {
                    assert(idv[i as int] == node_ids@[i as int]@);
                }
            }
            i = i + 1;
        }
        proof {
            assert forall|t: int| 0 <= t < ds.len() implies self.graph.nodes().contains_key(#[trigger] ds[t].0) by {
                assert(dk[t] == ds[t].0);
                assert(dk.to_set().contains(dk[t]));
            }
            assert forall|t: int|
                0 <= t < ds.len() && !old(self).graph.nodes().contains_key(#[trigger] ds[t].0) implies self.graph.nodes()[ds[t].0].ref_count
                    == 1 by {
                assert(dk[t] == ds[t].0);
                assert(!dom0.contains(dk[t]));
            }
            assert forall|t: int|
                0 <= t < ds.len() && !old(self).graph.nodes().contains_key(#[trigger] ds[t].0) implies self.graph.nodes()[ds[t].0].kind
                    == ds[t].1 && deps_keys(self.graph.nodes()[ds[t].0]) == ds[t].2 by {
                assert(dk[t] == ds[t].0);
                assert(!dom0.contains(dk[t]));
            }
            assert(self.graph.nodes().dom().subset_of(old(self).graph.nodes().dom() + dk.to_set()));
            if old(self).pending_removals@.len() == 0 {
                assert forall|t: int|
                    0 <= t < ds.len() && old(self).graph.nodes().contains_key(#[trigger] ds[t].0) implies self.graph.nodes()[ds[t].0].ref_count
                        == old(self).graph.nodes()[ds[t].0].ref_count + 1 && self.graph.nodes()[ds[t].0].kind
                        == old(self).graph.nodes()[ds[t].0].kind && self.graph.nodes()[ds[t].0].deps
                        == old(self).graph.nodes()[ds[t].0].deps by {
                    assert(dk[t] == ds[t].0);
                    assert(dom0.contains(dk[t]));
                }
            }
            assert forall|j: NodeKey, d: NodeKey|
                old(self).newly_active(&*self, j) && deps_keys(self.graph.nodes()[j]).contains(d)
                    && self.graph.nodes().contains_key(d) implies self.active@.contains(d) by {
                assert(!act0.contains(j));
            }
        }
        SubgraphHandle { node_ids }
    }
}

/// Merging registers each node the subgraph describes and the engine did
/// not know with the kind and the dependencies the subgraph gives it, the
/// dependencies in the order they were wired.
pub proof fn law_merge_registers_nodes_as_described<V: 'static, W: 'static>(
    e0: &Engine<V, W>,
    subgraph: &Subgraph<V, W>,
    e1: &Engine<V, W>,
    handle: SubgraphHandle,
    i: int,
)
    requires
        e0.merged(subgraph, e1, handle),
        0 <= i < subgraph.described().len(),
        !e0.graph.nodes().contains_key(subgraph.described()[i].0),
    ensures
        e1.graph.nodes().contains_key(subgraph.described()[i].0),
        e1.graph.nodes()[subgraph.described()[i].0].kind == subgraph.described()[i].1,
        deps_keys(e1.graph.nodes()[subgraph.described()[i].0]) == subgraph.described()[i].2,
        e1.graph.nodes()[subgraph.described()[i].0].ref_count == 1,
{
}

/// Merging a subgraph that describes a node the engine already knows (with
/// nothing released pending) only counts one more reference to it: its kind
/// and dependencies stay those it was registered with.
pub proof fn law_merge_keeps_known_nodes<V: 'static, W: 'static>(
    e0: &Engine<V, W>,
    subgraph: &Subgraph<V, W>,
    e1: &Engine<V, W>,
    handle: SubgraphHandle,
    i: int,
)
    requires
        e0.merged(subgraph, e1, handle),
        e0.pending_removals@.len() == 0,
        0 <= i < subgraph.described().len(),
        e0.graph.nodes().contains_key(subgraph.described()[i].0),
    ensures
        e1.graph.nodes()[subgraph.described()[i].0].ref_count == e0.graph.nodes()[subgraph.described()[i].0].ref_count + 1,
        e1.graph.nodes()[subgraph.described()[i].0].kind == e0.graph.nodes()[subgraph.described()[i].0].kind,
        deps_keys(e1.graph.nodes()[subgraph.described()[i].0]) == deps_keys(e0.graph.nodes()[subgraph.described()[i].0]),
{
}

/// Releasing the handle of a merged subgraph and running a cycle takes every
/// node that the merge brought into the registry out of it again, and leaves
/// it inactive.
pub proof fn law_release_undoes_merge<V: 'static, W: 'static>(
    e0: &Engine<V, W>,
    subgraph: &Subgraph<V, W>,
    e1: &Engine<V, W>,
    handle: SubgraphHandle,
    e2: &Engine<V, W>,
    e3: &Engine<V, W>,
    k: NodeKey,
)
    requires
        e0.merged(subgraph, e1, handle),
        handle.queued(e1, e2),
        e2.ran_cycle(e3),
        handle.ids().contains(k),
        !e0.graph.nodes().contains_key(k),
    ensures
        !e3.graph.nodes().contains_key(k),
        !e3.active@.contains(k),
{
    if e1.graph.nodes().contains_key(k) {
        let ds = subgraph.described();
        let dk = described_keys(ds);
        assert(dk.to_set().contains(k));
        let i = choose|i: int| 0 <= i < dk.len() && dk[i] == k;
        assert(ds[i].0 == k);
        assert(e1.graph.nodes()[k].ref_count == 1);
        let n = e2.pending_removals@.len() - 1;
        let j = choose|j: int| 0 <= j < handle.ids().len() && handle.ids()[j] == k;
        assert(e2.pending_removals@[n] == e2.pending_removals@.last());
        assert(ids_view(e2.pending_removals@[n]@)[j] == k);
        assert(e2.pending_removals@[n]@[j]@ == k);
        assert(e2.pending_names(k));
    } else {
        assert(!e2.graph.nodes().contains_key(k));
        assert(!e3.graph.nodes().contains_key(k));
        assert(!e3.active@.contains(k));
    }
}

/// Releasing the handle of a merged subgraph and running a cycle takes out
/// nothing but nodes of the subgraph.
pub proof fn law_release_takes_out_only_its_nodes<V: 'static, W: 'static>(
    e0: &Engine<V, W>,
    subgraph: &Subgraph<V, W>,
    e1: &Engine<V, W>,
    handle: SubgraphHandle,
    e2: &Engine<V, W>,
    e3: &Engine<V, W>,
    x: NodeKey,
)
    requires
        e0.merged(subgraph, e1, handle),
        handle.queued(e1, e2),
        e2.ran_cycle(e3),
        e1.graph.nodes().contains_key(x),
        !e3.graph.nodes().contains_key(x),
    ensures
        handle.ids().contains(x),
{
    assert(e2.gone(e3, x));
    let (a, b) = choose|a: int, b: int|
        0 <= a < e2.pending_removals@.len() && 0 <= b < e2.pending_removals@[a]@.len()
            && #[trigger] e2.pending_removals@[a]@[b]@ == x;
    assert(handle.ids().len() > 0);
    assert(a == e2.pending_removals@.len() - 1);
    assert(ids_view(e2.pending_removals@[a]@)[b] == x);
    assert(handle.ids()[b] == x);
}

/// A node that other registrations still hold survives releasing a merged
/// subgraph and running a cycle: it only loses one reference for each time
/// the subgraph registered it.
pub proof fn law_release_keeps_shared_nodes<V: 'static, W: 'static>(
    e0: &Engine<V, W>,
    subgraph: &Subgraph<V, W>,
    e1: &Engine<V, W>,
    handle: SubgraphHandle,
    e2: &Engine<V, W>,
    e3: &Engine<V, W>,
    k: NodeKey,
)
    requires
        e0.merged(subgraph, e1, handle),
        handle.queued(e1, e2),
        e2.ran_cycle(e3),
        e1.graph.nodes().contains_key(k),
        e1.graph.nodes()[k].ref_count > count_of(handle.ids(), k),
    ensures
        e3.graph.nodes().contains_key(k),
        e3.graph.nodes()[k].ref_count == e1.graph.nodes()[k].ref_count - count_of(handle.ids(), k),
{
    let ro = release_order(e2.pending_removals@);
    if handle.ids().len() > 0 {
        let p = e2.pending_removals@;
        assert(p.drop_last() =~= Seq::<Vec<NodeId>>::empty());
        assert(release_order(p.drop_last()) =~= Seq::<NodeKey>::empty());
        assert(ro =~= handle.ids().reverse());
        lemma_count_of_reverse(handle.ids(), k);
    } else {
        assert(release_order(e2.pending_removals@) =~= Seq::<NodeKey>::empty());
        assert(handle.ids() =~= Seq::<NodeKey>::empty());
    }
    assert(e2.graph.nodes().contains_key(k));
}

} // verus!
