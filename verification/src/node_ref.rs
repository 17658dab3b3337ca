use crate::node::NodeKeyText;
use std::marker::PhantomData;
use vstd::prelude::*;

verus! {

/// The identity of a node as contracts see it: the scope that keeps node
/// types apart, and the key that the node was registered under.
pub type NodeKey = (NodeScope, Seq<char>);

/// The keys of a sequence of node ids, in order.
pub open spec fn ids_view(ids: Seq<NodeId>) -> Seq<NodeKey> {
    ids.map_values(|id: NodeId| id@)
}

#[verifier::external_type_specification]
#[verifier::external_body]
pub struct ExTypeId(std::any::TypeId);

/// `TypeId::of`: the identifier of the type `Scope`. Nothing is promised of
/// the value beyond its being a `TypeId`.
#[verifier::external_body]
fn type_scope<Scope: ?Sized + 'static>() -> std::any::TypeId {
    std::any::TypeId::of::<Scope>()
}

/// `<TypeId as PartialEq>::eq`: two type identifiers compare equal exactly
/// when they are the same value.
#[verifier::external_body]
fn type_ids_equal(a: &std::any::TypeId, b: &std::any::TypeId) -> (r: bool)
    ensures
        r == (*a == *b),
{
    *a == *b
}

/// What keeps the keys of different kinds of node apart: closure-built nodes
/// get one scope per kind, trait-built nodes the identifier of their type.
#[derive(Debug, Clone, Copy, PartialEq, Eq, Hash)]
pub enum NodeScope {
    ClosureSource,
    ClosureCompute,
    ClosureSink,
    ClosureAsyncCompute,
    Typed(std::any::TypeId),
}

impl NodeScope {
    /// Whether two scopes are the same.
    pub fn same(&self, other: &NodeScope) -> (r: bool)
        ensures
            r == (*self == *other),
    {
        match (self, other) {
            (NodeScope::ClosureSource, NodeScope::ClosureSource) => true,
            (NodeScope::ClosureCompute, NodeScope::ClosureCompute) => true,
            (NodeScope::ClosureSink, NodeScope::ClosureSink) => true,
            (NodeScope::ClosureAsyncCompute, NodeScope::ClosureAsyncCompute) => true,
            (NodeScope::Typed(a), NodeScope::Typed(b)) => type_ids_equal(a, b),
            _ => false,
        }
    }
}

/// Unique identity for a node in the graph.
/// The scope keeps keys of different node types apart, so that they never collide.
#[derive(Debug, PartialEq, Eq, Hash)]
pub struct NodeId {
    pub(crate) scope: NodeScope,
    pub(crate) key: String,
}

impl View for NodeId {
    type V = NodeKey;

    closed spec fn view(&self) -> NodeKey {
        (self.scope, self.key@)
    }
}

impl Clone for NodeId {
    fn clone(&self) -> (r: Self)
        ensures
            r@ == self@,
    {
        NodeId { scope: self.scope, key: self.key.clone() }
    }
}

impl NodeId {
    /// Create a NodeId for `key`, scoped by the type `Scope`.
    pub fn from_key<K: NodeKeyText + ?Sized, Scope: ?Sized + 'static>(key: &K) -> (r: NodeId)
        ensures
            r@.0 is Typed,
            r@.1 == key.text(),
    {
        let scope = type_scope::<Scope>();
        NodeId { scope: NodeScope::Typed(scope), key: key.key_text() }
    }

    /// Create a NodeId for `key` in the given scope.
    pub fn scoped(scope: NodeScope, key: &str) -> (r: NodeId)
        ensures
            r@ == (scope, key@),
    {
        NodeId { scope, key: key.to_owned() }
    }

    /// The scope of this id.
    pub fn scope(&self) -> (r: NodeScope)
        ensures
            r == self@.0,
    {
        self.scope
    }

    /// The key this id was made from.
    pub fn key(&self) -> (r: &str)
        ensures
            r@ == self@.1,
    {
        self.key.as_str()
    }

    /// Whether two ids name the same node.
    pub fn same(&self, other: &NodeId) -> (r: bool)
        ensures
            r == (self@ == other@),
    {
        self.scope.same(&other.scope) && self.key == other.key
    }
}

/// A copy of a sequence of ids, key for key.
pub fn clone_ids(ids: &Vec<NodeId>) -> (r: Vec<NodeId>)
    ensures
        ids_view(r@) == ids_view(ids@),
{
    let mut r: Vec<NodeId> = Vec::new();
    let mut i: usize = 0;
    while i < ids.len()
        invariant
            i <= ids.len(),
            r@.len() == i,
            forall|j: int| 0 <= j < i ==> r@[j]@ == ids@[j]@,
        decreases ids.len() - i,
    {
        r.push(ids[i].clone());
        i = i + 1;
    }
    assert(ids_view(r@) =~= ids_view(ids@));
    r
}

/// A typed, lightweight reference to a node in the graph.
/// Carries the node's output type at compile time.
#[derive(Debug)]
pub struct NodeRef<T> {
    pub id: NodeId,
    pub _marker: PhantomData<T>,
}

impl<T> Clone for NodeRef<T> {
    fn clone(&self) -> (r: Self)
        ensures
            r.id@ == self.id@,
    {
        NodeRef { id: self.id.clone(), _marker: PhantomData }
    }
}

} // verus!
