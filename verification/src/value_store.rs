use crate::id_map::IdMap;
use crate::node_ref::{NodeId, NodeKey, NodeRef};
use vstd::prelude::*;

verus! {

/// Centralised storage for node values.
/// Each active node has at most one value in the store.
pub struct ValueStore<V> {
    values: IdMap<V>,
}

impl<V> ValueStore<V> {
    /// No node has two values.
    pub closed spec fn wf(&self) -> bool {
        self.values.wf()
    }

    /// The stored values, by node.
    pub closed spec fn view(&self) -> Map<NodeKey, V> {
        self.values.view()
    }

    /// An empty store.
    pub fn new() -> (r: Self)
        ensures
            r.wf(),
            r.view() == Map::<NodeKey, V>::empty(),
    {
        ValueStore { values: IdMap::new() }
    }

    /// Insert or update a value for the given node.
    pub fn set<T>(&mut self, node_ref: &NodeRef<T>, value: V)
        requires
            old(self).wf(),
        ensures
            final(self).wf(),
            final(self).view() == old(self).view().insert(node_ref.id@, value),
    {
        self.values.insert(node_ref.id.clone(), value);
    }

    /// Insert or update a value by NodeId.
    pub fn set_by_id(&mut self, id: &NodeId, value: V)
        requires
            old(self).wf(),
        ensures
            final(self).wf(),
            final(self).view() == old(self).view().insert(id@, value),
    {
        self.values.insert(id.clone(), value);
    }

    /// Get a reference to the value for the given node.
    pub fn get<T>(&self, node_ref: &NodeRef<T>) -> (r: Option<&V>)
        requires
            self.wf(),
        ensures
            match r {
                Some(v) => self.view().contains_key(node_ref.id@) && *v == self.view()[node_ref.id@],
                None => !self.view().contains_key(node_ref.id@),
            },
    {
        self.values.get(&node_ref.id)
    }

    /// Get a reference to the value by NodeId.
    pub fn get_by_id(&self, id: &NodeId) -> (r: Option<&V>)
        requires
            self.wf(),
        ensures
            match r {
                Some(v) => self.view().contains_key(id@) && *v == self.view()[id@],
                None => !self.view().contains_key(id@),
            },
    {
        self.values.get(id)
    }

    /// Remove the value for the given node.
    pub fn remove(&mut self, id: &NodeId)
        requires
            old(self).wf(),
        ensures
            final(self).wf(),
            final(self).view() == old(self).view().remove(id@),
    {
        self.values.remove(id);
    }

    /// Check if a value exists for the given node.
    pub fn contains(&self, id: &NodeId) -> (r: bool)
        requires
            self.wf(),
        ensures
            r == self.view().contains_key(id@),
    {
        self.values.contains(id)
    }
}

/// A read of a node gives back the value last written to it, and a write to
/// one node leaves every other node's value as it was.
pub proof fn law_read_after_write<V>(
    before: Map<NodeKey, V>,
    after: Map<NodeKey, V>,
    written: NodeKey,
    value: V,
    other: NodeKey,
)
    requires
        after == before.insert(written, value),
    ensures
        after.contains_key(written) && after[written] == value,
        other != written ==> (after.contains_key(other) == before.contains_key(other) && (
        before.contains_key(other) ==> after[other] == before[other])),
{
}

/// After a removal the node has no value, and the other nodes keep theirs.
pub proof fn law_read_after_remove<V>(
    before: Map<NodeKey, V>,
    after: Map<NodeKey, V>,
    removed: NodeKey,
    other: NodeKey,
)
    requires
        after == before.remove(removed),
    ensures
        !after.contains_key(removed),
        other != removed ==> (after.contains_key(other) == before.contains_key(other) && (
        before.contains_key(other) ==> after[other] == before[other])),
{
}

} // verus!
