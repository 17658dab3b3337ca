use crate::node_ref::NodeId;
use crate::subgraph::Subgraph;
use std::sync::mpsc;
use vstd::prelude::*;

verus! {

/// Commands sent from an `EngineHandle` to the engine's event loop.
#[verifier::reject_recursive_types(V)]
#[verifier::reject_recursive_types(W)]
pub enum Command<V, W> {
    /// Update a source value.
    SourceUpdate { id: NodeId, value: V },
    /// Merge a subgraph and return the node IDs via the reply channel.
    Merge { subgraph: Subgraph<V, W>, reply: mpsc::Sender<Vec<NodeId>> },
    /// Remove nodes (decrement ref counts).
    Remove { node_ids: Vec<NodeId> },
    /// Notification that an async computation completed (wake event loop).
    AsyncComplete,
    /// Notification that a source value arrived (wake event loop).
    SourceReady,
    /// Shut down the event loop.
    Shutdown,
}

impl<V, W> Command<V, W> {
    /// The update of the source `id` to `value`.
    pub fn source_update(id: NodeId, value: V) -> (r: Self)
        ensures
            r is SourceUpdate,
            r->SourceUpdate_id@ == id@,
            r->SourceUpdate_value == value,
    {
        Command::SourceUpdate { id, value }
    }

    /// The removal of `node_ids`.
    pub fn remove(node_ids: Vec<NodeId>) -> (r: Self)
        ensures
            r is Remove,
            r->node_ids@ == node_ids@,
    {
        Command::Remove { node_ids }
    }
}

} // verus!
