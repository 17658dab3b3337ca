use crate::channel;
use crate::command::Command;
use crate::node_ref::{ids_view, NodeId, NodeKey, NodeRef};
use crate::subgraph::Subgraph;
use std::sync::mpsc;
use vstd::prelude::*;

verus! {

/// A handle to an engine running its event loop elsewhere. All operations
/// are serialized through the loop's command channel.
#[verifier::reject_recursive_types(V)]
#[verifier::reject_recursive_types(W)]
pub struct EngineHandle<V, W = ()> {
    tx: mpsc::Sender<Command<V, W>>,
}

impl<V, W> EngineHandle<V, W> {
    /// The channel the handle sends its commands on.
    pub closed spec fn sender(&self) -> mpsc::Sender<Command<V, W>> {
        self.tx
    }

    /// A handle that sends its commands on `tx`.
    pub fn new(tx: mpsc::Sender<Command<V, W>>) -> (r: Self)
        ensures
            r.sender() == tx,
    {
        EngineHandle { tx }
    }

    /// Send a new value for the source `node_ref`.
    pub fn update_source<T>(&self, node_ref: &NodeRef<T>, value: V) {
        channel::send(&self.tx, Command::source_update(node_ref.id.clone(), value));
    }

    /// Merge a subgraph into the engine, and wait until the engine has done
    /// so. The handle that comes back releases the subgraph's nodes again
    /// (see `RemoteSubgraphHandle::from_reply`). Which nodes the engine
    /// reports back is its own affair, so nothing is promised of them.
    pub fn merge(&self, subgraph: Subgraph<V, W>) -> RemoteSubgraphHandle<V, W> {
        let (reply_tx, reply_rx) = channel::channel();
        channel::send(&self.tx, Command::Merge { subgraph, reply: reply_tx });
        let reply = channel::recv(&reply_rx);
        RemoteSubgraphHandle::from_reply(reply, channel::clone_sender(&self.tx))
    }

    /// Shut down the engine's event loop.
    pub fn shutdown(&self) {
        channel::send(&self.tx, Command::Shutdown);
    }
}

impl<V, W> Clone for EngineHandle<V, W> {
    fn clone(&self) -> Self {
        EngineHandle { tx: channel::clone_sender(&self.tx) }
    }
}

/// Handle to a subgraph merged through an `EngineHandle`. Releasing it sends
/// the removal of its nodes to the engine.
#[verifier::reject_recursive_types(V)]
#[verifier::reject_recursive_types(W)]
pub struct RemoteSubgraphHandle<V, W = ()> {
    node_ids: Vec<NodeId>,
    tx: mpsc::Sender<Command<V, W>>,
}

impl<V, W> RemoteSubgraphHandle<V, W> {
    /// The nodes the engine reported for the merged subgraph.
    pub closed spec fn ids(&self) -> Seq<NodeKey> {
        ids_view(self.node_ids@)
    }

    /// The channel the removal goes to.
    pub closed spec fn sender(&self) -> mpsc::Sender<Command<V, W>> {
        self.tx
    }

    /// The handle for the engine's reply to a merge: the nodes it reported,
    /// or none when the engine went away without replying.
    pub fn from_reply(reply: Option<Vec<NodeId>>, tx: mpsc::Sender<Command<V, W>>) -> (r: Self)
        ensures
            r.ids() == (match reply {
                Some(ids) => ids_view(ids@),
                None => Seq::<NodeKey>::empty(),
            }),
            r.sender() == tx,
    {
        let node_ids = match reply {
            Some(ids) => ids,
            None => Vec::new(),
        };
        RemoteSubgraphHandle { node_ids, tx }
    }

    /// Send the removal of the subgraph's nodes (nothing for an empty one).
    pub fn release(self) {
        if self.node_ids.len() > 0 {
            channel::send(&self.tx, Command::remove(self.node_ids));
        }
    }
}

} // verus!
