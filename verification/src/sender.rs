use crate::channel;
use crate::node_ref::{NodeId, NodeKey};
use std::sync::mpsc;
use vstd::prelude::*;

verus! {

/// A handle for pushing values of one source into the graph.
#[verifier::reject_recursive_types(T)]
pub struct Sender<T> {
    pub(crate) id: NodeId,
    pub(crate) tx: mpsc::Sender<(NodeId, T)>,
}

impl<T> Sender<T> {
    /// The source this sender pushes for.
    pub closed spec fn source(&self) -> NodeKey {
        self.id@
    }

    /// A sender that pushes values for `id` into `tx`.
    pub fn new(id: NodeId, tx: mpsc::Sender<(NodeId, T)>) -> (r: Sender<T>)
        ensures
            r.source() == id@,
    {
        Sender { id, tx }
    }

    /// The message that pushes `value` for this sender's source.
    pub fn message(&self, value: T) -> (r: (NodeId, T))
        ensures
            r.0@ == self.source(),
            r.1 == value,
    {
        (self.id.clone(), value)
    }

    /// Push `value` as the source's new value (see `message`); a later cycle
    /// takes it in.
    pub fn send(&self, value: T) {
        channel::send(&self.tx, self.message(value));
    }
}

impl<T> Clone for Sender<T> {
    fn clone(&self) -> (r: Self)
        ensures
            r.source() == self.source(),
    {
        Sender { id: self.id.clone(), tx: channel::clone_sender(&self.tx) }
    }
}

} // verus!
