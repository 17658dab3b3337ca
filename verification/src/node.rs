use crate::input_tuple::InputTuple;
use crate::sender::Sender;
use vstd::prelude::*;

verus! {

/// What a node key is made into the text of its id by.
pub trait NodeKeyText {
    /// The text of the key.
    spec fn text(&self) -> Seq<char>;

    /// The text of the key, as a string.
    fn key_text(&self) -> (r: String)
        ensures
            r@ == self.text(),
    ;
}

impl NodeKeyText for String {
    open spec fn text(&self) -> Seq<char> {
        self@
    }

    fn key_text(&self) -> (r: String) {
        self.clone()
    }
}

impl NodeKeyText for str {
    open spec fn text(&self) -> Seq<char> {
        self@
    }

    fn key_text(&self) -> (r: String) {
        self.to_owned()
    }
}

/// Base trait for all nodes. Provides identity (key) and output type.
pub trait Node {
    type Output;
    type Key: NodeKeyText;

    fn key(&self) -> Self::Key;
}

/// A source node — produces values from outside the graph.
pub trait Source: Node {
    type Guard: 'static;

    fn activate(&self, tx: Sender<Self::Output>) -> Self::Guard;
}

/// A synchronous compute node — transforms inputs into an output.
pub trait Compute: Node {
    type Inputs: InputTuple;

    fn compute(&self, inputs: <Self::Inputs as InputTuple>::Ref<'_>) -> Self::Output;
}

/// A sink node — consumes values, produces no output within the graph.
pub trait Sink {
    type Inputs: InputTuple;
    type Key: NodeKeyText;

    fn key(&self) -> Self::Key;

    fn emit(&self, inputs: <Self::Inputs as InputTuple>::Ref<'_>);
}

/// An async compute node — hands out work that produces a value; the
/// runtime that executes async work runs it.
pub trait AsyncCompute: Node {
    type Inputs: InputTuple;
    type Work;

    fn compute(&self, inputs: <Self::Inputs as InputTuple>::Ref<'_>) -> Self::Work;
}

} // verus!
