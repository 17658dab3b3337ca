use vstd::prelude::*;

verus! {

/// Maps a tuple of value types to a tuple of references.
/// Used by Compute, AsyncCompute, and Sink to express their input signature.
pub trait InputTuple {
    type Ref<'a>;
}

impl<A: 'static> InputTuple for (A,) {
    type Ref<'a> = (&'a A,);
}

impl<A: 'static, B: 'static> InputTuple for (A, B,) {
    type Ref<'a> = (&'a A, &'a B,);
}

impl<A: 'static, B: 'static, Cc: 'static> InputTuple for (A, B, Cc,) {
    type Ref<'a> = (&'a A, &'a B, &'a Cc,);
}

impl<A: 'static, B: 'static, Cc: 'static, D: 'static> InputTuple for (A, B, Cc, D,) {
    type Ref<'a> = (&'a A, &'a B, &'a Cc, &'a D,);
}

impl<A: 'static, B: 'static, Cc: 'static, D: 'static, E: 'static> InputTuple for (A, B, Cc, D, E,) {
    type Ref<'a> = (&'a A, &'a B, &'a Cc, &'a D, &'a E,);
}

impl<A: 'static, B: 'static, Cc: 'static, D: 'static, E: 'static, Ff: 'static> InputTuple for (A, B, Cc, D, E, Ff,) {
    type Ref<'a> = (&'a A, &'a B, &'a Cc, &'a D, &'a E, &'a Ff,);
}

impl<A: 'static, B: 'static, Cc: 'static, D: 'static, E: 'static, Ff: 'static, G: 'static> InputTuple for (A, B, Cc, D, E, Ff, G,) {
    type Ref<'a> = (&'a A, &'a B, &'a Cc, &'a D, &'a E, &'a Ff, &'a G,);
}

impl<A: 'static, B: 'static, Cc: 'static, D: 'static, E: 'static, Ff: 'static, G: 'static, H: 'static> InputTuple for (A, B, Cc, D, E, Ff, G, H,) {
    type Ref<'a> = (&'a A, &'a B, &'a Cc, &'a D, &'a E, &'a Ff, &'a G, &'a H,);
}

impl<A: 'static, B: 'static, Cc: 'static, D: 'static, E: 'static, Ff: 'static, G: 'static, H: 'static, I: 'static> InputTuple for (A, B, Cc, D, E, Ff, G, H, I,) {
    type Ref<'a> = (&'a A, &'a B, &'a Cc, &'a D, &'a E, &'a Ff, &'a G, &'a H, &'a I,);
}

impl<A: 'static, B: 'static, Cc: 'static, D: 'static, E: 'static, Ff: 'static, G: 'static, H: 'static, I: 'static, J: 'static> InputTuple for (A, B, Cc, D, E, Ff, G, H, I, J,) {
    type Ref<'a> = (&'a A, &'a B, &'a Cc, &'a D, &'a E, &'a Ff, &'a G, &'a H, &'a I, &'a J,);
}

impl<A: 'static, B: 'static, Cc: 'static, D: 'static, E: 'static, Ff: 'static, G: 'static, H: 'static, I: 'static, J: 'static, K: 'static> InputTuple for (A, B, Cc, D, E, Ff, G, H, I, J, K,) {
    type Ref<'a> = (&'a A, &'a B, &'a Cc, &'a D, &'a E, &'a Ff, &'a G, &'a H, &'a I, &'a J, &'a K,);
}

impl<A: 'static, B: 'static, Cc: 'static, D: 'static, E: 'static, Ff: 'static, G: 'static, H: 'static, I: 'static, J: 'static, K: 'static, L: 'static> InputTuple for (A, B, Cc, D, E, Ff, G, H, I, J, K, L,) {
    type Ref<'a> = (&'a A, &'a B, &'a Cc, &'a D, &'a E, &'a Ff, &'a G, &'a H, &'a I, &'a J, &'a K, &'a L,);
}

} // verus!
