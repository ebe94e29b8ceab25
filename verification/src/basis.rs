use vstd::prelude::*;

verus! {

/// The three axes of a camera, each a unit vector of type `V`.
#[derive(Debug, Clone, Copy)]
pub struct Basis<V> {
    pub right: V,
    pub up: V,
    pub forward: V,
}

} // verus!
