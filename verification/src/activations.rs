use vstd::prelude::*;

verus! {

/// The activation function of the hidden layers.
pub enum Activation {
    ReLu,
    Sigmoid,
    Identity,
}

} // verus!
