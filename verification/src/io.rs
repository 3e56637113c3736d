use vstd::prelude::*;

verus! {

/// A value stored under an identifier.
pub struct Entity<T> {
    pub id: String,
    pub data: T,
}

} // verus!
