//! Descriptions of data by the way they are stored.

use vstd::prelude::*;

verus! {

/// A kind of storage: its plain value and its shared form.
pub trait DataWrapper {
    type Primitive;
    type Shared;
}

/// A storage of values of kind `T`.
pub trait Collection<T> {
    type Item;
}

/// Unsigned integers.
pub struct UInt;

impl<T> Collection<T> for UInt {
    type Item = u64;
}

/// A record whose frequency is stored as `UInt` stores it.
pub struct Test<T> {
    pub freq: <UInt as Collection<T>>::Item,
}

impl<T> Test<T> {
    pub fn new() -> (r: Self)
        ensures
            r.freq == 0,
    {
        Test { freq: 0 }
    }
}

} // verus!
