//! The otopoiesis expression language.

use vstd::prelude::*;

pub mod expr;
pub mod environment;
pub mod value;
pub mod builtin_fn;
pub mod types;
pub mod parser;
pub mod typing;
pub mod compiler;
pub mod error;
pub mod stringifier;
pub mod grammar;

verus! {

/// An interned identifier: the index of its text in the interner.
#[derive(Clone, Copy, PartialEq, Eq, Structural, Debug, Default)]
pub struct Symbol(pub usize);

/// A value that can hand out an identical copy of itself.
pub trait DeepClone: Sized + View {
    fn deep_clone(&self) -> (r: Self)
        ensures
            r@ == self@,
    ;
}

} // verus!
