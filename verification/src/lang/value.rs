//! Runtime values of the evaluator.

use vstd::prelude::*;
use crate::store::EnvId;
use super::{DeepClone, Symbol};
use super::expr::ExprRef;

verus! {

/// An untyped runtime word: either the bit pattern of an `f64` or the index of
/// an object (closure, array, track, region, project, parameter, function) in
/// the evaluator's storage; the expression that produced it tells which.
#[derive(Clone, Copy, Debug, Default, PartialEq, Eq)]
pub struct RawValue(pub u64);

impl View for RawValue {
    type V = RawValue;

    open spec fn view(&self) -> RawValue {
        *self
    }
}

impl DeepClone for RawValue {
    fn deep_clone(&self) -> (r: Self) {
        *self
    }
}

/// A function value: the environment it was created in, its parameters and
/// its body.
#[derive(Debug)]
pub struct Closure {
    pub env: EnvId,
    pub ids: Vec<Symbol>,
    pub body: ExprRef,
}

/// The mathematical value of a `Closure`.
pub struct ClosureV {
    pub env: EnvId,
    pub ids: Seq<Symbol>,
    pub body: ExprRef,
}

impl View for Closure {
    type V = ClosureV;

    open spec fn view(&self) -> ClosureV {
        ClosureV { env: self.env, ids: self.ids@, body: self.body }
    }
}

impl Closure {
    pub fn new(env: EnvId, ids: &Vec<Symbol>, body: ExprRef) -> (r: Self)
        ensures
            r@ == (ClosureV { env, ids: ids@, body }),
    {
        Closure { env, ids: super::expr::copy_symbols(ids.as_slice()), body }
    }
}

/// A track: the environment it was created in and its content.
#[derive(Clone, Copy, Debug)]
pub struct Track(pub EnvId, pub ExprRef);

/// A region: its environment, start, duration and content.
#[derive(Clone, Copy, Debug)]
pub struct Region(pub EnvId, pub ExprRef, pub ExprRef, pub ExprRef);

/// A project: its environment, its sample rate (bit pattern of an `f64`) and
/// its tracks.
#[derive(Debug)]
pub struct Project(pub EnvId, pub u64, pub Vec<ExprRef>);

/// The mathematical value of a `Project`.
pub struct ProjectV(pub EnvId, pub u64, pub Seq<ExprRef>);

impl View for Project {
    type V = ProjectV;

    open spec fn view(&self) -> ProjectV {
        ProjectV(self.0, self.1, self.2@)
    }
}

} // verus!
