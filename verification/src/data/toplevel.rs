//! The project as it is kept in a project file.

use vstd::prelude::*;
use crate::lang::expr::FloatParameter;

verus! {

/// Parameters of an oscillator.
#[derive(Debug)]
pub struct OscillatorParam {
    pub amp: FloatParameter,
    pub freq: FloatParameter,
    pub phase: FloatParameter,
}

} // verus!
