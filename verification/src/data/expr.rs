//! Operators, identifiers and errors of the stream expression language.

use vstd::prelude::*;
use super::types::VType;

verus! {

#[derive(Clone, Copy, Debug, PartialEq, Eq, Structural)]
pub enum Infix {
    Add,
    Sub,
    Mult,
    Div,
    Modulo,
}

#[derive(Clone, Copy, Debug, PartialEq, Eq, Structural)]
pub enum Unary {
    Negate,
    Sin,
    Cos,
    Sqrt,
}

/// An identifier.
#[derive(Debug)]
pub struct Id(pub String);

/// An expression of the stream language. A real number is kept as the bit
/// pattern of its `f64`.
#[derive(Debug)]
pub enum Expr {
    Real(u64),
    /// Start, duration and generator.
    Region(Box<Expr>, Box<Expr>, Box<Expr>),
    /// Input and output types, and the generator.
    Track(VType, VType, Box<Expr>),
    /// The array of tracks, and the mixer.
    Project(Box<Expr>, Box<Expr>),
    /// A parameter exposed to the user interface.
    Param(Id),
    Var(Id),
    Lambda(Vec<Id>, Box<Expr>),
    App(Box<Expr>, Vec<Expr>),
    InfixOp(Infix, Box<Expr>, Box<Expr>),
    UnaryOp(Unary, Box<Expr>),
}

#[derive(Debug)]
pub enum EvalError {
    VariableNotFound(String),
    NonCallable,
    NotANumber,
}

} // verus!
