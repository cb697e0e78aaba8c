//! Syntax tree of the language. Expressions live in an arena and refer to each
//! other through `ExprRef`s.

use vstd::prelude::*;
use std::sync::Arc;
use crate::store::{ExprArena, ExprId, expr_arena_tag};
use super::Symbol;
use super::builtin_fn::ExtFun;

verus! {

#[derive(Clone, Copy, Debug, PartialEq, Eq, Hash)]
pub enum Op {
    Sum,
    Minus,
    Product,
    Divide,
    Equal,
    NotEqual,
    LessThan,
    LessEqual,
    GreaterThan,
    GreaterEqual,
    Modulo,
    Exponent,
    And,
    Or,
    Pipe,
    Unknown,
}

/// The name of the function that an operator stands for.
pub open spec fn op_name(op: Op) -> Seq<char> {
    match op {
        Op::Sum => "add"@,
        Op::Minus => "sub"@,
        Op::Product => "mult"@,
        Op::Divide => "div"@,
        Op::Equal => "eq"@,
        Op::NotEqual => "ne"@,
        Op::LessThan => "lt"@,
        Op::LessEqual => "le"@,
        Op::GreaterThan => "gt"@,
        Op::GreaterEqual => "ge"@,
        Op::Modulo => "mod"@,
        Op::Exponent => "pow"@,
        Op::And => "and"@,
        Op::Or => "or"@,
        Op::Pipe => "pipe"@,
        Op::Unknown => "unknown"@,
    }
}

impl Op {
    /// The name of the function an application of this operator calls.
    pub fn get_associated_fn_name(&self) -> (r: &'static str)
        ensures
            r@ == op_name(*self),
    {
        match self {
            Op::Sum => "add",
            Op::Minus => "sub",
            Op::Product => "mult",
            Op::Divide => "div",
            Op::Equal => "eq",
            Op::NotEqual => "ne",
            Op::LessThan => "lt",
            Op::LessEqual => "le",
            Op::GreaterThan => "gt",
            Op::GreaterEqual => "ge",
            Op::Modulo => "mod",
            Op::Exponent => "pow",
            Op::And => "and",
            Op::Or => "or",
            Op::Pipe => "pipe",
            Op::Unknown => "unknown",
        }
    }
}

/// A reference to an expression stored in an arena.
#[derive(Clone, Copy, Debug)]
pub struct ExprRef(pub ExprId);

/// A number parameter exposed to the user interface: its initial value, its
/// label and its range. Numbers are kept as the bit patterns of `f64`s.
#[derive(Debug)]
pub struct FloatParameter {
    pub value_bits: u64,
    pub label: String,
    pub min_bits: u64,
    pub max_bits: u64,
}

#[derive(Debug)]
pub enum Literal {
    /// A number literal, kept as the bit pattern of an `f64`.
    Number(u64),
    FloatParameter(Arc<FloatParameter>),
    StringParameter(Arc<String>),
    String(String),
}

/// An attribute such as `#[param(0.0..1.0)]`: its name and the bit patterns
/// of the `f64` bounds of its range.
#[derive(Clone, Copy, Debug)]
pub struct Attribute(pub Symbol, pub u64, pub u64);

#[derive(Debug)]
pub struct Pattern {
    pub label: String,
}

#[derive(Debug)]
pub enum Expr {
    Nop,
    Error,
    Literal(Literal),
    Array(Vec<ExprRef>),
    Var(Symbol),
    Let(Symbol, ExprRef, ExprRef),
    Then(ExprRef, ExprRef),
    App(ExprRef, Vec<ExprRef>),
    BinOp(Op, ExprRef, ExprRef),
    AppExt(ExtFun, Vec<ExprRef>),
    Lambda(Vec<Symbol>, ExprRef),
    Paren(ExprRef),
    Block(ExprRef),
    WithAttribute(Attribute, ExprRef),
    Track(ExprRef),
    Region(ExprRef, ExprRef, ExprRef),
    /// Sample rate (bit pattern of an `f64`) and tracks.
    Project(u64, Vec<ExprRef>),
}

/// `r` refers to an expression of the arena `tag` stored before position `i`.
pub open spec fn ref_below(r: ExprRef, i: int, tag: u32) -> bool {
    r.0.arena == tag && r.0.index < i
}

pub open spec fn refs_below(rs: Seq<ExprRef>, i: int, tag: u32) -> bool {
    forall|j: int| 0 <= j < rs.len() ==> #[trigger] ref_below(rs[j], i, tag)
}

/// Every expression that `e` refers to is stored before position `i`.
pub open spec fn expr_below(e: Expr, i: int, tag: u32) -> bool {
    match e {
        Expr::Array(v) => refs_below(v@, i, tag),
        Expr::Let(_, b, t) => ref_below(b, i, tag) && ref_below(t, i, tag),
        Expr::Then(a, b) => ref_below(a, i, tag) && ref_below(b, i, tag),
        Expr::App(f, args) => ref_below(f, i, tag) && refs_below(args@, i, tag),
        Expr::BinOp(_, l, r) => ref_below(l, i, tag) && ref_below(r, i, tag),
        Expr::AppExt(_, args) => refs_below(args@, i, tag),
        Expr::Lambda(_, b) => ref_below(b, i, tag),
        Expr::Paren(b) => ref_below(b, i, tag),
        Expr::Block(b) => ref_below(b, i, tag),
        Expr::WithAttribute(_, b) => ref_below(b, i, tag),
        Expr::Track(b) => ref_below(b, i, tag),
        Expr::Region(a, b, c) => ref_below(a, i, tag) && ref_below(b, i, tag) && ref_below(c, i, tag),
        Expr::Project(_, v) => refs_below(v@, i, tag),
        _ => true,
    }
}

/// Every expression of the arena refers only to expressions stored before it,
/// as happens when children are built before their parents.
pub open spec fn arena_ordered(a: ExprArena) -> bool {
    forall|i: int| 0 <= i < a.items().len() ==> #[trigger] expr_below(a.items()[i], i, expr_arena_tag(a))
}

impl FloatParameter {
    /// A parameter with initial value `value_bits` in the range
    /// `min_bits..=max_bits` (bit patterns of `f64`s), shown as `label`.
    pub fn new(value_bits: u64, min_bits: u64, max_bits: u64, label: &str) -> (r: Self)
        ensures
            r@ == (FloatParamV { value_bits, label: label@, min_bits, max_bits }),
    {
        FloatParameter { value_bits, label: label.to_owned(), min_bits, max_bits }
    }
}

/// The mathematical value of a `FloatParameter`.
pub struct FloatParamV {
    pub value_bits: u64,
    pub label: Seq<char>,
    pub min_bits: u64,
    pub max_bits: u64,
}

impl View for FloatParameter {
    type V = FloatParamV;

    open spec fn view(&self) -> FloatParamV {
        FloatParamV {
            value_bits: self.value_bits,
            label: self.label@,
            min_bits: self.min_bits,
            max_bits: self.max_bits,
        }
    }
}

/// The mathematical value of a `Literal`.
pub enum LiteralV {
    Number(u64),
    FloatParameter(FloatParamV),
    StringParameter(Seq<char>),
    String(Seq<char>),
}

impl View for Literal {
    type V = LiteralV;

    open spec fn view(&self) -> LiteralV {
        match self {
            Literal::Number(b) => LiteralV::Number(*b),
            Literal::FloatParameter(p) => LiteralV::FloatParameter(p@),
            Literal::StringParameter(p) => LiteralV::StringParameter(p@),
            Literal::String(s) => LiteralV::String(s@),
        }
    }
}

/// The mathematical value of an `Expr`, with sequences in place of vectors.
pub enum ExprV {
    Nop,
    Error,
    Literal(LiteralV),
    Array(Seq<ExprRef>),
    Var(Symbol),
    Let(Symbol, ExprRef, ExprRef),
    Then(ExprRef, ExprRef),
    App(ExprRef, Seq<ExprRef>),
    BinOp(Op, ExprRef, ExprRef),
    AppExt(ExtFun, Seq<ExprRef>),
    Lambda(Seq<Symbol>, ExprRef),
    Paren(ExprRef),
    Block(ExprRef),
    WithAttribute(Attribute, ExprRef),
    Track(ExprRef),
    Region(ExprRef, ExprRef, ExprRef),
    Project(u64, Seq<ExprRef>),
}

impl View for Expr {
    type V = ExprV;

    open spec fn view(&self) -> ExprV {
        match self {
            Expr::Nop => ExprV::Nop,
            Expr::Error => ExprV::Error,
            Expr::Literal(l) => ExprV::Literal(l@),
            Expr::Array(v) => ExprV::Array(v@),
            Expr::Var(s) => ExprV::Var(*s),
            Expr::Let(s, b, t) => ExprV::Let(*s, *b, *t),
            Expr::Then(a, b) => ExprV::Then(*a, *b),
            Expr::App(f, v) => ExprV::App(*f, v@),
            Expr::BinOp(o, l, r) => ExprV::BinOp(*o, *l, *r),
            Expr::AppExt(f, v) => ExprV::AppExt(*f, v@),
            Expr::Lambda(ids, b) => ExprV::Lambda(ids@, *b),
            Expr::Paren(b) => ExprV::Paren(*b),
            Expr::Block(b) => ExprV::Block(*b),
            Expr::WithAttribute(a, b) => ExprV::WithAttribute(*a, *b),
            Expr::Track(b) => ExprV::Track(*b),
            Expr::Region(a, b, c) => ExprV::Region(*a, *b, *c),
            Expr::Project(sr, v) => ExprV::Project(*sr, v@),
        }
    }
}

/// `Arc::clone`: another handle to the same value.
#[verifier::external_body]
pub fn share<T>(a: &Arc<T>) -> (r: Arc<T>)
    ensures
        r == *a,
{
    Arc::clone(a)
}

/// Copies a literal; parameters are shared, not duplicated.
pub fn clone_literal(l: &Literal) -> (r: Literal)
    ensures
        r@ == l@,
{
    match l {
        Literal::Number(b) => Literal::Number(*b),
        Literal::FloatParameter(p) => Literal::FloatParameter(share(p)),
        Literal::StringParameter(p) => Literal::StringParameter(share(p)),
        Literal::String(s) => Literal::String(s.clone()),
    }
}

/// Copies an expression node; the expressions it refers to are shared.
pub fn clone_expr(e: &Expr) -> (r: Expr)
    ensures
        r@ == e@,
{
    match e {
        Expr::Nop => Expr::Nop,
        Expr::Error => Expr::Error,
        Expr::Literal(l) => Expr::Literal(clone_literal(l)),
        Expr::Array(v) => Expr::Array(copy_refs(v.as_slice())),
        Expr::Var(s) => Expr::Var(*s),
        Expr::Let(s, b, t) => Expr::Let(*s, *b, *t),
        Expr::Then(a, b) => Expr::Then(*a, *b),
        Expr::App(f, v) => Expr::App(*f, copy_refs(v.as_slice())),
        Expr::BinOp(o, l, r) => Expr::BinOp(*o, *l, *r),
        Expr::AppExt(f, v) => Expr::AppExt(*f, copy_refs(v.as_slice())),
        Expr::Lambda(ids, b) => Expr::Lambda(copy_symbols(ids.as_slice()), *b),
        Expr::Paren(b) => Expr::Paren(*b),
        Expr::Block(b) => Expr::Block(*b),
        Expr::WithAttribute(a, b) => Expr::WithAttribute(*a, *b),
        Expr::Track(b) => Expr::Track(*b),
        Expr::Region(a, b, c) => Expr::Region(*a, *b, *c),
        Expr::Project(sr, v) => Expr::Project(*sr, copy_refs(v.as_slice())),
    }
}

/// Copies a vector of expression references.
pub fn copy_refs(v: &[ExprRef]) -> (r: Vec<ExprRef>)
    ensures
        r@ == v@,
{
    let mut w: Vec<ExprRef> = Vec::new();
    let mut i: usize = 0;
    while i < v.len()
        invariant
            i <= v@.len(),
            w@ == v@.subrange(0, i as int),
        decreases v@.len() - i,
    {
        w.push(v[i]);
        i += 1;
    }
    w
}

/// Copies a vector of symbols.
pub fn copy_symbols(v: &[Symbol]) -> (r: Vec<Symbol>)
    ensures
        r@ == v@,
{
    let mut w: Vec<Symbol> = Vec::new();
    let mut i: usize = 0;
    while i < v.len()
        invariant
            i <= v@.len(),
            w@ == v@.subrange(0, i as int),
        decreases v@.len() - i,
    {
        w.push(v[i]);
        i += 1;
    }
    w
}

} // verus!
