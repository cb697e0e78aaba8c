//! Scoping for the scripting layer: environments of named values that share
//! their enclosing environment.

use vstd::prelude::*;
use std::sync::Arc;
use vstd::string::StringExecFns;
use crate::lang::expr::FloatParameter;

pub mod builtin_fn;

verus! {

pub type Id = String;

#[derive(Debug)]
pub enum EvalError {
    TypeMismatch(String),
    NotFound,
    /// Expected and actual number of arguments.
    InvalidNumArgs(usize, usize),
}

/// Sampling rate of a stream type; a control rate is the bit pattern of its
/// `f64` frequency in Hz.
#[derive(Clone, Copy, Debug, PartialEq, Eq, Structural)]
pub enum Rate {
    Audio,
    UpSampled(u64),
    DownSampled(u64),
    Control(u64),
}

/// Types of script values.
#[derive(Debug)]
pub enum Type {
    Unknown,
    Unit,
    Number,
    Int,
    String,
    Tuple(Vec<Type>),
    /// Element type and number of elements.
    Array(Box<Type>, u64),
    /// Argument and result types.
    Function(Box<Type>, Box<Type>),
    Event(Box<Type>),
    Vec(Box<Type>),
    /// Element type and sampling rate.
    IVec(Box<Type>, Rate),
}

impl Type {
    /// The type of MIDI notes: events of three integers.
    pub fn midi_note() -> (r: Self)
        ensures
            r matches Type::Event(b) && (*b matches Type::Tuple(v) && v@.len() == 3 && v@[0] is Int && v@[1] is Int
                && v@[2] is Int),
    {
        Type::Event(Box::new(Type::Tuple(vec![Type::Int, Type::Int, Type::Int])))
    }
}

/// Values of the scripting layer. Numbers, times and sample rates are the bit
/// patterns of `f64`s.
#[derive(Debug)]
pub enum Value {
    /// No value.
    Nothing,
    Number(u64),
    Parameter(Arc<FloatParameter>),
    String(String),
    /// Elements and their type.
    Array(Vec<Value>, Type),
    Function(Vec<Id>, Box<Expr>),
    Closure(Vec<Id>, Arc<Environment<Value>>, Box<Expr>),
    ExtFunction(Id),
    /// Generator and type.
    Track(Box<Value>, Type),
    /// Start, duration, content, label and type.
    Region(u64, u64, Box<Value>, Id, Type),
    /// Sample rate and tracks.
    Project(u64, Vec<Value>),
}

/// Expressions of the scripting layer.
#[derive(Debug)]
pub enum Expr {
    Literal(Value),
    Var(Id),
    Let(Id, Box<Expr>, Box<Expr>),
    Lambda(Vec<Id>, Box<Expr>),
    App(Box<Expr>, Vec<Expr>),
}

impl Value {
    /// A function of no arguments whose body is `expr`.
    pub fn new_lazy(expr: Expr) -> (r: Self)
        ensures
            r matches Value::Function(ids, body) && ids@.len() == 0 && *body == expr,
    {
        Value::Function(Vec::new(), Box::new(expr))
    }

    /// A track without generator whose output is an audio stream of
    /// `channels` channels of numbers.
    pub fn audio_track(channels: u64) -> (r: Self)
        ensures
            r matches Value::Track(g, t) && *g is Nothing && (t matches Type::IVec(e, Rate::Audio) && (*e matches Type::Array(n, c)
                && *n is Number && c == channels)),
    {
        let t = Type::IVec(Box::new(Type::Array(Box::new(Type::Number), channels)), Rate::Audio);
        Value::Track(Box::new(Value::Nothing), t)
    }

    /// A track without generator whose output is a vector of MIDI notes.
    pub fn midi_track() -> (r: Self)
        ensures
            r matches Value::Track(g, t) && *g is Nothing && (t matches Type::Vec(n) && (*n matches Type::Event(b)
                && (*b matches Type::Tuple(v) && v@.len() == 3))),
    {
        Value::Track(Box::new(Value::Nothing), Type::Vec(Box::new(Type::midi_note())))
    }
}

/// Named values, and the enclosing environment.
#[derive(Debug)]
pub struct Environment<T> {
    pub local: Vec<(Id, T)>,
    pub parent: Option<Arc<Environment<T>>>,
}

/// The first value bound to `key` in `local`.
pub open spec fn lookup_local<T>(local: Seq<(Id, T)>, key: Seq<char>) -> Option<T>
    decreases local.len(),
{
    if local.len() == 0 {
        None
    } else if local[0].0@ == key {
        Some(local[0].1)
    } else {
        lookup_local(local.drop_first(), key)
    }
}

impl<T> Environment<T> {
    /// What `lookup` finds: the first local binding of `key`, else what the
    /// enclosing environment finds.
    pub open spec fn lookup_spec(self, key: Seq<char>) -> Option<T>
        decreases self,
    {
        match lookup_local(self.local@, key) {
            Some(v) => Some(v),
            None => match self.parent {
                Some(p) => (*p).lookup_spec(key),
                None => None,
            },
        }
    }

    /// An empty environment with no enclosing one.
    pub fn new() -> (r: Self)
        ensures
            r.local@.len() == 0,
            r.parent is None,
    {
        Environment { local: Vec::new(), parent: None }
    }

    /// Adds a binding after the existing ones.
    pub fn bind(&mut self, key: &Id, val: T)
        ensures
            final(self).local@.len() == old(self).local@.len() + 1,
            final(self).local@.drop_last() == old(self).local@,
            final(self).local@.last().0@ == key@,
            final(self).local@.last().1 == val,
            final(self).parent == old(self).parent,
    {
        self.local.push((key.clone(), val));
        proof {
            assert(self.local@.drop_last() =~= old(self).local@);
        }
    }

    /// The value of `key`, as `lookup_spec` describes.
    pub fn lookup(&self, key: &Id) -> (r: Option<&T>)
        ensures
            r is Some <==> self.lookup_spec(key@) is Some,
            r matches Some(v) ==> *v == self.lookup_spec(key@)->Some_0,
        decreases self,
    {
        let mut i: usize = 0;
        assert(self.local@.skip(0) =~= self.local@);
        while i < self.local.len()
            invariant
                i <= self.local@.len(),
                lookup_local(self.local@, key@) == lookup_local(self.local@.skip(i as int), key@),
            decreases self.local@.len() - i,
        {
            assert(self.local@.skip(i as int).drop_first() =~= self.local@.skip(i + 1));
            if self.local[i].0 == *key {
                return Some(&self.local[i].1);
            }
            i += 1;
        }
        match &self.parent {
            Some(p) => p.lookup(key),
            None => None,
        }
    }
}

/// A new empty environment enclosed by `env`.
pub fn extend_env<T>(env: Arc<Environment<T>>) -> (r: Environment<T>)
    ensures
        r.local@.len() == 0,
        r.parent == Some(env),
{
    Environment { local: Vec::new(), parent: Some(env) }
}

/// An environment without bindings of its own finds what the environment it
/// extends finds.
pub proof fn law_extend_env_transparent<T>(outer: Environment<T>, inner: Environment<T>, key: Seq<char>)
    requires
        inner.local@.len() == 0,
        inner.parent matches Some(p) && *p == outer,
    ensures
        inner.lookup_spec(key) == outer.lookup_spec(key),
{
}

/// Lookup finds the first local binding: a binding added for a key that has
/// none yet is found, and one added for a key already bound is shadowed by the
/// earlier binding.
pub proof fn law_bind_then_lookup<T>(before: Environment<T>, after: Environment<T>, key: Seq<char>, val: T)
    requires
        after.local@.drop_last() == before.local@,
        after.local@.len() == before.local@.len() + 1,
        after.local@.last().0@ == key,
        after.local@.last().1 == val,
        after.parent == before.parent,
    ensures
        lookup_local(before.local@, key) is None ==> after.lookup_spec(key) == Some(val),
        lookup_local(before.local@, key) is Some ==> after.lookup_spec(key) == before.lookup_spec(key),
{
    lemma_lookup_local_push(before.local@, after.local@.last(), key);
    assert(after.local@ =~= before.local@.push(after.local@.last()));
}

/// Looking up in bindings with one more at the end.
pub proof fn lemma_lookup_local_push<T>(local: Seq<(Id, T)>, b: (Id, T), key: Seq<char>)
    ensures
        lookup_local(local.push(b), key) == (match lookup_local(local, key) {
            Some(v) => Some(v),
            None => if b.0@ == key { Some(b.1) } else { None },
        }),
    decreases local.len(),
{
    assert(local.push(b)[0] == if local.len() > 0 { local[0] } else { b });
    if local.len() > 0 {
        assert(local.push(b).drop_first() =~= local.drop_first().push(b));
        lemma_lookup_local_push(local.drop_first(), b, key);
    } else {
        assert(local.push(b).drop_first() =~= Seq::<(Id, T)>::empty());
        assert(lookup_local(Seq::<(Id, T)>::empty(), key) is None);
        assert(lookup_local(local.push(b).drop_first(), key) is None);
    }
}

} // verus!
