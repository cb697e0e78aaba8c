//! Types of the language.

use vstd::prelude::*;
use super::DeepClone;

verus! {

/// Sampling rate of a stream type. The control rate is kept as the bit pattern
/// of its `f64` frequency in Hz.
#[derive(Clone, Copy, Debug, PartialEq, Eq, Structural)]
pub enum Rate {
    Audio,
    UpSampled(u64),
    DownSampled(u64),
    Control(u64),
}

pub type TypeId = i64;

#[derive(Debug)]
pub enum Type {
    Unknown,
    Unit,
    Number,
    Int,
    String,
    Tuple(Vec<Type>),
    /// Element type and number of elements.
    Array(Box<Type>, u64),
    /// Parameter types and result type.
    Function(Vec<Type>, Box<Type>),
    Event(Box<Type>),
    Vec(Box<Type>),
    IVec(Box<Type>, Rate),
    /// Code to be evaluated at the next stage.
    Code(Box<Type>),
    /// A type variable of the inference.
    Intermediate(TypeId),
    /// The type given to an expression whose inference failed.
    Error,
}

/// The mathematical value of a `Type`, with sequences in place of vectors.
pub enum TypeV {
    Unknown,
    Unit,
    Number,
    Int,
    String,
    Tuple(Seq<TypeV>),
    Array(Box<TypeV>, u64),
    Function(Seq<TypeV>, Box<TypeV>),
    Event(Box<TypeV>),
    Vec(Box<TypeV>),
    IVec(Box<TypeV>, Rate),
    Code(Box<TypeV>),
    Intermediate(TypeId),
    Error,
}

pub open spec fn type_view(t: Type) -> TypeV
    decreases t,
{
    match t {
        Type::Unknown => TypeV::Unknown,
        Type::Unit => TypeV::Unit,
        Type::Number => TypeV::Number,
        Type::Int => TypeV::Int,
        Type::String => TypeV::String,
        Type::Tuple(v) => TypeV::Tuple(types_view(v@)),
        Type::Array(a, l) => TypeV::Array(Box::new(type_view(*a)), l),
        Type::Function(p, r) => TypeV::Function(types_view(p@), Box::new(type_view(*r))),
        Type::Event(a) => TypeV::Event(Box::new(type_view(*a))),
        Type::Vec(a) => TypeV::Vec(Box::new(type_view(*a))),
        Type::IVec(a, r) => TypeV::IVec(Box::new(type_view(*a)), r),
        Type::Code(a) => TypeV::Code(Box::new(type_view(*a))),
        Type::Intermediate(i) => TypeV::Intermediate(i),
        Type::Error => TypeV::Error,
    }
}

pub open spec fn types_view(s: Seq<Type>) -> Seq<TypeV>
    decreases s,
{
    if s.len() == 0 {
        Seq::empty()
    } else {
        types_view(s.drop_last()).push(type_view(s.last()))
    }
}

impl View for Type {
    type V = TypeV;

    open spec fn view(&self) -> TypeV {
        type_view(*self)
    }
}

pub proof fn lemma_types_view(s: Seq<Type>)
    ensures
        types_view(s).len() == s.len(),
        forall|i: int| 0 <= i < s.len() ==> #[trigger] types_view(s)[i] == type_view(s[i]),
    decreases s.len(),
{
    if s.len() > 0 {
        lemma_types_view(s.drop_last());
    }
}

pub proof fn lemma_types_view_push(s: Seq<Type>, t: Type)
    ensures
        types_view(s.push(t)) == types_view(s).push(type_view(t)),
{
    assert(s.push(t).drop_last() == s);
}

/// Copies a type.
pub fn clone_type(t: &Type) -> (r: Type)
    ensures
        r@ == t@,
    decreases t,
{
    match t {
        Type::Unknown => Type::Unknown,
        Type::Unit => Type::Unit,
        Type::Number => Type::Number,
        Type::Int => Type::Int,
        Type::String => Type::String,
        Type::Tuple(v) => Type::Tuple(clone_types(v)),
        Type::Array(a, l) => Type::Array(Box::new(clone_type(a)), *l),
        Type::Function(p, r) => {
            let p2 = clone_types(p);
            Type::Function(p2, Box::new(clone_type(r)))
        },
        Type::Event(a) => Type::Event(Box::new(clone_type(a))),
        Type::Vec(a) => Type::Vec(Box::new(clone_type(a))),
        Type::IVec(a, r) => Type::IVec(Box::new(clone_type(a)), *r),
        Type::Code(a) => Type::Code(Box::new(clone_type(a))),
        Type::Intermediate(i) => Type::Intermediate(*i),
        Type::Error => Type::Error,
    }
}

/// Copies a vector of types.
pub fn clone_types(v: &Vec<Type>) -> (r: Vec<Type>)
    ensures
        types_view(r@) == types_view(v@),
    decreases v,
{
    let mut w: Vec<Type> = Vec::new();
    let mut i: usize = 0;
    while i < v.len()
        invariant
            i <= v@.len(),
            types_view(w@) == types_view(v@.subrange(0, i as int)),
        decreases v@.len() - i,
    {
        proof {
            assert(decreases_to!(v => v@[i as int]));
        }
        let c = clone_type(&v[i]);
        proof {
            lemma_types_view_push(w@, c);
            lemma_types_view_push(v@.subrange(0, i as int), v@[i as int]);
            assert(v@.subrange(0, i + 1) == v@.subrange(0, i as int).push(v@[i as int]));
        }
        w.push(c);
        i += 1;
    }
    proof {
        assert(v@.subrange(0, v@.len() as int) == v@);
    }
    w
}

impl DeepClone for Type {
    fn deep_clone(&self) -> (r: Self) {
        clone_type(self)
    }
}

impl Type {
    /// The type of a MIDI note event: an event of three integers.
    pub fn midi_note() -> (r: Self)
        ensures
            r@ == TypeV::Event(Box::new(TypeV::Tuple(seq![TypeV::Int, TypeV::Int, TypeV::Int]))),
    {
        let v = vec![Type::Int, Type::Int, Type::Int];
        proof {
            lemma_types_view(v@);
            assert(types_view(v@) =~= seq![TypeV::Int, TypeV::Int, TypeV::Int]);
        }
        let t = Self::Tuple(v);
        assert(t@ == TypeV::Tuple(types_view(v@)));
        let r = Self::Event(Box::new(t));
        assert(r@ == TypeV::Event(Box::new(t@)));
        r
    }
}

/// `b` is what `f` gives for a copy of `a`.
pub open spec fn maps_to<F: Fn(Type) -> Type>(f: F, a: Type, b: Type) -> bool {
    exists|x: Type| x@ == a@ && call_ensures(f, (x,), b)
}

/// `new` is `old` with `f` applied to each of its immediate component types:
/// those of arrays, tuples, functions and code. Other types are copied.
pub open spec fn applied_to_parts<F: Fn(Type) -> Type>(f: F, old: Type, new: Type) -> bool {
    match old {
        Type::Array(a, l) => new matches Type::Array(b, l2) && l2 == l && maps_to(f, *a, *b),
        Type::Tuple(v) => new matches Type::Tuple(w) && w@.len() == v@.len()
            && forall|i: int| 0 <= i < v@.len() ==> #[trigger] maps_to(f, v@[i], w@[i]),
        Type::Function(p, r) => new matches Type::Function(q, s) && q@.len() == p@.len()
            && (forall|i: int| 0 <= i < p@.len() ==> #[trigger] maps_to(f, p@[i], q@[i])) && maps_to(f, *r, *s),
        Type::Code(c) => new matches Type::Code(d) && maps_to(f, *c, *d),
        _ => new@ == old@,
    }
}

/// Applies `f` to a copy of each type in `v`.
fn apply_vec<F: Fn(Type) -> Type>(v: &Vec<Type>, f: &F) -> (r: Vec<Type>)
    requires
        forall|t: Type| f.requires((t,)),
    ensures
        r@.len() == v@.len(),
        forall|i: int| 0 <= i < v@.len() ==> #[trigger] maps_to(*f, v@[i], r@[i]),
{
    let mut w: Vec<Type> = Vec::new();
    let mut i: usize = 0;
    while i < v.len()
        invariant
            i <= v@.len(),
            w@.len() == i,
            forall|t: Type| f.requires((t,)),
            forall|k: int| 0 <= k < i ==> #[trigger] maps_to(*f, v@[k], w@[k]),
        decreases v@.len() - i,
    {
        let x = clone_type(&v[i]);
        let y = f(x);
        proof {
            assert(maps_to(*f, v@[i as int], y));
        }
        w.push(y);
        i += 1;
    }
    w
}

/// Applies `f` to a copy of `a`, boxed.
fn apply_box<F: Fn(Type) -> Type>(a: &Type, f: &F) -> (r: Box<Type>)
    requires
        forall|t: Type| f.requires((t,)),
    ensures
        maps_to(*f, *a, *r),
{
    let x = clone_type(a);
    let y = f(x);
    proof {
        assert(maps_to(*f, *a, y));
    }
    Box::new(y)
}

impl Type {
    /// The type with `closure` applied to each of its immediate component
    /// types, as `applied_to_parts` describes.
    pub fn apply_fn<F: Fn(Type) -> Type>(&self, closure: F) -> (r: Type)
        requires
            forall|t: Type| closure.requires((t,)),
        ensures
            applied_to_parts(closure, *self, r),
    {
        match self {
            Type::Array(a, l) => Type::Array(apply_box(a, &closure), *l),
            Type::Tuple(v) => Type::Tuple(apply_vec(v, &closure)),
            Type::Function(p, r) => {
                let q = apply_vec(p, &closure);
                Type::Function(q, apply_box(r, &closure))
            },
            Type::Code(c) => Type::Code(apply_box(c, &closure)),
            _ => clone_type(self),
        }
    }
}

impl Default for Type {
    fn default() -> (r: Self)
        ensures
            r == Type::Unknown,
    {
        Type::Unknown
    }
}

} // verus!
