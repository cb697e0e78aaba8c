//! Value types of the stream data model.

use vstd::prelude::*;

verus! {

#[derive(Debug)]
pub enum VType {
    /// Audio samples and time.
    Real,
    /// Like `Real`, but greater than zero.
    Duration,
    Int,
    Tuple(Vec<VType>),
    Function(Vec<VType>, Box<VType>),
    Vector(Box<VType>, u64),
}

/// The mathematical value of a `VType`.
pub enum VTypeV {
    Real,
    Duration,
    Int,
    Tuple(Seq<VTypeV>),
    Function(Seq<VTypeV>, Box<VTypeV>),
    Vector(Box<VTypeV>, u64),
}

pub open spec fn vtype_view(t: VType) -> VTypeV
    decreases t,
{
    match t {
        VType::Real => VTypeV::Real,
        VType::Duration => VTypeV::Duration,
        VType::Int => VTypeV::Int,
        VType::Tuple(v) => VTypeV::Tuple(vtypes_view(v@)),
        VType::Function(p, r) => VTypeV::Function(vtypes_view(p@), Box::new(vtype_view(*r))),
        VType::Vector(e, n) => VTypeV::Vector(Box::new(vtype_view(*e)), n),
    }
}

pub open spec fn vtypes_view(s: Seq<VType>) -> Seq<VTypeV>
    decreases s,
{
    if s.len() == 0 {
        Seq::empty()
    } else {
        vtypes_view(s.drop_last()).push(vtype_view(s.last()))
    }
}

pub proof fn lemma_vtypes_view(s: Seq<VType>)
    ensures
        vtypes_view(s).len() == s.len(),
        forall|i: int| 0 <= i < s.len() ==> #[trigger] vtypes_view(s)[i] == vtype_view(s[i]),
    decreases s.len(),
{
    if s.len() > 0 {
        lemma_vtypes_view(s.drop_last());
    }
}

impl View for VType {
    type V = VTypeV;

    open spec fn view(&self) -> VTypeV {
        vtype_view(*self)
    }
}

/// An event: a time and a value of type `ty`.
pub fn event_ty(ty: VType) -> (r: VType)
    ensures
        r@ == VTypeV::Tuple(seq![VTypeV::Real, ty@]),
{
    let mut v: Vec<VType> = Vec::new();
    v.push(VType::Real);
    v.push(ty);
    proof {
        lemma_vtypes_view(v@);
        assert(vtypes_view(v@) =~= seq![VTypeV::Real, ty@]);
    }
    VType::Tuple(v)
}

/// `n` values of type `ty`.
pub fn vec_ty(ty: VType, n: u64) -> (r: VType)
    ensures
        r@ == VTypeV::Vector(Box::new(ty@), n),
{
    VType::Vector(Box::new(ty), n)
}

/// A stream of values of type `ty`: a function of no arguments that gives
/// the next value on each call.
pub fn ivec_ty(ty: VType) -> (r: VType)
    ensures
        r@ == VTypeV::Function(Seq::empty(), Box::new(ty@)),
{
    let v: Vec<VType> = Vec::new();
    proof {
        lemma_vtypes_view(v@);
        assert(vtypes_view(v@) =~= Seq::<VTypeV>::empty());
    }
    VType::Function(v, Box::new(ty))
}

/// A generator of values of type `stty`.
pub fn generator_ty(stty: VType) -> (r: VType)
    ensures
        r@ == VTypeV::Function(Seq::empty(), Box::new(stty@)),
{
    ivec_ty(stty)
}

/// A region: its start, its duration and its stream.
pub fn region_ty(stty: VType) -> (r: VType)
    ensures
        r@ == VTypeV::Tuple(seq![VTypeV::Real, VTypeV::Duration, stty@]),
{
    let mut v: Vec<VType> = Vec::new();
    v.push(VType::Real);
    v.push(VType::Duration);
    v.push(stty);
    proof {
        lemma_vtypes_view(v@);
        assert(vtypes_view(v@) =~= seq![VTypeV::Real, VTypeV::Duration, stty@]);
    }
    VType::Tuple(v)
}

/// The kinds of objects of the data model.
pub enum Type {
    Generator(VType),
    /// Input and output type.
    Track(VType, VType),
    Region(Box<Type>),
    /// Contains several tracks.
    Project(VType, VType),
    Array(Box<Type>),
}

} // verus!
