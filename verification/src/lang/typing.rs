//! Type inference: unification of types with type variables, the occurs
//! check, substitution, and inference over the expression arena.

use vstd::prelude::*;
use std::collections::BTreeMap;
use std::ops::Range;
use crate::store::{EnvId, ExprArena, Interner, expr_arena_tag};
use super::Symbol;
use super::types::{Type, TypeV, clone_type, lemma_types_view, lemma_types_view_push, types_view};
use super::expr::{Expr, ExprRef, Literal, copy_refs};
use super::environment::EnvironmentStorage;
use super::parser::{ParseContext, Span};

verus! {

broadcast use vstd::std_specs::btree::group_btree_axioms, vstd::laws_cmp::group_laws_cmp;

#[derive(Debug)]
pub enum ErrorKind {
    TypeMismatch,
    CircularType,
    /// Length of the tuple and index.
    IndexOutOfRange(u16, u16),
    IndexForNonTuple,
    VariableNotFound(String),
    NonPrimitiveInFeed,
}

/// A type error and the source span it concerns.
#[derive(Debug)]
pub struct Error(pub ErrorKind, pub Span);

/// The substitution of a context, with types taken by their views.
pub open spec fn subst_view(m: Map<i64, Type>) -> Map<i64, TypeV> {
    m.map_values(|t: Type| t@)
}

/// A type variable is only ever mapped to a later type variable, so that
/// following the substitution from variable to variable ends.
pub open spec fn chain_ascending(m: Map<i64, TypeV>) -> bool {
    forall|i: i64| #[trigger] m.contains_key(i) ==> (m[i] matches TypeV::Intermediate(j) ==> j > i)
}

/// Whether the type variable `id1` is met in `t`: going into arrays, tuples
/// (any member) and functions (any parameter, or the result), and from each
/// other variable met on to the type it is mapped to, at most `n` times along
/// one path.
pub open spec fn occ_in(m: Map<i64, TypeV>, id1: i64, t: TypeV, n: nat) -> bool
    decreases n, t, 0int,
{
    match t {
        TypeV::Intermediate(id2) => id1 == id2 || (n > 0 && m.contains_key(id2) && occ_in(
            m,
            id1,
            m[id2],
            (n - 1) as nat,
        )),
        TypeV::Array(a, _) => occ_in(m, id1, *a, n),
        TypeV::Tuple(ts) => occ_any(m, id1, ts, 0, n),
        TypeV::Function(p, r) => occ_any(m, id1, p, 0, n) || occ_in(m, id1, *r, n),
        _ => false,
    }
}

/// Whether `id1` is met in one of `ts[i..]`.
pub open spec fn occ_any(m: Map<i64, TypeV>, id1: i64, ts: Seq<TypeV>, i: int, n: nat) -> bool
    decreases n, ts, ts.len() - i,
{
    if i < 0 || i >= ts.len() {
        false
    } else {
        occ_in(m, id1, ts[i], n) || occ_any(m, id1, ts, i + 1, n)
    }
}

/// What `occur_check(id1, t)` returns: whether `id1` is met in `t` under the
/// substitution `m`, that is, whether binding `id1` to `t` would close a
/// loop. A path that follows the substitution more often than `m` has
/// entries passes some variable twice, so following it at most that often
/// misses no occurrence, and the occurs check ends on every substitution.
pub open spec fn occur_spec(m: Map<i64, TypeV>, id1: i64, t: TypeV) -> bool {
    occ_in(m, id1, t, m.len())
}

/// Unification of `t1` with `t2` under the substitution `m`: the new
/// substitution and the unified type or the error.
pub open spec fn unify_spec(m: Map<i64, TypeV>, t1: TypeV, t2: TypeV) -> (Map<i64, TypeV>, Result<TypeV, ErrorKind>)
    decreases t1, 0int,
{
    match (t1, t2) {
        (TypeV::Unit, TypeV::Unit) => (m, Ok(TypeV::Unit)),
        (TypeV::Int, TypeV::Int) => (m, Ok(TypeV::Int)),
        (TypeV::Number, TypeV::Number) => (m, Ok(TypeV::Number)),
        (TypeV::String, TypeV::String) => (m, Ok(TypeV::String)),
        (TypeV::Intermediate(i1), TypeV::Intermediate(i2)) => if occur_spec(m, i1, t2) {
            (m, Err(ErrorKind::CircularType))
        } else if i1 < i2 {
            (m.insert(i1, t2), Ok(t1))
        } else {
            (m.insert(i2, t1), Ok(t2))
        },
        (TypeV::Intermediate(i), t) => (m.insert(i, t), Ok(t)),
        (t, TypeV::Intermediate(i)) => (m.insert(i, t), Ok(t)),
        (TypeV::Array(a1, l1), TypeV::Array(a2, _)) => match unify_spec(m, *a1, *a2) {
            (m2, Ok(a)) => (m2, Ok(TypeV::Array(Box::new(a), l1))),
            (m2, Err(e)) => (m2, Err(e)),
        },
        (TypeV::Tuple(a1), TypeV::Tuple(a2)) => match unify_seq(m, a1, a2, 0, Seq::empty()) {
            (m2, Ok(v)) => (m2, Ok(TypeV::Tuple(v))),
            (m2, Err(e)) => (m2, Err(e)),
        },
        (TypeV::Function(p1, r1), TypeV::Function(p2, r2)) => match unify_seq(m, p1, p2, 0, Seq::empty()) {
            (m2, Ok(p)) => match unify_spec(m2, *r1, *r2) {
                (m3, Ok(r)) => (m3, Ok(TypeV::Function(p, Box::new(r)))),
                (m3, Err(e)) => (m3, Err(e)),
            },
            (m2, Err(e)) => (m2, Err(e)),
        },
        (TypeV::Code(p1), TypeV::Code(p2)) => match unify_spec(m, *p1, *p2) {
            (m2, Ok(p)) => (m2, Ok(TypeV::Code(Box::new(p)))),
            (m2, Err(e)) => (m2, Err(e)),
        },
        _ => (m, Err(ErrorKind::TypeMismatch)),
    }
}

/// Pairwise unification of `a1[i..]` and `a2[i..]` up to the shorter length,
/// appending the results to `acc` and stopping at the first error.
pub open spec fn unify_seq(
    m: Map<i64, TypeV>,
    a1: Seq<TypeV>,
    a2: Seq<TypeV>,
    i: int,
    acc: Seq<TypeV>,
) -> (Map<i64, TypeV>, Result<Seq<TypeV>, ErrorKind>)
    decreases a1, a1.len() - i,
{
    if i < 0 || i >= a1.len() || i >= a2.len() {
        (m, Ok(acc))
    } else {
        match unify_spec(m, a1[i], a2[i]) {
            (m2, Err(e)) => (m2, Err(e)),
            (m2, Ok(t)) => unify_seq(m2, a1, a2, i + 1, acc.push(t)),
        }
    }
}

/// Following the substitution from the variable `id` to a type that is not
/// a variable.
pub open spec fn subst_chain(m: Map<i64, TypeV>, id: i64) -> Option<TypeV>
    decreases i64::MAX - id,
{
    if m.contains_key(id) {
        match m[id] {
            TypeV::Intermediate(j) => if id < j {
                subst_chain(m, j)
            } else {
                None
            },
            t => Some(t),
        }
    } else {
        None
    }
}

pub open spec fn or_unknown(t: Option<TypeV>) -> TypeV {
    match t {
        Some(t) => t,
        None => TypeV::Unknown,
    }
}

/// What `substitute_type` returns for `t`.
pub open spec fn subst_spec(m: Map<i64, TypeV>, t: TypeV) -> Option<TypeV>
    decreases t, 0int,
{
    match t {
        TypeV::Intermediate(id) => subst_chain(m, id),
        TypeV::Array(a, l) => Some(TypeV::Array(Box::new(or_unknown(subst_spec(m, *a))), l)),
        TypeV::Tuple(v) => Some(TypeV::Tuple(subst_seq(m, v, 0))),
        TypeV::Function(p, r) => Some(
            TypeV::Function(subst_seq(m, p, 0), Box::new(or_unknown(subst_spec(m, *r)))),
        ),
        TypeV::Code(c) => Some(TypeV::Code(Box::new(or_unknown(subst_spec(m, *c))))),
        other => Some(other),
    }
}

pub open spec fn subst_seq(m: Map<i64, TypeV>, v: Seq<TypeV>, i: int) -> Seq<TypeV>
    decreases v, v.len() - i,
{
    if i < 0 || i >= v.len() {
        Seq::empty()
    } else {
        seq![or_unknown(subst_spec(m, v[i]))] + subst_seq(m, v, i + 1)
    }
}

pub open spec fn literal_type(l: Literal) -> TypeV {
    match l {
        Literal::Number(_) => TypeV::Number,
        Literal::String(_) => TypeV::String,
        Literal::FloatParameter(_) => TypeV::Number,
        Literal::StringParameter(_) => TypeV::String,
    }
}

/// The part of the inference context that inference changes: the next type
/// variable, the substitution, and the sizes of the environment storage.
pub struct InferState {
    pub next: i64,
    pub subst: Map<i64, TypeV>,
    pub ndata: nat,
    pub nenvs: nat,
}

/// The part of the inference context that inference only reads.
pub struct InferStatics {
    pub exprs: ExprArena,
    pub spans: Map<usize, Span>,
    pub strings: Seq<Seq<char>>,
}

/// The outcome of inferring one expression: a type, a type error at a span,
/// or a variable (and span) that no environment binds.
pub enum Inferred {
    Typed(TypeV),
    Failed(ErrorKind, Span),
    Unbound(Symbol, Span),
}

pub open spec fn fresh_types(start: i64, n: nat) -> Seq<TypeV> {
    Seq::new(n, |k: int| TypeV::Intermediate((start + k) as i64))
}

impl InferStatics {
    /// The error `e` is the failing outcome `o`.
    pub open spec fn err_matches(self, e: Error, o: Inferred) -> bool {
        match o {
            Inferred::Typed(_) => false,
            Inferred::Failed(k, s) => e.0 == k && e.1 == s,
            Inferred::Unbound(sym, s) => e.1 == s && (e.0 matches ErrorKind::VariableNotFound(name)
                && sym.0 < self.strings.len() && name@ == self.strings[sym.0 as int]),
        }
    }

    /// The result `r` is the outcome `o`.
    pub open spec fn outcome_matches(self, r: Result<Type, Error>, o: Inferred) -> bool {
        match o {
            Inferred::Typed(t) => r matches Ok(x) && x@ == t,
            _ => r matches Err(e) && self.err_matches(e, o),
        }
    }

    /// What `infer_type` computes for `eid` in `env`, from state `st`, where
    /// `e0` gives the bindings of the environments, going at most `fuel`
    /// expressions deep. `None` means that the computation panics, or that
    /// `fuel` runs out.
    pub open spec fn infer_at(self, fuel: nat, e0: EnvironmentStorage<Type>, eid: ExprRef, env: EnvId, st: InferState) -> Option<(Inferred, InferState)>
        decreases fuel, 1int, 0int,
    {
        if !self.exprs.holds(eid.0) || fuel == 0 {
            None
        } else {
            let f = (fuel - 1) as nat;
            match self.exprs.at(eid.0) {
                Expr::Literal(l) => Some((Inferred::Typed(literal_type(l)), st)),
                Expr::Lambda(p, body) => {
                    match self.infer_at(f, e0, body, env, st) {
                        Some((Inferred::Typed(bt), st1)) => if st1.next + p.len() > i64::MAX {
                            None
                        } else {
                            Some((
                                Inferred::Typed(TypeV::Function(fresh_types(st1.next, p.len() as nat), Box::new(bt))),
                                InferState { next: (st1.next + p.len()) as i64, subst: st1.subst, ndata: st1.ndata, nenvs: st1.nenvs },
                            ))
                        },
                        other => other,
                    }
                },
                Expr::Let(_id, body, then) => if !e0.valid(env) {
                    None
                } else {
                    match self.infer_at(f, e0, body, env, st) {
                        Some((Inferred::Typed(bt), st1)) => if st1.next == i64::MAX {
                            None
                        } else {
                            match unify_spec(st1.subst, TypeV::Intermediate(st1.next), bt) {
                                (m2, Err(k)) => if self.spans.contains_key(eid.0.index) {
                                    Some((
                                        Inferred::Failed(k, self.spans[eid.0.index]),
                                        InferState { next: (st1.next + 1) as i64, subst: m2, ndata: st1.ndata, nenvs: st1.nenvs },
                                    ))
                                } else {
                                    None
                                },
                                (m2, Ok(_)) => if st1.ndata + 1 > usize::MAX || st1.nenvs + 1 >= usize::MAX {
                                    None
                                } else {
                                    self.infer_at(
                                        f,
                                        e0,
                                        then,
                                        env,
                                        InferState { next: (st1.next + 1) as i64, subst: m2, ndata: st1.ndata + 1, nenvs: st1.nenvs + 1 },
                                    )
                                },
                            }
                        },
                        other => other,
                    }
                },
                Expr::Var(name) => if name.0 >= self.strings.len() || !e0.wf() || !e0.valid(env) {
                    None
                } else {
                    match e0.spec_lookup(env, name) {
                        Some(t) => Some((Inferred::Typed(t@), st)),
                        None => Some((Inferred::Unbound(name, Range { start: 0, end: 0 }), st)),
                    }
                },
                Expr::App(fun, callee) => {
                    match self.infer_at(f, e0, fun, env, st) {
                        Some((Inferred::Typed(ft), st1)) => match self.infer_seq(f, e0, callee@, 0, env, st1, Seq::empty()) {
                            None => None,
                            Some((Err(o), st2)) => Some((o, st2)),
                            Some((Ok(ts), st2)) => if st2.next == i64::MAX {
                                None
                            } else {
                                let fntype = TypeV::Function(ts, Box::new(TypeV::Intermediate(st2.next)));
                                match unify_spec(st2.subst, ft, fntype) {
                                    (m4, Ok(t)) => Some((
                                        Inferred::Typed(t),
                                        InferState { next: (st2.next + 1) as i64, subst: m4, ndata: st2.ndata, nenvs: st2.nenvs },
                                    )),
                                    (m4, Err(k)) => if self.spans.contains_key(eid.0.index) {
                                        Some((
                                            Inferred::Failed(k, self.spans[eid.0.index]),
                                            InferState { next: (st2.next + 1) as i64, subst: m4, ndata: st2.ndata, nenvs: st2.nenvs },
                                        ))
                                    } else {
                                        None
                                    },
                                }
                            },
                        },
                        other => other,
                    }
                },
                _ => Some((Inferred::Typed(TypeV::Unknown), st)),
            }
        }
    }

    /// What `infer_type` computes: inference with as many steps as there are
    /// expressions. A chain of references that never repeats an expression is
    /// no longer than that, so the only expressions left without a result,
    /// besides those on which inference panics, are those whose references
    /// lead back to themselves, on which inference never returns.
    pub open spec fn inferred(self, e0: EnvironmentStorage<Type>, eid: ExprRef, env: EnvId, st: InferState) -> Option<(Inferred, InferState)> {
        self.infer_at(self.exprs.items().len(), e0, eid, env, st)
    }

    /// What `infer_type_recovery` computes: recovery with as many steps as
    /// there are expressions, as for `inferred`.
    pub open spec fn recovered(self, e0: EnvironmentStorage<Type>, eid: ExprRef, env: EnvId, st: InferState) -> Option<(TypeV, Seq<Inferred>, InferState)> {
        self.recover_at(self.exprs.items().len(), e0, eid, env, st)
    }

    /// The errors `errs` are the failing outcomes `issues`, in order.
    pub open spec fn errs_match(self, errs: Seq<Error>, issues: Seq<Inferred>) -> bool {
        &&& errs.len() == issues.len()
        &&& forall|k: int| 0 <= k < errs.len() ==> self.err_matches(#[trigger] errs[k], issues[k])
    }

    /// What `infer_type_recovery` computes for `eid` in `env` from state
    /// `st`: a type, with `Error` standing for what could not be inferred, and
    /// the problems met on the way, going at most `fuel` expressions deep. It
    /// handles no-ops, errors, literals, variables and `let`; on any other
    /// expression it panics, and `None` stands for that, for a missing
    /// expression or span, and for `fuel` running out.
    pub open spec fn recover_at(self, fuel: nat, e0: EnvironmentStorage<Type>, eid: ExprRef, env: EnvId, st: InferState) -> Option<(TypeV, Seq<Inferred>, InferState)>
        decreases fuel,
    {
        if !self.exprs.holds(eid.0) || !self.spans.contains_key(eid.0.index) || fuel == 0 {
            None
        } else {
            let f = (fuel - 1) as nat;
            let span = self.spans[eid.0.index];
            match self.exprs.at(eid.0) {
                Expr::Nop => Some((TypeV::Unit, Seq::empty(), st)),
                Expr::Error => Some((TypeV::Error, Seq::empty(), st)),
                Expr::Literal(l) => Some((literal_type(l), Seq::empty(), st)),
                Expr::Var(name) => if name.0 >= self.strings.len() || !e0.wf() || !e0.valid(env) {
                    None
                } else {
                    match e0.spec_lookup(env, name) {
                        Some(t) => Some((t@, Seq::empty(), st)),
                        None => Some((TypeV::Error, seq![Inferred::Unbound(name, span)], st)),
                    }
                },
                Expr::Let(_id, body, then) => if !e0.valid(env) {
                    None
                } else {
                    match self.recover_at(f, e0, body, env, st) {
                        None => None,
                        Some((bt, es1, st1)) => if st1.next == i64::MAX || st1.ndata + 1 > usize::MAX || st1.nenvs + 1 >= usize::MAX {
                            None
                        } else {
                            match unify_spec(st1.subst, TypeV::Intermediate(st1.next), bt) {
                                (m2, res) => {
                                    let es2 = match res {
                                        Ok(_) => es1,
                                        Err(k) => es1.push(Inferred::Failed(k, span)),
                                    };
                                    let st2 = InferState { next: (st1.next + 1) as i64, subst: m2, ndata: st1.ndata + 1, nenvs: st1.nenvs + 1 };
                                    match self.recover_at(f, e0, then, env, st2) {
                                        None => None,
                                        Some((tt, es3, st3)) => Some((tt, es2 + es3, st3)),
                                    }
                                },
                            }
                        },
                    }
                },
                _ => None,
            }
        }
    }

    /// Inference of `es[i..]` in order, appending the types to `acc` and
    /// stopping at the first outcome that is not a type.
    pub open spec fn infer_seq(
        self,
        fuel: nat,
        e0: EnvironmentStorage<Type>,
        es: Seq<ExprRef>,
        i: int,
        env: EnvId,
        st: InferState,
        acc: Seq<TypeV>,
    ) -> Option<(Result<Seq<TypeV>, Inferred>, InferState)>
        decreases fuel, 2int, es.len() - i,
    {
        if i < 0 || i >= es.len() {
            Some((Ok(acc), st))
        } else {
            match self.infer_at(fuel, e0, es[i], env, st) {
                None => None,
                Some((Inferred::Typed(t), st1)) => self.infer_seq(fuel, e0, es, i + 1, env, st1, acc.push(t)),
                Some((o, st1)) => Some((Err(o), st1)),
            }
        }
    }
}

pub struct InferContext {
    pub interm_idx: i64,
    pub subst_map: BTreeMap<i64, Type>,
    pub interner: Interner,
    pub expr_storage: ExprArena,
    pub span_storage: BTreeMap<usize, Span>,
    pub envstorage: EnvironmentStorage<Type>,
}

impl InferContext {
    pub open spec fn statics(self) -> InferStatics {
        InferStatics { exprs: self.expr_storage, spans: self.span_storage@, strings: self.interner.strings() }
    }

    pub open spec fn state(self) -> InferState {
        InferState {
            next: self.interm_idx,
            subst: subst_view(self.subst_map@),
            ndata: self.envstorage.data@.len(),
            nenvs: self.envstorage.envs().len(),
        }
    }

    /// The environment storage is well formed and type variables map only to
    /// later variables.
    pub open spec fn wf(self) -> bool {
        &&& self.envstorage.wf()
        &&& chain_ascending(subst_view(self.subst_map@))
    }

    /// What a call may change: the state, and the environment storage only by
    /// growing.
    pub open spec fn keeps(old: Self, new: Self) -> bool {
        &&& new.statics() == old.statics()
        &&& EnvironmentStorage::<Type>::grows(old.envstorage, new.envstorage)
        &&& new.wf()
    }

    /// Takes over the expressions, spans and identifiers of a parse.
    pub fn new(parsectx: ParseContext) -> (r: Self)
        ensures
            r.interm_idx == 0,
            r.subst_map@ == Map::<i64, Type>::empty(),
            r.expr_storage == parsectx.expr_storage,
            r.span_storage@ == parsectx.span_storage@,
            r.interner == parsectx.interner,
            r.envstorage.envs().len() == 0,
            r.envstorage.data@.len() == 0,
            r.wf(),
    {
        let ParseContext { expr_storage, span_storage, interner } = parsectx;
        let r = InferContext {
            interm_idx: 0,
            subst_map: BTreeMap::new(),
            interner,
            expr_storage,
            span_storage,
            envstorage: EnvironmentStorage::new(),
        };
        assert(subst_view(r.subst_map@) =~= Map::empty());
        r
    }

    /// A fresh type variable.
    pub fn gen_intermediate_type(&mut self) -> (r: Type)
        requires
            old(self).interm_idx < i64::MAX,
        ensures
            r == Type::Intermediate(old(self).interm_idx),
            final(self).interm_idx == old(self).interm_idx + 1,
            final(self).subst_map == old(self).subst_map,
            final(self).interner == old(self).interner,
            final(self).expr_storage == old(self).expr_storage,
            final(self).span_storage == old(self).span_storage,
            final(self).envstorage == old(self).envstorage,
    {
        let res = Type::Intermediate(self.interm_idx);
        self.interm_idx = self.interm_idx + 1;
        res
    }

    fn occ_in_exec(&self, id1: i64, t: &Type, n: usize) -> (r: bool)
        ensures
            r == occ_in(subst_view(self.subst_map@), id1, t@, n as nat),
        decreases n, t,
    {
        match t {
            Type::Intermediate(id2) => if id1 == *id2 {
                true
            } else if n == 0 {
                false
            } else {
                match self.subst_map.get(id2) {
                    Some(next) => {
                        assert(subst_view(self.subst_map@)[*id2] == next@);
                        self.occ_in_exec(id1, next, n - 1)
                    },
                    None => false,
                }
            },
            Type::Array(a, _) => self.occ_in_exec(id1, a, n),
            Type::Tuple(ts) => self.occ_any_exec(id1, ts, n),
            Type::Function(p, r) => self.occ_any_exec(id1, p, n) || self.occ_in_exec(id1, r, n),
            _ => false,
        }
    }

    fn occ_any_exec(&self, id1: i64, ts: &Vec<Type>, n: usize) -> (r: bool)
        ensures
            r == occ_any(subst_view(self.subst_map@), id1, types_view(ts@), 0, n as nat),
        decreases n, ts,
    {
        proof {
            lemma_types_view(ts@);
        }
        let ghost m = subst_view(self.subst_map@);
        let ghost tv = types_view(ts@);
        let mut i: usize = 0;
        while i < ts.len()
            invariant
                i <= ts@.len(),
                m == subst_view(self.subst_map@),
                tv == types_view(ts@),
                tv.len() == ts@.len(),
                forall|k: int| 0 <= k < ts@.len() ==> #[trigger] tv[k] == ts@[k]@,
                occ_any(m, id1, tv, 0, n as nat) == occ_any(m, id1, tv, i as int, n as nat),
            decreases ts@.len() - i,
        {
            proof {
                assert(decreases_to!(ts => ts@[i as int]));
            }
            if self.occ_in_exec(id1, &ts[i], n) {
                return true;
            }
            i += 1;
        }
        false
    }

    /// Whether the type variable `id1` occurs in `t2` under the
    /// substitution, as `occur_spec` describes: true exactly when binding
    /// `id1` to `t2` would close a loop.
    pub fn occur_check(&self, id1: i64, t2: Type) -> (r: bool)
        ensures
            r == occur_spec(subst_view(self.subst_map@), id1, t2@),
    {
        assert(subst_view(self.subst_map@).dom() =~= self.subst_map@.dom());
        self.occ_in_exec(id1, &t2, self.subst_map.len())
    }
}

impl InferContext {
    /// Only the substitution changed.
    pub open spec fn only_subst_changed(old: Self, new: Self) -> bool {
        &&& new.interm_idx == old.interm_idx
        &&& new.interner == old.interner
        &&& new.expr_storage == old.expr_storage
        &&& new.span_storage == old.span_storage
        &&& new.envstorage == old.envstorage
    }

    proof fn lemma_insert_view(m: Map<i64, Type>, k: i64, t: Type)
        ensures
            subst_view(m.insert(k, t)) == subst_view(m).insert(k, t@),
    {
        assert(subst_view(m.insert(k, t)) =~= subst_view(m).insert(k, t@));
    }

    /// Unifies `t1` with `t2`, extending the substitution, as `unify_spec`
    /// describes.
    pub fn unify_types(&mut self, t1: Type, t2: Type) -> (r: Result<Type, ErrorKind>)
        ensures
            ({
                let (m2, res) = unify_spec(subst_view(old(self).subst_map@), t1@, t2@);
                &&& subst_view(final(self).subst_map@) == m2
                &&& match res {
                    Ok(tv) => r matches Ok(t) && t@ == tv,
                    Err(e) => r == Err::<Type, ErrorKind>(e),
                }
            }),
            chain_ascending(subst_view(old(self).subst_map@)) ==> chain_ascending(subst_view(final(self).subst_map@)),
            Self::only_subst_changed(*old(self), *final(self)),
        decreases t1@, 0int,
    {
        let ghost m = subst_view(self.subst_map@);
        let ghost v1 = t1@;
        let ghost v2 = t2@;
        match (t1, t2) {
            (Type::Unit, Type::Unit) => Ok(Type::Unit),
            (Type::Int, Type::Int) => Ok(Type::Int),
            (Type::Number, Type::Number) => Ok(Type::Number),
            (Type::String, Type::String) => Ok(Type::String),
            (Type::Intermediate(i1), Type::Intermediate(i2)) => {
                if self.occur_check(i1, Type::Intermediate(i2)) {
                    Err(ErrorKind::CircularType)
                } else if i1 < i2 {
                    proof {
                        Self::lemma_insert_view(self.subst_map@, i1, Type::Intermediate(i2));
                    }
                    self.subst_map.insert(i1, Type::Intermediate(i2));
                    Ok(Type::Intermediate(i1))
                } else {
                    proof {
                        Self::lemma_insert_view(self.subst_map@, i2, Type::Intermediate(i1));
                    }
                    self.subst_map.insert(i2, Type::Intermediate(i1));
                    Ok(Type::Intermediate(i2))
                }
            },
            (Type::Intermediate(i), t) => {
                let c = clone_type(&t);
                proof {
                    Self::lemma_insert_view(self.subst_map@, i, t);
                }
                self.subst_map.insert(i, t);
                Ok(c)
            },
            (t, Type::Intermediate(i)) => {
                let c = clone_type(&t);
                proof {
                    Self::lemma_insert_view(self.subst_map@, i, t);
                }
                self.subst_map.insert(i, t);
                Ok(c)
            },
            (Type::Array(a1, l1), Type::Array(a2, _)) => {
                match self.unify_types(*a1, *a2) {
                    Ok(a) => Ok(Type::Array(Box::new(a), l1)),
                    Err(e) => Err(e),
                }
            },
            (Type::Tuple(a1), Type::Tuple(a2)) => {
                match self.unify_vec(&a1, &a2) {
                    Ok(v) => Ok(Type::Tuple(v)),
                    Err(e) => Err(e),
                }
            },
            (Type::Function(p1, r1), Type::Function(p2, r2)) => {
                let p = match self.unify_vec(&p1, &p2) {
                    Ok(v) => v,
                    Err(e) => {
                        return Err(e);
                    },
                };
                match self.unify_types(*r1, *r2) {
                    Ok(r) => Ok(Type::Function(p, Box::new(r))),
                    Err(e) => Err(e),
                }
            },
            (Type::Code(p1), Type::Code(p2)) => {
                match self.unify_types(*p1, *p2) {
                    Ok(p) => Ok(Type::Code(Box::new(p))),
                    Err(e) => Err(e),
                }
            },
            _ => Err(ErrorKind::TypeMismatch),
        }
    }

    /// Pairwise unification of two vectors up to the shorter length, as
    /// `unify_seq` describes.
    fn unify_vec(&mut self, a1: &Vec<Type>, a2: &Vec<Type>) -> (r: Result<Vec<Type>, ErrorKind>)
        ensures
            ({
                let (m2, res) = unify_seq(subst_view(old(self).subst_map@), types_view(a1@), types_view(a2@), 0, Seq::empty());
                &&& subst_view(final(self).subst_map@) == m2
                &&& match res {
                    Ok(tv) => r matches Ok(v) && types_view(v@) == tv,
                    Err(e) => r == Err::<Vec<Type>, ErrorKind>(e),
                }
            }),
            chain_ascending(subst_view(old(self).subst_map@)) ==> chain_ascending(subst_view(final(self).subst_map@)),
            Self::only_subst_changed(*old(self), *final(self)),
        decreases types_view(a1@), 1int,
    {
        proof {
            lemma_types_view(a1@);
            lemma_types_view(a2@);
        }
        let ghost s1 = types_view(a1@);
        let ghost s2 = types_view(a2@);
        let ghost whole = unify_seq(subst_view(self.subst_map@), s1, s2, 0, Seq::empty());
        let mut out: Vec<Type> = Vec::new();
        let mut i: usize = 0;
        while i < a1.len() && i < a2.len()
            invariant
                i <= a1@.len(),
                i <= a2@.len(),
                s1 == types_view(a1@),
                s2 == types_view(a2@),
                s1.len() == a1@.len(),
                s2.len() == a2@.len(),
                forall|k: int| 0 <= k < a1@.len() ==> #[trigger] s1[k] == a1@[k]@,
                forall|k: int| 0 <= k < a2@.len() ==> #[trigger] s2[k] == a2@[k]@,
                whole == unify_seq(subst_view(old(self).subst_map@), s1, s2, 0, Seq::empty()),
                whole == unify_seq(subst_view(self.subst_map@), s1, s2, i as int, types_view(out@)),
                chain_ascending(subst_view(old(self).subst_map@)) ==> chain_ascending(subst_view(self.subst_map@)),
                Self::only_subst_changed(*old(self), *self),
            decreases a1@.len() - i,
        {
            let x = clone_type(&a1[i]);
            let y = clone_type(&a2[i]);
            proof {
                assert(decreases_to!(s1 => s1[i as int]));
            }
            match self.unify_types(x, y) {
                Ok(t) => {
                    proof {
                        lemma_types_view_push(out@, t);
                    }
                    out.push(t);
                },
                Err(e) => {
                    return Err(e);
                },
            }
            i += 1;
        }
        Ok(out)
    }
}

pub open spec fn opt_view(t: Option<Type>) -> Option<TypeV> {
    match t {
        Some(t) => Some(t@),
        None => None,
    }
}

impl InferContext {
    fn substitute_intermediate_type(&self, id: i64) -> (r: Option<Type>)
        requires
            chain_ascending(subst_view(self.subst_map@)),
        ensures
            opt_view(r) == subst_chain(subst_view(self.subst_map@), id),
        decreases i64::MAX - id,
    {
        let ghost m = subst_view(self.subst_map@);
        match self.subst_map.get(&id) {
            Some(t) => {
                assert(m.contains_key(id) && m[id] == t@);
                match t {
                    Type::Intermediate(i) => {
                        assert(m[id] == TypeV::Intermediate(*i));
                        self.substitute_intermediate_type(*i)
                    },
                    _ => Some(clone_type(t)),
                }
            },
            None => {
                assert(!m.contains_key(id));
                None
            },
        }
    }

    /// Resolves the type variables of `t` through the substitution, as
    /// `subst_spec` describes; variables inside a compound type that resolve
    /// to nothing become `Unknown`.
    pub fn substitute_type(&self, t: Type) -> (r: Option<Type>)
        requires
            chain_ascending(subst_view(self.subst_map@)),
        ensures
            opt_view(r) == subst_spec(subst_view(self.subst_map@), t@),
        decreases t@, 0int,
    {
        let ghost tv = t@;
        let ghost m = subst_view(self.subst_map@);
        let res = match t {
            Type::Intermediate(id) => {
                assert(tv == TypeV::Intermediate(id));
                let rr = self.substitute_intermediate_type(id);
                assert(opt_view(rr) == subst_spec(m, tv));
                rr
            },
            Type::Array(a, l) => {
                let ghost av = (*a)@;
                assert(tv == TypeV::Array(Box::new(av), l));
                let x0 = self.substitute_type(*a);
                let x = x0.unwrap_or(Type::Unknown);
                assert(x@ == or_unknown(subst_spec(m, av)));
                let rr = Some(Type::Array(Box::new(x), l));
                assert(opt_view(rr) == subst_spec(m, tv));
                rr
            },
            Type::Tuple(v) => {
                let rr = Some(Type::Tuple(self.substitute_vec(&v)));
                assert(opt_view(rr) == subst_spec(m, tv));
                rr
            },
            Type::Function(p, r) => {
                let ghost pv = types_view(p@);
                let ghost rv = (*r)@;
                assert(tv == TypeV::Function(pv, Box::new(rv)));
                let p2 = self.substitute_vec(&p);
                assert(types_view(p2@) == subst_seq(m, pv, 0));
                let r2 = self.substitute_type(*r).unwrap_or(Type::Unknown);
                assert(r2@ == or_unknown(subst_spec(m, rv)));
                let rr = Some(Type::Function(p2, Box::new(r2)));
                assert(rr.unwrap()@ == TypeV::Function(types_view(p2@), Box::new(r2@)));
                assert(opt_view(rr) == subst_spec(m, tv));
                rr
            },
            Type::Code(c) => {
                let x = self.substitute_type(*c).unwrap_or(Type::Unknown);
                let rr = Some(Type::Code(Box::new(x)));
                assert(opt_view(rr) == subst_spec(m, tv));
                rr
            },
            other => {
                let rr = Some(other);
                assert(opt_view(rr) == subst_spec(m, tv));
                rr
            },
        };
        assert(opt_view(res) == subst_spec(m, tv));
        res
    }

    fn substitute_vec(&self, v: &Vec<Type>) -> (r: Vec<Type>)
        requires
            chain_ascending(subst_view(self.subst_map@)),
        ensures
            types_view(r@) == subst_seq(subst_view(self.subst_map@), types_view(v@), 0),
        decreases types_view(v@), 1int,
    {
        proof {
            lemma_types_view(v@);
        }
        let ghost sv = types_view(v@);
        let ghost m = subst_view(self.subst_map@);
        let mut out: Vec<Type> = Vec::new();
        let mut i: usize = 0;
        while i < v.len()
            invariant
                i <= v@.len(),
                sv == types_view(v@),
                sv.len() == v@.len(),
                forall|k: int| 0 <= k < v@.len() ==> #[trigger] sv[k] == v@[k]@,
                m == subst_view(self.subst_map@),
                chain_ascending(m),
                subst_seq(m, sv, 0) == types_view(out@) + subst_seq(m, sv, i as int),
            decreases v@.len() - i,
        {
            proof {
                assert(decreases_to!(sv => sv[i as int]));
            }
            let x = self.substitute_type(clone_type(&v[i])).unwrap_or(Type::Unknown);
            proof {
                lemma_types_view_push(out@, x);
                assert(subst_seq(m, sv, i as int) == seq![or_unknown(subst_spec(m, sv[i as int]))] + subst_seq(m, sv, i + 1));
                assert(types_view(out@.push(x)) + subst_seq(m, sv, i + 1) =~= types_view(out@) + subst_seq(m, sv, i as int));
            }
            out.push(x);
            i += 1;
        }
        proof {
            assert(subst_seq(m, sv, i as int) =~= Seq::<TypeV>::empty());
            assert(types_view(out@) + Seq::<TypeV>::empty() =~= types_view(out@));
        }
        out
    }
}

/// The type of a literal.
pub fn infer_type_literal(e: &Literal) -> (r: Type)
    ensures
        r@ == literal_type(*e),
{
    match e {
        Literal::Number(_) => Type::Number,
        Literal::String(_) => Type::String,
        Literal::FloatParameter(_) => Type::Number,
        Literal::StringParameter(_) => Type::String,
    }
}

fn infer_in(eid: ExprRef, env: EnvId, ctx: &mut InferContext, Ghost(e0): Ghost<EnvironmentStorage<Type>>, Ghost(fuel): Ghost<nat>) -> (r: Result<Type, Error>)
    requires
        old(ctx).wf(),
        e0.wf(),
        EnvironmentStorage::<Type>::grows(e0, old(ctx).envstorage),
        old(ctx).statics().infer_at(fuel, e0, eid, env, old(ctx).state()) is Some,
    ensures
        ({
            let (o, st) = old(ctx).statics().infer_at(fuel, e0, eid, env, old(ctx).state()).unwrap();
            &&& final(ctx).state() == st
            &&& old(ctx).statics().outcome_matches(r, o)
        }),
        InferContext::keeps(*old(ctx), *final(ctx)),
    decreases fuel, 1int, 0int,
{
    let ghost sx = ctx.statics();
    let ghost st0 = ctx.state();
    let ghost c0 = *ctx;
    proof {
        EnvironmentStorage::<Type>::lemma_grows_refl(ctx.envstorage);
    }
    let e = match ctx.expr_storage.get(eid.0) {
        Some(e) => e,
        None => {
            return Ok(Type::Unknown);
        },
    };
    let ghost f = (fuel - 1) as nat;
    match e {
        Expr::Literal(l) => Ok(infer_type_literal(l)),
        Expr::Lambda(p, body) => {
            let n = p.len();
            let body = *body;
            let bty = match infer_in(body, env, ctx, Ghost(e0), Ghost(f)) {
                Ok(t) => t,
                Err(err) => {
                    return Err(err);
                },
            };
            let ghost start = ctx.interm_idx;
            let ghost c1 = *ctx;
            let mut params: Vec<Type> = Vec::new();
            let mut k: usize = 0;
            while k < n
                invariant
                    k <= n,
                    start + n <= i64::MAX,
                    ctx.interm_idx == start + k,
                    types_view(params@) == fresh_types(start, k as nat),
                    ctx.subst_map == c1.subst_map,
                    ctx.interner == c1.interner,
                    ctx.expr_storage == c1.expr_storage,
                    ctx.span_storage == c1.span_storage,
                    ctx.envstorage == c1.envstorage,
                decreases n - k,
            {
                let t = ctx.gen_intermediate_type();
                proof {
                    lemma_types_view_push(params@, t);
                    assert(fresh_types(start, (k + 1) as nat) =~= fresh_types(start, k as nat).push(t@));
                }
                params.push(t);
                k += 1;
            }
            let r = Type::Function(params, Box::new(bty));
            assert(r@ == TypeV::Function(types_view(params@), Box::new(bty@)));
            Ok(r)
        },
        Expr::Let(_id, body, then) => {
            let id = *_id;
            let body = *body;
            let then = *then;
            let bodyt = match infer_in(body, env, ctx, Ghost(e0), Ghost(f)) {
                Ok(t) => t,
                Err(err) => {
                    return Err(err);
                },
            };
            let ghost c1 = *ctx;
            proof {
                EnvironmentStorage::<Type>::lemma_grows_trans(e0, c0.envstorage, c1.envstorage);
            }
            let idt = ctx.gen_intermediate_type();
            let bodyt_u = match ctx.unify_types(idt, bodyt) {
                Ok(t) => t,
                Err(kind) => {
                    match ctx.span_storage.get(&eid.0.index) {
                        Some(sp) => {
                            return Err(Error(kind, Range { start: sp.start, end: sp.end }));
                        },
                        None => {
                            return Err(Error(kind, Range { start: 0, end: 0 }));
                        },
                    }
                },
            };
            let ghost c2 = *ctx;
            proof {
                EnvironmentStorage::<Type>::lemma_grows_valid(e0, ctx.envstorage, env, id);
            }
            let binding = vec![(id, bodyt_u)];
            let new_env = ctx.envstorage.extend(env, binding.as_slice());
            proof {
                EnvironmentStorage::<Type>::lemma_appended_grows(c2.envstorage, ctx.envstorage, Some(env), binding@, new_env);
            }
            let ghost c3 = *ctx;
            proof {
                EnvironmentStorage::<Type>::lemma_grows_trans(e0, c2.envstorage, c3.envstorage);
                EnvironmentStorage::<Type>::lemma_grows_trans(c0.envstorage, c2.envstorage, c3.envstorage);
            }
            let r = infer_in(then, env, ctx, Ghost(e0), Ghost(f));
            proof {
                EnvironmentStorage::<Type>::lemma_grows_trans(c0.envstorage, c3.envstorage, ctx.envstorage);
            }
            r
        },
        Expr::Var(name) => {
            let name = *name;
            let namestr = match ctx.interner.resolve(name.0) {
                Some(s) => s,
                None => {
                    return Ok(Type::Unknown);
                },
            };
            proof {
                EnvironmentStorage::<Type>::lemma_grows_valid(e0, ctx.envstorage, env, name);
            }
            match ctx.envstorage.lookup(env, &name) {
                Some(v) => Ok(v),
                None => Err(Error(ErrorKind::VariableNotFound(String::from_str(namestr)), Range { start: 0, end: 0 })),
            }
        },
        Expr::App(fun, callee) => {
            let fun = *fun;
            let args = copy_refs(callee.as_slice());
            let fnl = match infer_in(fun, env, ctx, Ghost(e0), Ghost(f)) {
                Ok(t) => t,
                Err(err) => {
                    return Err(err);
                },
            };
            let ghost c1 = *ctx;
            proof {
                EnvironmentStorage::<Type>::lemma_grows_trans(e0, c0.envstorage, c1.envstorage);
            }
            let callee_t = match infer_vec(&args, Ghost(f), env, ctx, Ghost(e0)) {
                Ok(v) => v,
                Err(err) => {
                    proof {
                        EnvironmentStorage::<Type>::lemma_grows_trans(c0.envstorage, c1.envstorage, ctx.envstorage);
                    }
                    return Err(err);
                },
            };
            proof {
                EnvironmentStorage::<Type>::lemma_grows_trans(c0.envstorage, c1.envstorage, ctx.envstorage);
            }
            let res_t = ctx.gen_intermediate_type();
            let ghost ctv = types_view(callee_t@);
            let fntype = Type::Function(callee_t, Box::new(res_t));
            assert(fntype@ == TypeV::Function(ctv, Box::new(res_t@)));
            match ctx.unify_types(fnl, fntype) {
                Ok(t) => Ok(t),
                Err(kind) => {
                    match ctx.span_storage.get(&eid.0.index) {
                        Some(sp) => Err(Error(kind, Range { start: sp.start, end: sp.end })),
                        None => Err(Error(kind, Range { start: 0, end: 0 })),
                    }
                },
            }
        },
        _ => Ok(Type::Unknown),
    }
}

fn infer_vec(
    es: &Vec<ExprRef>,
    Ghost(fuel): Ghost<nat>,
    env: EnvId,
    ctx: &mut InferContext,
    Ghost(e0): Ghost<EnvironmentStorage<Type>>,
) -> (r: Result<Vec<Type>, Error>)
    requires
        old(ctx).wf(),
        e0.wf(),
        EnvironmentStorage::<Type>::grows(e0, old(ctx).envstorage),
        old(ctx).statics().infer_seq(fuel, e0, es@, 0, env, old(ctx).state(), Seq::empty()) is Some,
    ensures
        ({
            let (o, st) = old(ctx).statics().infer_seq(fuel, e0, es@, 0, env, old(ctx).state(), Seq::empty()).unwrap();
            &&& final(ctx).state() == st
            &&& match o {
                Ok(ts) => r matches Ok(v) && types_view(v@) == ts,
                Err(o) => r matches Err(e) && old(ctx).statics().err_matches(e, o),
            }
        }),
        InferContext::keeps(*old(ctx), *final(ctx)),
    decreases fuel, 2int, es@.len(),
{
    let ghost sx = ctx.statics();
    let ghost c0 = *ctx;
    let ghost whole = sx.infer_seq(fuel, e0, es@, 0, env, ctx.state(), Seq::empty());
    proof {
        EnvironmentStorage::<Type>::lemma_grows_refl(ctx.envstorage);
    }
    let mut out: Vec<Type> = Vec::new();
    let mut i: usize = 0;
    while i < es.len()
        invariant
            i <= es@.len(),
            whole == sx.infer_seq(fuel, e0, es@, 0, env, c0.state(), Seq::empty()),
            c0 == *old(ctx),
            whole is Some,
            whole == sx.infer_seq(fuel, e0, es@, i as int, env, ctx.state(), types_view(out@)),
            ctx.statics() == sx,
            sx == c0.statics(),
            ctx.wf(),
            e0.wf(),
            EnvironmentStorage::<Type>::grows(e0, ctx.envstorage),
            EnvironmentStorage::<Type>::grows(c0.envstorage, ctx.envstorage),
        decreases es@.len() - i,
    {
        let ghost cb = *ctx;
        let ghost res_i = sx.infer_at(fuel, e0, es@[i as int], env, cb.state());
        assert(res_i is Some);
        let x = infer_in(es[i], env, ctx, Ghost(e0), Ghost(fuel));
        proof {
            EnvironmentStorage::<Type>::lemma_grows_trans(e0, cb.envstorage, ctx.envstorage);
            EnvironmentStorage::<Type>::lemma_grows_trans(c0.envstorage, cb.envstorage, ctx.envstorage);
        }
        match x {
            Ok(t) => {
                proof {
                    lemma_types_view_push(out@, t);
                }
                out.push(t);
            },
            Err(err) => {
                assert(!(res_i.unwrap().0 is Typed));
                assert(whole == Some((Err::<Seq<TypeV>, Inferred>(res_i.unwrap().0), res_i.unwrap().1)));
                return Err(err);
            },
        }
        i += 1;
    }
    Ok(out)
}

/// Infers the type of `eid` in `env`, as `InferStatics::inferred` describes;
/// defined where inference returns. Note that a `let` binding is not visible
/// in its body, and that lambda parameters are not bound while their body is
/// inferred: this is how inference behaves.
pub fn infer_type(eid: &ExprRef, env: EnvId, ctx: &mut InferContext) -> (r: Result<Type, Error>)
    requires
        old(ctx).wf(),
        old(ctx).statics().inferred(old(ctx).envstorage, *eid, env, old(ctx).state()) is Some,
    ensures
        ({
            let (o, st) = old(ctx).statics().inferred(old(ctx).envstorage, *eid, env, old(ctx).state()).unwrap();
            &&& final(ctx).state() == st
            &&& old(ctx).statics().outcome_matches(r, o)
        }),
        InferContext::keeps(*old(ctx), *final(ctx)),
{
    proof {
        EnvironmentStorage::<Type>::lemma_grows_refl(ctx.envstorage);
    }
    infer_in(*eid, env, ctx, Ghost(ctx.envstorage), Ghost(ctx.expr_storage.items().len()))
}

fn recover_in(eid: ExprRef, env: EnvId, ctx: &mut InferContext, Ghost(e0): Ghost<EnvironmentStorage<Type>>, Ghost(fuel): Ghost<nat>) -> (r: (Type, Vec<Error>))
    requires
        old(ctx).wf(),
        e0.wf(),
        EnvironmentStorage::<Type>::grows(e0, old(ctx).envstorage),
        old(ctx).statics().recover_at(fuel, e0, eid, env, old(ctx).state()) is Some,
    ensures
        ({
            let (t, issues, st) = old(ctx).statics().recover_at(fuel, e0, eid, env, old(ctx).state()).unwrap();
            &&& final(ctx).state() == st
            &&& r.0@ == t
            &&& old(ctx).statics().errs_match(r.1@, issues)
        }),
        InferContext::keeps(*old(ctx), *final(ctx)),
    decreases fuel,
{
    let ghost sx = ctx.statics();
    let ghost c0 = *ctx;
    proof {
        EnvironmentStorage::<Type>::lemma_grows_refl(ctx.envstorage);
    }
    let e = match ctx.expr_storage.get(eid.0) {
        Some(e) => e,
        None => {
            return (Type::Unknown, Vec::new());
        },
    };
    let span = match ctx.span_storage.get(&eid.0.index) {
        Some(sp) => Range { start: sp.start, end: sp.end },
        None => {
            return (Type::Unknown, Vec::new());
        },
    };
    let mut errs: Vec<Error> = Vec::new();
    let ghost f = (fuel - 1) as nat;
    match e {
        Expr::Nop => (Type::Unit, errs),
        Expr::Error => (Type::Error, errs),
        Expr::Literal(l) => (infer_type_literal(l), errs),
        Expr::Var(name) => {
            let name = *name;
            let namestr = match ctx.interner.resolve(name.0) {
                Some(s) => s,
                None => {
                    return (Type::Unknown, errs);
                },
            };
            proof {
                EnvironmentStorage::<Type>::lemma_grows_valid(e0, ctx.envstorage, env, name);
            }
            match ctx.envstorage.lookup(env, &name) {
                Some(v) => (v, errs),
                None => {
                    errs.push(Error(ErrorKind::VariableNotFound(String::from_str(namestr)), span));
                    proof {
                        assert(sx.err_matches(errs@[0], Inferred::Unbound(name, span)));
                    }
                    (Type::Error, errs)
                },
            }
        },
        Expr::Let(_id, body, then) => {
            let id = *_id;
            let body = *body;
            let then = *then;
            let (bodyt, mut es) = recover_in(body, env, ctx, Ghost(e0), Ghost(f));
            errs.append(&mut es);
            let ghost c1 = *ctx;
            let ghost errs1 = errs@;
            proof {
                EnvironmentStorage::<Type>::lemma_grows_trans(e0, c0.envstorage, c1.envstorage);
            }
            let idt = ctx.gen_intermediate_type();
            let bodyt_res = match ctx.unify_types(idt, bodyt) {
                Ok(t) => t,
                Err(kind) => {
                    let sp2 = Range { start: span.start, end: span.end };
                    errs.push(Error(kind, sp2));
                    Type::Error
                },
            };
            let ghost c2 = *ctx;
            proof {
                EnvironmentStorage::<Type>::lemma_grows_valid(e0, ctx.envstorage, env, id);
            }
            let binding = vec![(id, bodyt_res)];
            let new_env = ctx.envstorage.extend(env, binding.as_slice());
            let ghost c3 = *ctx;
            proof {
                EnvironmentStorage::<Type>::lemma_appended_grows(c2.envstorage, ctx.envstorage, Some(env), binding@, new_env);
                EnvironmentStorage::<Type>::lemma_grows_trans(e0, c2.envstorage, c3.envstorage);
                EnvironmentStorage::<Type>::lemma_grows_trans(c0.envstorage, c2.envstorage, c3.envstorage);
            }
            let ghost errs2 = errs@;
            let (thent, mut es2) = recover_in(then, env, ctx, Ghost(e0), Ghost(f));
            errs.append(&mut es2);
            proof {
                EnvironmentStorage::<Type>::lemma_grows_trans(c0.envstorage, c3.envstorage, ctx.envstorage);
            }
            (thent, errs)
        },
        _ => (Type::Unknown, errs),
    }
}

/// Infers the type of `eid` in `env` and gathers the problems met instead of
/// stopping at the first one, as `InferStatics::recovered` describes;
/// defined where the computation returns.
pub fn infer_type_recovery(eid: &ExprRef, env: EnvId, ctx: &mut InferContext) -> (r: (Type, Vec<Error>))
    requires
        old(ctx).wf(),
        old(ctx).statics().recovered(old(ctx).envstorage, *eid, env, old(ctx).state()) is Some,
    ensures
        ({
            let (t, issues, st) = old(ctx).statics().recovered(old(ctx).envstorage, *eid, env, old(ctx).state()).unwrap();
            &&& final(ctx).state() == st
            &&& r.0@ == t
            &&& old(ctx).statics().errs_match(r.1@, issues)
        }),
        InferContext::keeps(*old(ctx), *final(ctx)),
{
    proof {
        EnvironmentStorage::<Type>::lemma_grows_refl(ctx.envstorage);
    }
    recover_in(*eid, env, ctx, Ghost(ctx.envstorage), Ghost(ctx.expr_storage.items().len()))
}

/// A type built from the basic types with arrays, tuples, functions and
/// code, without type variables.
pub open spec fn plain_type(t: TypeV) -> bool
    decreases t, 0int,
{
    match t {
        TypeV::Unit | TypeV::Int | TypeV::Number | TypeV::String => true,
        TypeV::Array(a, _) => plain_type(*a),
        TypeV::Tuple(ts) => plain_types(ts, 0),
        TypeV::Function(ps, r) => plain_types(ps, 0) && plain_type(*r),
        TypeV::Code(c) => plain_type(*c),
        _ => false,
    }
}

/// `ts[i..]` are all plain types.
pub open spec fn plain_types(ts: Seq<TypeV>, i: int) -> bool
    decreases ts, ts.len() - i,
{
    if i < 0 || i >= ts.len() {
        true
    } else {
        plain_type(ts[i]) && plain_types(ts, i + 1)
    }
}

/// A basic type: unit, integer, number or string.
pub open spec fn basic_type(t: TypeV) -> bool {
    t is Unit || t is Int || t is Number || t is String
}

proof fn lemma_unify_self(m: Map<i64, TypeV>, t: TypeV)
    requires
        plain_type(t),
    ensures
        unify_spec(m, t, t) == (m, Ok::<TypeV, ErrorKind>(t)),
    decreases t, 0int,
{
    match t {
        TypeV::Array(a, l) => {
            lemma_unify_self(m, *a);
        },
        TypeV::Tuple(ts) => {
            lemma_unify_self_seq(m, ts, 0, Seq::empty());
            assert(Seq::<TypeV>::empty() + ts.subrange(0, ts.len() as int) =~= ts);
        },
        TypeV::Function(ps, r) => {
            lemma_unify_self_seq(m, ps, 0, Seq::empty());
            assert(Seq::<TypeV>::empty() + ps.subrange(0, ps.len() as int) =~= ps);
            lemma_unify_self(m, *r);
        },
        TypeV::Code(c) => {
            lemma_unify_self(m, *c);
        },
        _ => {},
    }
}

proof fn lemma_unify_self_seq(m: Map<i64, TypeV>, ts: Seq<TypeV>, i: int, acc: Seq<TypeV>)
    requires
        0 <= i <= ts.len(),
        plain_types(ts, i),
    ensures
        unify_seq(m, ts, ts, i, acc) == (m, Ok::<Seq<TypeV>, ErrorKind>(acc + ts.subrange(i, ts.len() as int))),
    decreases ts, ts.len() - i,
{
    if i < ts.len() {
        lemma_unify_self(m, ts[i]);
        lemma_unify_self_seq(m, ts, i + 1, acc.push(ts[i]));
        assert(acc.push(ts[i]) + ts.subrange(i + 1, ts.len() as int) =~= acc + ts.subrange(i, ts.len() as int));
    } else {
        assert(acc + ts.subrange(i, ts.len() as int) =~= acc);
    }
}

/// A type without variables unifies with itself, gives itself back and
/// leaves the substitution alone.
pub proof fn law_unify_plain_with_itself(m: Map<i64, TypeV>, t: TypeV)
    requires
        plain_type(t),
    ensures
        unify_spec(m, t, t) == (m, Ok::<TypeV, ErrorKind>(t)),
{
    lemma_unify_self(m, t);
}

/// Two function types unify by unifying their parameters and then their
/// results: the outcome fails when either fails, and otherwise is the
/// function from the unified parameters to the unified result, under the
/// substitution that both steps leave.
pub proof fn law_unify_functions(m: Map<i64, TypeV>, p1: Seq<TypeV>, p2: Seq<TypeV>, r1: TypeV, r2: TypeV)
    ensures
        ({
            let whole = unify_spec(m, TypeV::Function(p1, Box::new(r1)), TypeV::Function(p2, Box::new(r2)));
            let (m2, ps) = unify_seq(m, p1, p2, 0, Seq::empty());
            &&& ps matches Err(e) ==> whole == (m2, Err::<TypeV, ErrorKind>(e))
            &&& ps matches Ok(p) ==> {
                let (m3, r) = unify_spec(m2, r1, r2);
                &&& whole.0 == m3
                &&& whole.1 is Ok <==> r is Ok
                &&& r matches Err(e) ==> whole.1 == Err::<TypeV, ErrorKind>(e)
                &&& r matches Ok(rt) ==> whole.1 == Ok::<TypeV, ErrorKind>(TypeV::Function(p, Box::new(rt)))
            }
        }),
{
}

/// Arrays, tuples and code types unify through their parts: an array's
/// element types are unified (the length of the first array is kept), a
/// tuple's members pairwise, and the type inside code; a failure there is
/// the failure of the whole.
pub proof fn law_unify_structures(m: Map<i64, TypeV>, a1: TypeV, a2: TypeV, l1: u64, l2: u64, ts1: Seq<TypeV>, ts2: Seq<TypeV>)
    ensures
        ({
            let (m2, r) = unify_spec(m, a1, a2);
            &&& unify_spec(m, TypeV::Array(Box::new(a1), l1), TypeV::Array(Box::new(a2), l2)) == (m2, match r {
                Ok(a) => Ok::<TypeV, ErrorKind>(TypeV::Array(Box::new(a), l1)),
                Err(e) => Err::<TypeV, ErrorKind>(e),
            })
            &&& unify_spec(m, TypeV::Code(Box::new(a1)), TypeV::Code(Box::new(a2))) == (m2, match r {
                Ok(a) => Ok::<TypeV, ErrorKind>(TypeV::Code(Box::new(a))),
                Err(e) => Err::<TypeV, ErrorKind>(e),
            })
        }),
        ({
            let (m2, r) = unify_seq(m, ts1, ts2, 0, Seq::empty());
            unify_spec(m, TypeV::Tuple(ts1), TypeV::Tuple(ts2)) == (m2, match r {
                Ok(v) => Ok::<TypeV, ErrorKind>(TypeV::Tuple(v)),
                Err(e) => Err::<TypeV, ErrorKind>(e),
            })
        }),
{
}

/// Types without variables of different basic kinds, or of different
/// structures, do not unify.
pub proof fn law_unify_mismatch(m: Map<i64, TypeV>, t1: TypeV, t2: TypeV)
    requires
        plain_type(t1),
        plain_type(t2),
        basic_type(t1) || basic_type(t2),
        t1 != t2,
    ensures
        unify_spec(m, t1, t2) == (m, Err::<TypeV, ErrorKind>(ErrorKind::TypeMismatch)),
{
}

/// Function types whose results are different basic types do not unify,
/// whatever their (equal) parameters: the results are compared too.
pub proof fn law_function_results_must_agree(m: Map<i64, TypeV>, p: Seq<TypeV>, b1: TypeV, b2: TypeV)
    requires
        plain_types(p, 0),
        basic_type(b1),
        basic_type(b2),
        b1 != b2,
    ensures
        unify_spec(m, TypeV::Function(p, Box::new(b1)), TypeV::Function(p, Box::new(b2)))
            == (m, Err::<TypeV, ErrorKind>(ErrorKind::TypeMismatch)),
{
    lemma_unify_self_seq(m, p, 0, Seq::empty());
    assert(Seq::<TypeV>::empty() + p.subrange(0, p.len() as int) =~= p);
    assert(unify_seq(m, p, p, 0, Seq::empty()) == (m, Ok::<Seq<TypeV>, ErrorKind>(p)));
    assert(unify_spec(m, b1, b2) == (m, Err::<TypeV, ErrorKind>(ErrorKind::TypeMismatch)));
}

/// A type variable in the result of a function type is bound to the result
/// of the other function type, when the parameters agree.
pub proof fn law_function_result_variable_is_bound(m: Map<i64, TypeV>, p: Seq<TypeV>, i: i64, t: TypeV)
    requires
        plain_types(p, 0),
        !(t is Intermediate),
    ensures
        unify_spec(m, TypeV::Function(p, Box::new(TypeV::Intermediate(i))), TypeV::Function(p, Box::new(t)))
            == (m.insert(i, t), Ok::<TypeV, ErrorKind>(TypeV::Function(p, Box::new(t)))),
{
    lemma_unify_self_seq(m, p, 0, Seq::empty());
    assert(Seq::<TypeV>::empty() + p.subrange(0, p.len() as int) =~= p);
    assert(unify_seq(m, p, p, 0, Seq::empty()) == (m, Ok::<Seq<TypeV>, ErrorKind>(p)));
    assert(unify_spec(m, TypeV::Intermediate(i), t) == (m.insert(i, t), Ok::<TypeV, ErrorKind>(t)));
}

/// Equal basic types unify to themselves and leave the substitution alone.
pub proof fn law_unify_same_basic(m: Map<i64, TypeV>, t: TypeV)
    requires
        t == TypeV::Unit || t == TypeV::Int || t == TypeV::Number || t == TypeV::String,
    ensures
        unify_spec(m, t, t) == (m, Ok::<TypeV, ErrorKind>(t)),
{
}

/// Unifying a type variable with a type that is not a variable binds the
/// variable to that type, and substitution then gives the type back.
pub proof fn law_unify_binds_variable(m: Map<i64, TypeV>, i: i64, t: TypeV)
    requires
        !(t is Intermediate),
    ensures
        unify_spec(m, TypeV::Intermediate(i), t) == (m.insert(i, t), Ok::<TypeV, ErrorKind>(t)),
        unify_spec(m, t, TypeV::Intermediate(i)) == (m.insert(i, t), Ok::<TypeV, ErrorKind>(t)),
        subst_spec(m.insert(i, t), TypeV::Intermediate(i)) == Some(t),
{
}

/// Two distinct fresh variables unify by binding the earlier one to the
/// later one, and the substitution stays ascending.
pub proof fn law_unify_fresh_variables(m: Map<i64, TypeV>, i1: i64, i2: i64)
    requires
        i1 < i2,
        !m.contains_key(i1),
        !m.contains_key(i2),
    ensures
        unify_spec(m, TypeV::Intermediate(i1), TypeV::Intermediate(i2))
            == (m.insert(i1, TypeV::Intermediate(i2)), Ok::<TypeV, ErrorKind>(TypeV::Intermediate(i1))),
        chain_ascending(m) ==> chain_ascending(m.insert(i1, TypeV::Intermediate(i2))),
{
}

/// A variable occurs in itself, so unifying it with itself is refused as a
/// circular type.
pub proof fn law_occurs_in_itself(m: Map<i64, TypeV>, i: i64)
    ensures
        occur_spec(m, i, TypeV::Intermediate(i)),
        unify_spec(m, TypeV::Intermediate(i), TypeV::Intermediate(i))
            == (m, Err::<TypeV, ErrorKind>(ErrorKind::CircularType)),
{
}

/// The occurs check looks into every member of a tuple: it holds of a tuple
/// exactly when it holds of one of its members, and never of the empty tuple.
pub proof fn law_occurs_in_some_member(m: Map<i64, TypeV>, id: i64, ts: Seq<TypeV>)
    ensures
        occur_spec(m, id, TypeV::Tuple(ts)) <==> exists|k: int| 0 <= k < ts.len() && #[trigger] occur_spec(m, id, ts[k]),
        !occur_spec(m, id, TypeV::Tuple(Seq::empty())),
{
    let n = m.len();
    lemma_occ_any_exists(m, id, ts, 0, n);
    assert(occur_spec(m, id, TypeV::Tuple(ts)) == occ_any(m, id, ts, 0, n));
    if occ_any(m, id, ts, 0, n) {
        let k = choose|k: int| 0 <= k < ts.len() && #[trigger] occ_in(m, id, ts[k], n);
        assert(occur_spec(m, id, ts[k]));
    }
    assert(occur_spec(m, id, TypeV::Tuple(Seq::empty())) == occ_any(m, id, Seq::empty(), 0, n));
}

proof fn lemma_occ_any_exists(m: Map<i64, TypeV>, id: i64, ts: Seq<TypeV>, i: int, n: nat)
    requires
        0 <= i <= ts.len(),
    ensures
        occ_any(m, id, ts, i, n) <==> exists|k: int| i <= k < ts.len() && #[trigger] occ_in(m, id, ts[k], n),
    decreases ts.len() - i,
{
    if i < ts.len() {
        lemma_occ_any_exists(m, id, ts, i + 1, n);
        if occ_in(m, id, ts[i], n) {
            assert(i <= i < ts.len() && occ_in(m, id, ts[i], n));
        }
        if exists|k: int| i <= k < ts.len() && #[trigger] occ_in(m, id, ts[k], n) {
            let k = choose|k: int| i <= k < ts.len() && #[trigger] occ_in(m, id, ts[k], n);
            if k > i {
                assert(i + 1 <= k < ts.len() && occ_in(m, id, ts[k], n));
            }
        }
    }
}

/// A type variable other than `id1` that the substitution does not map does
/// not hold `id1`, so unifying `id1` with it succeeds.
pub proof fn law_occurs_unmapped_variable(m: Map<i64, TypeV>, id1: i64, id2: i64)
    requires
        id1 != id2,
        !m.contains_key(id2),
    ensures
        !occur_spec(m, id1, TypeV::Intermediate(id2)),
        unify_spec(m, TypeV::Intermediate(id1), TypeV::Intermediate(id2)).1 is Ok,
{
}

/// The occurs check follows the substitution: when `id2` is mapped to a type
/// that holds `id1` directly, `id2` holds `id1`.
pub proof fn law_occurs_through_substitution(m: Map<i64, TypeV>, id1: i64, id2: i64)
    requires
        m.dom().finite(),
        m.contains_key(id2),
        occ_in(m, id1, m[id2], 0),
    ensures
        occur_spec(m, id1, TypeV::Intermediate(id2)),
{
    assert(m.len() > 0) by {
        vstd::set_lib::lemma_set_empty_equivalency_len(m.dom());
    }
    lemma_occ_in_more(m, id1, m[id2], 0, (m.len() - 1) as nat);
}

proof fn lemma_occ_in_more(m: Map<i64, TypeV>, id1: i64, t: TypeV, n1: nat, n2: nat)
    requires
        n1 <= n2,
        occ_in(m, id1, t, n1),
    ensures
        occ_in(m, id1, t, n2),
    decreases n1, t, 0int,
{
    match t {
        TypeV::Intermediate(id2) => if id1 != id2 {
            lemma_occ_in_more(m, id1, m[id2], (n1 - 1) as nat, (n2 - 1) as nat);
        },
        TypeV::Array(a, _) => lemma_occ_in_more(m, id1, *a, n1, n2),
        TypeV::Tuple(ts) => lemma_occ_any_more(m, id1, ts, 0, n1, n2),
        TypeV::Function(p, r) => if occ_any(m, id1, p, 0, n1) {
            lemma_occ_any_more(m, id1, p, 0, n1, n2);
        } else {
            lemma_occ_in_more(m, id1, *r, n1, n2);
        },
        _ => {},
    }
}

proof fn lemma_occ_any_more(m: Map<i64, TypeV>, id1: i64, ts: Seq<TypeV>, i: int, n1: nat, n2: nat)
    requires
        n1 <= n2,
        occ_any(m, id1, ts, i, n1),
    ensures
        occ_any(m, id1, ts, i, n2),
    decreases n1, ts, ts.len() - i,
{
    if 0 <= i < ts.len() {
        if occ_in(m, id1, ts[i], n1) {
            lemma_occ_in_more(m, id1, ts[i], n1, n2);
        } else {
            lemma_occ_any_more(m, id1, ts, i + 1, n1, n2);
        }
    }
}

} // verus!
