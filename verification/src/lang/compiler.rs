//! The evaluator: runs expressions of the arena in environments, creating
//! closures, arrays, tracks, regions and projects on the way. A runtime value
//! that stands for an object is the index of that object in its storage.

use vstd::prelude::*;
use crate::store::{EnvId, ExprArena, ExprId, Interner, expr_arena_tag};
use super::Symbol;
use super::builtin_fn::{ApplyFadeInOut, ExtFun, FadeInOut, Nop, Print, SineWave, default_functions, first_named};
use super::environment::{EnvModel, Environment, EnvironmentStorage};
use super::builtin_fn::gen_default_functions;
use std::ops::Range;
use super::expr::{Attribute, Expr, ExprRef, ExprV, FloatParamV, FloatParameter, Literal, LiteralV, Op, clone_expr, op_name};
use super::builtin_fn::find_default_function;
use std::sync::Arc;
use super::value::{Closure, ClosureV, Project, ProjectV, RawValue, Region, Track};

verus! {

#[derive(Debug)]
pub enum EvalError {
    TypeMismatch(String),
    NotFound,
    /// Expected and actual number of arguments.
    InvalidNumArgs(usize, usize),
    InvalidId,
    InvalidConversion,
    NotInPlayMode,
    NoAppRuntime,
}

/// What evaluation leads to: `None` when it does not finish (it runs out of
/// steps, or reaches an operation the evaluator has no meaning for), else the
/// result and the state of the context afterwards.
pub type Outcome<T> = Option<(Result<T, EvalError>, CtxModel)>;

/// The mathematical state of a `Context`.
#[verifier::ext_equal]
pub struct CtxModel {
    pub exprs: Seq<ExprV>,
    pub expr_tag: u32,
    pub strings: Seq<Seq<char>>,
    pub closures: Seq<ClosureV>,
    pub arrays: Seq<Seq<RawValue>>,
    pub tracks: Seq<Track>,
    pub regions: Seq<Region>,
    pub projects: Seq<ProjectV>,
    pub extfuns: Seq<ExtFun>,
    pub envs: EnvModel<RawValue>,
    pub root_env: EnvId,
}

/// The bindings of parameters to arguments, as far as both go.
pub open spec fn zip_bindings(ids: Seq<Symbol>, vs: Seq<RawValue>) -> Seq<(Symbol, RawValue)> {
    let n = if ids.len() < vs.len() { ids.len() } else { vs.len() };
    Seq::new(n, |i: int| (ids[i], vs[i]))
}

impl CtxModel {
    pub open spec fn holds(self, e: ExprRef) -> bool {
        e.0.arena == self.expr_tag && e.0.index < self.exprs.len()
    }

    pub open spec fn at(self, e: ExprRef) -> ExprV {
        self.exprs[e.0.index as int]
    }

    /// Every object refers to environments of the context, the environments
    /// are well formed and each string is interned once.
    pub open spec fn wf(self) -> bool {
        &&& self.envs.wf()
        &&& self.envs.valid(self.root_env)
        &&& forall|i: int| 0 <= i < self.closures.len() ==> self.envs.valid(#[trigger] self.closures[i].env)
        &&& forall|i: int| 0 <= i < self.regions.len() ==> self.envs.valid(#[trigger] self.regions[i].0)
        &&& forall|i: int| 0 <= i < self.tracks.len() ==> self.envs.valid(#[trigger] self.tracks[i].0)
        &&& forall|i: int| 0 <= i < self.projects.len() ==> self.envs.valid(#[trigger] self.projects[i].0)
        &&& self.strings.no_duplicates()
    }

    /// The reference the next stored expression gets.
    pub open spec fn next_ref(self) -> ExprRef {
        ExprRef(ExprId { index: self.exprs.len() as usize, arena: self.expr_tag })
    }

    pub open spec fn with_expr(self, e: ExprV) -> CtxModel {
        CtxModel { exprs: self.exprs.push(e), ..self }
    }

    /// Room for `n` more expressions.
    pub open spec fn expr_room(self, n: nat) -> bool {
        self.exprs.len() + n <= usize::MAX
    }

    /// The symbol of `s`, interning it first when it is new.
    pub open spec fn intern(self, s: Seq<char>) -> (CtxModel, Symbol) {
        if self.strings.contains(s) {
            (self, Symbol(self.strings.index_of(s) as usize))
        } else {
            (CtxModel { strings: self.strings.push(s), ..self }, Symbol(self.strings.len() as usize))
        }
    }

    pub open spec fn intern_room(self) -> bool {
        self.strings.len() < usize::MAX
    }

    /// Whether symbol `sym` stands for the text `s`.
    pub open spec fn names(self, sym: Symbol, s: Seq<char>) -> bool {
        sym.0 < self.strings.len() && self.strings[sym.0 as int] == s
    }

    /// Room to bind `n` more values in a new environment.
    pub open spec fn can_extend(self, n: nat) -> bool {
        &&& self.envs.data.len() + n <= usize::MAX
        &&& self.envs.envs.len() < usize::MAX
    }

    pub open spec fn extend(self, parent: EnvId, svs: Seq<(Symbol, RawValue)>) -> (CtxModel, EnvId) {
        (CtxModel { envs: self.envs.extended(Some(parent), svs).0, ..self }, self.envs.extended(Some(parent), svs).1)
    }

    /// The first bindings are the default functions, under their names, each
    /// bound to its index in `extfuns`.
    pub open spec fn binds_defaults(self) -> bool {
        &&& self.envs.data.len() >= 3
        &&& forall|i: int| 0 <= i < 3 ==> #[trigger] self.names(self.envs.data[i].0, default_functions()[i].0)
            && self.envs.data[i].1 == RawValue(i as u64)
    }

    pub open spec fn with_closure(self, c: ClosureV) -> CtxModel {
        CtxModel { closures: self.closures.push(c), ..self }
    }

    pub open spec fn with_array(self, a: Seq<RawValue>) -> CtxModel {
        CtxModel { arrays: self.arrays.push(a), ..self }
    }

    pub open spec fn with_track(self, t: Track) -> CtxModel {
        CtxModel { tracks: self.tracks.push(t), ..self }
    }

    pub open spec fn with_region(self, r: Region) -> CtxModel {
        CtxModel { regions: self.regions.push(r), ..self }
    }

    pub open spec fn with_project(self, p: ProjectV) -> CtxModel {
        CtxModel { projects: self.projects.push(p), ..self }
    }
}

/// What a built-in function does when it is called during evaluation, where
/// no playback is running.
pub open spec fn ext_spec(fun: ExtFun, m: CtxModel, vs: Seq<RawValue>) -> Outcome<RawValue> {
    match fun {
        ExtFun::ArrayReverse(_) => None,
        ExtFun::Print(_) => Some((Ok(RawValue(0)), m)),
        ExtFun::Nop(_) => Some((Ok(RawValue(0)), m)),
        ExtFun::SineWave(_) => Some((Err(EvalError::NotInPlayMode), m)),
        ExtFun::ApplyFadeInOut(_) => None,
        ExtFun::FadeInOut(_) => if vs.len() != 3 {
            Some((Err(EvalError::InvalidNumArgs(3, vs.len() as usize)), m))
        } else if vs[0].0 < m.regions.len() && m.can_extend(0) && m.expr_room(1) {
            let reg = m.regions[vs[0].0 as int];
            let (m1, env) = m.extend(reg.0, seq![]);
            let app = m1.next_ref();
            let m2 = m1.with_expr(
                ExprV::AppExt(
                    ExtFun::ApplyFadeInOut(ApplyFadeInOut { time_in: vs[1], time_out: vs[2] }),
                    seq![reg.3, reg.1, reg.2],
                ),
            );
            Some((Ok(RawValue(m2.regions.len() as u64)), m2.with_region(Region(env, reg.1, reg.2, app))))
        } else {
            None
        },
    }
}

/// Evaluation of `e` in environment `env` with at most `fuel` nested steps.
pub open spec fn eval_spec(fuel: nat, m: CtxModel, e: ExprRef, env: EnvId) -> Outcome<RawValue>
    decreases fuel, 0nat,
{
    if fuel == 0 {
        None
    } else if !m.holds(e) {
        Some((Err(EvalError::InvalidId), m))
    } else {
        let f = (fuel - 1) as nat;
        match m.at(e) {
            ExprV::Error => Some((Err(EvalError::InvalidConversion), m)),
            ExprV::Nop => Some((Err(EvalError::InvalidConversion), m)),
            ExprV::Literal(l) => match l {
                LiteralV::Number(b) => Some((Ok(RawValue(b)), m)),
                LiteralV::FloatParameter(_) => Some((Ok(RawValue(e.0.index as u64)), m)),
                LiteralV::StringParameter(_) => Some((Ok(RawValue(e.0.index as u64)), m)),
                LiteralV::String(_) => None,
            },
            ExprV::Var(s) => match m.envs.spec_lookup(env, s) {
                Some(v) => Some((Ok(v), m)),
                None => Some((Err(EvalError::NotFound), m)),
            },
            ExprV::Let(id, b, t) => match eval_spec(f, m, b, env) {
                Some((Ok(v), m1)) => if m1.can_extend(1) {
                    eval_spec(f, m1.extend(env, seq![(id, v)]).0, t, m1.extend(env, seq![(id, v)]).1)
                } else {
                    None
                },
                other => other,
            },
            ExprV::Then(a, b) => match eval_spec(f, m, a, env) {
                Some((Ok(_), m1)) => eval_spec(f, m1, b, env),
                other => other,
            },
            ExprV::Lambda(ids, body) => Some(
                (Ok(RawValue(m.closures.len() as u64)), m.with_closure(ClosureV { env, ids, body })),
            ),
            ExprV::App(callee, args) => match eval_seq(f, m, args, env) {
                Some((Ok(vs), m1)) => match eval_spec(f, m1, callee, env) {
                    Some((Ok(c), m2)) => if c.0 < m2.closures.len() && m2.can_extend(
                        zip_bindings(m2.closures[c.0 as int].ids, vs).len(),
                    ) {
                        let cl = m2.closures[c.0 as int];
                        let (m3, ne) = m2.extend(cl.env, zip_bindings(cl.ids, vs));
                        eval_spec(f, m3, cl.body, ne)
                    } else {
                        None
                    },
                    other => other,
                },
                Some((Err(x), m1)) => Some((Err(x), m1)),
                None => None,
            },
            ExprV::BinOp(op, l, r) => match first_named(default_functions(), op_name(op)) {
                Some(fun) => match eval_spec(f, m, l, env) {
                    Some((Ok(lv), m1)) => match eval_spec(f, m1, r, env) {
                        Some((Ok(rv), m2)) => ext_spec(fun, m2, seq![lv, rv]),
                        other => other,
                    },
                    other => other,
                },
                None => if m.intern_room() && m.expr_room(2) {
                    let (m1, sym) = m.intern(op_name(op));
                    let var = m1.next_ref();
                    let m2 = m1.with_expr(ExprV::Var(sym));
                    let app = m2.next_ref();
                    eval_spec(f, m2.with_expr(ExprV::App(var, seq![l, r])), app, env)
                } else {
                    None
                },
            },
            ExprV::AppExt(fun, args) => match eval_seq(f, m, args, env) {
                Some((Ok(vs), m1)) => ext_spec(fun, m1, vs),
                Some((Err(x), m1)) => Some((Err(x), m1)),
                None => None,
            },
            ExprV::Array(es) => match eval_seq(f, m, es, env) {
                Some((Ok(vs), m1)) => Some((Ok(RawValue(m1.arrays.len() as u64)), m1.with_array(vs))),
                Some((Err(x), m1)) => Some((Err(x), m1)),
                None => None,
            },
            ExprV::Track(b) => Some((Ok(RawValue(m.tracks.len() as u64)), m.with_track(Track(env, b)))),
            ExprV::Region(a, b, c) => Some(
                (Ok(RawValue(m.regions.len() as u64)), m.with_region(Region(env, a, b, c))),
            ),
            ExprV::Project(sr, es) => Some(
                (Ok(RawValue(m.projects.len() as u64)), m.with_project(ProjectV(env, sr, es))),
            ),
            ExprV::Paren(b) => eval_spec(f, m, b, env),
            ExprV::Block(b) => eval_spec(f, m, b, env),
            ExprV::WithAttribute(attr, b) => if !m.holds(b) {
                None
            } else {
                match m.at(b) {
                    ExprV::Let(name, body, then) => if m.names(attr.0, "param"@) {
                        eval_param_spec(f, m, attr, name, body, then, env)
                    } else {
                        eval_spec(f, m, b, env)
                    },
                    _ => eval_spec(f, m, b, env),
                }
            },
        }
    }
}

/// Evaluation of a `let` marked as a parameter, `#[param(min..max)] let name =
/// body; then`: a number literal as the bound value becomes a parameter with
/// that range, read through the function bound to `param_as_number`.
pub open spec fn eval_param_spec(
    f: nat,
    m: CtxModel,
    attr: Attribute,
    name: Symbol,
    body: ExprRef,
    then: ExprRef,
    env: EnvId,
) -> Outcome<RawValue>
    decreases f, 1nat,
{
    if !m.holds(body) || !m.expr_room(3) || !m.intern_room() {
        None
    } else {
        match m.at(body) {
            ExprV::Literal(LiteralV::Number(bits)) => if name.0 >= m.strings.len() {
                None
            } else {
                let p = FloatParamV {
                    value_bits: bits,
                    label: m.strings[name.0 as int],
                    min_bits: attr.1,
                    max_bits: attr.2,
                };
                let (m1, fsym) = m.intern("param_as_number"@);
                match m1.envs.spec_lookup(env, fsym) {
                    Some(fv) => if fv.0 < m1.extfuns.len() {
                        let pr = m1.next_ref();
                        let m2 = m1.with_expr(ExprV::Literal(LiteralV::FloatParameter(p)));
                        let br = m2.next_ref();
                        let m3 = m2.with_expr(ExprV::AppExt(m1.extfuns[fv.0 as int], seq![pr]));
                        let nr = m3.next_ref();
                        eval_spec(f, m3.with_expr(ExprV::Let(name, br, then)), nr, env)
                    } else {
                        None
                    },
                    None => None,
                }
            },
            other => {
                let br = m.next_ref();
                let m2 = m.with_expr(other);
                let nr = m2.next_ref();
                eval_spec(f, m2.with_expr(ExprV::Let(name, br, then)), nr, env)
            },
        }
    }
}

/// Evaluation of `es` from left to right, stopping at the first error.
pub open spec fn eval_seq(fuel: nat, m: CtxModel, es: Seq<ExprRef>, env: EnvId) -> Outcome<Seq<RawValue>>
    decreases fuel, es.len() + 1,
{
    if es.len() == 0 {
        Some((Ok(Seq::empty()), m))
    } else {
        match eval_seq(fuel, m, es.drop_last(), env) {
            Some((Ok(vs), m1)) => match eval_spec(fuel, m1, es.last(), env) {
                Some((Ok(v), m2)) => Some((Ok(vs.push(v)), m2)),
                Some((Err(x), m2)) => Some((Err(x), m2)),
                None => None,
            },
            other => other,
        }
    }
}

/// `eval_seq`'s result with the vector of values taken by its view.
pub open spec fn seq_result(r: Result<Vec<RawValue>, EvalError>) -> Result<Seq<RawValue>, EvalError> {
    match r {
        Ok(v) => Ok(v@),
        Err(x) => Err(x),
    }
}

/// When a list evaluates, so does each of its prefixes.
pub proof fn lemma_seq_prefix(fuel: nat, m: CtxModel, es: Seq<ExprRef>, env: EnvId)
    requires
        eval_seq(fuel, m, es, env) is Some,
    ensures
        forall|k: int| 0 <= k <= es.len() ==> eval_seq(fuel, m, #[trigger] es.take(k), env) is Some,
    decreases es.len(),
{
    if es.len() > 0 {
        lemma_seq_prefix(fuel, m, es.drop_last(), env);
        assert forall|k: int| 0 <= k <= es.len() implies eval_seq(fuel, m, #[trigger] es.take(k), env) is Some by {
            if k < es.len() {
                assert(es.drop_last().take(k) =~= es.take(k));
            } else {
                assert(es.take(k) =~= es);
            }
        }
    } else {
        assert(es.take(0) =~= es);
    }
}

/// An error in a prefix of a list is the outcome of the whole list.
pub proof fn lemma_seq_error_stops(fuel: nat, m: CtxModel, es: Seq<ExprRef>, k: int, env: EnvId)
    requires
        0 <= k <= es.len(),
        eval_seq(fuel, m, es.take(k), env) matches Some((Err(_), _)),
    ensures
        eval_seq(fuel, m, es, env) == eval_seq(fuel, m, es.take(k), env),
    decreases es.len(),
{
    if k == es.len() {
        assert(es.take(k) =~= es);
    } else {
        assert(es.drop_last().take(k) =~= es.take(k));
        lemma_seq_error_stops(fuel, m, es.drop_last(), k, env);
    }
}

/// The storage after `extend` is the model's `extended`.
pub proof fn lemma_extend_model(
    old: EnvironmentStorage<RawValue>,
    new: EnvironmentStorage<RawValue>,
    parent: EnvId,
    svs: Seq<(Symbol, RawValue)>,
    r: EnvId,
)
    requires
        EnvironmentStorage::appended(old, new, Some(parent), svs, r),
    ensures
        new.model() == old.model().extended(Some(parent), svs).0,
        r == old.model().extended(Some(parent), svs).1,
{
    let n = old.data@.len();
    let tail = new.data@.subrange(n as int, new.data@.len() as int);
    assert forall|j: int| 0 <= j < new.data@.len() implies new.data@[j] == (old.data@ + svs)[j] by {
        if j < n {
            assert(new.data@.subrange(0, n as int)[j] == new.data@[j]);
        } else {
            assert(tail[j - n] == new.data@[j]);
        }
    }
    assert(new.data@ =~= old.data@ + svs);
}

/// The evaluator's state.
pub struct Context {
    pub expr_storage: ExprArena,
    pub interner: Interner,
    pub object_storage: Vec<Closure>,
    pub array_storage: Vec<Vec<RawValue>>,
    pub track_storage: Vec<Track>,
    pub region_storage: Vec<Region>,
    pub project_storage: Vec<Project>,
    pub extfun_storage: Vec<ExtFun>,
    pub env_storage: EnvironmentStorage<RawValue>,
    pub root_env: EnvId,
}

impl Context {
    pub open spec fn model(self) -> CtxModel {
        CtxModel {
            exprs: self.expr_storage.items().map_values(|x: Expr| x@),
            expr_tag: expr_arena_tag(self.expr_storage),
            strings: self.interner.strings(),
            closures: self.object_storage@.map_values(|c: Closure| c@),
            arrays: self.array_storage@.map_values(|a: Vec<RawValue>| a@),
            tracks: self.track_storage@,
            regions: self.region_storage@,
            projects: self.project_storage@.map_values(|p: Project| p@),
            extfuns: self.extfun_storage@,
            envs: self.env_storage.model(),
            root_env: self.root_env,
        }
    }

    pub open spec fn wf(self) -> bool {
        self.model().wf()
    }

    /// Stores a closure of `ids` and `body` over `envid`; its value is its index.
    pub fn gen_closure(&mut self, envid: EnvId, ids: &Vec<Symbol>, body: &ExprRef) -> (r: RawValue)
        ensures
            final(self).model() == old(self).model().with_closure(ClosureV { env: envid, ids: ids@, body: *body }),
            r == RawValue(old(self).model().closures.len() as u64),
    {
        let c = Closure::new(envid, ids, *body);
        let idx = self.object_storage.len();
        self.object_storage.push(c);
        proof {
            assert(self.model().closures =~= old(self).model().closures.push(c@));
            assert(self.model() =~= old(self).model().with_closure(c@));
        }
        RawValue(idx as u64)
    }

    /// Stores an array of `values`; its value is its index.
    pub fn gen_array(&mut self, envid: EnvId, values: Vec<RawValue>) -> (r: RawValue)
        ensures
            final(self).model() == old(self).model().with_array(values@),
            r == RawValue(old(self).model().arrays.len() as u64),
    {
        let ghost vs = values@;
        let idx = self.array_storage.len();
        self.array_storage.push(values);
        proof {
            assert(self.model().arrays =~= old(self).model().arrays.push(vs));
            assert(self.model() =~= old(self).model().with_array(vs));
        }
        RawValue(idx as u64)
    }

    /// The symbol of `name`, interned when new.
    pub fn get_or_intern_str(&mut self, name: &str) -> (r: Symbol)
        requires
            old(self).model().intern_room(),
            old(self).model().strings.no_duplicates(),
        ensures
            (final(self).model(), r) == old(self).model().intern(name@),
            final(self).model().strings.no_duplicates(),
    {
        let ghost ss = self.interner.strings();
        let k = self.interner.get_or_intern(name);
        proof {
            if ss.contains(name@) {
                let j = ss.index_of(name@);
                assert(ss[j] == name@);
                assert(j == k);
            } else {
                assert forall|a: int, b: int| 0 <= a < self.interner.strings().len() && 0 <= b
                    < self.interner.strings().len() && a != b implies self.interner.strings()[a]
                    != self.interner.strings()[b] by {
                    if a == ss.len() {
                        assert(ss[b] == self.interner.strings()[b]);
                    } else if b == ss.len() {
                        assert(ss[a] == self.interner.strings()[a]);
                    }
                }
            }
            assert(self.model() =~= old(self).model().intern(name@).0);
        }
        Symbol(k)
    }

    /// Binds `svs` in a new environment under `parent`.
    fn extend_env(&mut self, parent: EnvId, svs: &[(Symbol, RawValue)]) -> (r: EnvId)
        requires
            old(self).wf(),
            old(self).model().envs.valid(parent),
            old(self).model().can_extend(svs@.len()),
        ensures
            (final(self).model(), r) == old(self).model().extend(parent, svs@),
            final(self).wf(),
            old(self).model().envs.grows_to(final(self).model().envs),
            final(self).model().envs.valid(r),
    {
        let r = self.env_storage.extend(parent, svs);
        proof {
            lemma_extend_model(old(self).env_storage, self.env_storage, parent, svs@, r);
            old(self).model().envs.lemma_extended(Some(parent), svs@);
            assert(self.model() =~= old(self).model().extend(parent, svs@).0);
        }
        r
    }

    /// Stores an expression built during evaluation.
    fn store_expr(&mut self, e: Expr) -> (r: ExprRef)
        requires
            old(self).model().expr_room(1),
        ensures
            final(self).model() == old(self).model().with_expr(e@),
            r == old(self).model().next_ref(),
    {
        let id = self.expr_storage.allocate(e);
        proof {
            assert(self.model().exprs =~= old(self).model().exprs.push(e@));
            assert(self.model() =~= old(self).model().with_expr(e@));
        }
        ExprRef(id)
    }
}

/// The bindings of parameters to arguments, as far as both go.
fn zip_args(ids: &[Symbol], vals: &[RawValue]) -> (r: Vec<(Symbol, RawValue)>)
    ensures
        r@ == zip_bindings(ids@, vals@),
{
    let n = if ids.len() < vals.len() {
        ids.len()
    } else {
        vals.len()
    };
    let ghost zb = zip_bindings(ids@, vals@);
    let mut kvs: Vec<(Symbol, RawValue)> = Vec::new();
    let mut i: usize = 0;
    while i < n
        invariant
            i <= n,
            n == zb.len(),
            n <= ids@.len(),
            n <= vals@.len(),
            kvs@ =~= zb.take(i as int),
            zb == zip_bindings(ids@, vals@),
        decreases n - i,
    {
        kvs.push((ids[i], vals[i]));
        i += 1;
    }
    proof {
        assert(kvs@ =~= zb);
    }
    kvs
}

impl Context {
    /// Evaluation with at most `fuel` nested steps.
    fn eval_in(&mut self, e: ExprRef, envid: EnvId, Ghost(fuel): Ghost<nat>) -> (r: Result<RawValue, EvalError>)
        requires
            old(self).wf(),
            old(self).model().envs.valid(envid),
            eval_spec(fuel, old(self).model(), e, envid) is Some,
        ensures
            eval_spec(fuel, old(self).model(), e, envid) == Some((r, final(self).model())),
            final(self).wf(),
            old(self).model().envs.grows_to(final(self).model().envs),
        decreases fuel, 2nat,
    {
        let ghost m = self.model();
        proof {
            m.envs.lemma_grows_refl();
        }
        let ex = match self.expr_storage.get(e.0) {
            Some(x) => clone_expr(x),
            None => {
                return Err(EvalError::InvalidId);
            },
        };
        proof {
            assert(ex@ == m.at(e));
        }
        let ghost f = (fuel - 1) as nat;
        match ex {
            Expr::Error => Err(EvalError::InvalidConversion),
            Expr::Nop => Err(EvalError::InvalidConversion),
            Expr::Literal(l) => match l {
                Literal::Number(b) => Ok(RawValue(b)),
                Literal::FloatParameter(_) => Ok(RawValue(e.0.index as u64)),
                Literal::StringParameter(_) => Ok(RawValue(e.0.index as u64)),
                Literal::String(_) => {
                    proof {
                        assert(false);
                    }
                    Err(EvalError::InvalidConversion)
                },
            },
            Expr::Var(s) => match self.env_storage.lookup(envid, &s) {
                Some(v) => Ok(v),
                None => Err(EvalError::NotFound),
            },
            Expr::Let(id, b, t) => match self.eval_in(b, envid, Ghost(f)) {
                Ok(v) => {
                    let ghost m1 = self.model();
                    let mut kv: Vec<(Symbol, RawValue)> = Vec::new();
                    kv.push((id, v));
                    proof {
                        assert(kv@ =~= seq![(id, v)]);
                    }
                    let ne = self.extend_env(envid, kv.as_slice());
                    let ghost m2 = self.model();
                    let r = self.eval_in(t, ne, Ghost(f));
                    proof {
                        m.envs.lemma_grows_trans(m1.envs, m2.envs);
                        m.envs.lemma_grows_trans(m2.envs, self.model().envs);
                    }
                    r
                },
                Err(x) => Err(x),
            },
            Expr::Then(a, b) => match self.eval_in(a, envid, Ghost(f)) {
                Ok(_) => {
                    let ghost m1 = self.model();
                    let r = self.eval_in(b, envid, Ghost(f));
                    proof {
                        m.envs.lemma_grows_trans(m1.envs, self.model().envs);
                    }
                    r
                },
                Err(x) => Err(x),
            },
            Expr::Lambda(ids, body) => Ok(self.gen_closure(envid, &ids, &body)),
            Expr::App(callee, args) => self.eval_app(e, callee, args.as_slice(), envid, Ghost(fuel)),
            Expr::BinOp(op, l, r) => self.eval_binop(e, op, l, r, envid, Ghost(fuel)),
            Expr::AppExt(fun, args) => match self.eval_vec(args.as_slice(), envid, Ghost(f)) {
                Ok(vs) => {
                    let ghost m1 = self.model();
                    let r = fun.exec(self, vs.as_slice());
                    proof {
                        m.envs.lemma_grows_trans(m1.envs, self.model().envs);
                    }
                    r
                },
                Err(x) => Err(x),
            },
            Expr::Array(es) => match self.eval_vec(es.as_slice(), envid, Ghost(f)) {
                Ok(vs) => Ok(self.gen_array(envid, vs)),
                Err(x) => Err(x),
            },
            Expr::Track(b) => {
                let idx = self.track_storage.len();
                self.track_storage.push(Track(envid, b));
                proof {
                    assert(self.model() =~= m.with_track(Track(envid, b)));
                }
                Ok(RawValue(idx as u64))
            },
            Expr::Region(a, b, c) => {
                let idx = self.region_storage.len();
                self.region_storage.push(Region(envid, a, b, c));
                proof {
                    assert(self.model() =~= m.with_region(Region(envid, a, b, c)));
                }
                Ok(RawValue(idx as u64))
            },
            Expr::Project(sr, es) => {
                let ghost esv = es@;
                let idx = self.project_storage.len();
                self.project_storage.push(Project(envid, sr, es));
                proof {
                    assert(self.model().projects =~= m.projects.push(ProjectV(envid, sr, esv)));
                    assert(self.model() =~= m.with_project(ProjectV(envid, sr, esv)));
                }
                Ok(RawValue(idx as u64))
            },
            Expr::Paren(b) => self.eval_in(b, envid, Ghost(f)),
            Expr::Block(b) => self.eval_in(b, envid, Ghost(f)),
            Expr::WithAttribute(attr, b) => self.eval_with_attribute(e, attr, b, envid, Ghost(fuel)),
        }
    }

    /// Evaluates `args` from left to right, stopping at the first error.
    fn eval_vec(&mut self, v: &[ExprRef], envid: EnvId, Ghost(fuel): Ghost<nat>) -> (r: Result<Vec<RawValue>, EvalError>)
        requires
            old(self).wf(),
            old(self).model().envs.valid(envid),
            eval_seq(fuel, old(self).model(), v@, envid) is Some,
        ensures
            eval_seq(fuel, old(self).model(), v@, envid) == Some((seq_result(r), final(self).model())),
            final(self).wf(),
            old(self).model().envs.grows_to(final(self).model().envs),
        decreases fuel, v@.len() + 3,
    {
        let ghost m0 = self.model();
        proof {
            lemma_seq_prefix(fuel, m0, v@, envid);
            assert(v@.take(0) =~= Seq::<ExprRef>::empty());
            m0.envs.lemma_grows_refl();
        }
        let mut vals: Vec<RawValue> = Vec::new();
        let mut i: usize = 0;
        while i < v.len()
            invariant
                i <= v@.len(),
                self.wf(),
                self.model().envs.valid(envid),
                m0.envs.grows_to(self.model().envs),
                m0.wf(),
                m0 == old(self).model(),
                eval_seq(fuel, m0, v@.take(i as int), envid) == Some((Ok::<Seq<RawValue>, EvalError>(vals@), self.model())),
                forall|k: int| 0 <= k <= v@.len() ==> eval_seq(fuel, m0, #[trigger] v@.take(k), envid) is Some,
            decreases v@.len() - i,
        {
            proof {
                assert(v@.take(i + 1).drop_last() =~= v@.take(i as int));
                assert(v@.take(i + 1).last() == v@[i as int]);
                assert(eval_seq(fuel, m0, v@.take(i + 1), envid) is Some);
            }
            let ghost mi = self.model();
            match self.eval_in(v[i], envid, Ghost(fuel)) {
                Ok(x) => {
                    vals.push(x);
                    proof {
                        m0.envs.lemma_grows_trans(mi.envs, self.model().envs);
                    }
                },
                Err(x) => {
                    proof {
                        assert(eval_seq(fuel, m0, v@.take(i + 1), envid) == Some((Err::<Seq<RawValue>, EvalError>(x), self.model())));
                        lemma_seq_error_stops(fuel, m0, v@, i + 1, envid);
                        m0.envs.lemma_grows_trans(mi.envs, self.model().envs);
                    }
                    return Err(x);
                },
            }
            i += 1;
        }
        proof {
            assert(v@.take(v@.len() as int) =~= v@);
        }
        Ok(vals)
    }

    /// Applies the closure that `callee` evaluates to.
    fn eval_app(&mut self, e: ExprRef, callee: ExprRef, args: &[ExprRef], envid: EnvId, Ghost(fuel): Ghost<nat>) -> (r: Result<RawValue, EvalError>)
        requires
            old(self).wf(),
            old(self).model().envs.valid(envid),
            fuel > 0,
            old(self).model().holds(e),
            old(self).model().at(e) == ExprV::App(callee, args@),
            eval_spec(fuel, old(self).model(), e, envid) is Some,
        ensures
            eval_spec(fuel, old(self).model(), e, envid) == Some((r, final(self).model())),
            final(self).wf(),
            old(self).model().envs.grows_to(final(self).model().envs),
        decreases fuel, 1nat,
    {
        let ghost m = self.model();
        let ghost f = (fuel - 1) as nat;
        let vals = match self.eval_vec(args, envid, Ghost(f)) {
            Ok(v) => v,
            Err(x) => {
                return Err(x);
            },
        };
        let ghost m1 = self.model();
        let c = match self.eval_in(callee, envid, Ghost(f)) {
            Ok(c) => c,
            Err(x) => {
                proof {
                    m.envs.lemma_grows_trans(m1.envs, self.model().envs);
                }
                return Err(x);
            },
        };
        let ghost m2 = self.model();
        proof {
            m.envs.lemma_grows_trans(m1.envs, m2.envs);
            assert(eval_seq(f, m, args@, envid) == Some((Ok::<Seq<RawValue>, EvalError>(vals@), m1)));
            assert(eval_spec(f, m1, callee, envid) == Some((Ok::<RawValue, EvalError>(c), m2)));
            assert(c.0 < m2.closures.len());
            assert(m2.closures.len() == self.object_storage@.len());
            assert(m2.envs.valid(m2.closures[c.0 as int].env));
        }
        let nclo = self.object_storage.len();
        assert(c.0 < nclo);
        let k = c.0 as usize;
        assert(k == c.0);
        let ghost cl = m2.closures[k as int];
        assert(self.object_storage@[k as int]@ == cl);
        let cenv = self.object_storage[k].env;
        let cbody = self.object_storage[k].body;
        let kvs = zip_args(self.object_storage[k].ids.as_slice(), vals.as_slice());
        let ne = self.extend_env(cenv, kvs.as_slice());
        let ghost m3 = self.model();
        let r = self.eval_in(cbody, ne, Ghost(f));
        proof {
            m.envs.lemma_grows_trans(m2.envs, m3.envs);
            m.envs.lemma_grows_trans(m3.envs, self.model().envs);
        }
        r
    }

    /// Applies the function an operator stands for: a default function of that
    /// name directly, otherwise whatever the name is bound to.
    fn eval_binop(&mut self, e: ExprRef, op: Op, l: ExprRef, r: ExprRef, envid: EnvId, Ghost(fuel): Ghost<nat>) -> (res: Result<RawValue, EvalError>)
        requires
            old(self).wf(),
            old(self).model().envs.valid(envid),
            fuel > 0,
            old(self).model().holds(e),
            old(self).model().at(e) == ExprV::BinOp(op, l, r),
            eval_spec(fuel, old(self).model(), e, envid) is Some,
        ensures
            eval_spec(fuel, old(self).model(), e, envid) == Some((res, final(self).model())),
            final(self).wf(),
            old(self).model().envs.grows_to(final(self).model().envs),
        decreases fuel, 1nat,
    {
        let ghost m = self.model();
        let ghost f = (fuel - 1) as nat;
        let name = op.get_associated_fn_name();
        match find_default_function(name) {
            Some(fun) => {
                let lv = match self.eval_in(l, envid, Ghost(f)) {
                    Ok(x) => x,
                    Err(x) => {
                        return Err(x);
                    },
                };
                let ghost m1 = self.model();
                let rv = match self.eval_in(r, envid, Ghost(f)) {
                    Ok(x) => x,
                    Err(x) => {
                        proof {
                            m.envs.lemma_grows_trans(m1.envs, self.model().envs);
                        }
                        return Err(x);
                    },
                };
                let ghost m2 = self.model();
                let mut args: Vec<RawValue> = Vec::new();
                args.push(lv);
                args.push(rv);
                proof {
                    assert(args@ =~= seq![lv, rv]);
                    m.envs.lemma_grows_trans(m1.envs, m2.envs);
                }
                let res = fun.exec(self, args.as_slice());
                proof {
                    m.envs.lemma_grows_trans(m2.envs, self.model().envs);
                }
                res
            },
            None => {
                let sym = self.get_or_intern_str(name);
                let var = self.store_expr(Expr::Var(sym));
                let mut args: Vec<ExprRef> = Vec::new();
                args.push(l);
                args.push(r);
                proof {
                    assert(args@ =~= seq![l, r]);
                }
                let app = self.store_expr(Expr::App(var, args));
                let ghost m1 = self.model();
                proof {
                    m.envs.lemma_grows_refl();
                }
                self.eval_in(app, envid, Ghost(f))
            },
        }
    }

    /// Evaluates an expression carrying an attribute.
    fn eval_with_attribute(&mut self, e: ExprRef, attr: Attribute, b: ExprRef, envid: EnvId, Ghost(fuel): Ghost<nat>) -> (r: Result<RawValue, EvalError>)
        requires
            old(self).wf(),
            old(self).model().envs.valid(envid),
            fuel > 0,
            old(self).model().holds(e),
            old(self).model().at(e) == ExprV::WithAttribute(attr, b),
            eval_spec(fuel, old(self).model(), e, envid) is Some,
        ensures
            eval_spec(fuel, old(self).model(), e, envid) == Some((r, final(self).model())),
            final(self).wf(),
            old(self).model().envs.grows_to(final(self).model().envs),
        decreases fuel, 1nat,
    {
        let ghost m = self.model();
        let ghost f = (fuel - 1) as nat;
        let inner = match self.expr_storage.get(b.0) {
            Some(x) => clone_expr(x),
            None => {
                proof {
                    assert(false);
                }
                return Err(EvalError::InvalidId);
            },
        };
        proof {
            assert(inner@ == m.at(b));
        }
        let is_param = match self.interner.resolve(attr.0.0) {
            Some(s) => s.to_owned() == "param".to_owned(),
            None => false,
        };
        match inner {
            Expr::Let(name, body, then) => if is_param {
                self.eval_param(attr, name, body, then, envid, Ghost(f))
            } else {
                self.eval_in(b, envid, Ghost(f))
            },
            _ => self.eval_in(b, envid, Ghost(f)),
        }
    }

    /// Evaluates `#[param(..)] let name = body; then`.
    fn eval_param(
        &mut self,
        attr: Attribute,
        name: Symbol,
        body: ExprRef,
        then: ExprRef,
        envid: EnvId,
        Ghost(f): Ghost<nat>,
    ) -> (r: Result<RawValue, EvalError>)
        requires
            old(self).wf(),
            old(self).model().envs.valid(envid),
            eval_param_spec(f, old(self).model(), attr, name, body, then, envid) is Some,
        ensures
            eval_param_spec(f, old(self).model(), attr, name, body, then, envid) == Some((r, final(self).model())),
            final(self).wf(),
            old(self).model().envs.grows_to(final(self).model().envs),
        decreases f, 3nat,
    {
        let ghost m = self.model();
        proof {
            m.envs.lemma_grows_refl();
        }
        let bexpr = match self.expr_storage.get(body.0) {
            Some(x) => clone_expr(x),
            None => {
                proof {
                    assert(false);
                }
                return Err(EvalError::InvalidId);
            },
        };
        proof {
            assert(bexpr@ == m.at(body));
        }
        match bexpr {
            Expr::Literal(Literal::Number(bits)) => {
                let label = match self.interner.resolve(name.0) {
                    Some(s) => s.to_owned(),
                    None => {
                        proof {
                            assert(false);
                        }
                        return Err(EvalError::InvalidId);
                    },
                };
                let p = FloatParameter { value_bits: bits, label, min_bits: attr.1, max_bits: attr.2 };
                let ghost pv = FloatParamV {
                    value_bits: bits,
                    label: m.strings[name.0 as int],
                    min_bits: attr.1,
                    max_bits: attr.2,
                };
                assert(p@ == pv);
                let fsym = self.get_or_intern_str("param_as_number");
                let ghost m1 = self.model();
                assert(m1 == m.intern("param_as_number"@).0);
                let fv = match self.env_storage.lookup(envid, &fsym) {
                    Some(v) => v,
                    None => {
                        proof {
                            assert(false);
                        }
                        return Err(EvalError::NotFound);
                    },
                };
                assert(m1.envs.spec_lookup(envid, fsym) == Some(fv));
                assert(fv.0 < m1.extfuns.len());
                let nfun = self.extfun_storage.len();
                assert(fv.0 < nfun);
                let fun = self.extfun_storage[fv.0 as usize];
                assert(fun == m1.extfuns[fv.0 as int]);
                let pe = Expr::Literal(Literal::FloatParameter(Arc::new(p)));
                assert(pe@ == ExprV::Literal(LiteralV::FloatParameter(pv)));
                let pr = self.store_expr(pe);
                let ghost m2 = self.model();
                let mut args: Vec<ExprRef> = Vec::new();
                args.push(pr);
                assert(args@ =~= seq![pr]);
                let br = self.store_expr(Expr::AppExt(fun, args));
                let ghost m3 = self.model();
                assert(m3 == m2.with_expr(ExprV::AppExt(m1.extfuns[fv.0 as int], seq![pr])));
                let nr = self.store_expr(Expr::Let(name, br, then));
                assert(self.model() == m3.with_expr(ExprV::Let(name, br, then)));
                self.eval_in(nr, envid, Ghost(f))
            },
            other => {
                let ghost ov = other@;
                let br = self.store_expr(other);
                let ghost m2 = self.model();
                assert(m2 == m.with_expr(ov));
                let nr = self.store_expr(Expr::Let(name, br, then));
                assert(self.model() == m2.with_expr(ExprV::Let(name, br, then)));
                self.eval_in(nr, envid, Ghost(f))
            },
        }
    }
}

/// Some number of steps suffices to evaluate `e` in `env`.
pub open spec fn evaluates(m: CtxModel, e: ExprRef, env: EnvId) -> bool {
    exists|fuel: nat| eval_spec(fuel, m, e, env) is Some
}

/// The outcome of evaluating `e` in `env` with enough steps.
pub open spec fn eval_result(m: CtxModel, e: ExprRef, env: EnvId) -> Outcome<RawValue> {
    eval_spec(choose|fuel: nat| eval_spec(fuel, m, e, env) is Some, m, e, env)
}

/// Calling the closure `val` with `args`: the arguments are evaluated in the
/// closure's environment, bound to its parameters, and its body is evaluated.
pub open spec fn closure_call_spec(fuel: nat, m: CtxModel, val: RawValue, args: Seq<ExprRef>) -> Outcome<RawValue> {
    if val.0 < m.closures.len() {
        let cl = m.closures[val.0 as int];
        match eval_seq(fuel, m, args, cl.env) {
            Some((Ok(vs), m1)) => if m1.can_extend(zip_bindings(cl.ids, vs).len()) {
                eval_spec(fuel, m1.extend(cl.env, zip_bindings(cl.ids, vs)).0, cl.body, m1.extend(cl.env, zip_bindings(cl.ids, vs)).1)
            } else {
                None
            },
            Some((Err(x), m1)) => Some((Err(x), m1)),
            None => None,
        }
    } else {
        None
    }
}

pub open spec fn closure_call_result(m: CtxModel, val: RawValue, args: Seq<ExprRef>) -> Outcome<RawValue> {
    closure_call_spec(choose|fuel: nat| closure_call_spec(fuel, m, val, args) is Some, m, val, args)
}

/// The strings of an interner holding `ss` after each of `names` has been
/// interned in turn: a name already there adds nothing, a new one comes last.
pub open spec fn interned_all(ss: Seq<Seq<char>>, names: Seq<Seq<char>>) -> Seq<Seq<char>>
    decreases names.len(),
{
    if names.len() == 0 {
        ss
    } else {
        let s1 = interned_all(ss, names.drop_last());
        if s1.contains(names.last()) {
            s1
        } else {
            s1.push(names.last())
        }
    }
}

/// The names of the default functions, in order.
pub open spec fn default_names() -> Seq<Seq<char>> {
    default_functions().map_values(|p: (Seq<char>, ExtFun)| p.0)
}

impl Context {
    /// A context over the expressions of `expr_storage`, whose root
    /// environment binds each default function, stored in `extfun_storage`,
    /// under its name.
    #[verifier::spinoff_prover]
    pub fn new(expr_storage: ExprArena, interner: Interner) -> (r: Self)
        requires
            interner.strings().no_duplicates(),
            interner.strings().len() + 3 < usize::MAX,
        ensures
            r.wf(),
            r.model().exprs == expr_storage.items().map_values(|x: Expr| x@),
            r.model().expr_tag == expr_arena_tag(expr_storage),
            r.model().strings == interned_all(interner.strings(), default_names()),
            r.model().strings.len() <= interner.strings().len() + 3,
            r.model().closures.len() == 0,
            r.model().arrays.len() == 0,
            r.model().tracks.len() == 0,
            r.model().regions.len() == 0,
            r.model().projects.len() == 0,
            r.model().extfuns == default_functions().map_values(|p: (Seq<char>, ExtFun)| p.1),
            r.model().envs.envs == seq![Environment { parent: None, locals: Range { start: 0, end: 3 } }],
            r.model().root_env.index == 0,
            r.model().envs.data.len() == 3,
            r.model().binds_defaults(),
    {
        let mut interner = interner;
        let defaults = gen_default_functions();
        let mut extfun_storage: Vec<ExtFun> = Vec::new();
        let mut builtins: Vec<(Symbol, RawValue)> = Vec::new();
        let ghost s0 = interner.strings();
        let mut i: usize = 0;
        while i < defaults.len()
            invariant
                i <= defaults@.len(),
                defaults@.len() == default_functions().len(),
                forall|k: int| 0 <= k < defaults@.len() ==> (#[trigger] defaults@[k]).0@ == default_functions()[k].0
                    && defaults@[k].1 == default_functions()[k].1,
                interner.strings().no_duplicates(),
                interner.strings().len() <= s0.len() + i,
                interner.strings() == interned_all(s0, default_names().take(i as int)),
                s0.len() + 3 < usize::MAX,
                extfun_storage@ =~= default_functions().map_values(|p: (Seq<char>, ExtFun)| p.1).take(i as int),
                builtins@.len() == i,
                forall|k: int| 0 <= k < i ==> {
                    let sym = #[trigger] builtins@[k].0;
                    &&& sym.0 < interner.strings().len()
                    &&& interner.strings()[sym.0 as int] == default_functions()[k].0
                    &&& builtins@[k].1 == RawValue(k as u64)
                },
            decreases defaults@.len() - i,
        {
            let ghost before = interner.strings();
            let k = interner.get_or_intern(defaults[i].0.as_str());
            proof {
                if !before.contains(defaults@[i as int].0@) {
                    assert forall|a: int, b: int| 0 <= a < interner.strings().len() && 0 <= b
                        < interner.strings().len() && a != b implies interner.strings()[a]
                        != interner.strings()[b] by {
                        if a == before.len() {
                            assert(before[b] == interner.strings()[b]);
                        } else if b == before.len() {
                            assert(before[a] == interner.strings()[a]);
                        }
                    }
                }
                assert(default_names().take(i + 1).drop_last() =~= default_names().take(i as int));
                assert(default_names().take(i + 1).last() == defaults@[i as int].0@);
            }
            let idx = extfun_storage.len();
            extfun_storage.push(defaults[i].1);
            builtins.push((Symbol(k), RawValue(idx as u64)));
            proof {
                assert(default_functions().map_values(|p: (Seq<char>, ExtFun)| p.1).take(i + 1)
                    =~= default_functions().map_values(|p: (Seq<char>, ExtFun)| p.1).take(i as int).push(defaults@[i as int].1));
            }
            i += 1;
        }
        let mut env_storage: EnvironmentStorage<RawValue> = EnvironmentStorage::new();
        let root_env = env_storage.set_root(builtins.as_slice());
        let r = Context {
            expr_storage,
            interner,
            object_storage: Vec::new(),
            array_storage: Vec::new(),
            track_storage: Vec::new(),
            region_storage: Vec::new(),
            project_storage: Vec::new(),
            extfun_storage,
            env_storage,
            root_env,
        };
        proof {
            assert(default_names().take(3) =~= default_names());
            assert(default_functions().map_values(|p: (Seq<char>, ExtFun)| p.1).take(3)
                =~= default_functions().map_values(|p: (Seq<char>, ExtFun)| p.1));
            assert forall|j: int| 0 <= j < builtins@.len() implies r.model().envs.data[j] == builtins@[j] by {
                assert(r.env_storage.data@[j].0 == builtins@[j].0);
            }
            assert(r.model().envs.data =~= builtins@);
            assert forall|i: int| 0 <= i < 3 implies #[trigger] r.model().names(r.model().envs.data[i].0, default_functions()[i].0)
                && r.model().envs.data[i].1 == RawValue(i as u64) by {
                assert(builtins@[i].0 == r.model().envs.data[i].0);
            }
            assert(r.model().binds_defaults());
            assert(r.model().closures =~= Seq::<ClosureV>::empty());
            assert(r.model().arrays =~= Seq::<Seq<RawValue>>::empty());
            assert(r.model().projects =~= Seq::<ProjectV>::empty());
        }
        r
    }

    /// Evaluates `e` in the environment `envid`.
    pub fn eval(&mut self, e: ExprRef, envid: EnvId) -> (r: Result<RawValue, EvalError>)
        requires
            old(self).wf(),
            old(self).model().envs.valid(envid),
            evaluates(old(self).model(), e, envid),
        ensures
            eval_result(old(self).model(), e, envid) == Some((r, final(self).model())),
            final(self).wf(),
            old(self).model().envs.grows_to(final(self).model().envs),
    {
        let ghost fuel = choose|fuel: nat| eval_spec(fuel, self.model(), e, envid) is Some;
        self.eval_in(e, envid, Ghost(fuel))
    }

    /// Calls the closure `val` with the values of `args`.
    pub fn eval_closure(&mut self, val: &RawValue, args: &[ExprRef]) -> (r: Result<RawValue, EvalError>)
        requires
            old(self).wf(),
            exists|fuel: nat| closure_call_spec(fuel, old(self).model(), *val, args@) is Some,
        ensures
            closure_call_result(old(self).model(), *val, args@) == Some((r, final(self).model())),
            final(self).wf(),
            old(self).model().envs.grows_to(final(self).model().envs),
    {
        let ghost m = self.model();
        let ghost fuel = choose|fuel: nat| closure_call_spec(fuel, m, *val, args@) is Some;
        let nclo = self.object_storage.len();
        assert(val.0 < nclo);
        let k = val.0 as usize;
        let ghost cl = m.closures[k as int];
        assert(self.object_storage@[k as int]@ == cl);
        assert(m.envs.valid(cl.env));
        let cenv = self.object_storage[k].env;
        let cbody = self.object_storage[k].body;
        let ids = super::expr::copy_symbols(self.object_storage[k].ids.as_slice());
        let vals = match self.eval_vec(args, cenv, Ghost(fuel)) {
            Ok(v) => v,
            Err(x) => {
                return Err(x);
            },
        };
        let ghost m1 = self.model();
        let kvs = zip_args(ids.as_slice(), vals.as_slice());
        let ne = self.extend_env(cenv, kvs.as_slice());
        let ghost m2 = self.model();
        let r = self.eval_in(cbody, ne, Ghost(fuel));
        proof {
            m.envs.lemma_grows_trans(m1.envs, m2.envs);
            m.envs.lemma_grows_trans(m2.envs, self.model().envs);
        }
        r
    }
}

impl Default for Context {
    fn default() -> (r: Self)
        ensures
            r.wf(),
            r.model().exprs.len() == 0,
            r.model().strings == seq!["reverse"@, "sinewave"@, "fadeinout"@],
            r.model().envs.envs == seq![Environment { parent: None, locals: Range { start: 0, end: 3 } }],
            r.model().root_env.index == 0,
            r.model().closures.len() == 0,
            r.model().arrays.len() == 0,
            r.model().tracks.len() == 0,
            r.model().regions.len() == 0,
            r.model().projects.len() == 0,
            r.model().extfuns == default_functions().map_values(|p: (Seq<char>, ExtFun)| p.1),
            r.model().envs.data.len() == 3,
            r.model().binds_defaults(),
    {
        let r = Context::new(ExprArena::new(), Interner::new());
        proof {
            assert(r.model().exprs.len() == 0);
            reveal_strlit("reverse");
            reveal_strlit("sinewave");
            reveal_strlit("fadeinout");
            let n = default_names();
            let e = Seq::<Seq<char>>::empty();
            assert(n.take(0) =~= Seq::<Seq<char>>::empty());
            assert(n.take(1).drop_last() =~= n.take(0));
            assert(n.take(2).drop_last() =~= n.take(1));
            assert(n.take(3).drop_last() =~= n.take(2));
            assert(n.take(3) =~= n);
            assert(interned_all(e, n.take(0)) == e);
            assert(!e.contains("reverse"@));
            assert(interned_all(e, n.take(1)) =~= seq!["reverse"@]);
            assert("reverse"@.len() == 7 && "sinewave"@.len() == 8 && "fadeinout"@.len() == 9);
            assert(!seq!["reverse"@].contains("sinewave"@));
            assert(interned_all(e, n.take(2)) =~= seq!["reverse"@, "sinewave"@]);
            assert(!seq!["reverse"@, "sinewave"@].contains("fadeinout"@));
            assert(interned_all(e, n.take(3)) =~= seq!["reverse"@, "sinewave"@, "fadeinout"@]);
        }
        r
    }
}

impl Print {
    /// Printing during evaluation yields the unit value.
    pub fn exec(&self, ctx: &mut Context, v: &[RawValue]) -> (r: Result<RawValue, EvalError>)
        ensures
            r matches Ok(x) && x == RawValue(0),
            final(ctx).model() == old(ctx).model(),
    {
        Ok(RawValue(0))
    }
}

impl Nop {
    pub fn exec(&self, ctx: &mut Context, v: &[RawValue]) -> (r: Result<RawValue, EvalError>)
        ensures
            r matches Ok(x) && x == RawValue(0),
            final(ctx).model() == old(ctx).model(),
    {
        Ok(RawValue(0))
    }
}

impl SineWave {
    /// Outside playback there is no time to compute a sample at.
    pub fn exec(&self, ctx: &mut Context, v: &[RawValue]) -> (r: Result<RawValue, EvalError>)
        ensures
            r matches Err(EvalError::NotInPlayMode),
            final(ctx).model() == old(ctx).model(),
    {
        Err(EvalError::NotInPlayMode)
    }
}

impl FadeInOut {
    /// Turns the region `v[0]` into a new region with the same start and
    /// duration whose content applies fades of lengths `v[1]` and `v[2]` to
    /// the old content, in a fresh environment below the region's.
    pub fn exec(&self, ctx: &mut Context, v: &[RawValue]) -> (r: Result<RawValue, EvalError>)
        requires
            old(ctx).wf(),
            ext_spec(ExtFun::FadeInOut(*self), old(ctx).model(), v@) is Some,
        ensures
            ext_spec(ExtFun::FadeInOut(*self), old(ctx).model(), v@) == Some((r, final(ctx).model())),
            final(ctx).wf(),
            old(ctx).model().envs.grows_to(final(ctx).model().envs),
    {
        if v.len() != 3 {
            proof { old(ctx).model().envs.lemma_grows_refl(); }
            return Err(EvalError::InvalidNumArgs(3, v.len()));
        }
        let origin = v[0];
        let time_in = v[1];
        let time_out = v[2];
        let reg = ctx.region_storage[origin.0 as usize];
        let empty: Vec<(Symbol, RawValue)> = Vec::new();
        proof {
            assert(empty@ =~= seq![]);
        }
        let env = ctx.extend_env(reg.0, empty.as_slice());
        let mut args: Vec<ExprRef> = Vec::new();
        args.push(reg.3);
        args.push(reg.1);
        args.push(reg.2);
        proof {
            assert(args@ =~= seq![reg.3, reg.1, reg.2]);
        }
        let app = ctx.store_expr(Expr::AppExt(ExtFun::ApplyFadeInOut(ApplyFadeInOut { time_in, time_out }), args));
        let idx = ctx.region_storage.len();
        ctx.region_storage.push(Region(env, reg.1, reg.2, app));
        proof {
            let ghost m1 = old(ctx).model().extend(reg.0, seq![]).0;
            let ghost m2 = m1.with_expr(ExprV::AppExt(
                ExtFun::ApplyFadeInOut(ApplyFadeInOut { time_in, time_out }),
                seq![reg.3, reg.1, reg.2],
            ));
            assert(ctx.model() =~= m2.with_region(Region(env, reg.1, reg.2, app)));
        }
        Ok(RawValue(idx as u64))
    }
}

impl ExtFun {
    /// Calls the built-in function during evaluation, where no playback is
    /// running.
    pub fn exec(&self, ctx: &mut Context, v: &[RawValue]) -> (r: Result<RawValue, EvalError>)
        requires
            old(ctx).wf(),
            ext_spec(*self, old(ctx).model(), v@) is Some,
        ensures
            ext_spec(*self, old(ctx).model(), v@) == Some((r, final(ctx).model())),
            final(ctx).wf(),
            old(ctx).model().envs.grows_to(final(ctx).model().envs),
    {
        proof { old(ctx).model().envs.lemma_grows_refl(); }
        match self {
            ExtFun::Print(f) => f.exec(ctx, v),
            ExtFun::Nop(f) => f.exec(ctx, v),
            ExtFun::SineWave(f) => f.exec(ctx, v),
            ExtFun::FadeInOut(f) => f.exec(ctx, v),
            ExtFun::ArrayReverse(_) => {
                proof { assert(false); }
                Err(EvalError::InvalidConversion)
            },
            ExtFun::ApplyFadeInOut(_) => {
                proof { assert(false); }
                Err(EvalError::InvalidConversion)
            },
        }
    }
}

/// Parentheses and blocks do not change what an expression evaluates to; they
/// take one step.
pub proof fn law_grouping_is_transparent(fuel: nat, m: CtxModel, e: ExprRef, b: ExprRef, env: EnvId)
    requires
        m.holds(e),
        m.at(e) == ExprV::Paren(b) || m.at(e) == ExprV::Block(b),
    ensures
        eval_spec(fuel + 1, m, e, env) == eval_spec(fuel, m, b, env),
{
}

/// `let id = b; id` evaluates to the value of `b`, with `id` bound to it in a
/// new environment below `env`.
pub proof fn law_let_returns_bound_value(
    fuel: nat,
    m: CtxModel,
    e: ExprRef,
    id: Symbol,
    b: ExprRef,
    t: ExprRef,
    env: EnvId,
    v: RawValue,
    m1: CtxModel,
)
    requires
        fuel >= 1,
        m.holds(e),
        m.at(e) == ExprV::Let(id, b, t),
        m.holds(t),
        m.at(t) == ExprV::Var(id),
        eval_spec(fuel, m, b, env) == Some((Ok::<RawValue, EvalError>(v), m1)),
        m1.can_extend(1),
        m1.holds(t),
        m1.at(t) == m.at(t),
    ensures
        eval_spec(fuel + 1, m, e, env) == Some((Ok::<RawValue, EvalError>(v), m1.extend(env, seq![(id, v)]).0)),
{
    let (m2, ne) = m1.extend(env, seq![(id, v)]);
    assert(m2.envs.data[m1.envs.data.len() as int] == (id, v));
    assert(m2.envs.envs[ne.index as int] == m2.envs.envs.last());
    assert(m2.envs.spec_lookup(ne, id) == Some(v));
    assert(m2.holds(t) && m2.at(t) == ExprV::Var(id));
    assert(eval_spec(fuel, m2, t, ne) == Some((Ok::<RawValue, EvalError>(v), m2)));
}

/// A lambda captures the environment in which it is evaluated: calling
/// `|a| y` on one number, right where the lambda stands, finds `y` as the
/// environment around the call does (when `y` is not the parameter), and
/// `NotFound` when that environment does not bind it.
pub proof fn law_closure_sees_its_environment(
    fuel: nat,
    m: CtxModel,
    e: ExprRef,
    lam: ExprRef,
    arg: ExprRef,
    body: ExprRef,
    a: Symbol,
    y: Symbol,
    wb: u64,
    env: EnvId,
)
    requires
        fuel >= 1,
        m.envs.wf(),
        m.envs.valid(env),
        m.can_extend(1),
        m.closures.len() < u64::MAX,
        m.holds(e),
        m.at(e) == ExprV::App(lam, seq![arg]),
        m.holds(arg),
        m.at(arg) == ExprV::Literal(LiteralV::Number(wb)),
        m.holds(lam),
        m.at(lam) == ExprV::Lambda(seq![a], body),
        m.holds(body),
        m.at(body) == ExprV::Var(y),
        a != y,
    ensures
        eval_spec(fuel + 1, m, e, env) matches Some((r, _)) && r == match m.envs.spec_lookup(env, y) {
            Some(v) => Ok::<RawValue, EvalError>(v),
            None => Err::<RawValue, EvalError>(EvalError::NotFound),
        },
{
    let w = RawValue(wb);
    assert(eval_spec(fuel, m, arg, env) == Some((Ok::<RawValue, EvalError>(w), m)));
    assert(seq![arg].drop_last() =~= Seq::<ExprRef>::empty());
    assert(seq![arg].last() == arg);
    assert(eval_seq(fuel, m, Seq::<ExprRef>::empty(), env) == Some((Ok::<Seq<RawValue>, EvalError>(Seq::empty()), m)));
    assert(Seq::<RawValue>::empty().push(w) =~= seq![w]);
    assert(eval_seq(fuel, m, seq![arg], env) == Some((Ok::<Seq<RawValue>, EvalError>(seq![w]), m)));
    let cl = ClosureV { env, ids: seq![a], body };
    let m2 = m.with_closure(cl);
    assert(eval_spec(fuel, m, lam, env) == Some((Ok::<RawValue, EvalError>(RawValue(m.closures.len() as u64)), m2)));
    let svs = zip_bindings(seq![a], seq![w]);
    assert(svs =~= seq![(a, w)]);
    assert(m2.closures[m.closures.len() as int] == cl);
    let (m3, ne) = m2.extend(env, svs);
    m.envs.lemma_extended(Some(env), svs);
    m.envs.lemma_grows_valid(m3.envs, env, y);
    let d = m.envs.data.len() as int;
    assert(m3.envs.envs[ne.index as int] == Environment {
        parent: Some(env),
        locals: Range { start: d as usize, end: (d + 1) as usize },
    });
    assert(m3.envs.data[d] == (a, w));
    assert(m3.envs.last_binding(d, d, y) == None::<int>);
    assert(m3.envs.spec_lookup(ne, y) == m.envs.spec_lookup(env, y));
    assert(m3.holds(body) && m3.at(body) == ExprV::Var(y));
    assert(m2.envs == m.envs);
    assert(m2.can_extend(svs.len()));
    assert((RawValue(m.closures.len() as u64)).0 < m2.closures.len());
    let res = match m3.envs.spec_lookup(ne, y) {
        Some(v) => Ok::<RawValue, EvalError>(v),
        None => Err::<RawValue, EvalError>(EvalError::NotFound),
    };
    assert(eval_spec(fuel, m3, body, ne) == Some((res, m3)));
    assert(eval_spec(fuel + 1, m, e, env) == eval_spec(fuel, m3, body, ne));
}

/// Calling a lambda binds its parameter to the argument's value: `(|a| a)(w)`
/// gives `w` for every number `w`, in any environment.
pub proof fn law_call_binds_parameter(
    fuel: nat,
    m: CtxModel,
    e: ExprRef,
    lam: ExprRef,
    arg: ExprRef,
    body: ExprRef,
    a: Symbol,
    wb: u64,
    env: EnvId,
)
    requires
        fuel >= 1,
        m.envs.wf(),
        m.envs.valid(env),
        m.can_extend(1),
        m.closures.len() < u64::MAX,
        m.holds(e),
        m.at(e) == ExprV::App(lam, seq![arg]),
        m.holds(arg),
        m.at(arg) == ExprV::Literal(LiteralV::Number(wb)),
        m.holds(lam),
        m.at(lam) == ExprV::Lambda(seq![a], body),
        m.holds(body),
        m.at(body) == ExprV::Var(a),
    ensures
        eval_spec(fuel + 1, m, e, env) matches Some((r, _)) && r == Ok::<RawValue, EvalError>(RawValue(wb)),
{
    let w = RawValue(wb);
    assert(eval_spec(fuel, m, arg, env) == Some((Ok::<RawValue, EvalError>(w), m)));
    assert(seq![arg].drop_last() =~= Seq::<ExprRef>::empty());
    assert(seq![arg].last() == arg);
    assert(eval_seq(fuel, m, Seq::<ExprRef>::empty(), env) == Some((Ok::<Seq<RawValue>, EvalError>(Seq::empty()), m)));
    assert(Seq::<RawValue>::empty().push(w) =~= seq![w]);
    assert(eval_seq(fuel, m, seq![arg], env) == Some((Ok::<Seq<RawValue>, EvalError>(seq![w]), m)));
    let cl = ClosureV { env, ids: seq![a], body };
    let m2 = m.with_closure(cl);
    assert(eval_spec(fuel, m, lam, env) == Some((Ok::<RawValue, EvalError>(RawValue(m.closures.len() as u64)), m2)));
    let svs = zip_bindings(seq![a], seq![w]);
    assert(svs =~= seq![(a, w)]);
    assert(m2.closures[m.closures.len() as int] == cl);
    let (m3, ne) = m2.extend(env, svs);
    let d = m.envs.data.len() as int;
    assert(m3.envs.data[d] == (a, w));
    assert(m3.envs.envs[ne.index as int] == m3.envs.envs.last());
    assert(m3.envs.spec_lookup(ne, a) == Some(w));
    assert(m3.holds(body) && m3.at(body) == ExprV::Var(a));
    assert(m2.envs == m.envs);
    assert(m2.can_extend(svs.len()));
    assert((RawValue(m.closures.len() as u64)).0 < m2.closures.len());
    assert(eval_spec(fuel, m3, body, ne) == Some((Ok::<RawValue, EvalError>(w), m3)));
    assert(eval_spec(fuel + 1, m, e, env) == eval_spec(fuel, m3, body, ne));
}

/// A name bound by an enclosing `let` is visible in the body of a lambda:
/// `let y = v; (|a| y)(w)` gives `v` for all numbers `v`, `w` and names
/// `a` other than `y`, in any environment.
pub proof fn law_let_is_visible_in_lambda(
    fuel: nat,
    m: CtxModel,
    e: ExprRef,
    b: ExprRef,
    call: ExprRef,
    lam: ExprRef,
    arg: ExprRef,
    body: ExprRef,
    a: Symbol,
    y: Symbol,
    vb: u64,
    wb: u64,
    env: EnvId,
)
    requires
        fuel >= 1,
        m.envs.wf(),
        m.envs.valid(env),
        m.envs.data.len() + 2 <= usize::MAX,
        m.envs.envs.len() + 1 < usize::MAX,
        m.closures.len() < u64::MAX,
        m.holds(e),
        m.at(e) == ExprV::Let(y, b, call),
        m.holds(b),
        m.at(b) == ExprV::Literal(LiteralV::Number(vb)),
        m.holds(call),
        m.at(call) == ExprV::App(lam, seq![arg]),
        m.holds(arg),
        m.at(arg) == ExprV::Literal(LiteralV::Number(wb)),
        m.holds(lam),
        m.at(lam) == ExprV::Lambda(seq![a], body),
        m.holds(body),
        m.at(body) == ExprV::Var(y),
        a != y,
    ensures
        eval_spec(fuel + 2, m, e, env) matches Some((r, _)) && r == Ok::<RawValue, EvalError>(RawValue(vb)),
{
    let v = RawValue(vb);
    assert(eval_spec(fuel + 1, m, b, env) == Some((Ok::<RawValue, EvalError>(v), m)));
    assert(m.can_extend(1));
    let (m1, ne) = m.extend(env, seq![(y, v)]);
    m.envs.lemma_extended(Some(env), seq![(y, v)]);
    let d = m.envs.data.len() as int;
    assert(m1.envs.data[d] == (y, v));
    assert(m1.envs.envs[ne.index as int] == m1.envs.envs.last());
    assert(m1.envs.spec_lookup(ne, y) == Some(v));
    assert(m1.can_extend(1));
    law_closure_sees_its_environment(fuel, m1, call, lam, arg, body, a, y, wb, ne);
    assert(eval_spec(fuel + 2, m, e, env) == eval_spec(fuel + 1, m1, call, ne));
}

/// In the root environment of a fresh context, looking up the name of each
/// default function finds its index in the function storage.
pub proof fn law_root_binds_defaults(m: CtxModel, i: int)
    requires
        m.wf(),
        m.binds_defaults(),
        m.envs.envs[m.root_env.index as int] == (Environment { parent: None, locals: Range { start: 0, end: 3 } }),
        0 <= i < 3,
    ensures
        m.envs.spec_lookup(m.root_env, m.envs.data[i].0) == Some(RawValue(i as u64)),
{
    reveal_strlit("reverse");
    reveal_strlit("sinewave");
    reveal_strlit("fadeinout");
    let d = m.envs.data;
    assert(m.names(d[0].0, default_functions()[0].0));
    assert(m.names(d[1].0, default_functions()[1].0));
    assert(m.names(d[2].0, default_functions()[2].0));
    assert("reverse"@.len() == 7 && "sinewave"@.len() == 8 && "fadeinout"@.len() == 9);
    assert(d[0].0 != d[1].0 && d[1].0 != d[2].0 && d[0].0 != d[2].0);
    let key = d[i].0;
    assert(m.envs.last_binding(0, 0, key) == None::<int>);
    if i == 0 {
        assert(m.envs.last_binding(0, 1, key) == Some(0int));
        assert(m.envs.last_binding(0, 2, key) == Some(0int));
    } else if i == 1 {
        assert(m.envs.last_binding(0, 2, key) == Some(1int));
    }
}

/// The root environment binds nothing but the default functions: a symbol
/// other than theirs finds nothing there.
pub proof fn law_root_binds_only_defaults(m: CtxModel, key: Symbol)
    requires
        m.wf(),
        m.binds_defaults(),
        m.envs.envs[m.root_env.index as int] == (Environment { parent: None, locals: Range { start: 0, end: 3 } }),
        forall|i: int| 0 <= i < 3 ==> key != #[trigger] m.envs.data[i].0,
    ensures
        m.envs.spec_lookup(m.root_env, key) is None,
{
    let d = m.envs.data;
    assert(key != d[0].0 && key != d[1].0 && key != d[2].0);
    assert(m.envs.last_binding(0, 0, key) == None::<int>);
    assert(m.envs.last_binding(0, 1, key) == None::<int>);
    assert(m.envs.last_binding(0, 2, key) == None::<int>);
}

/// More steps do not change a finished evaluation.
pub proof fn lemma_fuel_mono(f1: nat, f2: nat, m: CtxModel, e: ExprRef, env: EnvId)
    requires
        f1 <= f2,
        eval_spec(f1, m, e, env) is Some,
    ensures
        eval_spec(f2, m, e, env) == eval_spec(f1, m, e, env),
    decreases f1, 0nat,
{
    if f1 > 0 && m.holds(e) {
        let g1 = (f1 - 1) as nat;
        let g2 = (f2 - 1) as nat;
        match m.at(e) {
            ExprV::Let(id, b, t) => {
                lemma_fuel_mono(g1, g2, m, b, env);
                if let Some((Ok(v), m1)) = eval_spec(g1, m, b, env) {
                    if m1.can_extend(1) {
                        lemma_fuel_mono(g1, g2, m1.extend(env, seq![(id, v)]).0, t, m1.extend(env, seq![(id, v)]).1);
                    }
                }
            },
            ExprV::Then(a, b) => {
                lemma_fuel_mono(g1, g2, m, a, env);
                if let Some((Ok(_), m1)) = eval_spec(g1, m, a, env) {
                    lemma_fuel_mono(g1, g2, m1, b, env);
                }
            },
            ExprV::App(callee, args) => {
                lemma_seq_fuel_mono(g1, g2, m, args, env);
                if let Some((Ok(vs), m1)) = eval_seq(g1, m, args, env) {
                    lemma_fuel_mono(g1, g2, m1, callee, env);
                    if let Some((Ok(c), m2)) = eval_spec(g1, m1, callee, env) {
                        if c.0 < m2.closures.len() && m2.can_extend(zip_bindings(m2.closures[c.0 as int].ids, vs).len()) {
                            let cl = m2.closures[c.0 as int];
                            let (m3, ne) = m2.extend(cl.env, zip_bindings(cl.ids, vs));
                            lemma_fuel_mono(g1, g2, m3, cl.body, ne);
                        }
                    }
                }
            },
            ExprV::BinOp(op, l, r) => match first_named(default_functions(), op_name(op)) {
                Some(fun) => {
                    lemma_fuel_mono(g1, g2, m, l, env);
                    if let Some((Ok(lv), m1)) = eval_spec(g1, m, l, env) {
                        lemma_fuel_mono(g1, g2, m1, r, env);
                    }
                },
                None => if m.intern_room() && m.expr_room(2) {
                    let (m1, sym) = m.intern(op_name(op));
                    let var = m1.next_ref();
                    let m2 = m1.with_expr(ExprV::Var(sym));
                    let app = m2.next_ref();
                    lemma_fuel_mono(g1, g2, m2.with_expr(ExprV::App(var, seq![l, r])), app, env);
                },
            },
            ExprV::AppExt(fun, args) => {
                lemma_seq_fuel_mono(g1, g2, m, args, env);
            },
            ExprV::Array(es) => {
                lemma_seq_fuel_mono(g1, g2, m, es, env);
            },
            ExprV::Paren(b) => {
                lemma_fuel_mono(g1, g2, m, b, env);
            },
            ExprV::Block(b) => {
                lemma_fuel_mono(g1, g2, m, b, env);
            },
            ExprV::WithAttribute(attr, b) => if m.holds(b) {
                match m.at(b) {
                    ExprV::Let(name, body, then) => if m.names(attr.0, "param"@) {
                        lemma_param_fuel_mono(g1, g2, m, attr, name, body, then, env);
                    } else {
                        lemma_fuel_mono(g1, g2, m, b, env);
                    },
                    _ => {
                        lemma_fuel_mono(g1, g2, m, b, env);
                    },
                }
            },
            _ => {},
        }
    }
}

/// More steps do not change a finished evaluation of a list.
pub proof fn lemma_seq_fuel_mono(f1: nat, f2: nat, m: CtxModel, es: Seq<ExprRef>, env: EnvId)
    requires
        f1 <= f2,
        eval_seq(f1, m, es, env) is Some,
    ensures
        eval_seq(f2, m, es, env) == eval_seq(f1, m, es, env),
    decreases f1, es.len() + 1,
{
    if es.len() > 0 {
        lemma_seq_fuel_mono(f1, f2, m, es.drop_last(), env);
        if let Some((Ok(vs), m1)) = eval_seq(f1, m, es.drop_last(), env) {
            lemma_fuel_mono(f1, f2, m1, es.last(), env);
        }
    }
}

/// More steps do not change a finished evaluation of a parameter `let`.
pub proof fn lemma_param_fuel_mono(
    f1: nat,
    f2: nat,
    m: CtxModel,
    attr: Attribute,
    name: Symbol,
    body: ExprRef,
    then: ExprRef,
    env: EnvId,
)
    requires
        f1 <= f2,
        eval_param_spec(f1, m, attr, name, body, then, env) is Some,
    ensures
        eval_param_spec(f2, m, attr, name, body, then, env) == eval_param_spec(f1, m, attr, name, body, then, env),
    decreases f1, 1nat,
{
    if m.holds(body) && m.expr_room(3) && m.intern_room() {
        match m.at(body) {
            ExprV::Literal(LiteralV::Number(bits)) => if name.0 < m.strings.len() {
                let p = FloatParamV {
                    value_bits: bits,
                    label: m.strings[name.0 as int],
                    min_bits: attr.1,
                    max_bits: attr.2,
                };
                let (m1, fsym) = m.intern("param_as_number"@);
                if let Some(fv) = m1.envs.spec_lookup(env, fsym) {
                    if fv.0 < m1.extfuns.len() {
                        let pr = m1.next_ref();
                        let m2 = m1.with_expr(ExprV::Literal(LiteralV::FloatParameter(p)));
                        let br = m2.next_ref();
                        let m3 = m2.with_expr(ExprV::AppExt(m1.extfuns[fv.0 as int], seq![pr]));
                        let nr = m3.next_ref();
                        lemma_fuel_mono(f1, f2, m3.with_expr(ExprV::Let(name, br, then)), nr, env);
                    }
                }
            },
            other => {
                let br = m.next_ref();
                let m2 = m.with_expr(other);
                let nr = m2.next_ref();
                lemma_fuel_mono(f1, f2, m2.with_expr(ExprV::Let(name, br, then)), nr, env);
            },
        }
    }
}

/// Evaluation is deterministic: whatever number of steps suffices, the
/// outcome is `eval_result`.
pub proof fn law_eval_result_any_fuel(fuel: nat, m: CtxModel, e: ExprRef, env: EnvId)
    requires
        eval_spec(fuel, m, e, env) is Some,
    ensures
        evaluates(m, e, env),
        eval_result(m, e, env) == eval_spec(fuel, m, e, env),
{
    let c = choose|f: nat| eval_spec(f, m, e, env) is Some;
    if c <= fuel {
        lemma_fuel_mono(c, fuel, m, e, env);
    } else {
        lemma_fuel_mono(fuel, c, m, e, env);
    }
}

/// `fadeinout` turns a region into a new region with the same start and
/// duration whose content applies the fades to the old content; the old
/// region is kept.
pub proof fn law_fade_keeps_region_range(m: CtxModel, r: RawValue, time_in: RawValue, time_out: RawValue)
    requires
        ext_spec(ExtFun::FadeInOut(FadeInOut {}), m, seq![r, time_in, time_out]) matches Some((Ok(_), _)),
        m.regions.len() < u64::MAX,
    ensures
        ({
            let (res, m2) = ext_spec(ExtFun::FadeInOut(FadeInOut {}), m, seq![r, time_in, time_out])->Some_0;
            let v = res->Ok_0;
            let old_reg = m.regions[r.0 as int];
            let new_reg = m2.regions[v.0 as int];
            &&& v.0 == m.regions.len()
            &&& m2.regions.len() == m.regions.len() + 1
            &&& m2.regions[r.0 as int] == old_reg
            &&& new_reg.1 == old_reg.1
            &&& new_reg.2 == old_reg.2
            &&& m2.holds(new_reg.3)
            &&& m2.at(new_reg.3) == ExprV::AppExt(
                ExtFun::ApplyFadeInOut(ApplyFadeInOut { time_in, time_out }),
                seq![old_reg.3, old_reg.1, old_reg.2],
            )
        }),
{
    let vs = seq![r, time_in, time_out];
    assert(vs.len() == 3 && vs[0] == r && vs[1] == time_in && vs[2] == time_out);
}

impl CtxModel {
    /// `new` keeps everything of `self` and possibly adds more: expressions,
    /// strings, objects, bindings and environments are only appended.
    pub open spec fn grows_to(self, new: CtxModel) -> bool {
        &&& self.exprs.is_prefix_of(new.exprs)
        &&& self.expr_tag == new.expr_tag
        &&& self.strings.is_prefix_of(new.strings)
        &&& self.closures.is_prefix_of(new.closures)
        &&& self.arrays.is_prefix_of(new.arrays)
        &&& self.tracks.is_prefix_of(new.tracks)
        &&& self.regions.is_prefix_of(new.regions)
        &&& self.projects.is_prefix_of(new.projects)
        &&& self.extfuns == new.extfuns
        &&& self.envs.grows_to(new.envs)
        &&& self.root_env == new.root_env
    }
}

proof fn lemma_prefix_refl<A>(s: Seq<A>)
    ensures
        s.is_prefix_of(s),
{
    assert(s.subrange(0, s.len() as int) =~= s);
}

proof fn lemma_prefix_push<A>(s: Seq<A>, x: A)
    ensures
        s.is_prefix_of(s.push(x)),
{
    assert(s.push(x).subrange(0, s.len() as int) =~= s);
}

proof fn lemma_prefix_trans<A>(a: Seq<A>, b: Seq<A>, c: Seq<A>)
    requires
        a.is_prefix_of(b),
        b.is_prefix_of(c),
    ensures
        a.is_prefix_of(c),
{
    assert(c.subrange(0, a.len() as int) =~= b.subrange(0, a.len() as int));
}

proof fn lemma_ctx_grows_refl(m: CtxModel)
    ensures
        m.grows_to(m),
{
    lemma_prefix_refl(m.exprs);
    lemma_prefix_refl(m.strings);
    lemma_prefix_refl(m.closures);
    lemma_prefix_refl(m.arrays);
    lemma_prefix_refl(m.tracks);
    lemma_prefix_refl(m.regions);
    lemma_prefix_refl(m.projects);
    m.envs.lemma_grows_refl();
}

proof fn lemma_ctx_grows_trans(a: CtxModel, b: CtxModel, c: CtxModel)
    requires
        a.grows_to(b),
        b.grows_to(c),
    ensures
        a.grows_to(c),
{
    lemma_prefix_trans(a.exprs, b.exprs, c.exprs);
    lemma_prefix_trans(a.strings, b.strings, c.strings);
    lemma_prefix_trans(a.closures, b.closures, c.closures);
    lemma_prefix_trans(a.arrays, b.arrays, c.arrays);
    lemma_prefix_trans(a.tracks, b.tracks, c.tracks);
    lemma_prefix_trans(a.regions, b.regions, c.regions);
    lemma_prefix_trans(a.projects, b.projects, c.projects);
    a.envs.lemma_grows_trans(b.envs, c.envs);
}

proof fn lemma_grows_expr(m: CtxModel, e: ExprV)
    ensures
        m.grows_to(m.with_expr(e)),
{
    lemma_ctx_grows_refl(m);
    lemma_prefix_push(m.exprs, e);
}

proof fn lemma_grows_intern(m: CtxModel, s: Seq<char>)
    ensures
        m.grows_to(m.intern(s).0),
{
    lemma_ctx_grows_refl(m);
    lemma_prefix_push(m.strings, s);
}

proof fn lemma_grows_extend(m: CtxModel, parent: EnvId, svs: Seq<(Symbol, RawValue)>)
    ensures
        m.grows_to(m.extend(parent, svs).0),
{
    lemma_ctx_grows_refl(m);
    let n = m.extend(parent, svs).0;
    assert(n.envs.data.subrange(0, m.envs.data.len() as int) =~= m.envs.data);
    assert(n.envs.envs.subrange(0, m.envs.envs.len() as int) =~= m.envs.envs);
}

proof fn lemma_grows_objects(m: CtxModel, c: ClosureV, a: Seq<RawValue>, t: Track, r: Region, p: ProjectV)
    ensures
        m.grows_to(m.with_closure(c)),
        m.grows_to(m.with_array(a)),
        m.grows_to(m.with_track(t)),
        m.grows_to(m.with_region(r)),
        m.grows_to(m.with_project(p)),
{
    lemma_ctx_grows_refl(m);
    lemma_prefix_push(m.closures, c);
    lemma_prefix_push(m.arrays, a);
    lemma_prefix_push(m.tracks, t);
    lemma_prefix_push(m.regions, r);
    lemma_prefix_push(m.projects, p);
}

/// A built-in function only adds to the context.
proof fn lemma_ext_grows(fun: ExtFun, m: CtxModel, vs: Seq<RawValue>)
    requires
        ext_spec(fun, m, vs) is Some,
    ensures
        m.grows_to(ext_spec(fun, m, vs)->Some_0.1),
{
    lemma_ctx_grows_refl(m);
    if fun is FadeInOut && vs.len() == 3 {
        let reg = m.regions[vs[0].0 as int];
        let (m1, env) = m.extend(reg.0, seq![]);
        let app = m1.next_ref();
        let ex = ExprV::AppExt(ExtFun::ApplyFadeInOut(ApplyFadeInOut { time_in: vs[1], time_out: vs[2] }), seq![reg.3, reg.1, reg.2]);
        let m2 = m1.with_expr(ex);
        lemma_grows_extend(m, reg.0, seq![]);
        lemma_grows_expr(m1, ex);
        lemma_grows_objects(m2, ClosureV { env, ids: seq![], body: app }, seq![], Track(env, app), Region(env, reg.1, reg.2, app), ProjectV(env, 0, seq![]));
        lemma_ctx_grows_trans(m, m1, m2);
        lemma_ctx_grows_trans(m, m2, m2.with_region(Region(env, reg.1, reg.2, app)));
    }
}

/// Evaluation only adds to the context: the expressions, strings, objects,
/// bindings and environments that were there stay as they were.
pub proof fn law_eval_only_adds(f: nat, m: CtxModel, e: ExprRef, env: EnvId)
    requires
        eval_spec(f, m, e, env) is Some,
    ensures
        m.grows_to(eval_spec(f, m, e, env)->Some_0.1),
    decreases f, 0nat,
{
    lemma_ctx_grows_refl(m);
    if f > 0 && m.holds(e) {
        let g = (f - 1) as nat;
        let dummy = ExprRef(ExprId { index: 0, arena: 0 });
        match m.at(e) {
            ExprV::Let(id, b, t) => {
                law_eval_only_adds(g, m, b, env);
                if let Some((Ok(v), m1)) = eval_spec(g, m, b, env) {
                    let (m2, ne) = m1.extend(env, seq![(id, v)]);
                    lemma_grows_extend(m1, env, seq![(id, v)]);
                    law_eval_only_adds(g, m2, t, ne);
                    lemma_ctx_grows_trans(m, m1, m2);
                    lemma_ctx_grows_trans(m, m2, eval_spec(g, m2, t, ne)->Some_0.1);
                }
            },
            ExprV::Then(a, b) => {
                law_eval_only_adds(g, m, a, env);
                if let Some((Ok(_), m1)) = eval_spec(g, m, a, env) {
                    law_eval_only_adds(g, m1, b, env);
                    lemma_ctx_grows_trans(m, m1, eval_spec(g, m1, b, env)->Some_0.1);
                }
            },
            ExprV::Lambda(ids, body) => {
                lemma_grows_objects(m, ClosureV { env, ids, body }, seq![], Track(env, body), Region(env, body, body, body), ProjectV(env, 0, seq![]));
            },
            ExprV::App(callee, args) => {
                law_seq_only_adds(g, m, args, env);
                if let Some((Ok(vs), m1)) = eval_seq(g, m, args, env) {
                    law_eval_only_adds(g, m1, callee, env);
                    lemma_ctx_grows_trans(m, m1, eval_spec(g, m1, callee, env)->Some_0.1);
                    if let Some((Ok(c), m2)) = eval_spec(g, m1, callee, env) {
                        if c.0 < m2.closures.len() && m2.can_extend(zip_bindings(m2.closures[c.0 as int].ids, vs).len()) {
                            let cl = m2.closures[c.0 as int];
                            let (m3, ne) = m2.extend(cl.env, zip_bindings(cl.ids, vs));
                            lemma_grows_extend(m2, cl.env, zip_bindings(cl.ids, vs));
                            law_eval_only_adds(g, m3, cl.body, ne);
                            lemma_ctx_grows_trans(m, m2, m3);
                            lemma_ctx_grows_trans(m, m3, eval_spec(g, m3, cl.body, ne)->Some_0.1);
                        }
                    }
                }
            },
            ExprV::BinOp(op, l, r) => match first_named(default_functions(), op_name(op)) {
                Some(fun) => {
                    law_eval_only_adds(g, m, l, env);
                    if let Some((Ok(lv), m1)) = eval_spec(g, m, l, env) {
                        law_eval_only_adds(g, m1, r, env);
                        lemma_ctx_grows_trans(m, m1, eval_spec(g, m1, r, env)->Some_0.1);
                        if let Some((Ok(rv), m2)) = eval_spec(g, m1, r, env) {
                            lemma_ext_grows(fun, m2, seq![lv, rv]);
                            lemma_ctx_grows_trans(m, m2, ext_spec(fun, m2, seq![lv, rv])->Some_0.1);
                        }
                    }
                },
                None => {
                    let (m1, sym) = m.intern(op_name(op));
                    let var = m1.next_ref();
                    let m2 = m1.with_expr(ExprV::Var(sym));
                    let app = m2.next_ref();
                    let m3 = m2.with_expr(ExprV::App(var, seq![l, r]));
                    lemma_grows_intern(m, op_name(op));
                    lemma_grows_expr(m1, ExprV::Var(sym));
                    lemma_grows_expr(m2, ExprV::App(var, seq![l, r]));
                    lemma_ctx_grows_trans(m, m1, m2);
                    lemma_ctx_grows_trans(m, m2, m3);
                    law_eval_only_adds(g, m3, app, env);
                    lemma_ctx_grows_trans(m, m3, eval_spec(g, m3, app, env)->Some_0.1);
                },
            },
            ExprV::AppExt(fun, args) => {
                law_seq_only_adds(g, m, args, env);
                if let Some((Ok(vs), m1)) = eval_seq(g, m, args, env) {
                    lemma_ext_grows(fun, m1, vs);
                    lemma_ctx_grows_trans(m, m1, ext_spec(fun, m1, vs)->Some_0.1);
                }
            },
            ExprV::Array(es) => {
                law_seq_only_adds(g, m, es, env);
                if let Some((Ok(vs), m1)) = eval_seq(g, m, es, env) {
                    lemma_grows_objects(m1, ClosureV { env, ids: seq![], body: dummy }, vs, Track(env, dummy), Region(env, dummy, dummy, dummy), ProjectV(env, 0, seq![]));
                    lemma_ctx_grows_trans(m, m1, m1.with_array(vs));
                }
            },
            ExprV::Track(b) => {
                lemma_grows_objects(m, ClosureV { env, ids: seq![], body: b }, seq![], Track(env, b), Region(env, b, b, b), ProjectV(env, 0, seq![]));
            },
            ExprV::Region(a, b, c) => {
                lemma_grows_objects(m, ClosureV { env, ids: seq![], body: a }, seq![], Track(env, a), Region(env, a, b, c), ProjectV(env, 0, seq![]));
            },
            ExprV::Project(sr, es) => {
                lemma_grows_objects(m, ClosureV { env, ids: seq![], body: dummy }, seq![], Track(env, dummy), Region(env, dummy, dummy, dummy), ProjectV(env, sr, es));
            },
            ExprV::Paren(b) => {
                law_eval_only_adds(g, m, b, env);
            },
            ExprV::Block(b) => {
                law_eval_only_adds(g, m, b, env);
            },
            ExprV::WithAttribute(attr, b) => if m.holds(b) {
                match m.at(b) {
                    ExprV::Let(name, body, then) => if m.names(attr.0, "param"@) {
                        law_param_only_adds(g, m, attr, name, body, then, env);
                    } else {
                        law_eval_only_adds(g, m, b, env);
                    },
                    _ => {
                        law_eval_only_adds(g, m, b, env);
                    },
                }
            },
            _ => {},
        }
    }
}

/// Evaluating a list only adds to the context.
pub proof fn law_seq_only_adds(f: nat, m: CtxModel, es: Seq<ExprRef>, env: EnvId)
    requires
        eval_seq(f, m, es, env) is Some,
    ensures
        m.grows_to(eval_seq(f, m, es, env)->Some_0.1),
    decreases f, es.len() + 1,
{
    lemma_ctx_grows_refl(m);
    if es.len() > 0 {
        law_seq_only_adds(f, m, es.drop_last(), env);
        if let Some((Ok(vs), m1)) = eval_seq(f, m, es.drop_last(), env) {
            law_eval_only_adds(f, m1, es.last(), env);
            lemma_ctx_grows_trans(m, m1, eval_spec(f, m1, es.last(), env)->Some_0.1);
        }
    }
}

/// Evaluating a parameter `let` only adds to the context.
pub proof fn law_param_only_adds(
    f: nat,
    m: CtxModel,
    attr: Attribute,
    name: Symbol,
    body: ExprRef,
    then: ExprRef,
    env: EnvId,
)
    requires
        eval_param_spec(f, m, attr, name, body, then, env) is Some,
    ensures
        m.grows_to(eval_param_spec(f, m, attr, name, body, then, env)->Some_0.1),
    decreases f, 1nat,
{
    lemma_ctx_grows_refl(m);
    if m.holds(body) && m.expr_room(3) && m.intern_room() {
        match m.at(body) {
            ExprV::Literal(LiteralV::Number(bits)) => if name.0 < m.strings.len() {
                let p = FloatParamV {
                    value_bits: bits,
                    label: m.strings[name.0 as int],
                    min_bits: attr.1,
                    max_bits: attr.2,
                };
                let (m1, fsym) = m.intern("param_as_number"@);
                if let Some(fv) = m1.envs.spec_lookup(env, fsym) {
                    if fv.0 < m1.extfuns.len() {
                        let pr = m1.next_ref();
                        let m2 = m1.with_expr(ExprV::Literal(LiteralV::FloatParameter(p)));
                        let br = m2.next_ref();
                        let m3 = m2.with_expr(ExprV::AppExt(m1.extfuns[fv.0 as int], seq![pr]));
                        let nr = m3.next_ref();
                        let m4 = m3.with_expr(ExprV::Let(name, br, then));
                        lemma_grows_intern(m, "param_as_number"@);
                        lemma_grows_expr(m1, ExprV::Literal(LiteralV::FloatParameter(p)));
                        lemma_grows_expr(m2, ExprV::AppExt(m1.extfuns[fv.0 as int], seq![pr]));
                        lemma_grows_expr(m3, ExprV::Let(name, br, then));
                        lemma_ctx_grows_trans(m, m1, m2);
                        lemma_ctx_grows_trans(m, m2, m3);
                        lemma_ctx_grows_trans(m, m3, m4);
                        law_eval_only_adds(f, m4, nr, env);
                        lemma_ctx_grows_trans(m, m4, eval_spec(f, m4, nr, env)->Some_0.1);
                    }
                }
            },
            other => {
                let br = m.next_ref();
                let m2 = m.with_expr(other);
                let nr = m2.next_ref();
                let m3 = m2.with_expr(ExprV::Let(name, br, then));
                lemma_grows_expr(m, other);
                lemma_grows_expr(m2, ExprV::Let(name, br, then));
                lemma_ctx_grows_trans(m, m2, m3);
                law_eval_only_adds(f, m3, nr, env);
                lemma_ctx_grows_trans(m, m3, eval_spec(f, m3, nr, env)->Some_0.1);
            },
        }
    }
}

} // verus!
