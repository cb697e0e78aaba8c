use otopoiesis::lang::builtin_fn::{ApplyFadeInOut, ExtFun, FadeInOut, Nop, Print, SineWave};
use otopoiesis::lang::compiler::{Context, EvalError};
use otopoiesis::lang::expr::{Attribute, Expr, ExprRef, FloatParameter, Literal, Op};
use std::sync::Arc;
use otopoiesis::lang::parser::ParseContext;
use otopoiesis::lang::value::RawValue;
use otopoiesis::store::{EnvId, ExprId};

fn num(pc: &mut ParseContext, x: f64) -> ExprRef {
    pc.make_literal(Literal::Number(x.to_bits()))
}

fn count_exprs(ctx: &Context, arena: u32) -> usize {
    let mut n = 0;
    while ctx.expr_storage.get(ExprId { index: n, arena }).is_some() {
        n += 1;
    }
    n
}

fn count_envs(ctx: &Context) -> usize {
    let arena = ctx.root_env.arena;
    let mut n = 0;
    while ctx.env_storage.store.get(EnvId { index: n, arena }).is_some() {
        n += 1;
    }
    n
}

fn run(pc: ParseContext, e: ExprRef) -> (Result<RawValue, EvalError>, Context) {
    let mut ctx = Context::new(pc.expr_storage, pc.interner);
    let root = ctx.root_env;
    let r = ctx.eval(e, root);
    (r, ctx)
}

#[test]
fn number_literal_evaluates_to_its_bits() {
    let mut pc = ParseContext::new();
    let e = num(&mut pc, 2.5);
    let (r, _) = run(pc, e);
    assert_eq!(r.unwrap(), RawValue(2.5f64.to_bits()));
}

#[test]
fn nop_and_error_do_not_evaluate() {
    let mut pc = ParseContext::new();
    let e = pc.make_nop();
    let (r, _) = run(pc, e);
    assert!(matches!(r, Err(EvalError::InvalidConversion)));
}

#[test]
fn reference_outside_the_arena_is_invalid() {
    let mut pc = ParseContext::new();
    let e = num(&mut pc, 1.0);
    let bad = ExprRef(ExprId { index: e.0.index + 10, arena: e.0.arena });
    let (r, _) = run(pc, bad);
    assert!(matches!(r, Err(EvalError::InvalidId)));
}

#[test]
fn let_binds_its_value() {
    let mut pc = ParseContext::new();
    let x = pc.make_lvar("x");
    let body = num(&mut pc, 2.5);
    let then = pc.make_var("x");
    let e = pc.make_let(x, body, then);
    let (r, ctx) = run(pc, e);
    assert_eq!(r.unwrap(), RawValue(2.5f64.to_bits()));
    // the root environment and the one made by the let
    assert_eq!(count_envs(&ctx), 2);
}

#[test]
fn unbound_variable_is_not_found() {
    let mut pc = ParseContext::new();
    let e = pc.make_var("nowhere");
    let (r, _) = run(pc, e);
    assert!(matches!(r, Err(EvalError::NotFound)));
}

#[test]
fn default_functions_are_bound_in_the_root_environment() {
    let mut pc = ParseContext::new();
    let e = pc.make_var("sinewave");
    let (r, ctx) = run(pc, e);
    let v = r.unwrap();
    assert_eq!(v, RawValue(1));
    assert!(matches!(ctx.extfun_storage[1], ExtFun::SineWave(_)));
    assert!(matches!(ctx.extfun_storage[0], ExtFun::ArrayReverse(_)));
    assert!(matches!(ctx.extfun_storage[2], ExtFun::FadeInOut(_)));
}

#[test]
fn applying_a_lambda_binds_its_parameters() {
    let mut pc = ParseContext::new();
    let a = pc.make_lvar("a");
    let b = pc.make_lvar("b");
    let body = pc.make_var("a");
    let f = pc.make_lambda(&[a, b], body);
    let one = num(&mut pc, 1.0);
    let two = num(&mut pc, 2.0);
    let app = pc.make_apply(f, &[one, two]);
    let (r, ctx) = run(pc, app);
    assert_eq!(r.unwrap(), RawValue(1.0f64.to_bits()));
    assert_eq!(ctx.object_storage.len(), 1);
}

#[test]
fn lambda_evaluates_to_a_new_closure() {
    let mut pc = ParseContext::new();
    let a = pc.make_lvar("a");
    let body = pc.make_var("a");
    let f = pc.make_lambda(&[a], body);
    let (r, ctx) = run(pc, f);
    assert_eq!(r.unwrap(), RawValue(0));
    assert_eq!(ctx.object_storage[0].ids.len(), 1);
    assert_eq!(ctx.object_storage[0].body.0, body.0);
}

#[test]
fn eval_closure_calls_a_closure_value() {
    let mut pc = ParseContext::new();
    let a = pc.make_lvar("a");
    let body = pc.make_var("a");
    let f = pc.make_lambda(&[a], body);
    let arg = num(&mut pc, 7.0);
    let mut ctx = Context::new(pc.expr_storage, pc.interner);
    let root = ctx.root_env;
    let c = ctx.eval(f, root).unwrap();
    let r = ctx.eval_closure(&c, &[arg]).unwrap();
    assert_eq!(r, RawValue(7.0f64.to_bits()));
}

#[test]
fn operator_without_a_bound_function_is_not_found() {
    let mut pc = ParseContext::new();
    let l = num(&mut pc, 1.0);
    let r = num(&mut pc, 2.0);
    let e = pc.make_binop(Op::Sum, l, r);
    let (res, ctx) = run(pc, e);
    assert!(matches!(res, Err(EvalError::NotFound)));
    // the operator became a call of `add`
    let n = count_exprs(&ctx, l.0.arena);
    match ctx.expr_storage.get(ExprId { index: n - 1, arena: l.0.arena }) {
        Some(Expr::App(_, args)) => assert_eq!(args.len(), 2),
        _ => panic!("expected a call"),
    }
}

#[test]
fn operator_calls_the_function_bound_to_its_name() {
    let mut pc = ParseContext::new();
    let add = pc.make_lvar("add");
    let a = pc.make_lvar("a");
    let b = pc.make_lvar("b");
    let body = pc.make_var("b");
    let f = pc.make_lambda(&[a, b], body);
    let l = num(&mut pc, 1.0);
    let r = num(&mut pc, 2.0);
    let sum = pc.make_binop(Op::Sum, l, r);
    let e = pc.make_let(add, f, sum);
    let (res, _) = run(pc, e);
    assert_eq!(res.unwrap(), RawValue(2.0f64.to_bits()));
}

#[test]
fn then_evaluates_both_and_gives_the_second() {
    let mut pc = ParseContext::new();
    let a = num(&mut pc, 1.0);
    let b = num(&mut pc, 3.0);
    let e = ExprRef(pc.expr_storage.allocate(Expr::Then(a, b)));
    let (r, _) = run(pc, e);
    assert_eq!(r.unwrap(), RawValue(3.0f64.to_bits()));
}

#[test]
fn then_stops_at_an_error() {
    let mut pc = ParseContext::new();
    let a = pc.make_var("missing");
    let b = num(&mut pc, 3.0);
    let e = ExprRef(pc.expr_storage.allocate(Expr::Then(a, b)));
    let (r, _) = run(pc, e);
    assert!(matches!(r, Err(EvalError::NotFound)));
}

#[test]
fn parentheses_are_transparent() {
    let mut pc = ParseContext::new();
    let a = num(&mut pc, 4.0);
    let p = pc.make_paren(a);
    let (r, _) = run(pc, p);
    assert_eq!(r.unwrap(), RawValue(4.0f64.to_bits()));
}

#[test]
fn array_stores_its_values() {
    let mut pc = ParseContext::new();
    let a = num(&mut pc, 1.0);
    let b = num(&mut pc, 2.0);
    let e = ExprRef(pc.expr_storage.allocate(Expr::Array(vec![a, b])));
    let (r, ctx) = run(pc, e);
    assert_eq!(r.unwrap(), RawValue(0));
    assert_eq!(ctx.array_storage[0], vec![RawValue(1.0f64.to_bits()), RawValue(2.0f64.to_bits())]);
}

#[test]
fn array_stops_at_the_first_error() {
    let mut pc = ParseContext::new();
    let a = num(&mut pc, 1.0);
    let b = pc.make_var("missing");
    let e = ExprRef(pc.expr_storage.allocate(Expr::Array(vec![a, b])));
    let (r, ctx) = run(pc, e);
    assert!(matches!(r, Err(EvalError::NotFound)));
    assert_eq!(ctx.array_storage.len(), 0);
}

#[test]
fn track_region_and_project_are_stored() {
    let mut pc = ParseContext::new();
    let start = num(&mut pc, 0.0);
    let dur = num(&mut pc, 1.0);
    let content = num(&mut pc, 0.5);
    let region = ExprRef(pc.expr_storage.allocate(Expr::Region(start, dur, content)));
    let track = ExprRef(pc.expr_storage.allocate(Expr::Track(region)));
    let project = ExprRef(pc.expr_storage.allocate(Expr::Project(48000.0f64.to_bits(), vec![track])));
    let mut ctx = Context::new(pc.expr_storage, pc.interner);
    let root = ctx.root_env;
    assert_eq!(ctx.eval(region, root).unwrap(), RawValue(0));
    assert_eq!(ctx.eval(track, root).unwrap(), RawValue(0));
    assert_eq!(ctx.eval(project, root).unwrap(), RawValue(0));
    assert_eq!(ctx.eval(region, root).unwrap(), RawValue(1));
    assert_eq!(ctx.region_storage.len(), 2);
    assert_eq!(ctx.region_storage[0].1 .0, start.0);
    assert_eq!(ctx.track_storage[0].1 .0, region.0);
    assert_eq!(ctx.project_storage[0].1, 48000.0f64.to_bits());
    assert_eq!(ctx.project_storage[0].2.len(), 1);
}

#[test]
fn fadeinout_wraps_a_region() {
    let mut pc = ParseContext::new();
    let start = num(&mut pc, 0.0);
    let dur = num(&mut pc, 1.0);
    let content = num(&mut pc, 0.5);
    let region = ExprRef(pc.expr_storage.allocate(Expr::Region(start, dur, content)));
    let tin = num(&mut pc, 0.1);
    let tout = num(&mut pc, 0.2);
    let call = ExprRef(pc.expr_storage.allocate(Expr::AppExt(ExtFun::FadeInOut(FadeInOut {}), vec![region, tin, tout])));
    let (r, ctx) = run(pc, call);
    assert_eq!(r.unwrap(), RawValue(1));
    assert_eq!(ctx.region_storage.len(), 2);
    let faded = ctx.region_storage[1];
    assert_eq!(faded.1 .0, start.0);
    assert_eq!(faded.2 .0, dur.0);
    match ctx.expr_storage.get(faded.3 .0) {
        Some(Expr::AppExt(ExtFun::ApplyFadeInOut(ApplyFadeInOut { time_in, time_out }), args)) => {
            assert_eq!(*time_in, RawValue(0.1f64.to_bits()));
            assert_eq!(*time_out, RawValue(0.2f64.to_bits()));
            assert_eq!(args.len(), 3);
            assert_eq!(args[0].0, content.0);
            assert_eq!(args[1].0, start.0);
            assert_eq!(args[2].0, dur.0);
        },
        _ => panic!("expected the faded content"),
    }
    // the faded region has an environment of its own below the first one
    assert_eq!(count_envs(&ctx), 2);
}

#[test]
fn fadeinout_with_wrong_arity_is_refused() {
    let mut pc = ParseContext::new();
    let a = num(&mut pc, 1.0);
    let call = ExprRef(pc.expr_storage.allocate(Expr::AppExt(ExtFun::FadeInOut(FadeInOut {}), vec![a])));
    let (r, _) = run(pc, call);
    assert!(matches!(r, Err(EvalError::InvalidNumArgs(3, 1))));
}

#[test]
fn sinewave_outside_playback_is_refused() {
    let mut pc = ParseContext::new();
    let a = num(&mut pc, 440.0);
    let call = ExprRef(pc.expr_storage.allocate(Expr::AppExt(ExtFun::SineWave(SineWave {}), vec![a])));
    let (r, _) = run(pc, call);
    assert!(matches!(r, Err(EvalError::NotInPlayMode)));
}

#[test]
fn print_and_nop_give_unit() {
    let mut pc = ParseContext::new();
    let a = num(&mut pc, 1.0);
    let p = ExprRef(pc.expr_storage.allocate(Expr::AppExt(ExtFun::Print(Print {}), vec![a])));
    let n = ExprRef(pc.expr_storage.allocate(Expr::AppExt(ExtFun::Nop(Nop {}), vec![])));
    let mut ctx = Context::new(pc.expr_storage, pc.interner);
    let root = ctx.root_env;
    assert_eq!(ctx.eval(p, root).unwrap(), RawValue(0));
    assert_eq!(ctx.eval(n, root).unwrap(), RawValue(0));
}

#[test]
fn parameter_let_reads_through_param_as_number() {
    let mut pc = ParseContext::new();
    // bind `param_as_number` to the function stored at index 2 (fadeinout)
    let pan = pc.make_lvar("param_as_number");
    let two = pc.make_literal(Literal::Number(2));
    let x = pc.make_lvar("x");
    let half = num(&mut pc, 0.5);
    let then = pc.make_var("x");
    let inner = pc.make_let(x, half, then);
    let param = pc.make_lvar("param");
    let attr = Attribute(param, 0.0f64.to_bits(), 1.0f64.to_bits());
    let marked = pc.make_with_attribute(attr, inner);
    let e = pc.make_let(pan, two, marked);
    let before = e.0.index + 1;
    let (r, ctx) = run(pc, e);
    // fadeinout called with the single parameter refuses it
    assert!(matches!(r, Err(EvalError::InvalidNumArgs(3, 1))));
    // the parameter literal, the call, and the new let were stored
    assert_eq!(count_exprs(&ctx, half.0.arena), before + 3);
    match ctx.expr_storage.get(ExprId { index: before, arena: half.0.arena }) {
        Some(Expr::Literal(Literal::FloatParameter(p))) => {
            assert_eq!(p.value_bits, 0.5f64.to_bits());
            assert_eq!(p.label, "x");
            assert_eq!(p.min_bits, 0.0f64.to_bits());
            assert_eq!(p.max_bits, 1.0f64.to_bits());
        },
        _ => panic!("expected the parameter literal"),
    }
}

#[test]
fn other_attributes_are_ignored() {
    let mut pc = ParseContext::new();
    let x = pc.make_lvar("x");
    let half = num(&mut pc, 0.5);
    let then = pc.make_var("x");
    let inner = pc.make_let(x, half, then);
    let other = pc.make_lvar("other");
    let marked = pc.make_with_attribute(Attribute(other, 0, 0), inner);
    let (r, _) = run(pc, marked);
    assert_eq!(r.unwrap(), RawValue(0.5f64.to_bits()));
}

#[test]
fn parameter_literals_evaluate_to_their_position() {
    let mut pc = ParseContext::new();
    let _ = num(&mut pc, 1.0);
    let p = pc.make_literal(Literal::FloatParameter(Arc::new(FloatParameter::new(0, 0, 1, "gain"))));
    let (r, _) = run(pc, p);
    assert_eq!(r.unwrap(), RawValue(p.0.index as u64));
}

#[test]
fn evaluation_is_deterministic() {
    let build = || {
        let mut pc = ParseContext::new();
        let a = pc.make_lvar("a");
        let body = pc.make_var("a");
        let f = pc.make_lambda(&[a], body);
        let x = num(&mut pc, 3.0);
        let app = pc.make_apply(f, &[x]);
        (pc, app)
    };
    let (pc1, e1) = build();
    let (pc2, e2) = build();
    let (r1, c1) = run(pc1, e1);
    let (r2, c2) = run(pc2, e2);
    assert_eq!(r1.unwrap(), r2.unwrap());
    assert_eq!(c1.object_storage.len(), c2.object_storage.len());
}

#[test]
fn evaluation_only_adds() {
    let mut pc = ParseContext::new();
    let start = num(&mut pc, 0.0);
    let dur = num(&mut pc, 1.0);
    let content = num(&mut pc, 0.5);
    let region = ExprRef(pc.expr_storage.allocate(Expr::Region(start, dur, content)));
    let tin = num(&mut pc, 0.1);
    let tout = num(&mut pc, 0.2);
    let call = ExprRef(pc.expr_storage.allocate(Expr::AppExt(ExtFun::FadeInOut(FadeInOut {}), vec![region, tin, tout])));
    let mut ctx = Context::new(pc.expr_storage, pc.interner);
    let root = ctx.root_env;
    ctx.eval(region, root).unwrap();
    let first = ctx.region_storage[0];
    ctx.eval(call, root).unwrap();
    // the region made first is still there, unchanged
    assert_eq!(ctx.region_storage[0].1 .0, first.1 .0);
    assert_eq!(ctx.region_storage[0].3 .0, first.3 .0);
    assert_eq!(ctx.region_storage[0].0, first.0);
    // and the expressions that were stored before are unchanged
    assert!(matches!(ctx.expr_storage.get(content.0), Some(Expr::Literal(Literal::Number(b))) if *b == 0.5f64.to_bits()));
}

#[test]
fn fresh_context_interns_the_default_names_first() {
    let mut ctx = Context::default();
    let r = ctx.get_or_intern_str("reverse");
    let s = ctx.get_or_intern_str("sinewave");
    let f = ctx.get_or_intern_str("fadeinout");
    let y = ctx.get_or_intern_str("y");
    assert_eq!((r.0, s.0, f.0, y.0), (0, 1, 2, 3));
    let root = ctx.root_env;
    assert_eq!(ctx.env_storage.lookup(root, &r), Some(RawValue(0)));
    assert_eq!(ctx.env_storage.lookup(root, &s), Some(RawValue(1)));
    assert_eq!(ctx.env_storage.lookup(root, &f), Some(RawValue(2)));
    assert_eq!(ctx.env_storage.lookup(root, &y), None);
}

#[test]
fn let_bound_name_is_visible_in_a_fresh_context() {
    let mut ctx = Context::default();
    let x = ctx.get_or_intern_str("x");
    let one = ExprRef(ctx.expr_storage.allocate(Expr::Literal(Literal::Number(1.0f64.to_bits()))));
    let v = ExprRef(ctx.expr_storage.allocate(Expr::Var(x)));
    let e = ExprRef(ctx.expr_storage.allocate(Expr::Let(x, one, v)));
    let root = ctx.root_env;
    assert!(matches!(ctx.eval(e, root), Ok(v) if v == RawValue(1.0f64.to_bits())));
    let y = ctx.get_or_intern_str("y");
    let w = ExprRef(ctx.expr_storage.allocate(Expr::Var(y)));
    assert!(matches!(ctx.eval(w, root), Err(EvalError::NotFound)));
}
