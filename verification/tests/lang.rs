use otopoiesis::lang::builtin_fn::{
    find_default_function, gen_default_functions, ApplyFadeInOut, ArrayReverse, ExtFun, FadeInOut, FadeInfo, FadeState, Nop,
    Print, SineWave,
};
use otopoiesis::lang::compiler::EvalError;
use otopoiesis::lang::environment::EnvironmentStorage;
use otopoiesis::lang::error::{dump_to_string, report_to_string, ReportableError};
use otopoiesis::lang::expr::{clone_literal, Expr, ExprRef, FloatParameter, Literal, Op};
use otopoiesis::lang::parser::ParseContext;
use otopoiesis::lang::stringifier::{Piece, Stringifier};
use otopoiesis::lang::types::Type;
use otopoiesis::lang::typing::{infer_type, infer_type_literal, Error, ErrorKind, InferContext};
use otopoiesis::lang::value::RawValue;
use otopoiesis::lang::Symbol;
use std::sync::Arc;

#[test]
fn fade_info_refuses_fades_longer_than_the_region() {
    assert!(FadeInfo::new(0, 100, 10, 20).is_some());
    assert!(FadeInfo::new(0, 100, 50, 50).is_some());
    assert!(FadeInfo::new(0, 100, 60, 50).is_none());
}

#[test]
fn fade_phases_follow_the_position() {
    let info = FadeInfo::new(0, 100, 10, 20).unwrap();
    assert_eq!(info.calc(0), FadeState::BeforeRange);
    assert_eq!(info.calc(5), FadeState::FadeIn(5, 10));
    assert_eq!(info.calc(10), FadeState::NonFade);
    assert_eq!(info.calc(80), FadeState::NonFade);
    assert_eq!(info.calc(85), FadeState::FadeOut(5, 20));
    assert_eq!(info.calc(99), FadeState::FadeOut(19, 20));
    assert_eq!(info.calc(100), FadeState::AfterRange);
    assert_eq!(info.calc(1000), FadeState::AfterRange);
}

#[test]
fn fade_positions_are_relative_to_the_start() {
    let info = FadeInfo::new(50, 100, 10, 20).unwrap();
    assert_eq!(info.calc(20), FadeState::BeforeRange);
    assert_eq!(info.calc(50), FadeState::BeforeRange);
    assert_eq!(info.calc(55), FadeState::FadeIn(5, 10));
    assert_eq!(info.calc(140), FadeState::FadeOut(10, 20));
}

#[test]
fn fade_positions_are_read_as_signed() {
    let info = FadeInfo::new(0, 100, 10, 20).unwrap();
    // u64::MAX reads as -1
    assert_eq!(info.calc(u64::MAX), FadeState::BeforeRange);
    let late = FadeInfo::new(u64::MAX, 100, 10, 20).unwrap();
    // the start reads as -1, so position 4 is 5 samples in
    assert_eq!(late.calc(4), FadeState::FadeIn(5, 10));
}

#[test]
fn fade_phases_never_go_back() {
    let info = FadeInfo::new(0, 100, 30, 30).unwrap();
    let rank = |s: FadeState| match s {
        FadeState::BeforeRange => 0,
        FadeState::FadeIn(_, _) => 1,
        FadeState::NonFade => 2,
        FadeState::FadeOut(_, _) => 3,
        FadeState::AfterRange => 4,
    };
    let mut last = 0;
    for now in 0..120u64 {
        let r = rank(info.calc(now));
        assert!(r >= last);
        last = r;
    }
}

#[test]
fn fade_state_refuses_fades_that_do_not_fit() {
    assert!(matches!(ApplyFadeInOut::fade_state(5, 0, 100, 60, 50), Err(EvalError::InvalidConversion)));
    assert_eq!(ApplyFadeInOut::fade_state(5, 0, 100, 10, 20).unwrap(), FadeState::FadeIn(5, 10));
}

#[test]
fn builtin_names() {
    assert_eq!(ArrayReverse {}.get_name(), "array_reverse");
    assert_eq!(Print {}.get_name(), "print");
    assert_eq!(SineWave {}.get_name(), "sinewave");
    assert_eq!(FadeInOut {}.get_name(), "fadeinout");
    assert_eq!(ApplyFadeInOut { time_in: RawValue(0), time_out: RawValue(0) }.get_name(), "apply_fade_in_out");
    assert_eq!(Nop {}.get_name(), "nop");
    assert_eq!(ExtFun::SineWave(SineWave {}).get_name(), "sinewave");
    assert!(ExtFun::Nop(Nop {}).get_params().is_empty());
}

#[test]
fn default_functions_and_their_names() {
    let fs = gen_default_functions();
    let names: Vec<&str> = fs.iter().map(|(n, _)| n.as_str()).collect();
    assert_eq!(names, vec!["reverse", "sinewave", "fadeinout"]);
    assert!(matches!(find_default_function("sinewave"), Some(ExtFun::SineWave(_))));
    assert!(matches!(find_default_function("reverse"), Some(ExtFun::ArrayReverse(_))));
    assert!(find_default_function("add").is_none());
}

#[test]
fn operator_names() {
    assert_eq!(Op::Sum.get_associated_fn_name(), "add");
    assert_eq!(Op::Minus.get_associated_fn_name(), "sub");
    assert_eq!(Op::Pipe.get_associated_fn_name(), "pipe");
    assert_eq!(Op::Sum.symbol(), "+");
    assert_eq!(Op::Pipe.symbol(), "|>");
}

#[test]
fn environment_extension_binds_and_inherits() {
    let mut st: EnvironmentStorage<RawValue> = EnvironmentStorage::new();
    let a = Symbol(0);
    let b = Symbol(1);
    let c = Symbol(2);
    let root = st.set_root(&[(a, RawValue(1)), (b, RawValue(2))]);
    assert_eq!(st.lookup(root, &a), Some(RawValue(1)));
    assert_eq!(st.lookup(root, &b), Some(RawValue(2)));
    assert_eq!(st.lookup(root, &c), None);
    let inner = st.extend(root, &[(c, RawValue(3))]);
    assert_eq!(st.lookup(inner, &c), Some(RawValue(3)));
    assert_eq!(st.lookup(inner, &a), Some(RawValue(1)));
    // the outer environment is unchanged
    assert_eq!(st.lookup(root, &c), None);
    let shadow = st.extend(inner, &[(a, RawValue(9))]);
    assert_eq!(st.lookup(shadow, &a), Some(RawValue(9)));
    assert_eq!(st.lookup(inner, &a), Some(RawValue(1)));
}

#[test]
fn empty_environment_finds_nothing() {
    let mut st: EnvironmentStorage<RawValue> = EnvironmentStorage::new();
    let root = st.set_root(&[(Symbol(0), RawValue(1))]);
    let empty = st.extend(root, &[]);
    assert_eq!(st.lookup(empty, &Symbol(0)), None);
}

#[test]
fn literal_types() {
    assert!(matches!(infer_type_literal(&Literal::Number(0)), Type::Number));
    assert!(matches!(infer_type_literal(&Literal::String("s".to_string())), Type::String));
    assert!(matches!(
        infer_type_literal(&Literal::FloatParameter(Arc::new(FloatParameter::new(0, 0, 1, "p")))),
        Type::Number
    ));
}

#[test]
fn inference_of_literals_variables_and_lambdas() {
    let mut pc = ParseContext::new();
    let lit = pc.make_literal(Literal::Number(1.0f64.to_bits()));
    let var = pc.make_var("y");
    let var = pc.make_span(var, 3..4);
    let a = pc.make_lvar("a");
    let body = pc.make_literal(Literal::Number(2.0f64.to_bits()));
    let lam = pc.make_lambda(&[a], body);
    let mut ctx = InferContext::new(pc);
    let env = ctx.envstorage.set_root(&[]);
    assert!(matches!(infer_type(&lit, env, &mut ctx), Ok(Type::Number)));
    match infer_type(&var, env, &mut ctx) {
        Err(Error(ErrorKind::VariableNotFound(name), _)) => assert_eq!(name, "y"),
        _ => panic!("expected an unbound variable"),
    }
    match infer_type(&lam, env, &mut ctx) {
        Ok(Type::Function(params, ret)) => {
            assert_eq!(params.len(), 1);
            assert!(matches!(params[0], Type::Intermediate(_)));
            assert!(matches!(*ret, Type::Number));
        },
        _ => panic!("expected a function type"),
    }
}

#[test]
fn unification() {
    let pc = ParseContext::new();
    let mut ctx = InferContext::new(pc);
    assert!(matches!(ctx.unify_types(Type::Number, Type::Number), Ok(Type::Number)));
    assert!(matches!(ctx.unify_types(Type::Number, Type::String), Err(ErrorKind::TypeMismatch)));
    let v = ctx.gen_intermediate_type();
    let id = match v {
        Type::Intermediate(i) => i,
        _ => panic!("expected a type variable"),
    };
    assert!(matches!(ctx.unify_types(Type::Intermediate(id), Type::Int), Ok(Type::Int)));
    assert!(matches!(ctx.substitute_type(Type::Intermediate(id)), Some(Type::Int)));
    assert!(ctx.occur_check(id, Type::Intermediate(id)));
}

#[test]
fn error_messages() {
    assert_eq!(ErrorKind::IndexOutOfRange(3, 5).to_string(), "Length of tuple elements is 3 but index was 5");
    assert_eq!(ErrorKind::IndexOutOfRange(0, 120).to_string(), "Length of tuple elements is 0 but index was 120");
    assert_eq!(ErrorKind::VariableNotFound("foo".to_string()).to_string(), "Variable foo not found in this scope");
    assert_eq!(ErrorKind::TypeMismatch.to_string(), "Type Mismatch");
    let e = Error(ErrorKind::CircularType, 2..7);
    assert_eq!(e.get_span(), 2..7);
    assert_eq!(e.get_message(), "Circular loop of type definition");
    assert_eq!(e.get_label(), "Circular loop of type definition");
}

#[test]
fn dump_concatenates_messages() {
    let errs = vec![Error(ErrorKind::TypeMismatch, 0..1), Error(ErrorKind::IndexForNonTuple, 1..2)];
    assert_eq!(dump_to_string(&errs), "Type MismatchIndex access for non-tuple variable");
    let none: Vec<Error> = vec![];
    assert_eq!(dump_to_string(&none), "");
}

#[test]
fn report_renders_each_error() {
    let src = "let x = 1\nx + y\n";
    let e1 = vec![Error(ErrorKind::TypeMismatch, 10..11)];
    let e2 = vec![Error(ErrorKind::VariableNotFound("y".to_string()), 14..15)];
    let both = vec![Error(ErrorKind::TypeMismatch, 10..11), Error(ErrorKind::VariableNotFound("y".to_string()), 14..15)];
    let r1 = report_to_string(src, "main.otp", &e1);
    let r2 = report_to_string(src, "main.otp", &e2);
    assert!(r1.contains("Type Mismatch"));
    assert!(r1.contains("main.otp"));
    assert!(r2.contains("Variable y not found in this scope"));
    assert_eq!(report_to_string(src, "main.otp", &both), format!("{}{}", r1, r2));
    let none: Vec<Error> = vec![];
    assert_eq!(report_to_string(src, "main.otp", &none), "");
}

#[test]
fn literals_are_copied_with_shared_parameters() {
    let p = Arc::new(FloatParameter::new(1, 0, 2, "gain"));
    match clone_literal(&Literal::FloatParameter(p.clone())) {
        Literal::FloatParameter(q) => assert!(Arc::ptr_eq(&p, &q)),
        _ => panic!("expected a parameter"),
    }
}

fn render(pieces: &[Piece]) -> String {
    pieces
        .iter()
        .map(|p| match p {
            Piece::Text(s) => s.clone(),
            Piece::Number(b) => f64::from_bits(*b).to_string(),
        })
        .collect()
}

#[test]
fn stringify_let_binop_app_lambda_paren() {
    let mut pc = ParseContext::new();
    let x = pc.make_lvar("x");
    let one = pc.make_literal(Literal::Number(1.5f64.to_bits()));
    let vx = pc.make_var("x");
    let e_let = pc.make_let(x, one, vx);
    let two = pc.make_literal(Literal::Number(2.0f64.to_bits()));
    let sum = pc.make_binop(Op::Sum, vx, two);
    let f = pc.make_var("f");
    let app = pc.make_apply(f, &[one, two]);
    let a = pc.make_lvar("a");
    let b = pc.make_lvar("b");
    let va = pc.make_var("a");
    let lam = pc.make_lambda(&[a, b], va);
    let par = pc.make_paren(vx);
    let nop = pc.make_nop();

    let (p, ok) = Stringifier::new(&pc, 0, e_let).fmt();
    assert!(ok);
    assert_eq!(render(&p), "let x = 1.5\nx");
    let (p, ok) = Stringifier::new(&pc, 0, sum).fmt();
    assert!(ok);
    assert_eq!(render(&p), "x + 2");
    let (p, ok) = Stringifier::new(&pc, 0, app).fmt();
    assert!(ok);
    assert_eq!(render(&p), "f(1.5,2)");
    let (p, ok) = Stringifier::new(&pc, 0, lam).fmt();
    assert!(ok);
    assert_eq!(render(&p), "|a,b| a");
    let (p, ok) = Stringifier::new(&pc, 0, par).fmt();
    assert!(ok);
    assert_eq!(render(&p), "(x)");
    let (p, ok) = Stringifier::new(&pc, 1, par).fmt();
    assert!(ok);
    assert_eq!(render(&p), "  (  x)");
    let (p, ok) = Stringifier::new(&pc, 0, nop).fmt();
    assert!(ok);
    assert_eq!(render(&p), "nop");
}

#[test]
fn printable_expressions() {
    let mut pc = ParseContext::new();
    let vx = pc.make_var("x");
    let par = pc.make_paren(vx);
    let s = pc.make_literal(Literal::String("s".to_string()));
    let ps = pc.make_paren(s);
    let arr = ExprRef(pc.expr_storage.allocate(Expr::Array(vec![vx])));
    assert!(Stringifier::new(&pc, 0, par).printable());
    assert!(!Stringifier::new(&pc, 0, s).printable());
    assert!(!Stringifier::new(&pc, 0, ps).printable());
    assert!(!Stringifier::new(&pc, 0, arr).printable());
    // a lambda whose parameter name is unknown cannot be written
    let lam = pc.make_lambda(&[Symbol(999)], vx);
    assert!(!Stringifier::new(&pc, 0, lam).printable());
    // a call can be written when all its parts can
    let f = pc.make_var("f");
    let ok_call = pc.make_apply(f, &[vx, par]);
    let bad_call = pc.make_apply(f, &[vx, s]);
    assert!(Stringifier::new(&pc, 0, ok_call).printable());
    assert!(!Stringifier::new(&pc, 0, bad_call).printable());
}

#[test]
fn stringify_stops_at_a_missing_expression() {
    let mut pc = ParseContext::new();
    let vx = pc.make_var("x");
    let missing = ExprRef(otopoiesis::store::ExprId { index: 100, arena: vx.0.arena });
    let (p, ok) = Stringifier::new(&pc, 0, missing).fmt();
    assert!(!ok);
    assert_eq!(render(&p), "");
    let _ = Expr::Nop;
}

#[test]
fn apply_fn_maps_immediate_parts() {
    let t = Type::Tuple(vec![Type::Int, Type::Number]);
    match t.apply_fn(|_| Type::Unit) {
        Type::Tuple(v) => {
            assert_eq!(v.len(), 2);
            assert!(matches!(v[0], Type::Unit) && matches!(v[1], Type::Unit));
        },
        _ => panic!("expected a tuple"),
    }
    let f = Type::Function(vec![Type::Int], Box::new(Type::Tuple(vec![Type::Int])));
    match f.apply_fn(|x| match x {
        Type::Int => Type::Number,
        other => other,
    }) {
        Type::Function(p, r) => {
            assert!(matches!(p[0], Type::Number));
            // only immediate parts are mapped
            assert!(matches!(*r, Type::Tuple(ref v) if matches!(v[0], Type::Int)));
        },
        _ => panic!("expected a function"),
    }
    // events are copied as they are
    let e = Type::Event(Box::new(Type::Int));
    assert!(matches!(e.apply_fn(|_| Type::Unit), Type::Event(ref b) if matches!(**b, Type::Int)));
    assert!(matches!(Type::Intermediate(4).apply_fn(|_| Type::Unit), Type::Intermediate(4)));
    assert!(matches!(Type::default(), Type::Unknown));
}

#[test]
fn fresh_variables_unify_earlier_to_later() {
    let pc = ParseContext::new();
    let mut ctx = InferContext::new(pc);
    let a = ctx.gen_intermediate_type();
    let b = ctx.gen_intermediate_type();
    let (ia, ib) = match (&a, &b) {
        (Type::Intermediate(x), Type::Intermediate(y)) => (*x, *y),
        _ => panic!("expected type variables"),
    };
    assert!(ia < ib);
    assert!(matches!(ctx.unify_types(a, b), Ok(Type::Intermediate(x)) if x == ia));
    // a chain that ends at an unbound variable has no substitution
    assert!(ctx.substitute_type(Type::Intermediate(ia)).is_none());
    // a variable unified with itself is a circular type
    assert!(matches!(ctx.unify_types(Type::Intermediate(ib), Type::Intermediate(ib)), Err(ErrorKind::CircularType)));
    // once the later variable is bound, substitution follows the chain
    assert!(matches!(ctx.unify_types(Type::Intermediate(ib), Type::Int), Ok(Type::Int)));
    assert!(matches!(ctx.substitute_type(Type::Intermediate(ia)), Some(Type::Int)));
}

#[test]
fn fade_gains_grow_within_each_fade() {
    let info = FadeInfo::new(0, 100, 10, 20).unwrap();
    let frac = |s: FadeState| match s {
        FadeState::FadeIn(a, _) | FadeState::FadeOut(a, _) => a,
        _ => panic!("expected a fade"),
    };
    assert!(frac(info.calc(3)) < frac(info.calc(6)));
    assert!(frac(info.calc(82)) < frac(info.calc(95)));
}

#[test]
fn occurs_check_looks_into_every_member() {
    let ctx = InferContext::new(ParseContext::new());
    assert!(!ctx.occur_check(0, Type::Int));
    assert!(!ctx.occur_check(0, Type::Tuple(vec![])));
    assert!(ctx.occur_check(0, Type::Tuple(vec![Type::Intermediate(0), Type::Int])));
    assert!(ctx.occur_check(0, Type::Tuple(vec![Type::Int, Type::Intermediate(0)])));
    assert!(!ctx.occur_check(0, Type::Tuple(vec![Type::Int, Type::Intermediate(1)])));
    assert!(ctx.occur_check(3, Type::Function(vec![Type::Int], Box::new(Type::Intermediate(3)))));
    assert!(ctx.occur_check(3, Type::Function(vec![Type::Intermediate(3)], Box::new(Type::Int))));
    assert!(!ctx.occur_check(3, Type::Function(vec![Type::Int], Box::new(Type::Number))));
}

#[test]
fn occurs_check_follows_the_substitution() {
    let mut ctx = InferContext::new(ParseContext::new());
    // 0 is mapped to 1
    assert!(matches!(ctx.unify_types(Type::Intermediate(0), Type::Intermediate(1)), Ok(Type::Intermediate(0))));
    assert!(!ctx.occur_check(0, Type::Intermediate(2)));
    assert!(ctx.occur_check(1, Type::Intermediate(0)));
    assert!(!ctx.occur_check(2, Type::Intermediate(0)));
    // 1 is mapped to a tuple holding 2, so 0 reaches 2 through 1
    assert!(ctx.unify_types(Type::Intermediate(1), Type::Tuple(vec![Type::Intermediate(2)])).is_ok());
    assert!(ctx.occur_check(2, Type::Intermediate(0)));
    assert!(matches!(ctx.unify_types(Type::Intermediate(2), Type::Intermediate(0)), Err(ErrorKind::CircularType)));
}

#[test]
fn set_root_finds_each_key_and_nothing_else() {
    let mut s: EnvironmentStorage<RawValue> = EnvironmentStorage::new();
    let r = s.set_root(&[(Symbol(5), RawValue(50)), (Symbol(7), RawValue(70)), (Symbol(1), RawValue(10))]);
    assert_eq!(s.lookup(r, &Symbol(5)), Some(RawValue(50)));
    assert_eq!(s.lookup(r, &Symbol(7)), Some(RawValue(70)));
    assert_eq!(s.lookup(r, &Symbol(1)), Some(RawValue(10)));
    assert_eq!(s.lookup(r, &Symbol(6)), None);
    assert_eq!(s.lookup(r, &Symbol(0)), None);
}

#[test]
fn forward_references_are_written() {
    let mut pc = ParseContext::new();
    let slot = pc.make_nop();
    let x = pc.make_var("x");
    let two = pc.make_literal(Literal::Number(2.0f64.to_bits()));
    let sum = pc.make_binop(Op::Sum, x, two);
    pc.expr_storage.set(slot.0, Expr::Paren(sum));
    let s = Stringifier::new(&pc, 0, slot);
    assert!(s.printable());
    let (p, ok) = s.fmt();
    assert!(ok);
    assert_eq!(render(&p), "(x + 2)");
}

#[test]
fn a_reference_back_to_itself_cannot_be_written() {
    let mut pc = ParseContext::new();
    let slot = pc.make_nop();
    let inner = pc.make_paren(slot);
    pc.expr_storage.set(slot.0, Expr::Paren(inner));
    assert!(!Stringifier::new(&pc, 0, slot).printable());
    assert!(!Stringifier::new(&pc, 0, inner).printable());
}

#[test]
fn forward_references_are_inferred() {
    let mut pc = ParseContext::new();
    let slot = pc.make_nop();
    let a = pc.make_lvar("a");
    let body = pc.make_literal(Literal::Number(2.0f64.to_bits()));
    pc.expr_storage.set(slot.0, Expr::Lambda(vec![a], body));
    let mut ctx = InferContext::new(pc);
    let env = ctx.envstorage.set_root(&[]);
    match infer_type(&slot, env, &mut ctx) {
        Ok(Type::Function(params, ret)) => {
            assert_eq!(params.len(), 1);
            assert!(matches!(*ret, Type::Number));
        },
        _ => panic!("expected a function type"),
    }
}
