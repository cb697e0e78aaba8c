use otopoiesis::action::{AddFadeInOut, AddRegion, AddTrack, Error};
use otopoiesis::lang::expr::{Expr, ExprRef, Literal};
use otopoiesis::lang::parser::ParseContext;
use otopoiesis::store::ExprId;

struct Project {
    pc: ParseContext,
    proj: ExprRef,
    array: ExprRef,
    regions: Vec<ExprRef>,
}

fn project_with_regions(n: usize) -> Project {
    let mut pc = ParseContext::new();
    let mut regions = Vec::new();
    for i in 0..n {
        regions.push(pc.make_literal(Literal::Number(i as u64)));
    }
    let array = ExprRef(pc.expr_storage.allocate(Expr::Array(regions.clone())));
    let track = ExprRef(pc.expr_storage.allocate(Expr::Track(array)));
    let proj = ExprRef(pc.expr_storage.allocate(Expr::Project(48000.0f64.to_bits(), vec![track])));
    Project { pc, proj, array, regions }
}

fn ids(v: &[ExprRef]) -> Vec<ExprId> {
    v.iter().map(|r| r.0).collect()
}

fn regions_of(p: &Project) -> Vec<ExprId> {
    match p.pc.get_expr(p.array) {
        Some(Expr::Array(v)) => ids(v),
        _ => panic!("expected the regions"),
    }
}

fn tracks_of(pc: &ParseContext, proj: ExprRef) -> Vec<ExprId> {
    match pc.get_expr(proj) {
        Some(Expr::Project(_, v)) => ids(v),
        _ => panic!("expected the project"),
    }
}

#[test]
fn add_region_then_undo_restores_the_track() {
    let mut p = project_with_regions(1);
    let new_region = p.pc.make_literal(Literal::Number(7));
    let mut action = AddRegion::new(new_region, 0);
    action.apply(&mut p.pc, Some(p.proj)).unwrap();
    assert_eq!(action.pos, 1);
    assert_eq!(regions_of(&p), vec![p.regions[0].0, new_region.0]);
    action.undo(&mut p.pc, Some(p.proj)).unwrap();
    assert_eq!(regions_of(&p), ids(&p.regions));
}

#[test]
fn add_region_without_project_is_refused() {
    let mut p = project_with_regions(1);
    let mut action = AddRegion::new(p.regions[0], 0);
    assert!(matches!(action.apply(&mut p.pc, None), Err(Error::InvalidConversion)));
}

#[test]
fn add_region_to_a_missing_track_is_refused() {
    let mut p = project_with_regions(1);
    let mut action = AddRegion::new(p.regions[0], 5);
    assert!(matches!(action.apply(&mut p.pc, Some(p.proj)), Err(Error::InvalidIndex(1, 5))));
    assert_eq!(regions_of(&p), ids(&p.regions));
}

#[test]
fn add_region_to_a_non_project_is_refused() {
    let mut p = project_with_regions(1);
    let mut action = AddRegion::new(p.regions[0], 0);
    let not_a_project = p.regions[0];
    assert!(matches!(action.apply(&mut p.pc, Some(not_a_project)), Err(Error::InvalidConversion)));
    let gone = ExprRef(ExprId { index: 1000, arena: p.proj.0.arena });
    assert!(matches!(action.apply(&mut p.pc, Some(gone)), Err(Error::InvalidAllocation)));
}

#[test]
fn undo_on_an_empty_track_is_refused() {
    let mut p = project_with_regions(0);
    let mut action = AddRegion::new(p.proj, 0);
    assert!(matches!(action.undo(&mut p.pc, Some(p.proj)), Err(Error::ContainerEmpty)));
}

#[test]
fn undo_past_the_end_is_refused() {
    let mut p = project_with_regions(2);
    let mut action = AddRegion::new(p.proj, 0);
    action.pos = 5;
    assert!(matches!(action.undo(&mut p.pc, Some(p.proj)), Err(Error::InvalidIndex(2, 5))));
}

#[test]
fn add_track_then_undo_restores_the_project() {
    let mut p = project_with_regions(1);
    let before = tracks_of(&p.pc, p.proj);
    let other = p.pc.make_literal(Literal::Number(3));
    let mut action = AddTrack::new(other);
    action.apply(&mut p.pc, Some(p.proj)).unwrap();
    assert_eq!(action.pos, 1);
    assert_eq!(tracks_of(&p.pc, p.proj).len(), 2);
    action.undo(&mut p.pc, Some(p.proj)).unwrap();
    assert_eq!(tracks_of(&p.pc, p.proj), before);
}

#[test]
fn fade_then_undo_restores_the_region() {
    let mut p = project_with_regions(2);
    let mut action = AddFadeInOut { track_num: 0, pos: 1, time_in: 0.25f64.to_bits(), time_out: 0.5f64.to_bits() };
    action.apply(&mut p.pc, Some(p.proj)).unwrap();
    let wrapped = regions_of(&p);
    assert_eq!(wrapped[0], p.regions[0].0);
    assert_ne!(wrapped[1], p.regions[1].0);
    match p.pc.get_expr(ExprRef(wrapped[1])) {
        Some(Expr::App(f, args)) => {
            assert_eq!(ids(args)[0], p.regions[1].0);
            assert!(matches!(p.pc.get_expr(*f), Some(Expr::Var(_))));
            match p.pc.get_expr(args[1]) {
                Some(Expr::Literal(Literal::FloatParameter(q))) => {
                    assert_eq!(q.value_bits, 0.25f64.to_bits());
                    assert_eq!(q.label, "time_in");
                    assert_eq!(q.max_bits, 10.0f64.to_bits());
                },
                _ => panic!("expected the fade-in parameter"),
            }
        },
        _ => panic!("expected the call of fadeinout"),
    }
    let mut undo = AddFadeInOut { track_num: 0, pos: 1, time_in: 0, time_out: 0 };
    undo.undo(&mut p.pc, Some(p.proj)).unwrap();
    assert_eq!(regions_of(&p), ids(&p.regions));
    assert_eq!(undo.time_in, 0.25f64.to_bits());
    assert_eq!(undo.time_out, 0.5f64.to_bits());
}

#[test]
fn fade_of_a_missing_region_is_refused() {
    let mut p = project_with_regions(1);
    let mut action = AddFadeInOut { track_num: 0, pos: 3, time_in: 0, time_out: 0 };
    assert!(matches!(action.apply(&mut p.pc, Some(p.proj)), Err(Error::InvalidAllocation)));
}

#[test]
fn undoing_a_fade_on_an_unwrapped_region_changes_nothing() {
    let mut p = project_with_regions(1);
    let mut action = AddFadeInOut { track_num: 0, pos: 0, time_in: 1, time_out: 2 };
    action.undo(&mut p.pc, Some(p.proj)).unwrap();
    assert_eq!(regions_of(&p), ids(&p.regions));
    assert_eq!(action.time_in, 1);
}

#[test]
fn undoing_a_call_of_another_function_is_refused() {
    let mut p = project_with_regions(1);
    let f = p.pc.make_var("other");
    let call = p.pc.make_apply(f, &[p.regions[0]]);
    let array = ExprRef(p.pc.expr_storage.allocate(Expr::Array(vec![call])));
    let track = ExprRef(p.pc.expr_storage.allocate(Expr::Track(array)));
    let proj = ExprRef(p.pc.expr_storage.allocate(Expr::Project(0, vec![track])));
    let mut action = AddFadeInOut { track_num: 0, pos: 0, time_in: 0, time_out: 0 };
    assert!(matches!(action.undo(&mut p.pc, Some(proj)), Err(Error::InvalidConversion)));
}
