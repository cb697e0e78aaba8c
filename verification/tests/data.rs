use otopoiesis::audio::{generator_for, get_component_for_value, is_generator_call, is_generator_value, ArgKind, Constant, GeneratorKind, Noise, PlaybackInfo, DEFAULT_BUFFER_LEN};
use otopoiesis::cli::Args;
use otopoiesis::data::generator::{FilePlayerParam, UIntParameter, ONE_BITS, TEN_BITS};
use otopoiesis::data::meta::Test;
use otopoiesis::data::script::builtin_fn::ArrayReverse;
use otopoiesis::data::script::{extend_env, Environment, EvalError, Expr as ScriptExpr, Rate, Type as ScriptType, Value};
use otopoiesis::data::types::{event_ty, generator_ty, ivec_ty, region_ty, vec_ty, VType};
use otopoiesis::data::{config_dir_in, join_path, LaunchArg, PlayOp};
use otopoiesis::filemanager::{WebFileManager};
use otopoiesis::lang::expr::FloatParameter;
use otopoiesis::lang::types::Type;
use std::sync::Arc;

#[test]
fn rewind_returns_to_start() {
    let mut info = PlaybackInfo { sample_rate: 48000, current_time: 1234, frame_per_buffer: 512, channels: 2 };
    info.rewind();
    assert_eq!(info.current_time, 0);
    assert_eq!(info.sample_rate, 48000);
    assert_eq!(info.frame_per_buffer, 512);
    assert_eq!(DEFAULT_BUFFER_LEN, 2048);
}

#[test]
fn generators_have_stereo_outputs() {
    assert_eq!(Noise {}.get_input_channels(), 0);
    assert_eq!(Noise {}.get_output_channels(), 2);
    let c = Constant(Arc::new(FloatParameter::new(0, 0, 1, "level")));
    assert_eq!(c.get_output_channels(), 2);
}

#[test]
fn config_dir_is_below_home() {
    assert_eq!(config_dir_in(Some(Some("/home/u".to_string()))), Some("/home/u/.otopoiesis".to_string()));
    assert_eq!(config_dir_in(Some(Some("/home/u/".to_string()))), Some("/home/u/.otopoiesis".to_string()));
    assert_eq!(config_dir_in(Some(None)), Some(String::new()));
    assert_eq!(config_dir_in(None), None);
}

#[test]
fn default_launch_arguments() {
    let d = LaunchArg::default();
    assert!(d.file.is_none());
    assert!(d.project_root.is_none());
    assert_eq!(d.log_level, 3);
}

#[test]
fn command_line_overrides_defaults() {
    let defaults = LaunchArg { file: None, project_root: Some("/p".into()), config_dir: Some("/c".into()), log_level: 3 };
    let args = Args { file: Some("a.json".into()), project_root: None, config_dir: Some("/d".into()), log_level: 1 };
    let r = LaunchArg::merge(args, defaults);
    assert_eq!(r.file.as_deref(), Some("a.json"));
    assert_eq!(r.project_root.as_deref(), Some("/p"));
    assert_eq!(r.config_dir.as_deref(), Some("/d"));
    assert_eq!(r.log_level, 1);
    let args = Args { file: None, project_root: None, config_dir: Some("/d".into()), log_level: 4 };
    let r = LaunchArg::from_args(args);
    assert!(r.file.is_none());
    assert_eq!(r.config_dir.as_deref(), Some("/d"));
    assert_eq!(r.log_level, 4);
}

#[test]
fn play_ops_compare() {
    assert_eq!(PlayOp::JumpTo(3), PlayOp::JumpTo(3));
    assert_ne!(PlayOp::Play, PlayOp::Pause);
}

#[test]
fn type_constructors() {
    assert!(matches!(event_ty(VType::Int), VType::Tuple(ref v) if v.len() == 2 && matches!(v[0], VType::Real) && matches!(v[1], VType::Int)));
    assert!(matches!(vec_ty(VType::Real, 4), VType::Vector(ref t, 4) if matches!(**t, VType::Real)));
    assert!(matches!(ivec_ty(VType::Real), VType::Function(ref a, ref r) if a.is_empty() && matches!(**r, VType::Real)));
    assert!(matches!(generator_ty(VType::Int), VType::Function(ref a, ref r) if a.is_empty() && matches!(**r, VType::Int)));
    assert!(matches!(region_ty(VType::Int), VType::Tuple(ref v) if v.len() == 3
        && matches!(v[0], VType::Real) && matches!(v[1], VType::Duration) && matches!(v[2], VType::Int)));
}

#[test]
fn midi_note_is_an_event_of_three_ints() {
    match Type::midi_note() {
        Type::Event(t) => assert!(matches!(*t, Type::Tuple(ref v) if v.len() == 3)),
        _ => panic!("expected an event"),
    }
}

#[test]
fn script_environment_scoping() {
    let mut outer: Environment<u32> = Environment::new();
    outer.bind(&"a".to_string(), 1);
    outer.bind(&"b".to_string(), 2);
    outer.bind(&"a".to_string(), 3);
    // the first binding wins
    assert_eq!(outer.lookup(&"a".to_string()), Some(&1));
    assert_eq!(outer.lookup(&"b".to_string()), Some(&2));
    assert_eq!(outer.lookup(&"c".to_string()), None);
    let mut inner = extend_env(Arc::new(outer));
    assert_eq!(inner.lookup(&"b".to_string()), Some(&2));
    inner.bind(&"b".to_string(), 5);
    assert_eq!(inner.lookup(&"b".to_string()), Some(&5));
}

#[test]
fn test_file_parameters() {
    let (p, len) = FilePlayerParam::new_test_file("/pkg");
    assert_eq!(p.path, "/pkg/test/assets/test-voice-stereo.wav");
    assert_eq!(len, 119608);
    assert_eq!(p.channels.value, 2);
    assert_eq!(p.channels.label, "channels");
    assert_eq!(p.duration.value_bits, ONE_BITS);
    assert_eq!(f64::from_bits(p.duration.max_bits), 10.0);
    assert_eq!(TEN_BITS, 10.0f64.to_bits());
    assert_eq!(ONE_BITS, 1.0f64.to_bits());
    let u = UIntParameter::new(1, 0, 8, "n");
    assert_eq!((u.value, u.min, u.max), (1, 0, 8));
}

#[test]
fn meta_record_starts_at_zero() {
    let t: Test<u8> = Test::new();
    assert_eq!(t.freq, 0);
}

#[test]
fn web_files_cannot_be_opened() {
    let m = WebFileManager {};
    let e = m.get_file("x.wav").err().unwrap();
    assert_eq!(e.to_string(), "file operation is currenrly not compatible with wasm");
}

#[test]
fn join_path_puts_one_separator() {
    assert_eq!(join_path("/home/u", ".otopoiesis"), "/home/u/.otopoiesis");
    assert_eq!(join_path("/", ".otopoiesis"), "/.otopoiesis");
    assert_eq!(join_path("", ".otopoiesis"), ".otopoiesis");
    assert_eq!(config_dir_in(Some(Some(String::new()))), Some(".otopoiesis".to_string()));
}

#[test]
fn generator_is_chosen_by_name_and_argument_kinds() {
    let p = ArgKind::Parameter;
    assert_eq!(generator_for("sinewave", &[p, p, p]), GeneratorKind::Sinewave);
    assert_eq!(generator_for("triangular", &[p, p, p]), GeneratorKind::Sinewave);
    assert_eq!(generator_for("sawtooth", &[p, p, p, p]), GeneratorKind::Sawtooth);
    assert_eq!(generator_for("rectangular", &[p, p, p, p]), GeneratorKind::Rectangular);
    assert_eq!(generator_for("constant", &[p]), GeneratorKind::Constant);
    assert_eq!(generator_for("fileplayer", &[ArgKind::Str]), GeneratorKind::FilePlayer);
    assert!(is_generator_call("sinewave", &[p, p, p]));
    assert!(!is_generator_call("sinewave", &[p, p]));
    assert!(!is_generator_call("sawtooth", &[p, p, p]));
    assert!(!is_generator_call("constant", &[ArgKind::Other]));
    assert!(!is_generator_call("fileplayer", &[p]));
    assert!(!is_generator_call("noise", &[]));
}

fn call_closure(name: &str, args: Vec<ScriptExpr>) -> Value {
    let env = Arc::new(Environment { local: vec![], parent: None });
    let body = ScriptExpr::App(Box::new(ScriptExpr::Literal(Value::ExtFunction(name.to_string()))), args);
    Value::Closure(vec![], env, Box::new(body))
}

fn param(label: &str) -> ScriptExpr {
    ScriptExpr::Literal(Value::Parameter(Arc::new(FloatParameter::new(0, 0, 0, label))))
}

#[test]
fn generator_is_chosen_from_a_closure_value() {
    let sine = call_closure("sinewave", vec![param("freq"), param("amp"), param("phase")]);
    assert!(is_generator_value(&sine));
    assert_eq!(get_component_for_value(&sine), GeneratorKind::Sinewave);
    let saw = call_closure("sawtooth", vec![param("freq"), param("amp"), param("phase"), param("dir")]);
    assert_eq!(get_component_for_value(&saw), GeneratorKind::Sawtooth);
    let file = call_closure("fileplayer", vec![ScriptExpr::Literal(Value::String("a.wav".to_string()))]);
    assert_eq!(get_component_for_value(&file), GeneratorKind::FilePlayer);
    // a call with the wrong arguments, an unknown name, or no closure at all
    assert!(!is_generator_value(&call_closure("sinewave", vec![param("freq")])));
    assert!(!is_generator_value(&call_closure("noise", vec![])));
    assert!(!is_generator_value(&Value::Number(0)));
    let not_a_call = Value::Closure(vec![], Arc::new(Environment { local: vec![], parent: None }), Box::new(param("x")));
    assert!(!is_generator_value(&not_a_call));
}

#[test]
fn array_reverse_reverses_its_one_array() {
    let arr = Value::Array(vec![Value::Number(1), Value::Number(2), Value::Number(3)], ScriptType::Number);
    let rev = ArrayReverse {};
    match rev.exec(vec![arr]) {
        Ok(Value::Array(v, ScriptType::Number)) => {
            let bits: Vec<u64> = v
                .iter()
                .map(|x| match x {
                    Value::Number(b) => *b,
                    _ => panic!("expected numbers"),
                })
                .collect();
            assert_eq!(bits, vec![3, 2, 1]);
        },
        _ => panic!("expected the reversed array"),
    }
    match rev.exec(vec![Value::Number(1)]) {
        Err(EvalError::TypeMismatch(m)) => assert_eq!(m, "Not an array"),
        _ => panic!("expected a type mismatch"),
    }
    assert!(matches!(rev.exec(vec![]), Err(EvalError::InvalidNumArgs(1, 0))));
    assert!(matches!(
        rev.exec(vec![Value::Nothing, Value::Nothing]),
        Err(EvalError::InvalidNumArgs(1, 2))
    ));
}

#[test]
fn script_tracks_and_lazy_values() {
    match Value::audio_track(2) {
        Value::Track(g, ScriptType::IVec(e, Rate::Audio)) => {
            assert!(matches!(*g, Value::Nothing));
            assert!(matches!(*e, ScriptType::Array(ref n, 2) if matches!(**n, ScriptType::Number)));
        },
        _ => panic!("expected an audio track"),
    }
    match Value::midi_track() {
        Value::Track(_, ScriptType::Vec(n)) => match *n {
            ScriptType::Event(b) => assert!(matches!(*b, ScriptType::Tuple(ref v) if v.len() == 3)),
            _ => panic!("expected events"),
        },
        _ => panic!("expected a midi track"),
    }
    assert!(matches!(ScriptType::midi_note(), ScriptType::Event(_)));
    match Value::new_lazy(ScriptExpr::Var("x".to_string())) {
        Value::Function(ids, body) => {
            assert!(ids.is_empty());
            assert!(matches!(*body, ScriptExpr::Var(ref n) if n == "x"));
        },
        _ => panic!("expected a function"),
    }
}
