//! Playback state shared with the audio renderer, and the simplest sound
//! generators.

use vstd::prelude::*;
use std::sync::Arc;
use crate::lang::expr::FloatParameter;

verus! {

/// A generator that evaluates a stream expression for every sample.
#[derive(Debug)]
pub struct Script(pub crate::data::expr::Expr);

pub const DEFAULT_BUFFER_LEN: usize = 2048;

/// Where playback stands and how it is configured.
#[derive(Clone, Copy, Debug)]
pub struct PlaybackInfo {
    pub sample_rate: u32,
    /// Position, in samples.
    pub current_time: usize,
    pub frame_per_buffer: u64,
    pub channels: u64,
}

impl PlaybackInfo {
    /// Back to the start.
    pub fn rewind(&mut self)
        ensures
            final(self).current_time == 0,
            final(self).sample_rate == old(self).sample_rate,
            final(self).frame_per_buffer == old(self).frame_per_buffer,
            final(self).channels == old(self).channels,
    {
        self.current_time = 0;
    }
}

/// A generator of noise.
#[derive(Clone, Copy, Debug)]
pub struct Noise {}

/// A generator of a constant level.
#[derive(Debug)]
pub struct Constant(pub Arc<FloatParameter>);

impl Noise {
    pub fn get_input_channels(&self) -> (r: u64)
        ensures
            r == 0,
    {
        0
    }

    pub fn get_output_channels(&self) -> (r: u64)
        ensures
            r == 2,
    {
        2
    }
}

impl Constant {
    pub fn get_input_channels(&self) -> (r: u64)
        ensures
            r == 0,
    {
        0
    }

    pub fn get_output_channels(&self) -> (r: u64)
        ensures
            r == 2,
    {
        2
    }
}

/// What an argument of a generator call is: a parameter, a string, or
/// anything else.
#[derive(Clone, Copy, Debug, PartialEq, Eq, Structural)]
pub enum ArgKind {
    Parameter,
    Str,
    Other,
}

/// The generators that a call of an external function can stand for.
#[derive(Clone, Copy, Debug, PartialEq, Eq, Structural)]
pub enum GeneratorKind {
    Sinewave,
    Sawtooth,
    Rectangular,
    Constant,
    FilePlayer,
}

/// The generator made for a call of the external function `fname` with
/// arguments of the kinds `args`: three parameters (frequency, amplitude,
/// phase) for a sine wave, and for a triangle, which is rendered as a sine
/// wave; a fourth one (direction, duty) for a sawtooth and a rectangle; one
/// parameter for a constant; a path for a file player. `None` for any other
/// call, on which no generator exists.
pub open spec fn generator_spec(fname: Seq<char>, args: Seq<ArgKind>) -> Option<GeneratorKind> {
    let p = ArgKind::Parameter;
    if (fname == "sinewave"@ || fname == "triangular"@) && args == seq![p, p, p] {
        Some(GeneratorKind::Sinewave)
    } else if fname == "sawtooth"@ && args == seq![p, p, p, p] {
        Some(GeneratorKind::Sawtooth)
    } else if fname == "rectangular"@ && args == seq![p, p, p, p] {
        Some(GeneratorKind::Rectangular)
    } else if fname == "constant"@ && args == seq![p] {
        Some(GeneratorKind::Constant)
    } else if fname == "fileplayer"@ && args == seq![ArgKind::Str] {
        Some(GeneratorKind::FilePlayer)
    } else {
        None
    }
}

/// Whether every one of `args` is a parameter and there are `n` of them.
fn all_parameters(args: &[ArgKind], n: usize) -> (r: bool)
    ensures
        r == (args@ == Seq::new(n as nat, |_k: int| ArgKind::Parameter)),
{
    if args.len() != n {
        proof {
            assert(args@.len() != Seq::new(n as nat, |_k: int| ArgKind::Parameter).len());
        }
        return false;
    }
    let mut i: usize = 0;
    while i < args.len()
        invariant
            i <= args@.len(),
            args@.len() == n,
            forall|k: int| 0 <= k < i ==> args@[k] == ArgKind::Parameter,
        decreases args@.len() - i,
    {
        if args[i] != ArgKind::Parameter {
            proof {
                assert(args@[i as int] != Seq::new(n as nat, |_k: int| ArgKind::Parameter)[i as int]);
            }
            return false;
        }
        i += 1;
    }
    proof {
        assert(args@ =~= Seq::new(n as nat, |_k: int| ArgKind::Parameter));
    }
    true
}

/// Whether a call of `fname` with arguments of the kinds `args` makes a
/// generator; on any other call no generator can be made.
pub fn is_generator_call(fname: &str, args: &[ArgKind]) -> (r: bool)
    ensures
        r == generator_spec(fname@, args@) is Some,
{
    generator_choice(fname, args).is_some()
}

/// The generator for a call of `fname` with arguments of the kinds `args`,
/// as `generator_spec` describes. A call that makes no generator is an
/// error of the caller: `is_generator_call` tells it apart beforehand.
pub fn generator_for(fname: &str, args: &[ArgKind]) -> (r: GeneratorKind)
    requires
        generator_spec(fname@, args@) is Some,
    ensures
        generator_spec(fname@, args@) == Some(r),
{
    match generator_choice(fname, args) {
        Some(g) => g,
        None => {
            proof {
                assert(false);
            }
            GeneratorKind::Sinewave
        },
    }
}

/// The kind of an argument of a generator call: a parameter literal, a string
/// literal, or anything else.
pub open spec fn arg_kind(e: crate::data::script::Expr) -> ArgKind {
    match e {
        crate::data::script::Expr::Literal(crate::data::script::Value::Parameter(_)) => ArgKind::Parameter,
        crate::data::script::Expr::Literal(crate::data::script::Value::String(_)) => ArgKind::Str,
        _ => ArgKind::Other,
    }
}

/// The generator that the script value `v` stands for: `v` is a closure
/// whose body calls an external function by name, and the name and the
/// kinds of the arguments select the generator as `generator_spec` says.
/// `None` for any other value.
pub open spec fn value_generator(v: crate::data::script::Value) -> Option<GeneratorKind> {
    match v {
        crate::data::script::Value::Closure(_, _, body) => match *body {
            crate::data::script::Expr::App(f, args) => match *f {
                crate::data::script::Expr::Literal(crate::data::script::Value::ExtFunction(name)) => generator_spec(
                    name@,
                    args@.map_values(|e: crate::data::script::Expr| arg_kind(e)),
                ),
                _ => None,
            },
            _ => None,
        },
        _ => None,
    }
}

fn kind_of(e: &crate::data::script::Expr) -> (r: ArgKind)
    ensures
        r == arg_kind(*e),
{
    match e {
        crate::data::script::Expr::Literal(crate::data::script::Value::Parameter(_)) => ArgKind::Parameter,
        crate::data::script::Expr::Literal(crate::data::script::Value::String(_)) => ArgKind::Str,
        _ => ArgKind::Other,
    }
}

/// The name of the external function that the closure `v` calls, and the
/// kinds of its arguments; `None` when `v` is no such closure.
fn call_of(v: &crate::data::script::Value) -> (r: Option<(&str, Vec<ArgKind>)>)
    ensures
        r is None ==> value_generator(*v) is None,
        r matches Some((name, kinds)) ==> generator_spec(name@, kinds@) == value_generator(*v),
{
    match v {
        crate::data::script::Value::Closure(_, _, body) => match &**body {
            crate::data::script::Expr::App(f, args) => match &**f {
                crate::data::script::Expr::Literal(crate::data::script::Value::ExtFunction(name)) => {
                    let mut kinds: Vec<ArgKind> = Vec::new();
                    let mut i: usize = 0;
                    while i < args.len()
                        invariant
                            i <= args@.len(),
                            kinds@ =~= args@.take(i as int).map_values(|e: crate::data::script::Expr| arg_kind(e)),
                        decreases args@.len() - i,
                    {
                        let k = kind_of(&args[i]);
                        kinds.push(k);
                        proof {
                            assert(args@.take(i + 1) =~= args@.take(i as int).push(args@[i as int]));
                        }
                        i += 1;
                    }
                    proof {
                        assert(args@.take(args@.len() as int) =~= args@);
                    }
                    Some((name.as_str(), kinds))
                },
                _ => None,
            },
            _ => None,
        },
        _ => None,
    }
}

/// Whether the script value `v` stands for a generator: a closure that
/// calls `sinewave`, `sawtooth`, `rectangular`, `triangular`, `constant` or
/// `fileplayer` with arguments of the kinds that `generator_spec` lists.
pub fn is_generator_value(v: &crate::data::script::Value) -> (r: bool)
    ensures
        r == value_generator(*v) is Some,
{
    match call_of(v) {
        Some((name, kinds)) => is_generator_call(name, kinds.as_slice()),
        None => false,
    }
}

/// Which generator component the script value `v` is rendered by, as
/// `value_generator` describes; the component itself, with its
/// floating-point oscillator, is built from this choice outside the library.
/// A value that stands for no generator is an error of the caller:
/// `is_generator_value` tells it apart beforehand.
pub fn get_component_for_value(v: &crate::data::script::Value) -> (r: GeneratorKind)
    requires
        value_generator(*v) is Some,
    ensures
        value_generator(*v) == Some(r),
{
    match call_of(v) {
        Some((name, kinds)) => generator_for(name, kinds.as_slice()),
        None => {
            proof {
                assert(false);
            }
            GeneratorKind::Sinewave
        },
    }
}

fn generator_choice(fname: &str, args: &[ArgKind]) -> (r: Option<GeneratorKind>)
    ensures
        r == generator_spec(fname@, args@),
{
    let p = ArgKind::Parameter;
    proof {
        assert(Seq::new(3nat, |_k: int| ArgKind::Parameter) =~= seq![p, p, p]);
        assert(Seq::new(4nat, |_k: int| ArgKind::Parameter) =~= seq![p, p, p, p]);
        assert(Seq::new(1nat, |_k: int| ArgKind::Parameter) =~= seq![p]);
    }
    let f = fname.to_owned();
    let three = all_parameters(args, 3);
    let four = all_parameters(args, 4);
    let one = all_parameters(args, 1);
    if (f == "sinewave".to_owned() || f == "triangular".to_owned()) && three {
        Some(GeneratorKind::Sinewave)
    } else if f == "sawtooth".to_owned() && four {
        Some(GeneratorKind::Sawtooth)
    } else if f == "rectangular".to_owned() && four {
        Some(GeneratorKind::Rectangular)
    } else if f == "constant".to_owned() && one {
        Some(GeneratorKind::Constant)
    } else if f == "fileplayer".to_owned() && args.len() == 1 && args[0] == ArgKind::Str {
        proof {
            assert(args@ =~= seq![ArgKind::Str]);
        }
        Some(GeneratorKind::FilePlayer)
    } else {
        proof {
            if args@ == seq![ArgKind::Str] {
                assert(args@[0] == ArgKind::Str);
            }
        }
        None
    }
}

} // verus!
