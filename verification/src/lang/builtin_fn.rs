//! Built-in functions of the language.

use vstd::prelude::*;
use super::value::RawValue;
use crate::lang::compiler::EvalError;

verus! {

#[derive(Clone, Copy, Debug)]
pub struct ArrayReverse {}

#[derive(Clone, Copy, Debug)]
pub struct Print {}

#[derive(Clone, Copy, Debug)]
pub struct SineWave {}

#[derive(Clone, Copy, Debug)]
pub struct FadeInOut {}

/// Applies a fade to the samples of a region; the fade lengths are runtime
/// values (seconds, as bit patterns of `f64`s).
#[derive(Clone, Copy, Debug)]
pub struct ApplyFadeInOut {
    pub time_in: RawValue,
    pub time_out: RawValue,
}

#[derive(Clone, Copy, Debug)]
pub struct Nop {}

/// An external (built-in) function.
#[derive(Clone, Copy, Debug)]
pub enum ExtFun {
    ArrayReverse(ArrayReverse),
    Print(Print),
    SineWave(SineWave),
    FadeInOut(FadeInOut),
    ApplyFadeInOut(ApplyFadeInOut),
    Nop(Nop),
}

impl ArrayReverse {
    pub fn get_name(&self) -> (r: &'static str)
        ensures
            r@ == "array_reverse"@,
    {
        "array_reverse"
    }
}

impl Print {
    pub fn get_name(&self) -> (r: &'static str)
        ensures
            r@ == "print"@,
    {
        "print"
    }
}

impl SineWave {
    pub fn get_name(&self) -> (r: &'static str)
        ensures
            r@ == "sinewave"@,
    {
        "sinewave"
    }
}

impl FadeInOut {
    pub fn get_name(&self) -> (r: &'static str)
        ensures
            r@ == "fadeinout"@,
    {
        "fadeinout"
    }
}

impl ApplyFadeInOut {
    pub fn get_name(&self) -> (r: &'static str)
        ensures
            r@ == "apply_fade_in_out"@,
    {
        "apply_fade_in_out"
    }
}

impl Nop {
    pub fn get_name(&self) -> (r: &'static str)
        ensures
            r@ == "nop"@,
    {
        "nop"
    }
}

/// The name under which each built-in function reports itself.
pub open spec fn ext_name(f: ExtFun) -> Seq<char> {
    match f {
        ExtFun::ArrayReverse(_) => "array_reverse"@,
        ExtFun::Print(_) => "print"@,
        ExtFun::SineWave(_) => "sinewave"@,
        ExtFun::FadeInOut(_) => "fadeinout"@,
        ExtFun::ApplyFadeInOut(_) => "apply_fade_in_out"@,
        ExtFun::Nop(_) => "nop"@,
    }
}

impl ExtFun {
    pub fn get_name(&self) -> (r: &'static str)
        ensures
            r@ == ext_name(*self),
    {
        match self {
            ExtFun::ArrayReverse(f) => f.get_name(),
            ExtFun::Print(f) => f.get_name(),
            ExtFun::SineWave(f) => f.get_name(),
            ExtFun::FadeInOut(f) => f.get_name(),
            ExtFun::ApplyFadeInOut(f) => f.get_name(),
            ExtFun::Nop(f) => f.get_name(),
        }
    }

    /// The names of the parameters: no built-in function declares any.
    pub fn get_params(&self) -> (r: Vec<String>)
        ensures
            r@.len() == 0,
    {
        Vec::new()
    }
}

/// The functions bound in every root environment, with their names.
pub open spec fn default_functions() -> Seq<(Seq<char>, ExtFun)> {
    seq![
        ("reverse"@, ExtFun::ArrayReverse(ArrayReverse {})),
        ("sinewave"@, ExtFun::SineWave(SineWave {})),
        ("fadeinout"@, ExtFun::FadeInOut(FadeInOut {})),
    ]
}

/// The function of the first entry of `fs` named `name`.
pub open spec fn first_named(fs: Seq<(Seq<char>, ExtFun)>, name: Seq<char>) -> Option<ExtFun>
    decreases fs.len(),
{
    if fs.len() == 0 {
        None
    } else if fs[0].0 == name {
        Some(fs[0].1)
    } else {
        first_named(fs.drop_first(), name)
    }
}

pub fn gen_default_functions() -> (r: Vec<(String, ExtFun)>)
    ensures
        r@.len() == default_functions().len(),
        forall|i: int| 0 <= i < r@.len() ==> (#[trigger] r@[i]).0@ == default_functions()[i].0
            && r@[i].1 == default_functions()[i].1,
{
    let mut r: Vec<(String, ExtFun)> = Vec::new();
    r.push(("reverse".to_owned(), ExtFun::ArrayReverse(ArrayReverse {})));
    r.push(("sinewave".to_owned(), ExtFun::SineWave(SineWave {})));
    r.push(("fadeinout".to_owned(), ExtFun::FadeInOut(FadeInOut {})));
    r
}

/// The default function called `name`, if there is one.
pub fn find_default_function(name: &str) -> (r: Option<ExtFun>)
    ensures
        r == first_named(default_functions(), name@),
{
    let fs = gen_default_functions();
    let key = name.to_owned();
    let mut i: usize = 0;
    assert(default_functions().skip(0) =~= default_functions());
    while i < fs.len()
        invariant
            i <= fs@.len(),
            fs@.len() == default_functions().len(),
            forall|k: int| 0 <= k < fs@.len() ==> (#[trigger] fs@[k]).0@ == default_functions()[k].0
                && fs@[k].1 == default_functions()[k].1,
            key@ == name@,
            first_named(default_functions(), name@) == first_named(default_functions().skip(i as int), name@),
        decreases fs@.len() - i,
    {
        assert(default_functions().skip(i as int)[0] == default_functions()[i as int]);
        assert(default_functions().skip(i as int).drop_first() == default_functions().skip(i + 1));
        if fs[i].0 == key {
            return Some(fs[i].1);
        }
        i += 1;
    }
    assert(default_functions().skip(i as int).len() == 0);
    None
}

/// Where a position falls relative to a faded region. A fade gain is the
/// fraction `a / b` of `FadeIn(a, b)` and one minus the fraction of
/// `FadeOut(a, b)`.
#[derive(Clone, Copy, Debug, PartialEq, Eq, Structural)]
pub enum FadeState {
    BeforeRange,
    FadeIn(u64, u64),
    NonFade,
    FadeOut(u64, u64),
    AfterRange,
}

/// Start, duration, fade-in and fade-out lengths of a region, in samples.
#[derive(Clone, Copy, Debug)]
pub struct FadeInfo {
    pub start: u64,
    pub dur: u64,
    pub time_in: u64,
    pub time_out: u64,
}

/// The phase of a position with offset `rel` from a region's start.
pub open spec fn fade_at(dur: int, time_in: int, time_out: int, rel: int) -> FadeState {
    if rel <= 0 {
        FadeState::BeforeRange
    } else if rel >= dur {
        FadeState::AfterRange
    } else if rel < time_in {
        FadeState::FadeIn(rel as u64, time_in as u64)
    } else if rel > dur - time_out {
        FadeState::FadeOut((rel - (dur - time_out)) as u64, time_out as u64)
    } else {
        FadeState::NonFade
    }
}

/// The order of the phases in time.
pub open spec fn phase_rank(s: FadeState) -> int {
    match s {
        FadeState::BeforeRange => 0,
        FadeState::FadeIn(_, _) => 1,
        FadeState::NonFade => 2,
        FadeState::FadeOut(_, _) => 3,
        FadeState::AfterRange => 4,
    }
}

impl FadeInfo {
    /// The fades fit in the region.
    pub open spec fn wf(self) -> bool {
        self.time_in + self.time_out <= self.dur
    }

    /// A description of a faded region; `None` when the fades do not fit in
    /// the duration.
    pub fn new(start: u64, dur: u64, time_in: u64, time_out: u64) -> (r: Option<Self>)
        requires
            time_in + time_out <= u64::MAX,
        ensures
            r is Some <==> time_in + time_out <= dur,
            r matches Some(i) ==> i.start == start && i.dur == dur && i.time_in == time_in
                && i.time_out == time_out && i.wf(),
    {
        if time_in + time_out <= dur {
            Some(FadeInfo { start, dur, time_in, time_out })
        } else {
            None
        }
    }

    /// The phase at the position `now`, measured from the region's start;
    /// positions are read as `i64`, as `as` reads them.
    pub fn calc(&self, now: u64) -> (r: FadeState)
        requires
            self.wf(),
            !calc_overflows(self.start, self.dur, self.time_in, self.time_out, now),
        ensures
            r == fade_at(
                as_signed(self.dur),
                as_signed(self.time_in),
                as_signed(self.time_out),
                as_signed(now) - as_signed(self.start),
            ),
            r matches FadeState::FadeIn(a, b) ==> 0 < a < b && b == self.time_in,
            r matches FadeState::FadeOut(a, b) ==> 0 < a < b && b == self.time_out,
    {
        proof {
            lemma_as_signed(now);
            lemma_as_signed(self.start);
            lemma_as_signed(self.dur);
            lemma_as_signed(self.time_in);
            lemma_as_signed(self.time_out);
        }
        let reltime: i64 = now as i64 - self.start as i64;
        if reltime <= 0 {
            return FadeState::BeforeRange;
        }
        if reltime >= self.dur as i64 {
            return FadeState::AfterRange;
        }
        if reltime < self.time_in as i64 {
            return FadeState::FadeIn(reltime as u64, self.time_in);
        }
        let out_start: i64 = self.dur as i64 - self.time_out as i64;
        if reltime > out_start {
            FadeState::FadeOut((reltime - out_start) as u64, self.time_out)
        } else {
            FadeState::NonFade
        }
    }
}

/// A `u64` read as an `i64`, as `as` reads it.
pub open spec fn as_signed(v: u64) -> int {
    if v <= i64::MAX {
        v as int
    } else {
        v - 0x1_0000_0000_0000_0000
    }
}

/// The arithmetic of `calc` leaves the range of `i64`: the offset from the
/// start, the start of the fade-out, or the offset into the fade-out.
pub open spec fn calc_overflows(start: u64, dur: u64, time_in: u64, time_out: u64, now: u64) -> bool {
    let rel = as_signed(now) - as_signed(start);
    let d = as_signed(dur);
    let out_start = d - as_signed(time_out);
    ||| rel < i64::MIN || rel > i64::MAX
    ||| 0 < rel < d && rel >= as_signed(time_in) && (out_start < i64::MIN || out_start > i64::MAX)
    ||| 0 < rel < d && rel >= as_signed(time_in) && rel > out_start && rel - out_start > i64::MAX
}

proof fn lemma_as_signed(v: u64)
    ensures
        (v as i64) as int == as_signed(v),
{
    if v <= 0x7fff_ffff_ffff_ffffu64 {
        assert((v as i64) as int == v as int);
    } else {
        assert(((v as i64) as i128) == (v as i128) - 0x1_0000_0000_0000_0000i128) by (bit_vector)
            requires
                v > 0x7fff_ffff_ffff_ffffu64,
        ;
    }
}

/// Phases follow each other in time: a later position is never in an
/// earlier phase.
pub proof fn law_fade_phases_ordered(dur: int, time_in: int, time_out: int, rel1: int, rel2: int)
    requires
        0 <= time_in,
        0 <= time_out,
        time_in + time_out <= dur,
        rel1 <= rel2,
    ensures
        phase_rank(fade_at(dur, time_in, time_out, rel1)) <= phase_rank(fade_at(dur, time_in, time_out, rel2)),
{
}

/// Within the fade-in the gain grows with the position, and within the
/// fade-out it shrinks: the fractions grow in both phases.
pub proof fn law_fade_gains_move_with_time(dur: int, time_in: int, time_out: int, rel1: int, rel2: int)
    requires
        0 <= time_in,
        0 <= time_out,
        time_in + time_out <= dur,
        dur <= u64::MAX,
        rel1 < rel2,
    ensures
        fade_at(dur, time_in, time_out, rel1) is FadeIn && fade_at(dur, time_in, time_out, rel2) is FadeIn
            ==> fade_at(dur, time_in, time_out, rel1)->FadeIn_0 < fade_at(dur, time_in, time_out, rel2)->FadeIn_0,
        fade_at(dur, time_in, time_out, rel1) is FadeOut && fade_at(dur, time_in, time_out, rel2) is FadeOut
            ==> fade_at(dur, time_in, time_out, rel1)->FadeOut_0 < fade_at(dur, time_in, time_out, rel2)->FadeOut_0,
{
}

impl ApplyFadeInOut {
    /// The phase that `apply` multiplies a sample by the gain of: the region
    /// starts at `start`, lasts `dur` samples and fades in and out over
    /// `time_in` and `time_out` samples; fades that do not fit are refused.
    pub fn fade_state(now: u64, start: u64, dur: u64, time_in: u64, time_out: u64) -> (r: Result<FadeState, EvalError>)
        requires
            time_in + time_out <= u64::MAX,
            time_in + time_out <= dur ==> !calc_overflows(start, dur, time_in, time_out, now),
        ensures
            time_in + time_out <= dur ==> r == Ok::<FadeState, EvalError>(
                fade_at(as_signed(dur), as_signed(time_in), as_signed(time_out), as_signed(now) - as_signed(start)),
            ),
            time_in + time_out > dur ==> r matches Err(EvalError::InvalidConversion),
    {
        match FadeInfo::new(start, dur, time_in, time_out) {
            Some(info) => Ok(info.calc(now)),
            None => Err(EvalError::InvalidConversion),
        }
    }
}

} // verus!
