//! Reporting of errors with source positions.

use vstd::prelude::*;
use vstd::string::StringExecFns;
use std::ops::Range;
use ariadne::{Config, Label, Report, ReportKind, Source};
use super::typing::{Error, ErrorKind};

verus! {

/// An error that can be shown against the source text.
pub trait ReportableError {
    /// The source range the error concerns.
    spec fn span_spec(&self) -> Range<usize>;

    /// The verbose message of the error.
    spec fn message_spec(&self) -> Seq<char>;

    /// The text shown at the error's position.
    spec fn label_spec(&self) -> Seq<char>;

    fn get_span(&self) -> (r: Range<usize>)
        ensures
            r == self.span_spec(),
    ;

    fn get_message(&self) -> (r: String)
        ensures
            r@ == self.message_spec(),
    ;

    fn get_label(&self) -> (r: String)
        ensures
            r@ == self.label_spec(),
    ;
}

/// The digit character of `d`.
pub open spec fn digit_char(d: nat) -> char {
    if d == 0 { '0' }
    else if d == 1 { '1' }
    else if d == 2 { '2' }
    else if d == 3 { '3' }
    else if d == 4 { '4' }
    else if d == 5 { '5' }
    else if d == 6 { '6' }
    else if d == 7 { '7' }
    else if d == 8 { '8' }
    else { '9' }
}

/// The decimal notation of `n`, without leading zeros.
pub open spec fn decimal(n: nat) -> Seq<char>
    decreases n,
{
    if n < 10 {
        seq![digit_char(n)]
    } else {
        decimal(n / 10).push(digit_char(n % 10))
    }
}

fn digit(d: u16) -> (c: char)
    requires
        d < 10,
    ensures
        c == digit_char(d as nat),
{
    if d == 0 { '0' }
    else if d == 1 { '1' }
    else if d == 2 { '2' }
    else if d == 3 { '3' }
    else if d == 4 { '4' }
    else if d == 5 { '5' }
    else if d == 6 { '6' }
    else if d == 7 { '7' }
    else if d == 8 { '8' }
    else { '9' }
}

/// Appends the decimal notation of `n` to `s`.
fn push_decimal(s: &mut String, n: u16)
    ensures
        final(s)@ == old(s)@ + decimal(n as nat),
    decreases n,
{
    if n >= 10 {
        push_decimal(s, n / 10);
    }
    let c = digit(n % 10);
    push_char(s, c);
    proof {
        if n >= 10 {
            assert(decimal(n as nat) == decimal((n / 10) as nat).push(digit_char((n % 10) as nat)));
        }
    }
}

/// `String::push`: appends one character.
#[verifier::external_body]
fn push_char(s: &mut String, c: char)
    ensures
        final(s)@ == old(s)@.push(c),
{
    s.push(c)
}

/// What a type error says.
pub open spec fn kind_message(k: ErrorKind) -> Seq<char> {
    match k {
        ErrorKind::TypeMismatch => "Type Mismatch"@,
        ErrorKind::CircularType => "Circular loop of type definition"@,
        ErrorKind::IndexOutOfRange(len, idx) => "Length of tuple elements is "@ + decimal(len as nat)
            + " but index was "@ + decimal(idx as nat),
        ErrorKind::IndexForNonTuple => "Index access for non-tuple variable"@,
        ErrorKind::VariableNotFound(v) => "Variable "@ + v@ + " not found in this scope"@,
        ErrorKind::NonPrimitiveInFeed => "Function that uses self cannot be return function type."@,
    }
}

impl ErrorKind {
    /// The text of the error.
    pub fn to_string(&self) -> (r: String)
        ensures
            r@ == kind_message(*self),
    {
        match self {
            ErrorKind::TypeMismatch => "Type Mismatch".to_owned(),
            ErrorKind::CircularType => "Circular loop of type definition".to_owned(),
            ErrorKind::IndexOutOfRange(len, idx) => {
                let mut s = "Length of tuple elements is ".to_owned();
                push_decimal(&mut s, *len);
                s.append(" but index was ");
                push_decimal(&mut s, *idx);
                s
            },
            ErrorKind::IndexForNonTuple => "Index access for non-tuple variable".to_owned(),
            ErrorKind::VariableNotFound(v) => {
                let mut s = "Variable ".to_owned();
                s.append(v.as_str());
                s.append(" not found in this scope");
                s
            },
            ErrorKind::NonPrimitiveInFeed => "Function that uses self cannot be return function type.".to_owned(),
        }
    }
}

impl Error {
    /// The text of the error.
    pub fn to_string(&self) -> (r: String)
        ensures
            r@ == kind_message(self.0),
    {
        self.0.to_string()
    }
}

impl ReportableError for Error {
    open spec fn span_spec(&self) -> Range<usize> {
        self.1
    }

    open spec fn message_spec(&self) -> Seq<char> {
        kind_message(self.0)
    }

    open spec fn label_spec(&self) -> Seq<char> {
        kind_message(self.0)
    }

    fn get_span(&self) -> (r: Range<usize>) {
        Range { start: self.1.start, end: self.1.end }
    }

    fn get_message(&self) -> (r: String) {
        self.to_string()
    }

    fn get_label(&self) -> (r: String) {
        self.to_string()
    }
}

/// The messages of `errs`, one after the other.
pub open spec fn messages<E: ReportableError>(errs: Seq<E>) -> Seq<char>
    decreases errs.len(),
{
    if errs.len() == 0 {
        Seq::empty()
    } else {
        messages(errs.drop_last()) + errs.last().message_spec()
    }
}

/// The messages of all errors, concatenated.
pub fn dump_to_string<E: ReportableError>(errs: &[E]) -> (r: String)
    ensures
        r@ == messages(errs@),
{
    let mut res = String::new();
    let mut i: usize = 0;
    while i < errs.len()
        invariant
            i <= errs@.len(),
            res@ == messages(errs@.take(i as int)),
        decreases errs@.len() - i,
    {
        proof {
            assert(errs@.take(i + 1).drop_last() =~= errs@.take(i as int));
        }
        let m = errs[i].get_message();
        res.append(m.as_str());
        i += 1;
    }
    proof {
        assert(errs@.take(errs@.len() as int) =~= errs@);
    }
    res
}

/// What `ariadne` prints, with colour turned off, for a report of kind
/// error, identified by `src_id` at `offset`, with `message`, and one label at
/// `start..end` of the source `src` named `path`, with the text `label`.
pub uninterp spec fn rendered_report(
    src: Seq<char>,
    path: Seq<char>,
    src_id: Seq<char>,
    offset: usize,
    message: Seq<char>,
    label: Seq<char>,
    start: usize,
    end: usize,
) -> Seq<char>;

/// Builds an `ariadne::Report` of kind error with one label, writes it to a
/// buffer and returns the text. The report is written with colour turned off
/// (`Config::with_color(false)`), so that no colour code, and with it none of
/// the process-wide colour switch of `yansi`, enters the text: what is written
/// depends on the arguments alone. Writing to a `Vec` does not fail.
/// The panics on the way, and why `requires` leaves them out or they cannot
/// happen (places in ariadne 0.4.1):
/// - `Label::new` asserts that the span does not run backwards: `requires`.
/// - The width of the line numbers is found with `10u32.pow(x)` for growing
///   `x` up to the number of lines (`write.rs`, near line 208), which
///   overflows from a billion lines on; a source of fewer than 999 999 999
///   characters has fewer lines than that: `requires`.
/// - The `unwrap`s of `get_line_text` at lines 82, 99 and 253 of `write.rs`
///   lie on the byte index path; the default index type is `Char`, so they
///   are not reached.
/// - `src.line(idx).unwrap()` at line 362 stands in the loop over the line
///   range, after the `if let Some(line) = src.line(idx) ... else continue`
///   at line 494, so the line exists.
/// - `get_line_text(line).unwrap()` at lines 684, 726 and 784 takes a `Line`
///   that the source made from its own text, whose byte span lies in it.
/// - `get_offset_line` asserts that the line found starts at or before the
///   offset, which its binary search over the line starts gives; a label
///   past the end of the source finds no line and is skipped (`continue`).
#[verifier::external_body]
fn render_report(src: &str, path: &str, src_id: &str, offset: usize, message: &str, label: &str, span: Range<usize>) -> (r: String)
    requires
        span.start <= span.end,
        src@.len() < 999_999_999,
    ensures
        r@ == rendered_report(src@, path@, src_id@, offset, message@, label@, span.start, span.end),
{
    let mut buf = Vec::<u8>::new();
    let report = Report::build(ReportKind::Error, src_id, offset)
        .with_config(Config::default().with_color(false))
        .with_message(message)
        .with_label(Label::new((path, span)).with_message(label))
        .finish();
    report.write((path, Source::from(src)), &mut buf).unwrap();
    String::from(String::from_utf8_lossy(buf.as_slice()))
}

/// The reports of `errs` against the source `src` named `path`, one after the
/// other.
pub open spec fn reports<E: ReportableError>(src: Seq<char>, path: Seq<char>, errs: Seq<E>) -> Seq<char>
    decreases errs.len(),
{
    if errs.len() == 0 {
        Seq::empty()
    } else {
        reports(src, path, errs.drop_last()) + rendered_report(
            src,
            path,
            "test"@,
            4,
            errs.last().message_spec(),
            errs.last().label_spec(),
            errs.last().span_spec().start,
            errs.last().span_spec().end,
        )
    }
}

/// Renders every error as a report against the source `src` named `srcpath`.
/// Every span runs forwards: a report cannot be drawn for a backwards one;
/// and the source has fewer than a billion lines, the most whose numbers the
/// report can measure.
pub fn report_to_string<E: ReportableError>(src: &str, srcpath: &str, errs: &[E]) -> (r: String)
    requires
        src@.len() < 999_999_999,
        forall|k: int| 0 <= k < errs@.len() ==> (#[trigger] errs@[k]).span_spec().start <= errs@[k].span_spec().end,
    ensures
        r@ == reports(src@, srcpath@, errs@),
{
    let mut res = String::new();
    let mut i: usize = 0;
    while i < errs.len()
        invariant
            i <= errs@.len(),
            res@ == reports(src@, srcpath@, errs@.take(i as int)),
            src@.len() < 999_999_999,
            forall|k: int| 0 <= k < errs@.len() ==> (#[trigger] errs@[k]).span_spec().start <= errs@[k].span_spec().end,
        decreases errs@.len() - i,
    {
        proof {
            assert(errs@.take(i + 1).drop_last() =~= errs@.take(i as int));
        }
        let e = &errs[i];
        let message = e.get_message();
        let label = e.get_label();
        let text = render_report(src, srcpath, "test", 4, message.as_str(), label.as_str(), e.get_span());
        res.append(text.as_str());
        i += 1;
    }
    proof {
        assert(errs@.take(errs@.len() as int) =~= errs@);
    }
    res
}

} // verus!
