//! Turns expressions back into source text. The text comes as pieces: plain
//! text, and number literals as the bit patterns of their `f64`s, which the
//! caller writes in decimal. Every nested expression starts with the current
//! indentation, as the writer of nested expressions does.

use vstd::prelude::*;
use crate::store::expr_arena_tag;
use super::Symbol;
use super::expr::{Attribute, Expr, ExprRef, Literal, Op, op_name};
use super::grammar::level_has;
use super::parser::ParseContext;

verus! {

/// A piece of output text.
#[derive(Debug)]
pub enum Piece {
    Text(String),
    /// A number literal, as the bit pattern of an `f64`.
    Number(u64),
}

pub enum PieceV {
    Text(Seq<char>),
    Number(u64),
}

impl View for Piece {
    type V = PieceV;

    open spec fn view(&self) -> PieceV {
        match self {
            Piece::Text(s) => PieceV::Text(s@),
            Piece::Number(n) => PieceV::Number(*n),
        }
    }
}

pub open spec fn pieces_view(v: Seq<Piece>) -> Seq<PieceV> {
    v.map_values(|p: Piece| p@)
}

pub open spec fn text(s: Seq<char>) -> Seq<PieceV> {
    seq![PieceV::Text(s)]
}

/// One indentation step per level.
pub open spec fn indent(level: nat) -> Seq<PieceV> {
    Seq::new(level, |i: int| PieceV::Text("  "@))
}

/// The text of a symbol, empty when the interner does not know it.
pub open spec fn symbol_text(strings: Seq<Seq<char>>, s: Symbol) -> Seq<char> {
    if s.0 < strings.len() {
        strings[s.0 as int]
    } else {
        Seq::empty()
    }
}

/// The symbol of an operator.
pub open spec fn op_symbol(op: Op) -> Seq<char> {
    match op {
        Op::Sum => "+"@,
        Op::Minus => "-"@,
        Op::Product => "*"@,
        Op::Divide => "/"@,
        Op::Equal => "=="@,
        Op::NotEqual => "!="@,
        Op::LessThan => "<"@,
        Op::LessEqual => "<="@,
        Op::GreaterThan => ">"@,
        Op::GreaterEqual => ">="@,
        Op::Modulo => "%"@,
        Op::Exponent => "^"@,
        Op::And => "&&"@,
        Op::Or => "||"@,
        Op::Pipe => "|>"@,
        Op::Unknown => "unknown"@,
    }
}

/// Length, first and last character of an operator's symbol.
spec fn symbol_marks(op: Op) -> (nat, char, char) {
    match op {
        Op::Sum => (1, '+', '+'),
        Op::Minus => (1, '-', '-'),
        Op::Product => (1, '*', '*'),
        Op::Divide => (1, '/', '/'),
        Op::Equal => (2, '=', '='),
        Op::NotEqual => (2, '!', '='),
        Op::LessThan => (1, '<', '<'),
        Op::LessEqual => (2, '<', '='),
        Op::GreaterThan => (1, '>', '>'),
        Op::GreaterEqual => (2, '>', '='),
        Op::Modulo => (1, '%', '%'),
        Op::Exponent => (1, '^', '^'),
        Op::And => (2, '&', '&'),
        Op::Or => (2, '|', '|'),
        Op::Pipe => (2, '|', '>'),
        Op::Unknown => (7, 'u', 'n'),
    }
}

/// Length and first two characters of the name of an operator's function.
spec fn name_marks(op: Op) -> (nat, char, char) {
    match op {
        Op::Sum => (3, 'a', 'd'),
        Op::Minus => (3, 's', 'u'),
        Op::Product => (4, 'm', 'u'),
        Op::Divide => (3, 'd', 'i'),
        Op::Equal => (2, 'e', 'q'),
        Op::NotEqual => (2, 'n', 'e'),
        Op::LessThan => (2, 'l', 't'),
        Op::LessEqual => (2, 'l', 'e'),
        Op::GreaterThan => (2, 'g', 't'),
        Op::GreaterEqual => (2, 'g', 'e'),
        Op::Modulo => (3, 'm', 'o'),
        Op::Exponent => (3, 'p', 'o'),
        Op::And => (3, 'a', 'n'),
        Op::Or => (2, 'o', 'r'),
        Op::Pipe => (4, 'p', 'i'),
        Op::Unknown => (7, 'u', 'n'),
    }
}

proof fn lemma_symbol_marks(op: Op)
    ensures
        op_symbol(op).len() > 0,
        (op_symbol(op).len(), op_symbol(op)[0], op_symbol(op).last()) == symbol_marks(op),
        op_name(op).len() > 1,
        (op_name(op).len(), op_name(op)[0], op_name(op)[1]) == name_marks(op),
{
    reveal_strlit("+");
    reveal_strlit("-");
    reveal_strlit("*");
    reveal_strlit("/");
    reveal_strlit("==");
    reveal_strlit("!=");
    reveal_strlit("<");
    reveal_strlit("<=");
    reveal_strlit(">");
    reveal_strlit(">=");
    reveal_strlit("%");
    reveal_strlit("^");
    reveal_strlit("&&");
    reveal_strlit("||");
    reveal_strlit("|>");
    reveal_strlit("unknown");
    reveal_strlit("add");
    reveal_strlit("sub");
    reveal_strlit("mult");
    reveal_strlit("div");
    reveal_strlit("eq");
    reveal_strlit("ne");
    reveal_strlit("lt");
    reveal_strlit("le");
    reveal_strlit("gt");
    reveal_strlit("ge");
    reveal_strlit("mod");
    reveal_strlit("pow");
    reveal_strlit("and");
    reveal_strlit("or");
    reveal_strlit("pipe");
}

/// The symbol an operator is written with and the function it calls go
/// together as in the language: `+` add, `-` sub, `*` mult, `/` div,
/// `==` eq, `!=` ne, `<` lt, `<=` le, `>` gt, `>=` ge, `%` mod, `^` pow,
/// `&&` and, `||` or, `|>` pipe.
pub open spec fn spelled_as(name: Seq<char>, symbol: Seq<char>) -> bool {
    ||| name == "add"@ && symbol == "+"@
    ||| name == "sub"@ && symbol == "-"@
    ||| name == "mult"@ && symbol == "*"@
    ||| name == "div"@ && symbol == "/"@
    ||| name == "eq"@ && symbol == "=="@
    ||| name == "ne"@ && symbol == "!="@
    ||| name == "lt"@ && symbol == "<"@
    ||| name == "le"@ && symbol == "<="@
    ||| name == "gt"@ && symbol == ">"@
    ||| name == "ge"@ && symbol == ">="@
    ||| name == "mod"@ && symbol == "%"@
    ||| name == "pow"@ && symbol == "^"@
    ||| name == "and"@ && symbol == "&&"@
    ||| name == "or"@ && symbol == "||"@
    ||| name == "pipe"@ && symbol == "|>"@
    ||| name == "unknown"@ && symbol == "unknown"@
}

/// Each operator is written with a symbol of its own, the one that goes
/// with the function it calls: two operators written alike are the same
/// operator, and the written symbol tells which function is called.
pub proof fn law_op_symbol_identifies_operator(a: Op, b: Op)
    ensures
        spelled_as(op_name(a), op_symbol(a)),
        op_symbol(a) == op_symbol(b) <==> a == b,
        op_symbol(a) == op_symbol(b) <==> op_name(a) == op_name(b),
{
    lemma_symbol_marks(a);
    lemma_symbol_marks(b);
}

/// The symbols that the grammar lists for binding level `k`, from the
/// tightest to the loosest: `^`; `*` `/` `%`; `+` `-`; `==` `!=`; `&&`;
/// `||`; `<` `<=` `>` `>=`; `|>`.
pub open spec fn level_symbols(k: nat) -> Set<Seq<char>> {
    if k == 1 {
        set!["^"@]
    } else if k == 2 {
        set!["*"@, "/"@, "%"@]
    } else if k == 3 {
        set!["+"@, "-"@]
    } else if k == 4 {
        set!["=="@, "!="@]
    } else if k == 5 {
        set!["&&"@]
    } else if k == 6 {
        set!["||"@]
    } else if k == 7 {
        set!["<"@, "<="@, ">"@, ">="@]
    } else if k == 8 {
        set!["|>"@]
    } else {
        Set::empty()
    }
}

/// An operator is parsed at the binding level whose symbols it is written
/// with: printing an operation writes a symbol of the level at which the
/// grammar reads that operator.
pub proof fn law_op_symbol_by_level(k: nat, op: Op)
    requires
        level_has(k, op),
    ensures
        level_symbols(k).contains(op_symbol(op)),
{
}

impl Op {
    pub fn symbol(&self) -> (r: &'static str)
        ensures
            r@ == op_symbol(*self),
    {
        match self {
            Op::Sum => "+",
            Op::Minus => "-",
            Op::Product => "*",
            Op::Divide => "/",
            Op::Equal => "==",
            Op::NotEqual => "!=",
            Op::LessThan => "<",
            Op::LessEqual => "<=",
            Op::GreaterThan => ">",
            Op::GreaterEqual => ">=",
            Op::Modulo => "%",
            Op::Exponent => "^",
            Op::And => "&&",
            Op::Or => "||",
            Op::Pipe => "|>",
            Op::Unknown => "unknown",
        }
    }
}

/// The names of `ids` separated by commas, a name following an empty text
/// without a comma; `None` when a symbol is unknown.
pub open spec fn joined(strings: Seq<Seq<char>>, ids: Seq<Symbol>) -> Option<Seq<char>>
    decreases ids.len(),
{
    if ids.len() == 0 {
        Some(Seq::empty())
    } else {
        match joined(strings, ids.drop_last()) {
            None => None,
            Some(acc) => if ids.last().0 >= strings.len() {
                None
            } else if acc.len() == 0 {
                Some(strings[ids.last().0 as int])
            } else {
                Some(acc + ","@ + strings[ids.last().0 as int])
            },
        }
    }
}

/// The pieces written for `e` at indentation `level`, and whether writing
/// succeeded, going at most `fuel` expressions deep; a missing expression
/// stops the writing. `None` for the forms that have no text (other literals,
/// arrays, external calls, tracks, regions, projects, sequencing, blocks,
/// attributes and errors), for unknown parameter names, and where `fuel` runs
/// out.
pub open spec fn stringified_in(fuel: nat, exprs: Seq<Expr>, tag: u32, strings: Seq<Seq<char>>, level: nat, e: ExprRef) -> Option<(Seq<PieceV>, bool)>
    decreases fuel, 0nat,
{
    let head = indent(level);
    if !(e.0.arena == tag && e.0.index < exprs.len()) {
        Some((head, false))
    } else if fuel == 0 {
        None
    } else {
        let f = (fuel - 1) as nat;
        match exprs[e.0.index as int] {
            Expr::Nop => Some((head + text("nop"@), true)),
            Expr::Literal(Literal::Number(n)) => Some((head.push(PieceV::Number(n)), true)),
            Expr::Var(s) => Some((head + text(symbol_text(strings, s)), true)),
            Expr::Let(id, body, then) => match (
                stringified_in(f, exprs, tag, strings, level, body),
                stringified_in(f, exprs, tag, strings, level, then),
            ) {
                (Some((bp, bok)), Some((tp, tok))) => Some(
                    (
                        head + indent(level) + text("let "@) + text(symbol_text(strings, id)) + text(" = "@) + bp
                            + (if bok { text("\n"@) } else { Seq::empty() }) + indent(level) + tp,
                        tok,
                    ),
                ),
                _ => None,
            },
            Expr::BinOp(op, l, r) => match (
                stringified_in(f, exprs, tag, strings, level, l),
                stringified_in(f, exprs, tag, strings, level, r),
            ) {
                (Some((lp, lok)), Some((rp, rok))) => if !lok {
                    Some((head + lp, false))
                } else {
                    Some((head + lp + text(" "@) + text(op_symbol(op)) + text(" "@) + rp, rok))
                },
                _ => None,
            },
            Expr::App(callee, args) => match (
                stringified_in(f, exprs, tag, strings, level, callee),
                args_stringified(f, exprs, tag, strings, level, args@),
            ) {
                (Some((cp, cok)), Some((ap, aok))) => Some(
                    (head + cp + (if cok { text("("@) } else { Seq::empty() }) + ap + text(")"@), cok && aok),
                ),
                _ => None,
            },
            Expr::Lambda(ids, body) => match (joined(strings, ids@), stringified_in(f, exprs, tag, strings, level, body)) {
                (Some(names), Some((bp, bok))) => Some((head + text("|"@) + text(names) + text("| "@) + bp, bok)),
                _ => None,
            },
            Expr::Paren(b) => match stringified_in(f, exprs, tag, strings, level, b) {
                Some((bp, bok)) => Some((head + text("("@) + bp + (if bok { text(")"@) } else { Seq::empty() }), bok)),
                None => None,
            },
            _ => None,
        }
    }
}

/// The pieces written for the arguments `args` of a call, separated by
/// commas, each written even when an earlier one failed, each at most `fuel`
/// expressions deep.
pub open spec fn args_stringified(
    fuel: nat,
    exprs: Seq<Expr>,
    tag: u32,
    strings: Seq<Seq<char>>,
    level: nat,
    args: Seq<ExprRef>,
) -> Option<(Seq<PieceV>, bool)>
    decreases fuel, args.len() + 1,
{
    if args.len() == 0 {
        Some((Seq::empty(), true))
    } else {
        match (
            args_stringified(fuel, exprs, tag, strings, level, args.drop_last()),
            stringified_in(fuel, exprs, tag, strings, level, args.last()),
        ) {
            (Some((pp, pok)), Some((lp, lok))) => Some(
                (pp + (if args.len() > 1 { text(","@) } else { Seq::empty() }) + lp, pok && lok),
            ),
            _ => None,
        }
    }
}

/// The pieces written for `e` at indentation `level`, and whether writing
/// succeeded. A chain of references that never repeats an expression is no
/// longer than the number of expressions, so that many steps write every
/// expression whose references lead back to none of its own.
pub open spec fn stringified(exprs: Seq<Expr>, tag: u32, strings: Seq<Seq<char>>, level: nat, e: ExprRef) -> Option<(Seq<PieceV>, bool)> {
    stringified_in(exprs.len(), exprs, tag, strings, level, e)
}

fn push_text(out: &mut Vec<Piece>, s: &str)
    ensures
        pieces_view(final(out)@) == pieces_view(old(out)@) + text(s@),
{
    out.push(Piece::Text(s.to_owned()));
    proof {
        assert(pieces_view(out@) =~= pieces_view(old(out)@) + text(s@));
    }
}

fn push_indent(out: &mut Vec<Piece>, level: u32)
    ensures
        pieces_view(final(out)@) == pieces_view(old(out)@) + indent(level as nat),
{
    let mut i: u32 = 0;
    while i < level
        invariant
            i <= level,
            pieces_view(out@) =~= pieces_view(old(out)@) + indent(i as nat),
        decreases level - i,
    {
        push_text(out, "  ");
        proof {
            assert(indent(i as nat) + text("  "@) =~= indent((i + 1) as nat));
        }
        i += 1;
    }
}

/// The text of a symbol, empty when the interner does not know it.
fn symbol_str(ctx: &ParseContext, s: Symbol) -> (r: &str)
    ensures
        r@ == symbol_text(ctx.interner.strings(), s),
{
    match ctx.interner.resolve(s.0) {
        Some(t) => t,
        None => {
            proof {
                reveal_strlit("");
            }
            ""
        },
    }
}

/// The parameter names of a lambda, separated by commas.
fn join_symbols(ctx: &ParseContext, ids: &[Symbol]) -> (r: String)
    requires
        joined(ctx.interner.strings(), ids@) is Some,
    ensures
        r@ == joined(ctx.interner.strings(), ids@)->Some_0,
{
    let ghost strings = ctx.interner.strings();
    let mut acc = String::new();
    let mut i: usize = 0;
    proof {
        lemma_joined_prefix(strings, ids@);
    }
    while i < ids.len()
        invariant
            i <= ids@.len(),
            strings == ctx.interner.strings(),
            forall|k: int| 0 <= k <= ids@.len() ==> joined(strings, #[trigger] ids@.take(k)) is Some,
            acc@ == joined(strings, ids@.take(i as int))->Some_0,
        decreases ids@.len() - i,
    {
        proof {
            assert(ids@.take(i + 1).drop_last() =~= ids@.take(i as int));
            assert(joined(strings, ids@.take(i + 1)) is Some);
        }
        let id = match ctx.interner.resolve(ids[i].0) {
            Some(t) => t,
            None => {
                proof {
                    assert(false);
                }
                ""
            },
        };
        if acc.unicode_len() == 0 {
            acc = id.to_owned();
        } else {
            acc.append(",");
            acc.append(id);
        }
        i += 1;
    }
    proof {
        assert(ids@.take(ids@.len() as int) =~= ids@);
    }
    acc
}

/// When names join, so does each prefix of them.
proof fn lemma_joined_prefix(strings: Seq<Seq<char>>, ids: Seq<Symbol>)
    requires
        joined(strings, ids) is Some,
    ensures
        forall|k: int| 0 <= k <= ids.len() ==> joined(strings, #[trigger] ids.take(k)) is Some,
    decreases ids.len(),
{
    if ids.len() > 0 {
        lemma_joined_prefix(strings, ids.drop_last());
        assert forall|k: int| 0 <= k <= ids.len() implies joined(strings, #[trigger] ids.take(k)) is Some by {
            if k < ids.len() {
                assert(ids.drop_last().take(k) =~= ids.take(k));
            } else {
                assert(ids.take(k) =~= ids);
            }
        }
    } else {
        assert(ids.take(0) =~= ids);
    }
}

/// When the arguments of a call can be written, so can each prefix of them.
proof fn lemma_args_prefix(fuel: nat, exprs: Seq<Expr>, tag: u32, strings: Seq<Seq<char>>, level: nat, args: Seq<ExprRef>)
    requires
        args_stringified(fuel, exprs, tag, strings, level, args) is Some,
    ensures
        forall|k: int| 0 <= k <= args.len() ==> args_stringified(fuel, exprs, tag, strings, level, #[trigger] args.take(k)) is Some,
    decreases args.len(),
{
    if args.len() > 0 {
        lemma_args_prefix(fuel, exprs, tag, strings, level, args.drop_last());
        assert forall|k: int| 0 <= k <= args.len() implies args_stringified(fuel, exprs, tag, strings, level, #[trigger] args.take(k)) is Some by {
            if k < args.len() {
                assert(args.drop_last().take(k) =~= args.take(k));
            } else {
                assert(args.take(k) =~= args);
            }
        }
    } else {
        assert(args.take(0) =~= args);
    }
}

/// `o1` is `o0` followed by the pieces of `e` as `stringified_in` describes
/// them with `fuel` steps, and `ok` says whether writing succeeded.
pub open spec fn fmt_post(ctx: ParseContext, level: u32, e: ExprRef, fuel: nat, o0: Seq<PieceV>, o1: Seq<PieceV>, ok: bool) -> bool {
    let (p, k) = stringified_in(fuel, ctx.expr_storage.items(), expr_arena_tag(ctx.expr_storage), ctx.interner.strings(), level as nat, e)->Some_0;
    o1 == o0 + p && ok == k
}

pub open spec fn fmt_pre(ctx: ParseContext, level: u32, e: ExprRef, fuel: nat) -> bool {
    stringified_in(fuel, ctx.expr_storage.items(), expr_arena_tag(ctx.expr_storage), ctx.interner.strings(), level as nat, e) is Some
}

/// `e` is an expression of the context, and it is `x`.
pub open spec fn holds_as(ctx: ParseContext, e: ExprRef, x: Expr) -> bool {
    &&& e.0.arena == expr_arena_tag(ctx.expr_storage)
    &&& e.0.index < ctx.expr_storage.items().len()
    &&& ctx.expr_storage.items()[e.0.index as int] == x
}

/// Appends the pieces of `e` at indentation `level` to `out`; whether writing
/// succeeded.
fn fmt_in(ctx: &ParseContext, level: u32, e: ExprRef, Ghost(fuel): Ghost<nat>, out: &mut Vec<Piece>) -> (ok: bool)
    requires
        fmt_pre(*ctx, level, e, fuel),
    ensures
        fmt_post(*ctx, level, e, fuel, pieces_view(old(out)@), pieces_view(final(out)@), ok),
    decreases fuel, 2nat,
{
    let ghost o0 = pieces_view(out@);
    let expr = match ctx.get_expr(e) {
        Some(x) => x,
        None => {
            push_indent(out, level);
            return false;
        },
    };
    match expr {
        Expr::Nop => {
            push_indent(out, level);
            push_text(out, "nop");
            proof {
                assert(pieces_view(out@) =~= o0 + (indent(level as nat) + text("nop"@)));
            }
            true
        },
        Expr::Literal(Literal::Number(n)) => {
            push_indent(out, level);
            let ghost o1 = pieces_view(out@);
            out.push(Piece::Number(*n));
            proof {
                assert(pieces_view(out@) =~= o1.push(PieceV::Number(*n)));
                assert(pieces_view(out@) =~= o0 + indent(level as nat).push(PieceV::Number(*n)));
            }
            true
        },
        Expr::Var(s) => {
            push_indent(out, level);
            push_text(out, symbol_str(ctx, *s));
            proof {
                assert(pieces_view(out@) =~= o0 + (indent(level as nat) + text(symbol_text(ctx.interner.strings(), *s))));
            }
            true
        },
        Expr::Let(id, body, then) => fmt_let(ctx, level, e, *id, *body, *then, Ghost(fuel), out),
        Expr::BinOp(op, l, r) => fmt_binop(ctx, level, e, *op, *l, *r, Ghost(fuel), out),
        Expr::App(callee, args) => fmt_app(ctx, level, e, *callee, args, Ghost(fuel), out),
        Expr::Lambda(ids, body) => fmt_lambda(ctx, level, e, ids, *body, Ghost(fuel), out),
        Expr::Paren(b) => fmt_paren(ctx, level, e, *b, Ghost(fuel), out),
        _ => {
            proof {
                assert(false);
            }
            false
        },
    }
}

fn fmt_let(ctx: &ParseContext, level: u32, e: ExprRef, id: Symbol, body: ExprRef, then: ExprRef, Ghost(fuel): Ghost<nat>, out: &mut Vec<Piece>) -> (ok: bool)
    requires
        fmt_pre(*ctx, level, e, fuel),
        holds_as(*ctx, e, Expr::Let(id, body, then)),
    ensures
        fmt_post(*ctx, level, e, fuel, pieces_view(old(out)@), pieces_view(final(out)@), ok),
    decreases fuel, 1nat,
{
    let ghost exprs = ctx.expr_storage.items();
    let ghost tag = expr_arena_tag(ctx.expr_storage);
    let ghost strings = ctx.interner.strings();
    let ghost o0 = pieces_view(out@);
    let ghost f = (fuel - 1) as nat;
    push_indent(out, level);
    push_indent(out, level);
    push_text(out, "let ");
    push_text(out, symbol_str(ctx, id));
    push_text(out, " = ");
    let bok = fmt_in(ctx, level, body, Ghost(f), out);
    if bok {
        push_text(out, "\n");
    }
    push_indent(out, level);
    let tok = fmt_in(ctx, level, then, Ghost(f), out);
    proof {
        let (bp, _) = stringified_in(f, exprs, tag, strings, level as nat, body)->Some_0;
        let (tp, _) = stringified_in(f, exprs, tag, strings, level as nat, then)->Some_0;
        assert(pieces_view(out@) =~= o0 + (indent(level as nat) + indent(level as nat) + text("let "@)
            + text(symbol_text(strings, id)) + text(" = "@) + bp + (if bok { text("\n"@) } else { Seq::empty() })
            + indent(level as nat) + tp));
    }
    tok
}

fn fmt_binop(ctx: &ParseContext, level: u32, e: ExprRef, op: Op, l: ExprRef, r: ExprRef, Ghost(fuel): Ghost<nat>, out: &mut Vec<Piece>) -> (ok: bool)
    requires
        fmt_pre(*ctx, level, e, fuel),
        holds_as(*ctx, e, Expr::BinOp(op, l, r)),
    ensures
        fmt_post(*ctx, level, e, fuel, pieces_view(old(out)@), pieces_view(final(out)@), ok),
    decreases fuel, 1nat,
{
    let ghost exprs = ctx.expr_storage.items();
    let ghost tag = expr_arena_tag(ctx.expr_storage);
    let ghost strings = ctx.interner.strings();
    let ghost o0 = pieces_view(out@);
    let ghost f = (fuel - 1) as nat;
    push_indent(out, level);
    let lok = fmt_in(ctx, level, l, Ghost(f), out);
    if !lok {
        proof {
            let (lp, _) = stringified_in(f, exprs, tag, strings, level as nat, l)->Some_0;
            assert(pieces_view(out@) =~= o0 + (indent(level as nat) + lp));
        }
        return false;
    }
    push_text(out, " ");
    push_text(out, op.symbol());
    push_text(out, " ");
    let rok = fmt_in(ctx, level, r, Ghost(f), out);
    proof {
        let (lp, _) = stringified_in(f, exprs, tag, strings, level as nat, l)->Some_0;
        let (rp, _) = stringified_in(f, exprs, tag, strings, level as nat, r)->Some_0;
        assert(pieces_view(out@) =~= o0 + (indent(level as nat) + lp + text(" "@) + text(op_symbol(op)) + text(" "@) + rp));
    }
    rok
}

fn fmt_app(ctx: &ParseContext, level: u32, e: ExprRef, callee: ExprRef, args: &Vec<ExprRef>, Ghost(fuel): Ghost<nat>, out: &mut Vec<Piece>) -> (ok: bool)
    requires
        fmt_pre(*ctx, level, e, fuel),
        holds_as(*ctx, e, Expr::App(callee, *args)),
    ensures
        fmt_post(*ctx, level, e, fuel, pieces_view(old(out)@), pieces_view(final(out)@), ok),
    decreases fuel, 1nat,
{
    let ghost exprs = ctx.expr_storage.items();
    let ghost tag = expr_arena_tag(ctx.expr_storage);
    let ghost strings = ctx.interner.strings();
    let ghost o0 = pieces_view(out@);
    let ghost f = (fuel - 1) as nat;
    push_indent(out, level);
    let cok = fmt_in(ctx, level, callee, Ghost(f), out);
    if cok {
        push_text(out, "(");
    }
    let aok = fmt_args(ctx, level, args.as_slice(), Ghost(f), out);
    push_text(out, ")");
    proof {
        let (cp, _) = stringified_in(f, exprs, tag, strings, level as nat, callee)->Some_0;
        let (ap, _) = args_stringified(f, exprs, tag, strings, level as nat, args@)->Some_0;
        assert(pieces_view(out@) =~= o0 + (indent(level as nat) + cp + (if cok { text("("@) } else { Seq::empty() }) + ap + text(")"@)));
    }
    cok && aok
}

fn fmt_lambda(ctx: &ParseContext, level: u32, e: ExprRef, ids: &Vec<Symbol>, body: ExprRef, Ghost(fuel): Ghost<nat>, out: &mut Vec<Piece>) -> (ok: bool)
    requires
        fmt_pre(*ctx, level, e, fuel),
        holds_as(*ctx, e, Expr::Lambda(*ids, body)),
    ensures
        fmt_post(*ctx, level, e, fuel, pieces_view(old(out)@), pieces_view(final(out)@), ok),
    decreases fuel, 1nat,
{
    let ghost exprs = ctx.expr_storage.items();
    let ghost tag = expr_arena_tag(ctx.expr_storage);
    let ghost strings = ctx.interner.strings();
    let ghost o0 = pieces_view(out@);
    let ghost f = (fuel - 1) as nat;
    let names = join_symbols(ctx, ids.as_slice());
    push_indent(out, level);
    push_text(out, "|");
    push_text(out, names.as_str());
    push_text(out, "| ");
    let bok = fmt_in(ctx, level, body, Ghost(f), out);
    proof {
        let (bp, _) = stringified_in(f, exprs, tag, strings, level as nat, body)->Some_0;
        assert(pieces_view(out@) =~= o0 + (indent(level as nat) + text("|"@) + text(names@) + text("| "@) + bp));
    }
    bok
}

fn fmt_paren(ctx: &ParseContext, level: u32, e: ExprRef, b: ExprRef, Ghost(fuel): Ghost<nat>, out: &mut Vec<Piece>) -> (ok: bool)
    requires
        fmt_pre(*ctx, level, e, fuel),
        holds_as(*ctx, e, Expr::Paren(b)),
    ensures
        fmt_post(*ctx, level, e, fuel, pieces_view(old(out)@), pieces_view(final(out)@), ok),
    decreases fuel, 1nat,
{
    let ghost exprs = ctx.expr_storage.items();
    let ghost tag = expr_arena_tag(ctx.expr_storage);
    let ghost strings = ctx.interner.strings();
    let ghost o0 = pieces_view(out@);
    let ghost f = (fuel - 1) as nat;
    push_indent(out, level);
    push_text(out, "(");
    let bok = fmt_in(ctx, level, b, Ghost(f), out);
    if bok {
        push_text(out, ")");
    }
    proof {
        let (bp, _) = stringified_in(f, exprs, tag, strings, level as nat, b)->Some_0;
        assert(pieces_view(out@) =~= o0 + (indent(level as nat) + text("("@) + bp + (if bok { text(")"@) } else { Seq::empty() })));
    }
    bok
}

/// Appends the pieces of the arguments of a call, each written with at most
/// `fuel` steps.
fn fmt_args(ctx: &ParseContext, level: u32, args: &[ExprRef], Ghost(fuel): Ghost<nat>, out: &mut Vec<Piece>) -> (ok: bool)
    requires
        args_stringified(fuel, ctx.expr_storage.items(), expr_arena_tag(ctx.expr_storage), ctx.interner.strings(), level as nat, args@) is Some,
    ensures
        ({
            let (p, k) = args_stringified(fuel, ctx.expr_storage.items(), expr_arena_tag(ctx.expr_storage), ctx.interner.strings(), level as nat, args@)->Some_0;
            pieces_view(final(out)@) == pieces_view(old(out)@) + p && ok == k
        }),
    decreases fuel, args@.len() + 3,
{
    let ghost exprs = ctx.expr_storage.items();
    let ghost tag = expr_arena_tag(ctx.expr_storage);
    let ghost strings = ctx.interner.strings();
    let ghost o0 = pieces_view(out@);
    proof {
        lemma_args_prefix(fuel, exprs, tag, strings, level as nat, args@);
        assert(args@.take(0) =~= Seq::<ExprRef>::empty());
    }
    let mut res = true;
    let mut i: usize = 0;
    while i < args.len()
        invariant
            i <= args@.len(),
            exprs == ctx.expr_storage.items(),
            tag == expr_arena_tag(ctx.expr_storage),
            strings == ctx.interner.strings(),
            forall|k: int| 0 <= k <= args@.len() ==> args_stringified(fuel, exprs, tag, strings, level as nat, #[trigger] args@.take(k)) is Some,
            ({
                let (p, k) = args_stringified(fuel, exprs, tag, strings, level as nat, args@.take(i as int))->Some_0;
                pieces_view(out@) == o0 + p && res == k
            }),
        decreases args@.len() - i,
    {
        proof {
            assert(args@.take(i + 1).drop_last() =~= args@.take(i as int));
            assert(args@.take(i + 1).last() == args@[i as int]);
            assert(args_stringified(fuel, exprs, tag, strings, level as nat, args@.take(i + 1)) is Some);
        }
        let ghost before = pieces_view(out@);
        if i != 0 {
            push_text(out, ",");
        }
        let ok = fmt_in(ctx, level, args[i], Ghost(fuel), out);
        res = res && ok;
        proof {
            let (pp, _) = args_stringified(fuel, exprs, tag, strings, level as nat, args@.take(i as int))->Some_0;
            let (lp, _) = stringified_in(fuel, exprs, tag, strings, level as nat, args@[i as int])->Some_0;
            assert(pieces_view(out@) =~= o0 + (pp + (if i + 1 > 1 { text(","@) } else { Seq::empty() }) + lp));
        }
        i += 1;
    }
    proof {
        assert(args@.take(args@.len() as int) =~= args@);
    }
    res
}

/// The text of an attribute: `#[name(start..end)]`.
pub open spec fn attribute_pieces(strings: Seq<Seq<char>>, a: Attribute) -> Seq<PieceV> {
    text("#["@) + text(symbol_text(strings, a.0)) + text("("@) + seq![PieceV::Number(a.1)] + text(".."@)
        + seq![PieceV::Number(a.2)] + text(")]"@)
}

impl Attribute {
    /// The pieces of the attribute's source text.
    pub fn stringify(&self, ctx: &ParseContext) -> (r: Vec<Piece>)
        ensures
            pieces_view(r@) == attribute_pieces(ctx.interner.strings(), *self),
    {
        let mut out: Vec<Piece> = Vec::new();
        push_text(&mut out, "#[");
        push_text(&mut out, symbol_str(ctx, self.0));
        push_text(&mut out, "(");
        let ghost o1 = pieces_view(out@);
        out.push(Piece::Number(self.1));
        proof {
            assert(pieces_view(out@) =~= o1 + seq![PieceV::Number(self.1)]);
        }
        push_text(&mut out, "..");
        let ghost o2 = pieces_view(out@);
        out.push(Piece::Number(self.2));
        proof {
            assert(pieces_view(out@) =~= o2 + seq![PieceV::Number(self.2)]);
        }
        push_text(&mut out, ")]");
        proof {
            assert(pieces_view(Seq::<Piece>::empty()) =~= Seq::<PieceV>::empty());
            assert(pieces_view(out@) =~= attribute_pieces(ctx.interner.strings(), *self));
        }
        out
    }
}

/// The arguments of a call can be written exactly when each of them can.
proof fn lemma_args_pre(fuel: nat, exprs: Seq<Expr>, tag: u32, strings: Seq<Seq<char>>, level: nat, args: Seq<ExprRef>)
    ensures
        args_stringified(fuel, exprs, tag, strings, level, args) is Some <==> forall|i: int|
            0 <= i < args.len() ==> stringified_in(fuel, exprs, tag, strings, level, #[trigger] args[i]) is Some,
    decreases args.len(),
{
    if args.len() > 0 {
        lemma_args_pre(fuel, exprs, tag, strings, level, args.drop_last());
        assert forall|i: int| 0 <= i < args.len() - 1 implies #[trigger] args.drop_last()[i] == args[i] by {}
        if args_stringified(fuel, exprs, tag, strings, level, args) is Some {
            assert forall|i: int| 0 <= i < args.len() implies stringified_in(fuel, exprs, tag, strings, level, #[trigger] args[i]) is Some by {
                if i < args.len() - 1 {
                    assert(args.drop_last()[i] == args[i]);
                }
            }
        }
        if forall|i: int| 0 <= i < args.len() ==> stringified_in(fuel, exprs, tag, strings, level, #[trigger] args[i]) is Some {
            assert(args[args.len() - 1] == args.last());
            assert forall|i: int| 0 <= i < args.drop_last().len() implies stringified_in(fuel, exprs, tag, strings, level, #[trigger] args.drop_last()[i]) is Some by {
                assert(args.drop_last()[i] == args[i]);
            }
        }
    }
}

/// Names join exactly when the interner knows each of them.
proof fn lemma_joined_pre(strings: Seq<Seq<char>>, ids: Seq<Symbol>)
    ensures
        joined(strings, ids) is Some <==> forall|i: int| 0 <= i < ids.len() ==> (#[trigger] ids[i]).0 < strings.len(),
    decreases ids.len(),
{
    if ids.len() > 0 {
        lemma_joined_pre(strings, ids.drop_last());
        if joined(strings, ids) is Some {
            assert forall|i: int| 0 <= i < ids.len() implies (#[trigger] ids[i]).0 < strings.len() by {
                if i < ids.len() - 1 {
                    assert(ids.drop_last()[i] == ids[i]);
                }
            }
        }
        if forall|i: int| 0 <= i < ids.len() ==> (#[trigger] ids[i]).0 < strings.len() {
            assert(ids[ids.len() - 1] == ids.last());
            assert forall|i: int| 0 <= i < ids.drop_last().len() implies (#[trigger] ids.drop_last()[i]).0 < strings.len() by {
                assert(ids.drop_last()[i] == ids[i]);
            }
        }
    }
}

/// Whether `e` can be written at indentation `level` with `fuel` steps.
fn printable_in(ctx: &ParseContext, level: u32, e: ExprRef, fuel: usize) -> (r: bool)
    ensures
        r == fmt_pre(*ctx, level, e, fuel as nat),
    decreases fuel,
{
    let ghost exprs = ctx.expr_storage.items();
    let ghost tag = expr_arena_tag(ctx.expr_storage);
    let ghost strings = ctx.interner.strings();
    let x = match ctx.get_expr(e) {
        Some(x) => x,
        None => {
            return true;
        },
    };
    if fuel == 0 {
        return false;
    }
    let f = fuel - 1;
    match x {
        Expr::Nop => true,
        Expr::Literal(Literal::Number(_)) => true,
        Expr::Var(_) => true,
        Expr::Let(_, body, then) => printable_in(ctx, level, *body, f) && printable_in(ctx, level, *then, f),
        Expr::BinOp(_, l, r) => printable_in(ctx, level, *l, f) && printable_in(ctx, level, *r, f),
        Expr::App(callee, args) => {
            if !printable_in(ctx, level, *callee, f) {
                return false;
            }
            proof {
                lemma_args_pre(f as nat, exprs, tag, strings, level as nat, args@);
            }
            let mut i: usize = 0;
            while i < args.len()
                invariant
                    i <= args@.len(),
                    exprs == ctx.expr_storage.items(),
                    tag == expr_arena_tag(ctx.expr_storage),
                    strings == ctx.interner.strings(),
                    e.0.index < exprs.len(),
                    f == fuel - 1,
                    fmt_pre(*ctx, level, e, fuel as nat) <==> args_stringified(f as nat, exprs, tag, strings, level as nat, args@) is Some,
                    args_stringified(f as nat, exprs, tag, strings, level as nat, args@) is Some <==> forall|i: int|
                        0 <= i < args@.len() ==> stringified_in(f as nat, exprs, tag, strings, level as nat, #[trigger] args@[i]) is Some,
                    forall|k: int| 0 <= k < i ==> stringified_in(f as nat, exprs, tag, strings, level as nat, #[trigger] args@[k]) is Some,
                decreases args@.len() - i,
            {
                if !printable_in(ctx, level, args[i], f) {
                    return false;
                }
                i += 1;
            }
            true
        },
        Expr::Lambda(ids, body) => {
            proof {
                lemma_joined_pre(strings, ids@);
            }
            let mut i: usize = 0;
            while i < ids.len()
                invariant
                    i <= ids@.len(),
                    strings == ctx.interner.strings(),
                    joined(strings, ids@) is Some <==> forall|i: int| 0 <= i < ids@.len() ==> (#[trigger] ids@[i]).0 < strings.len(),
                    fmt_pre(*ctx, level, e, fuel as nat) ==> joined(strings, ids@) is Some,
                    forall|k: int| 0 <= k < i ==> (#[trigger] ids@[k]).0 < strings.len(),
                decreases ids@.len() - i,
            {
                if ctx.interner.resolve(ids[i].0).is_none() {
                    return false;
                }
                i += 1;
            }
            printable_in(ctx, level, *body, f)
        },
        Expr::Paren(b) => printable_in(ctx, level, *b, f),
        _ => false,
    }
}

/// Writes an expression of a parse context back as source text.
pub struct Stringifier<'a> {
    pub ctx: &'a ParseContext,
    pub level: u32,
    pub e: ExprRef,
}

impl<'a> Stringifier<'a> {
    pub fn new(ctx: &'a ParseContext, level: u32, e: ExprRef) -> (r: Self)
        ensures
            r.ctx == ctx,
            r.level == level,
            r.e == e,
    {
        Stringifier { ctx, level, e }
    }

    /// Whether the expression can be written: it holds only forms that have
    /// a text and known parameter names, and no chain of its references comes
    /// back to an expression it started from.
    pub fn printable(&self) -> (r: bool)
        ensures
            r == stringified(
                self.ctx.expr_storage.items(),
                expr_arena_tag(self.ctx.expr_storage),
                self.ctx.interner.strings(),
                self.level as nat,
                self.e,
            ) is Some,
    {
        printable_in(self.ctx, self.level, self.e, self.ctx.expr_storage.len())
    }

    /// The pieces of the text, and whether writing succeeded.
    pub fn fmt(&self) -> (r: (Vec<Piece>, bool))
        requires
            stringified(
                self.ctx.expr_storage.items(),
                expr_arena_tag(self.ctx.expr_storage),
                self.ctx.interner.strings(),
                self.level as nat,
                self.e,
            ) is Some,
        ensures
            stringified(
                self.ctx.expr_storage.items(),
                expr_arena_tag(self.ctx.expr_storage),
                self.ctx.interner.strings(),
                self.level as nat,
                self.e,
            ) == Some((pieces_view(r.0@), r.1)),
    {
        let mut out: Vec<Piece> = Vec::new();
        let ok = fmt_in(self.ctx, self.level, self.e, Ghost(self.ctx.expr_storage.items().len()), &mut out);
        proof {
            assert(pieces_view(Seq::<Piece>::empty()) =~= Seq::<PieceV>::empty());
            let (p, _) = stringified(
                self.ctx.expr_storage.items(),
                expr_arena_tag(self.ctx.expr_storage),
                self.ctx.interner.strings(),
                self.level as nat,
                self.e,
            )->Some_0;
            assert(pieces_view(out@) =~= p);
        }
        (out, ok)
    }
}

} // verus!
