//! The expression grammar: tokens, the syntax trees the grammar gives them,
//! and the parser that stores a parsed expression in a parse context.
//!
//! From the loosest binding to the tightest:
//!
//! ```text
//! expr     := level8
//! level8   := level7 ( '|>' level7 )*            a |> f  is the call f(a)
//! level7   := level6 ( ('<' | '<=' | '>' | '>=') level6 )*
//! level6   := level5 ( '||' level5 )*
//! level5   := level4 ( '&&' level4 )*
//! level4   := level3 ( ('==' | '!=') level3 )*
//! level3   := level2 ( ('+' | '-') level2 )*
//! level2   := level1 ( ('*' | '/' | '%') level1 )*
//! level1   := apply ( '^' apply )*
//! apply    := atom ( '(' [expr (',' expr)* [',']] ')' )*
//! atom     := ident | number | string | lambda | let | '(' expr ')'
//! lambda   := '|' [ident (',' ident)*] '|' ['->'] expr
//! let      := [attribute newline] 'let' ident '=' expr (newline | ';')* [expr]
//! attribute := '#[' ident '(' number '..' number ')' ']'
//! ```
//!
//! Operators of one level group to the left, and line breaks may follow an
//! operator. A repetition ends at the first part that does not parse, which
//! is then left unread, and so are the tokens after the whole expression.

use vstd::prelude::*;
use std::ops::Range;
use crate::store::expr_arena_tag;
use super::Symbol;
use super::expr::{Attribute, Expr, ExprRef, Literal, Op};
use super::parser::{ParseContext, Span};

verus! {

broadcast use vstd::std_specs::btree::group_btree_axioms, vstd::laws_cmp::group_laws_cmp;

/// A token of the source text. Numbers carry the bit pattern of their value
/// as an `f64`, as read from the text.
#[derive(Debug)]
pub enum Token {
    Ident(String),
    Int(u64),
    Float(u64),
    Str(String),
    Op(Op),
    Let,
    Assign,
    SemiColon,
    Comma,
    LineBreak,
    LambdaArgBeginEnd,
    Arrow,
    ParenBegin,
    ParenEnd,
    SharpAngleBracketBegin,
    AngleBracketEnd,
    DoubleDot,
}

/// What the grammar makes of a sequence of tokens: names are the identifiers'
/// texts, and literals carry the source span of their token.
pub enum Tree {
    Var(Seq<char>, Span),
    Number(u64, Span),
    Str(Seq<char>, Span),
    Nop,
    Let(Seq<char>, Box<Tree>, Box<Tree>),
    /// An attribute (name and the bit patterns of its range) on a `let`.
    Attributed(Seq<char>, u64, u64, Box<Tree>),
    Lambda(Seq<Seq<char>>, Box<Tree>),
    App(Box<Tree>, Seq<Tree>),
    BinOp(Op, Box<Tree>, Box<Tree>),
    Paren(Box<Tree>),
}

/// The outcome of a production at a position: the tree and the position
/// after it, or the position at which the tokens do not fit.
pub type Parsed = Result<(Tree, int), int>;

/// The tightest level of binary operators is 1, the pipe is 8.
pub open spec fn level_has(k: nat, op: Op) -> bool {
    if k == 1 {
        op == Op::Exponent
    } else if k == 2 {
        op == Op::Product || op == Op::Divide || op == Op::Modulo
    } else if k == 3 {
        op == Op::Sum || op == Op::Minus
    } else if k == 4 {
        op == Op::Equal || op == Op::NotEqual
    } else if k == 5 {
        op == Op::And
    } else if k == 6 {
        op == Op::Or
    } else if k == 7 {
        op == Op::LessThan || op == Op::LessEqual || op == Op::GreaterThan || op == Op::GreaterEqual
    } else {
        k == 8 && op == Op::Pipe
    }
}

/// The tree of `lhs op rhs`: a call of `rhs` with `lhs` for the pipe, else
/// the binary operation.
pub open spec fn combined(op: Op, lhs: Tree, rhs: Tree) -> Tree {
    if op == Op::Pipe {
        Tree::App(Box::new(rhs), seq![lhs])
    } else {
        Tree::BinOp(op, Box::new(lhs), Box::new(rhs))
    }
}

/// The number of line breaks from `i` on.
pub open spec fn breaks_from(ts: Seq<(Token, Span)>, i: int) -> nat
    decreases ts.len() - i,
{
    if 0 <= i < ts.len() && ts[i].0 is LineBreak {
        1 + breaks_from(ts, i + 1)
    } else {
        0
    }
}

/// The number of line breaks and semicolons from `i` on.
pub open spec fn separators_from(ts: Seq<(Token, Span)>, i: int) -> nat
    decreases ts.len() - i,
{
    if 0 <= i < ts.len() && (ts[i].0 is LineBreak || ts[i].0 is SemiColon) {
        1 + separators_from(ts, i + 1)
    } else {
        0
    }
}

/// The bit pattern of a number token.
pub open spec fn number_of(t: Token) -> Option<u64> {
    match t {
        Token::Int(b) => Some(b),
        Token::Float(b) => Some(b),
        _ => None,
    }
}

/// An attribute `#[name(lo..hi)]` in the eight tokens from `i`.
pub open spec fn attribute_at(ts: Seq<(Token, Span)>, i: int) -> Option<(Seq<char>, u64, u64)> {
    if 0 <= i && i + 8 <= ts.len() && ts[i].0 is SharpAngleBracketBegin && ts[i + 1].0 is Ident
        && ts[i + 2].0 is ParenBegin && number_of(ts[i + 3].0) is Some && ts[i + 4].0 is DoubleDot
        && number_of(ts[i + 5].0) is Some && ts[i + 6].0 is ParenEnd && ts[i + 7].0 is AngleBracketEnd {
        Some((ts[i + 1].0->Ident_0@, number_of(ts[i + 3].0)->Some_0, number_of(ts[i + 5].0)->Some_0))
    } else {
        None
    }
}

/// The names of `ident (',' ident)*` from `j`, appended to `acc`; a comma
/// not followed by a name is left unread.
pub open spec fn names_from(ts: Seq<(Token, Span)>, j: int, acc: Seq<Seq<char>>) -> (Seq<Seq<char>>, int)
    decreases ts.len() - j,
{
    if 0 <= j < ts.len() && ts[j].0 is Ident {
        let acc2 = acc.push(ts[j].0->Ident_0@);
        if j + 2 < ts.len() && ts[j + 1].0 is Comma && ts[j + 2].0 is Ident {
            names_from(ts, j + 2, acc2)
        } else {
            (acc2, j + 1)
        }
    } else {
        (acc, j)
    }
}

/// The expression of binding level `k` from `i` (level 0 is a call).
pub open spec fn p_level(ts: Seq<(Token, Span)>, k: nat, i: int) -> Parsed
    decreases ts.len() - i, k as int, 3int,
{
    if k == 0 {
        p_apply(ts, i)
    } else {
        match p_level(ts, (k - 1) as nat, i) {
            Err(p) => Err(p),
            Ok((lhs, j)) => if !(i < j <= ts.len()) {
                Err(i)
            } else {
                Ok(p_rest(ts, k, j, lhs))
            },
        }
    }
}

/// The operators of level `k` and their right operands from `j`, folded to
/// the left onto `lhs`.
pub open spec fn p_rest(ts: Seq<(Token, Span)>, k: nat, j: int, lhs: Tree) -> (Tree, int)
    decreases ts.len() - j, k as int, 2int,
{
    if 0 <= j < ts.len() && ts[j].0 is Op && level_has(k, ts[j].0->Op_0) && j + 1 + breaks_from(ts, j + 1) <= ts.len() {
        let op = ts[j].0->Op_0;
        let j1 = j + 1 + breaks_from(ts, j + 1);
        match p_level(ts, (k - 1) as nat, j1) {
            Ok((rhs, j2)) => if j < j2 <= ts.len() {
                p_rest(ts, k, j2, combined(op, lhs, rhs))
            } else {
                (lhs, j)
            },
            Err(_) => (lhs, j),
        }
    } else {
        (lhs, j)
    }
}

/// An atom followed by any number of argument lists.
pub open spec fn p_apply(ts: Seq<(Token, Span)>, i: int) -> Parsed
    decreases ts.len() - i, 0int, 2int,
{
    match p_atom(ts, i) {
        Err(p) => Err(p),
        Ok((f, j)) => if !(i < j <= ts.len()) {
            Err(i)
        } else {
            Ok(p_calls(ts, j, f))
        },
    }
}

/// The argument lists `( items )` from `j` applied in turn to `f`.
pub open spec fn p_calls(ts: Seq<(Token, Span)>, j: int, f: Tree) -> (Tree, int)
    decreases ts.len() - j, 0int, 1int,
{
    if 0 <= j < ts.len() && ts[j].0 is ParenBegin {
        let (args, j2) = p_items(ts, j + 1, Seq::empty());
        if j2 > j && 0 <= j2 < ts.len() && ts[j2].0 is ParenEnd {
            p_calls(ts, j2 + 1, Tree::App(Box::new(f), args))
        } else {
            (f, j)
        }
    } else {
        (f, j)
    }
}

/// The expressions `[expr (',' expr)* [',']]` from `j`, appended to `acc`.
pub open spec fn p_items(ts: Seq<(Token, Span)>, j: int, acc: Seq<Tree>) -> (Seq<Tree>, int)
    decreases ts.len() - j, 9int, 0int,
{
    match p_level(ts, 8, j) {
        Err(_) => (acc, j),
        Ok((t, j1)) => if !(j < j1 <= ts.len()) {
            (acc, j)
        } else if 0 <= j1 < ts.len() && ts[j1].0 is Comma {
            p_items(ts, j1 + 1, acc.push(t))
        } else {
            (acc.push(t), j1)
        },
    }
}

/// A variable, number, string, lambda, `let` or parenthesised expression.
pub open spec fn p_atom(ts: Seq<(Token, Span)>, i: int) -> Parsed
    decreases ts.len() - i, 0int, 1int,
{
    if !(0 <= i < ts.len()) {
        Err(i)
    } else {
        let span = ts[i].1;
        match ts[i].0 {
            Token::Ident(s) => Ok((Tree::Var(s@, span), i + 1)),
            Token::Int(b) => Ok((Tree::Number(b, span), i + 1)),
            Token::Float(b) => Ok((Tree::Number(b, span), i + 1)),
            Token::Str(s) => Ok((Tree::Str(s@, span), i + 1)),
            Token::LambdaArgBeginEnd => p_lambda(ts, i),
            Token::Let => p_let(ts, i),
            Token::SharpAngleBracketBegin => p_let(ts, i),
            Token::ParenBegin => match p_level(ts, 8, i + 1) {
                Err(p) => Err(p),
                Ok((e, j)) => if 0 <= j < ts.len() && ts[j].0 is ParenEnd {
                    Ok((Tree::Paren(Box::new(e)), j + 1))
                } else {
                    Err(j)
                },
            },
            _ => Err(i),
        }
    }
}

/// `'|' names '|' ['->'] expr` from `i`, where the opening bar is.
pub open spec fn p_lambda(ts: Seq<(Token, Span)>, i: int) -> Parsed
    decreases ts.len() - i, 0int, 0int,
{
    let (names, j) = names_from(ts, i + 1, Seq::empty());
    if !(j > i && 0 <= j < ts.len() && ts[j].0 is LambdaArgBeginEnd) {
        Err(j)
    } else {
        let j2 = if 0 <= j + 1 < ts.len() && ts[j + 1].0 is Arrow { j + 2 } else { j + 1 };
        match p_level(ts, 8, j2) {
            Err(p) => Err(p),
            Ok((body, j3)) => Ok((Tree::Lambda(names, Box::new(body)), j3)),
        }
    }
}

/// `[attribute newline] 'let' ident '=' expr separators [expr]` from `i`.
pub open spec fn p_let(ts: Seq<(Token, Span)>, i: int) -> Parsed
    decreases ts.len() - i, 0int, 0int,
{
    let attr = match attribute_at(ts, i) {
        Some(a) => if 0 <= i + 8 < ts.len() && ts[i + 8].0 is LineBreak { Some(a) } else { None },
        None => None,
    };
    let j = if attr is Some { i + 9 } else { i };
    if !(0 <= j < ts.len() && ts[j].0 is Let) {
        Err(j)
    } else if !(j + 1 < ts.len() && ts[j + 1].0 is Ident) {
        Err(j + 1)
    } else if !(j + 2 < ts.len() && ts[j + 2].0 is Assign) {
        Err(j + 2)
    } else {
        let name = ts[j + 1].0->Ident_0@;
        match p_level(ts, 8, j + 3) {
            Err(p) => Err(p),
            Ok((body, j4)) => if !(j < j4 && j4 + separators_from(ts, j4) <= ts.len()) {
                Err(j)
            } else {
                let j5 = j4 + separators_from(ts, j4);
                let (then, j6) = match p_level(ts, 8, j5) {
                    Ok((t, j6)) => (t, j6),
                    Err(_) => (Tree::Nop, j5),
                };
                let l = Tree::Let(name, Box::new(body), Box::new(then));
                Ok((
                    match attr {
                        Some((an, lo, hi)) => Tree::Attributed(an, lo, hi, Box::new(l)),
                        None => l,
                    },
                    j6,
                ))
            },
        }
    }
}

/// The symbol `s` is interned in `ctx` with the text `name`.
pub open spec fn names(ctx: ParseContext, s: Symbol, name: Seq<char>) -> bool {
    s.0 < ctx.interner.strings().len() && ctx.interner.strings()[s.0 as int] == name
}

/// The symbols `ids` are interned with the texts `ns`, in order.
pub open spec fn names_all(ctx: ParseContext, ids: Seq<Symbol>, ns: Seq<Seq<char>>) -> bool {
    ids.len() == ns.len() && forall|k: int| 0 <= k < ids.len() ==> #[trigger] names(ctx, ids[k], ns[k])
}

/// The span recorded for the expression `r` is `sp`.
pub open spec fn spanned(ctx: ParseContext, r: ExprRef, sp: Span) -> bool {
    ctx.span_storage@.contains_key(r.0.index) && ctx.span_storage@[r.0.index] == sp
}

/// `c` is an expression of `ctx` stored before `r`.
pub open spec fn before(ctx: ParseContext, c: ExprRef, r: ExprRef) -> bool {
    c.0.arena == expr_arena_tag(ctx.expr_storage) && c.0.index < r.0.index
}

/// The expression `r` of `ctx` stands for the tree `t`: each node holds the
/// expression of its tree, names are interned with their texts, literals
/// carry the span of their token, and the parts of a node are stored before
/// it.
pub open spec fn denotes(ctx: ParseContext, r: ExprRef, t: Tree) -> bool
    decreases t, 0int,
{
    ctx.expr_storage.holds(r.0) && match t {
        Tree::Var(n, sp) => match ctx.expr_storage.at(r.0) {
            Expr::Var(s) => names(ctx, s, n) && spanned(ctx, r, sp),
            _ => false,
        },
        Tree::Number(b, sp) => ctx.expr_storage.at(r.0) == Expr::Literal(Literal::Number(b)) && spanned(ctx, r, sp),
        Tree::Str(n, sp) => match ctx.expr_storage.at(r.0) {
            Expr::Literal(Literal::String(x)) => x@ == n && spanned(ctx, r, sp),
            _ => false,
        },
        Tree::Nop => ctx.expr_storage.at(r.0) is Nop,
        Tree::Let(n, b, th) => match ctx.expr_storage.at(r.0) {
            Expr::Let(s, rb, rt) => names(ctx, s, n) && before(ctx, rb, r) && before(ctx, rt, r) && denotes(ctx, rb, *b)
                && denotes(ctx, rt, *th),
            _ => false,
        },
        Tree::Attributed(n, lo, hi, b) => match ctx.expr_storage.at(r.0) {
            Expr::WithAttribute(a, rb) => names(ctx, a.0, n) && a.1 == lo && a.2 == hi && before(ctx, rb, r)
                && denotes(ctx, rb, *b),
            _ => false,
        },
        Tree::Lambda(ns, b) => match ctx.expr_storage.at(r.0) {
            Expr::Lambda(ids, rb) => names_all(ctx, ids@, ns) && before(ctx, rb, r) && denotes(ctx, rb, *b),
            _ => false,
        },
        Tree::App(f, args) => match ctx.expr_storage.at(r.0) {
            Expr::App(rf, ras) => before(ctx, rf, r) && denotes(ctx, rf, *f) && ras@.len() == args.len()
                && denotes_all(ctx, ras@, args, 0, r),
            _ => false,
        },
        Tree::BinOp(op, l, rr) => match ctx.expr_storage.at(r.0) {
            Expr::BinOp(o, rl, rr2) => o == op && before(ctx, rl, r) && before(ctx, rr2, r) && denotes(ctx, rl, *l)
                && denotes(ctx, rr2, *rr),
            _ => false,
        },
        Tree::Paren(b) => match ctx.expr_storage.at(r.0) {
            Expr::Paren(rb) => before(ctx, rb, r) && denotes(ctx, rb, *b),
            _ => false,
        },
    }
}

/// The expressions `rs[i..]` stand for the trees `ts[i..]` and are stored
/// before `parent`.
pub open spec fn denotes_all(ctx: ParseContext, rs: Seq<ExprRef>, ts: Seq<Tree>, i: int, parent: ExprRef) -> bool
    decreases ts, ts.len() - i,
{
    if i < 0 || i >= ts.len() || i >= rs.len() {
        true
    } else {
        before(ctx, rs[i], parent) && denotes(ctx, rs[i], ts[i]) && denotes_all(ctx, rs, ts, i + 1, parent)
    }
}

/// `new` keeps the expressions of `old` up to position `bound`, its arena,
/// its interned strings, and the spans recorded for those expressions.
pub open spec fn keeps_upto(old: ParseContext, new: ParseContext, bound: int) -> bool {
    &&& bound < new.expr_storage.items().len()
    &&& bound < old.expr_storage.items().len()
    &&& forall|k: int| 0 <= k <= bound ==> #[trigger] new.expr_storage.items()[k] == old.expr_storage.items()[k]
    &&& expr_arena_tag(new.expr_storage) == expr_arena_tag(old.expr_storage)
    &&& old.interner.strings().len() <= new.interner.strings().len()
    &&& forall|k: int| 0 <= k < old.interner.strings().len() ==> #[trigger] new.interner.strings()[k] == old.interner.strings()[k]
    &&& forall|k: usize| (k as int) <= bound && #[trigger] old.span_storage@.contains_key(k)
        ==> new.span_storage@.contains_key(k) && new.span_storage@[k] == old.span_storage@[k]
}

/// `new` is `old` with more expressions, strings and spans after those of
/// `old`.
pub open spec fn grown(old: ParseContext, new: ParseContext) -> bool {
    &&& old.expr_storage.items().len() <= new.expr_storage.items().len()
    &&& forall|k: int| 0 <= k < old.expr_storage.items().len() ==> #[trigger] new.expr_storage.items()[k]
        == old.expr_storage.items()[k]
    &&& expr_arena_tag(new.expr_storage) == expr_arena_tag(old.expr_storage)
    &&& old.interner.strings().len() <= new.interner.strings().len()
    &&& forall|k: int| 0 <= k < old.interner.strings().len() ==> #[trigger] new.interner.strings()[k] == old.interner.strings()[k]
    &&& forall|k: usize| (k as int) < old.expr_storage.items().len() && #[trigger] old.span_storage@.contains_key(k)
        ==> new.span_storage@.contains_key(k) && new.span_storage@[k] == old.span_storage@[k]
}

pub proof fn lemma_grown_refl(c: ParseContext)
    ensures
        grown(c, c),
{
}

pub proof fn lemma_grown_trans(a: ParseContext, b: ParseContext, c: ParseContext)
    requires
        grown(a, b),
        grown(b, c),
    ensures
        grown(a, c),
{
    assert forall|k: usize| (k as int) < a.expr_storage.items().len() && #[trigger] a.span_storage@.contains_key(k)
        implies c.span_storage@.contains_key(k) && c.span_storage@[k] == a.span_storage@[k] by {
        assert(b.span_storage@.contains_key(k));
    }
    assert forall|k: int| 0 <= k < a.expr_storage.items().len() implies #[trigger] c.expr_storage.items()[k]
        == a.expr_storage.items()[k] by {
        assert(b.expr_storage.items()[k] == a.expr_storage.items()[k]);
    }
    assert forall|k: int| 0 <= k < a.interner.strings().len() implies #[trigger] c.interner.strings()[k]
        == a.interner.strings()[k] by {
        assert(b.interner.strings()[k] == a.interner.strings()[k]);
    }
}

/// What an expression stands for depends only on the expressions, strings
/// and spans up to its own position.
pub proof fn lemma_denotes_keeps(old: ParseContext, new: ParseContext, r: ExprRef, t: Tree)
    requires
        denotes(old, r, t),
        keeps_upto(old, new, r.0.index as int),
    ensures
        denotes(new, r, t),
    decreases t, 0int,
{
    let i = r.0.index as int;
    assert(new.expr_storage.items()[i] == old.expr_storage.items()[i]);
    match t {
        Tree::Var(n, sp) => {
            assert(old.span_storage@.contains_key(r.0.index));
        },
        Tree::Number(b, sp) => {
            assert(old.span_storage@.contains_key(r.0.index));
        },
        Tree::Str(n, sp) => {
            assert(old.span_storage@.contains_key(r.0.index));
        },
        Tree::Nop => {},
        Tree::Let(n, b, th) => {
            if let Expr::Let(s, rb, rt) = old.expr_storage.at(r.0) {
                lemma_denotes_keeps(old, new, rb, *b);
                lemma_denotes_keeps(old, new, rt, *th);
            }
        },
        Tree::Attributed(n, lo, hi, b) => {
            if let Expr::WithAttribute(a, rb) = old.expr_storage.at(r.0) {
                lemma_denotes_keeps(old, new, rb, *b);
            }
        },
        Tree::Lambda(ns, b) => {
            if let Expr::Lambda(ids, rb) = old.expr_storage.at(r.0) {
                assert forall|k: int| 0 <= k < ids@.len() implies #[trigger] names(new, ids@[k], ns[k]) by {
                    assert(names(old, ids@[k], ns[k]));
                }
                lemma_denotes_keeps(old, new, rb, *b);
            }
        },
        Tree::App(f, args) => {
            if let Expr::App(rf, ras) = old.expr_storage.at(r.0) {
                lemma_denotes_keeps(old, new, rf, *f);
                lemma_keeps_lower(old, new, i, i - 1);
                lemma_denotes_all_keeps(old, new, ras@, args, 0, r);
            }
        },
        Tree::BinOp(op, l, rr) => {
            if let Expr::BinOp(o, rl, rr2) = old.expr_storage.at(r.0) {
                lemma_denotes_keeps(old, new, rl, *l);
                lemma_denotes_keeps(old, new, rr2, *rr);
            }
        },
        Tree::Paren(b) => {
            if let Expr::Paren(rb) = old.expr_storage.at(r.0) {
                lemma_denotes_keeps(old, new, rb, *b);
            }
        },
    }
}

pub proof fn lemma_denotes_all_keeps(old: ParseContext, new: ParseContext, rs: Seq<ExprRef>, ts: Seq<Tree>, i: int, parent: ExprRef)
    requires
        denotes_all(old, rs, ts, i, parent),
        keeps_upto(old, new, parent.0.index - 1),
    ensures
        denotes_all(new, rs, ts, i, parent),
    decreases ts, ts.len() - i,
{
    if 0 <= i < ts.len() && i < rs.len() {
        lemma_keeps_lower(old, new, parent.0.index - 1, rs[i].0.index as int);
        lemma_denotes_keeps(old, new, rs[i], ts[i]);
        lemma_denotes_all_keeps(old, new, rs, ts, i + 1, parent);
    }
}

pub proof fn lemma_keeps_lower(old: ParseContext, new: ParseContext, bound: int, lower: int)
    requires
        keeps_upto(old, new, bound),
        lower <= bound,
    ensures
        keeps_upto(old, new, lower),
{
}

/// Growing keeps what every expression of the old context stands for.
pub proof fn lemma_denotes_grown(old: ParseContext, new: ParseContext, r: ExprRef, t: Tree)
    requires
        denotes(old, r, t),
        grown(old, new),
    ensures
        denotes(new, r, t),
{
    lemma_denotes_keeps(old, new, r, t);
}

/// The parts of a node other than a leaf are stored before it, so giving
/// the node a span of its own changes nothing it stands for.
pub proof fn lemma_denotes_respan(old: ParseContext, new: ParseContext, r: ExprRef, t: Tree, sp: Span)
    requires
        denotes(old, r, t),
        !(t is Var || t is Number || t is Str),
        new.expr_storage == old.expr_storage,
        new.interner == old.interner,
        new.span_storage@ == old.span_storage@.insert(r.0.index, sp),
    ensures
        denotes(new, r, t),
{
    let i = r.0.index as int;
    assert(keeps_upto(old, new, i - 1));
    match t {
        Tree::Let(n, b, th) => {
            if let Expr::Let(s, rb, rt) = old.expr_storage.at(r.0) {
                lemma_keeps_lower(old, new, i - 1, rb.0.index as int);
                lemma_denotes_keeps(old, new, rb, *b);
                lemma_keeps_lower(old, new, i - 1, rt.0.index as int);
                lemma_denotes_keeps(old, new, rt, *th);
            }
        },
        Tree::Attributed(n, lo, hi, b) => {
            if let Expr::WithAttribute(a, rb) = old.expr_storage.at(r.0) {
                lemma_keeps_lower(old, new, i - 1, rb.0.index as int);
                lemma_denotes_keeps(old, new, rb, *b);
            }
        },
        Tree::Lambda(ns, b) => {
            if let Expr::Lambda(ids, rb) = old.expr_storage.at(r.0) {
                assert forall|k: int| 0 <= k < ids@.len() implies #[trigger] names(new, ids@[k], ns[k]) by {
                    assert(names(old, ids@[k], ns[k]));
                }
                lemma_keeps_lower(old, new, i - 1, rb.0.index as int);
                lemma_denotes_keeps(old, new, rb, *b);
            }
        },
        Tree::App(f, args) => {
            if let Expr::App(rf, ras) = old.expr_storage.at(r.0) {
                lemma_keeps_lower(old, new, i - 1, rf.0.index as int);
                lemma_denotes_keeps(old, new, rf, *f);
                lemma_denotes_all_keeps(old, new, ras@, args, 0, r);
            }
        },
        Tree::BinOp(op, l, rr) => {
            if let Expr::BinOp(o, rl, rr2) = old.expr_storage.at(r.0) {
                lemma_keeps_lower(old, new, i - 1, rl.0.index as int);
                lemma_denotes_keeps(old, new, rl, *l);
                lemma_keeps_lower(old, new, i - 1, rr2.0.index as int);
                lemma_denotes_keeps(old, new, rr2, *rr);
            }
        },
        Tree::Paren(b) => {
            if let Expr::Paren(rb) = old.expr_storage.at(r.0) {
                lemma_keeps_lower(old, new, i - 1, rb.0.index as int);
                lemma_denotes_keeps(old, new, rb, *b);
            }
        },
        _ => {},
    }
}

/// Expressions that each stand for their tree and are stored before
/// `parent` stand for the trees together.
pub proof fn lemma_denotes_all_intro(ctx: ParseContext, rs: Seq<ExprRef>, ts: Seq<Tree>, i: int, parent: ExprRef)
    requires
        0 <= i,
        rs.len() == ts.len(),
        forall|k: int| i <= k < rs.len() ==> before(ctx, #[trigger] rs[k], parent) && denotes(ctx, rs[k], ts[k]),
    ensures
        denotes_all(ctx, rs, ts, i, parent),
    decreases ts.len() - i,
{
    if i < ts.len() {
        assert(before(ctx, rs[i], parent) && denotes(ctx, rs[i], ts[i]));
        lemma_denotes_all_intro(ctx, rs, ts, i + 1, parent);
    }
}


/// The number of expressions that storing `t` adds: one for each node.
pub open spec fn tree_size(t: Tree) -> nat
    decreases t,
{
    match t {
        Tree::Let(_, b, th) => 1 + tree_size(*b) + tree_size(*th),
        Tree::Attributed(_, _, _, b) => 1 + tree_size(*b),
        Tree::Lambda(_, b) => 1 + tree_size(*b),
        Tree::App(f, args) => 1 + tree_size(*f) + trees_size(args),
        Tree::BinOp(_, l, r) => 1 + tree_size(*l) + tree_size(*r),
        Tree::Paren(b) => 1 + tree_size(*b),
        _ => 1,
    }
}

pub open spec fn trees_size(ts: Seq<Tree>) -> nat
    decreases ts,
{
    if ts.len() == 0 {
        0
    } else {
        trees_size(ts.drop_last()) + tree_size(ts.last())
    }
}

/// The number of names that storing `t` interns at most: one for each
/// variable, `let`, attribute and lambda parameter.
pub open spec fn tree_names(t: Tree) -> nat
    decreases t,
{
    match t {
        Tree::Var(_, _) => 1,
        Tree::Let(_, b, th) => 1 + tree_names(*b) + tree_names(*th),
        Tree::Attributed(_, _, _, b) => 1 + tree_names(*b),
        Tree::Lambda(ns, b) => ns.len() + tree_names(*b),
        Tree::App(f, args) => tree_names(*f) + trees_names(args),
        Tree::BinOp(_, l, r) => tree_names(*l) + tree_names(*r),
        Tree::Paren(b) => tree_names(*b),
        _ => 0,
    }
}

pub open spec fn trees_names(ts: Seq<Tree>) -> nat
    decreases ts,
{
    if ts.len() == 0 {
        0
    } else {
        trees_names(ts.drop_last()) + tree_names(ts.last())
    }
}

/// `ctx` has room to store `t`.
pub open spec fn fits(ctx: ParseContext, t: Tree) -> bool {
    &&& ctx.expr_storage.items().len() + tree_size(t) <= usize::MAX
    &&& ctx.interner.strings().len() + tree_names(t) < usize::MAX
}

proof fn lemma_trees_one(t: Tree)
    ensures
        trees_size(seq![t]) == tree_size(t),
        trees_names(seq![t]) == tree_names(t),
{
    let one = seq![t];
    assert(one.drop_last() =~= Seq::<Tree>::empty());
    assert(one.last() == t);
    assert(trees_size(Seq::<Tree>::empty()) == 0);
    assert(trees_names(Seq::<Tree>::empty()) == 0);
    assert(trees_size(one) == trees_size(one.drop_last()) + tree_size(one.last()));
    assert(trees_names(one) == trees_names(one.drop_last()) + tree_names(one.last()));
}

proof fn lemma_trees_push(ts: Seq<Tree>, t: Tree)
    ensures
        trees_size(ts.push(t)) == trees_size(ts) + tree_size(t),
        trees_names(ts.push(t)) == trees_names(ts) + tree_names(t),
{
    assert(ts.push(t).drop_last() =~= ts);
    assert(ts.push(t).last() == t);
}

proof fn lemma_trees_prefix(ts: Seq<Tree>, i: int)
    requires
        0 <= i <= ts.len(),
    ensures
        trees_size(ts.take(i)) <= trees_size(ts),
        trees_names(ts.take(i)) <= trees_names(ts),
    decreases ts.len(),
{
    if i < ts.len() {
        assert(ts.drop_last().take(i) =~= ts.take(i));
        lemma_trees_prefix(ts.drop_last(), i);
    } else {
        assert(ts.take(i) =~= ts);
    }
}

/// A parse takes at least as many tokens as its tree has nodes, and as it
/// has names.
proof fn lemma_level_size(ts: Seq<(Token, Span)>, k: nat, i: int)
    ensures
        p_level(ts, k, i) matches Ok((t, j)) ==> tree_size(t) <= j - i && tree_names(t) <= j - i,
    decreases ts.len() - i, k as int, 3int,
{
    if k == 0 {
        lemma_apply_size(ts, i);
    } else {
        lemma_level_size(ts, (k - 1) as nat, i);
        if let Ok((lhs, j)) = p_level(ts, (k - 1) as nat, i) {
            if i < j <= ts.len() {
                lemma_rest_size(ts, k, j, lhs);
            }
        }
    }
}

proof fn lemma_rest_size(ts: Seq<(Token, Span)>, k: nat, j: int, lhs: Tree)
    ensures
        p_rest(ts, k, j, lhs).1 >= j,
        tree_size(p_rest(ts, k, j, lhs).0) <= tree_size(lhs) + (p_rest(ts, k, j, lhs).1 - j),
        tree_names(p_rest(ts, k, j, lhs).0) <= tree_names(lhs) + (p_rest(ts, k, j, lhs).1 - j),
    decreases ts.len() - j, k as int, 2int,
{
    if 0 <= j < ts.len() && ts[j].0 is Op && level_has(k, ts[j].0->Op_0) && j + 1 + breaks_from(ts, j + 1) <= ts.len() {
        let op = ts[j].0->Op_0;
        let j1 = j + 1 + breaks_from(ts, j + 1);
        lemma_level_size(ts, (k - 1) as nat, j1);
        if let Ok((rhs, j2)) = p_level(ts, (k - 1) as nat, j1) {
            if j < j2 <= ts.len() {
                lemma_trees_one(lhs);
                lemma_rest_size(ts, k, j2, combined(op, lhs, rhs));
            }
        }
    }
}

proof fn lemma_apply_size(ts: Seq<(Token, Span)>, i: int)
    ensures
        p_apply(ts, i) matches Ok((t, j)) ==> tree_size(t) <= j - i && tree_names(t) <= j - i,
    decreases ts.len() - i, 0int, 2int,
{
    lemma_atom_size(ts, i);
    if let Ok((f, j)) = p_atom(ts, i) {
        if i < j <= ts.len() {
            lemma_calls_size(ts, j, f);
        }
    }
}

proof fn lemma_calls_size(ts: Seq<(Token, Span)>, j: int, f: Tree)
    ensures
        p_calls(ts, j, f).1 >= j,
        tree_size(p_calls(ts, j, f).0) <= tree_size(f) + (p_calls(ts, j, f).1 - j),
        tree_names(p_calls(ts, j, f).0) <= tree_names(f) + (p_calls(ts, j, f).1 - j),
    decreases ts.len() - j, 0int, 1int,
{
    if 0 <= j < ts.len() && ts[j].0 is ParenBegin {
        lemma_items_size(ts, j + 1, Seq::empty());
        let (args, j2) = p_items(ts, j + 1, Seq::empty());
        if j2 > j && 0 <= j2 < ts.len() && ts[j2].0 is ParenEnd {
            lemma_calls_size(ts, j2 + 1, Tree::App(Box::new(f), args));
        }
    }
}

proof fn lemma_items_size(ts: Seq<(Token, Span)>, j: int, acc: Seq<Tree>)
    ensures
        p_items(ts, j, acc).1 >= j,
        trees_size(p_items(ts, j, acc).0) <= trees_size(acc) + (p_items(ts, j, acc).1 - j),
        trees_names(p_items(ts, j, acc).0) <= trees_names(acc) + (p_items(ts, j, acc).1 - j),
    decreases ts.len() - j, 9int, 0int,
{
    lemma_level_size(ts, 8, j);
    if let Ok((t, j1)) = p_level(ts, 8, j) {
        if j < j1 <= ts.len() {
            lemma_trees_push(acc, t);
            if 0 <= j1 < ts.len() && ts[j1].0 is Comma {
                lemma_items_size(ts, j1 + 1, acc.push(t));
            }
        }
    }
}

proof fn lemma_atom_size(ts: Seq<(Token, Span)>, i: int)
    ensures
        p_atom(ts, i) matches Ok((t, j)) ==> tree_size(t) <= j - i && tree_names(t) <= j - i,
    decreases ts.len() - i, 0int, 1int,
{
    if 0 <= i < ts.len() {
        match ts[i].0 {
            Token::LambdaArgBeginEnd => lemma_lambda_size(ts, i),
            Token::Let => lemma_let_size(ts, i),
            Token::SharpAngleBracketBegin => lemma_let_size(ts, i),
            Token::ParenBegin => lemma_level_size(ts, 8, i + 1),
            _ => {},
        }
    }
}

proof fn lemma_names_size(ts: Seq<(Token, Span)>, j: int, acc: Seq<Seq<char>>)
    ensures
        names_from(ts, j, acc).1 >= j,
        names_from(ts, j, acc).0.len() <= acc.len() + (names_from(ts, j, acc).1 - j),
    decreases ts.len() - j,
{
    if 0 <= j < ts.len() && ts[j].0 is Ident {
        let acc2 = acc.push(ts[j].0->Ident_0@);
        if j + 2 < ts.len() && ts[j + 1].0 is Comma && ts[j + 2].0 is Ident {
            lemma_names_size(ts, j + 2, acc2);
        }
    }
}

proof fn lemma_lambda_size(ts: Seq<(Token, Span)>, i: int)
    ensures
        p_lambda(ts, i) matches Ok((t, j)) ==> tree_size(t) <= j - i && tree_names(t) <= j - i,
    decreases ts.len() - i, 0int, 0int,
{
    lemma_names_size(ts, i + 1, Seq::empty());
    let (names, j) = names_from(ts, i + 1, Seq::empty());
    if j > i && 0 <= j < ts.len() && ts[j].0 is LambdaArgBeginEnd {
        let j2 = if 0 <= j + 1 < ts.len() && ts[j + 1].0 is Arrow { j + 2 } else { j + 1 };
        lemma_level_size(ts, 8, j2);
    }
}

proof fn lemma_let_size(ts: Seq<(Token, Span)>, i: int)
    ensures
        p_let(ts, i) matches Ok((t, j)) ==> tree_size(t) <= j - i && tree_names(t) <= j - i,
    decreases ts.len() - i, 0int, 0int,
{
    let attr = match attribute_at(ts, i) {
        Some(a) => if 0 <= i + 8 < ts.len() && ts[i + 8].0 is LineBreak { Some(a) } else { None },
        None => None,
    };
    let j = if attr is Some { i + 9 } else { i };
    if 0 <= j < ts.len() && ts[j].0 is Let && j + 1 < ts.len() && ts[j + 1].0 is Ident && j + 2 < ts.len()
        && ts[j + 2].0 is Assign {
        lemma_level_size(ts, 8, j + 3);
        if let Ok((body, j4)) = p_level(ts, 8, j + 3) {
            if j < j4 && j4 + separators_from(ts, j4) <= ts.len() {
                let j5 = j4 + separators_from(ts, j4);
                lemma_level_size(ts, 8, j5);
                let name = ts[j + 1].0->Ident_0@;
                let (then, j6) = match p_level(ts, 8, j5) {
                    Ok((t, j6)) => (t, j6),
                    Err(_) => (Tree::Nop, j5),
                };
                let l = Tree::Let(name, Box::new(body), Box::new(then));
                assert(tree_size(then) <= j6 - j5 + 1);
                assert(tree_size(l) == 1 + tree_size(body) + tree_size(then));
                assert(tree_names(l) == 1 + tree_names(body) + tree_names(then));
                let t = match attr {
                    Some((an, lo, hi)) => Tree::Attributed(an, lo, hi, Box::new(l)),
                    None => l,
                };
                assert(p_let(ts, i) == Ok::<(Tree, int), int>((t, j6)));
            }
        }
    }
}

fn room(ctx: &ParseContext) -> (b: bool)
    ensures
        b == ctx.has_room(),
{
    ctx.expr_storage.len() < usize::MAX && ctx.interner.len() < usize::MAX
}

fn span_at(ts: &[(Token, Span)], i: usize) -> (sp: Span)
    requires
        i < ts@.len(),
    ensures
        sp == ts@[i as int].1,
{
    Range { start: ts[i].1.start, end: ts[i].1.end }
}

fn breaks(ts: &[(Token, Span)], i: usize) -> (n: usize)
    requires
        i <= ts@.len(),
    ensures
        n == breaks_from(ts@, i as int),
        i + n <= ts@.len(),
    decreases ts@.len() - i,
{
    if i < ts.len() {
        match &ts[i].0 {
            Token::LineBreak => 1 + breaks(ts, i + 1),
            _ => 0,
        }
    } else {
        0
    }
}

fn separators(ts: &[(Token, Span)], i: usize) -> (n: usize)
    requires
        i <= ts@.len(),
    ensures
        n == separators_from(ts@, i as int),
        i + n <= ts@.len(),
    decreases ts@.len() - i,
{
    if i < ts.len() {
        match &ts[i].0 {
            Token::LineBreak => 1 + separators(ts, i + 1),
            Token::SemiColon => 1 + separators(ts, i + 1),
            _ => 0,
        }
    } else {
        0
    }
}

fn level_has_op(k: usize, op: Op) -> (b: bool)
    ensures
        b == level_has(k as nat, op),
{
    match op {
        Op::Exponent => k == 1,
        Op::Product => k == 2,
        Op::Divide => k == 2,
        Op::Modulo => k == 2,
        Op::Sum => k == 3,
        Op::Minus => k == 3,
        Op::Equal => k == 4,
        Op::NotEqual => k == 4,
        Op::And => k == 5,
        Op::Or => k == 6,
        Op::LessThan => k == 7,
        Op::LessEqual => k == 7,
        Op::GreaterThan => k == 7,
        Op::GreaterEqual => k == 7,
        Op::Pipe => k == 8,
        Op::Unknown => false,
    }
}

fn number_in(t: &Token) -> (r: Option<u64>)
    ensures
        r == number_of(*t),
{
    match t {
        Token::Int(b) => Some(*b),
        Token::Float(b) => Some(*b),
        _ => None,
    }
}

/// The attribute in the eight tokens from `i`, as `attribute_at` reads it.
fn attribute_in(ts: &[(Token, Span)], i: usize) -> (r: Option<(&str, u64, u64)>)
    ensures
        r is Some <==> attribute_at(ts@, i as int) is Some,
        r matches Some((n, lo, hi)) ==> attribute_at(ts@, i as int) == Some((n@, lo, hi)),
{
    if i >= ts.len() || ts.len() - i < 8 {
        return None;
    }
    let name = match &ts[i + 1].0 {
        Token::Ident(s) => s.as_str(),
        _ => {
            return None;
        },
    };
    let lo = match number_in(&ts[i + 3].0) {
        Some(b) => b,
        None => {
            return None;
        },
    };
    let hi = match number_in(&ts[i + 5].0) {
        Some(b) => b,
        None => {
            return None;
        },
    };
    match (&ts[i].0, &ts[i + 2].0, &ts[i + 4].0, &ts[i + 6].0, &ts[i + 7].0) {
        (Token::SharpAngleBracketBegin, Token::ParenBegin, Token::DoubleDot, Token::ParenEnd, Token::AngleBracketEnd) => Some(
            (name, lo, hi),
        ),
        _ => None,
    }
}


/// A tree as the parser builds it, before it is stored.
#[derive(Debug)]
enum Syntax {
    Var(String, Span),
    Number(u64, Span),
    Str(String, Span),
    Nop,
    Let(String, Box<Syntax>, Box<Syntax>),
    Attributed(String, u64, u64, Box<Syntax>),
    Lambda(Vec<String>, Box<Syntax>),
    App(Box<Syntax>, Vec<Syntax>),
    BinOp(Op, Box<Syntax>, Box<Syntax>),
    Paren(Box<Syntax>),
}

spec fn strings_view(ns: Seq<String>) -> Seq<Seq<char>> {
    Seq::new(ns.len(), |i: int| ns[i]@)
}

spec fn syntax_view(s: Syntax) -> Tree
    decreases s,
{
    match s {
        Syntax::Var(n, sp) => Tree::Var(n@, sp),
        Syntax::Number(b, sp) => Tree::Number(b, sp),
        Syntax::Str(n, sp) => Tree::Str(n@, sp),
        Syntax::Nop => Tree::Nop,
        Syntax::Let(n, b, th) => Tree::Let(n@, Box::new(syntax_view(*b)), Box::new(syntax_view(*th))),
        Syntax::Attributed(n, lo, hi, b) => Tree::Attributed(n@, lo, hi, Box::new(syntax_view(*b))),
        Syntax::Lambda(ns, b) => Tree::Lambda(strings_view(ns@), Box::new(syntax_view(*b))),
        Syntax::App(f, args) => Tree::App(Box::new(syntax_view(*f)), syntaxes_view(args@)),
        Syntax::BinOp(op, l, r) => Tree::BinOp(op, Box::new(syntax_view(*l)), Box::new(syntax_view(*r))),
        Syntax::Paren(b) => Tree::Paren(Box::new(syntax_view(*b))),
    }
}

spec fn syntaxes_view(s: Seq<Syntax>) -> Seq<Tree>
    decreases s,
{
    if s.len() == 0 {
        Seq::empty()
    } else {
        syntaxes_view(s.drop_last()).push(syntax_view(s.last()))
    }
}

proof fn lemma_syntaxes_view(s: Seq<Syntax>)
    ensures
        syntaxes_view(s).len() == s.len(),
        forall|i: int| 0 <= i < s.len() ==> #[trigger] syntaxes_view(s)[i] == syntax_view(s[i]),
    decreases s.len(),
{
    if s.len() > 0 {
        lemma_syntaxes_view(s.drop_last());
    }
}

proof fn lemma_syntaxes_view_push(s: Seq<Syntax>, x: Syntax)
    ensures
        syntaxes_view(s.push(x)) == syntaxes_view(s).push(syntax_view(x)),
{
    assert(s.push(x).drop_last() =~= s);
}

/// The outcome `r` of a parsing step is the grammar's `p`.
spec fn parsed_as(r: Result<(Syntax, usize), usize>, p: Parsed) -> bool {
    match r {
        Ok((s, j)) => p == Ok::<(Tree, int), int>((syntax_view(s), j as int)),
        Err(q) => p == Err::<(Tree, int), int>(q as int),
    }
}

fn parse_level(ts: &[(Token, Span)], k: usize, i: usize) -> (r: Result<(Syntax, usize), usize>)
    requires
        i <= ts@.len(),
        k <= 8,
    ensures
        parsed_as(r, p_level(ts@, k as nat, i as int)),
    decreases ts@.len() - i, k as int, 3int,
{
    if k == 0 {
        return parse_apply(ts, i);
    }
    match parse_level(ts, k - 1, i) {
        Err(p) => Err(p),
        Ok((lhs, j)) => {
            if !(i < j && j <= ts.len()) {
                return Err(i);
            }
            let (e, j2) = parse_rest(ts, k, j, lhs);
            Ok((e, j2))
        },
    }
}

fn parse_rest(ts: &[(Token, Span)], k: usize, j: usize, lhs: Syntax) -> (r: (Syntax, usize))
    requires
        1 <= k <= 8,
        j <= ts@.len(),
    ensures
        (syntax_view(r.0), r.1 as int) == p_rest(ts@, k as nat, j as int, syntax_view(lhs)),
    decreases ts@.len() - j, k as int, 2int,
{
    if j < ts.len() {
        if let Token::Op(op) = &ts[j].0 {
            let op = *op;
            if level_has_op(k, op) {
                let n = breaks(ts, j + 1);
                let j1 = j + 1 + n;
                match parse_level(ts, k - 1, j1) {
                    Ok((rhs, j2)) => {
                        if j < j2 && j2 <= ts.len() {
                            let ghost lt = syntax_view(lhs);
                            let ghost rt = syntax_view(rhs);
                            let e = match op {
                                Op::Pipe => {
                                    let args = vec![lhs];
                                    proof {
                                        assert(args@ =~= seq![lhs]);
                                        lemma_syntaxes_view_push(Seq::empty(), lhs);
                                        assert(Seq::<Syntax>::empty().push(lhs) =~= seq![lhs]);
                                        assert(Seq::<Tree>::empty().push(lt) =~= seq![lt]);
                                    }
                                    Syntax::App(Box::new(rhs), args)
                                },
                                _ => Syntax::BinOp(op, Box::new(lhs), Box::new(rhs)),
                            };
                            assert(syntax_view(e) == combined(op, lt, rt));
                            return parse_rest(ts, k, j2, e);
                        }
                        return (lhs, j);
                    },
                    Err(_) => {
                        return (lhs, j);
                    },
                }
            }
        }
    }
    (lhs, j)
}

fn parse_apply(ts: &[(Token, Span)], i: usize) -> (r: Result<(Syntax, usize), usize>)
    requires
        i <= ts@.len(),
    ensures
        parsed_as(r, p_apply(ts@, i as int)),
    decreases ts@.len() - i, 0int, 2int,
{
    match parse_atom(ts, i) {
        Err(p) => Err(p),
        Ok((f, j)) => {
            if !(i < j && j <= ts.len()) {
                return Err(i);
            }
            let (e, j2) = parse_calls(ts, j, f);
            Ok((e, j2))
        },
    }
}

fn parse_calls(ts: &[(Token, Span)], j: usize, f: Syntax) -> (r: (Syntax, usize))
    requires
        j <= ts@.len(),
    ensures
        (syntax_view(r.0), r.1 as int) == p_calls(ts@, j as int, syntax_view(f)),
    decreases ts@.len() - j, 0int, 1int,
{
    if j < ts.len() {
        if let Token::ParenBegin = &ts[j].0 {
            proof {
                assert(syntaxes_view(Seq::<Syntax>::empty()) =~= Seq::<Tree>::empty());
            }
            let (args, j2) = parse_items(ts, j + 1, Vec::new());
            if j < j2 && j2 < ts.len() {
                if let Token::ParenEnd = &ts[j2].0 {
                    return parse_calls(ts, j2 + 1, Syntax::App(Box::new(f), args));
                }
            }
            return (f, j);
        }
    }
    (f, j)
}

fn parse_items(ts: &[(Token, Span)], j: usize, acc: Vec<Syntax>) -> (r: (Vec<Syntax>, usize))
    requires
        j <= ts@.len(),
    ensures
        (syntaxes_view(r.0@), r.1 as int) == p_items(ts@, j as int, syntaxes_view(acc@)),
    decreases ts@.len() - j, 9int, 0int,
{
    match parse_level(ts, 8, j) {
        Err(_) => (acc, j),
        Ok((e, j1)) => {
            if !(j < j1 && j1 <= ts.len()) {
                return (acc, j);
            }
            let ghost acc0 = acc@;
            let mut acc = acc;
            proof {
                lemma_syntaxes_view_push(acc0, e);
            }
            acc.push(e);
            if j1 < ts.len() {
                if let Token::Comma = &ts[j1].0 {
                    return parse_items(ts, j1 + 1, acc);
                }
            }
            (acc, j1)
        },
    }
}

fn parse_atom(ts: &[(Token, Span)], i: usize) -> (r: Result<(Syntax, usize), usize>)
    requires
        i <= ts@.len(),
    ensures
        parsed_as(r, p_atom(ts@, i as int)),
    decreases ts@.len() - i, 0int, 1int,
{
    if i >= ts.len() {
        return Err(i);
    }
    let sp = span_at(ts, i);
    match &ts[i].0 {
        Token::Ident(s) => Ok((Syntax::Var(s.clone(), sp), i + 1)),
        Token::Int(b) => Ok((Syntax::Number(*b, sp), i + 1)),
        Token::Float(b) => Ok((Syntax::Number(*b, sp), i + 1)),
        Token::Str(s) => Ok((Syntax::Str(s.clone(), sp), i + 1)),
        Token::LambdaArgBeginEnd => parse_lambda(ts, i),
        Token::Let => parse_let(ts, i),
        Token::SharpAngleBracketBegin => parse_let(ts, i),
        Token::ParenBegin => match parse_level(ts, 8, i + 1) {
            Err(p) => Err(p),
            Ok((e, j)) => {
                if j < ts.len() {
                    if let Token::ParenEnd = &ts[j].0 {
                        return Ok((Syntax::Paren(Box::new(e)), j + 1));
                    }
                }
                Err(j)
            },
        },
        _ => Err(i),
    }
}

fn parse_names(ts: &[(Token, Span)], j: usize, acc: Vec<String>) -> (r: (Vec<String>, usize))
    requires
        j <= ts@.len(),
    ensures
        (strings_view(r.0@), r.1 as int) == names_from(ts@, j as int, strings_view(acc@)),
    decreases ts@.len() - j,
{
    if j < ts.len() {
        if let Token::Ident(s) = &ts[j].0 {
            let ghost acc0 = acc@;
            let mut acc = acc;
            acc.push(s.clone());
            proof {
                assert(strings_view(acc@) =~= strings_view(acc0).push(s@));
            }
            if ts.len() - j > 2 {
                if let (Token::Comma, Token::Ident(_)) = (&ts[j + 1].0, &ts[j + 2].0) {
                    return parse_names(ts, j + 2, acc);
                }
            }
            return (acc, j + 1);
        }
    }
    (acc, j)
}

fn parse_lambda(ts: &[(Token, Span)], i: usize) -> (r: Result<(Syntax, usize), usize>)
    requires
        i < ts@.len(),
    ensures
        parsed_as(r, p_lambda(ts@, i as int)),
    decreases ts@.len() - i, 0int, 0int,
{
    let n = ts.len();
    proof {
        assert(strings_view(Seq::<String>::empty()) =~= Seq::<Seq<char>>::empty());
    }
    let (names, j) = parse_names(ts, i + 1, Vec::new());
    if !(i < j && j < ts.len()) {
        return Err(j);
    }
    match &ts[j].0 {
        Token::LambdaArgBeginEnd => {},
        _ => {
            return Err(j);
        },
    }
    let j2 = if j + 1 < ts.len() {
        match &ts[j + 1].0 {
            Token::Arrow => j + 2,
            _ => j + 1,
        }
    } else {
        j + 1
    };
    match parse_level(ts, 8, j2) {
        Err(p) => Err(p),
        Ok((b, j3)) => Ok((Syntax::Lambda(names, Box::new(b)), j3)),
    }
}

fn parse_let(ts: &[(Token, Span)], i: usize) -> (r: Result<(Syntax, usize), usize>)
    requires
        i < ts@.len(),
    ensures
        parsed_as(r, p_let(ts@, i as int)),
    decreases ts@.len() - i, 0int, 0int,
{
    let ghost spec_attr = match attribute_at(ts@, i as int) {
        Some(a) => if 0 <= i + 8 < ts@.len() && ts@[i + 8].0 is LineBreak { Some(a) } else { None },
        None => None,
    };
    let mut attr: Option<(String, u64, u64)> = None;
    let mut j = i;
    if let Some((an, lo, hi)) = attribute_in(ts, i) {
        if ts.len() - i > 8 {
            if let Token::LineBreak = &ts[i + 8].0 {
                attr = Some((an.to_owned(), lo, hi));
                j = i + 9;
            }
        }
    }
    assert(attr is Some <==> spec_attr is Some);
    assert(attr matches Some((an, lo, hi)) ==> spec_attr == Some((an@, lo, hi)));
    if !(j < ts.len()) {
        return Err(j);
    }
    match &ts[j].0 {
        Token::Let => {},
        _ => {
            return Err(j);
        },
    }
    if !(j + 1 < ts.len()) {
        return Err(j + 1);
    }
    let name = match &ts[j + 1].0 {
        Token::Ident(s) => s.clone(),
        _ => {
            return Err(j + 1);
        },
    };
    if !(j + 2 < ts.len()) {
        return Err(j + 2);
    }
    match &ts[j + 2].0 {
        Token::Assign => {},
        _ => {
            return Err(j + 2);
        },
    }
    let (body, j4) = match parse_level(ts, 8, j + 3) {
        Err(p) => {
            return Err(p);
        },
        Ok(x) => x,
    };
    if !(j < j4 && j4 <= ts.len()) {
        return Err(j);
    }
    let n = separators(ts, j4);
    let j5 = j4 + n;
    let (then, j6) = match parse_level(ts, 8, j5) {
        Ok(x) => x,
        Err(_) => (Syntax::Nop, j5),
    };
    let ghost tl = Tree::Let(ts@[j + 1].0->Ident_0@, Box::new(syntax_view(body)), Box::new(syntax_view(then)));
    let l = Syntax::Let(name, Box::new(body), Box::new(then));
    assert(syntax_view(l) == tl);
    assert(j == (if spec_attr is Some { i + 9 } else { i as int }));
    match attr {
        Some((an, lo, hi)) => {
            let ghost sa = spec_attr;
            assert(sa == Some((an@, lo, hi)));
            Ok((Syntax::Attributed(an, lo, hi, Box::new(l)), j6))
        },
        None => Ok((l, j6)),
    }
}

proof fn lemma_grown_after_drop_last(c1: ParseContext, c2: ParseContext)
    requires
        c2.expr_storage.items().drop_last() == c1.expr_storage.items(),
        c2.expr_storage.items().len() == c1.expr_storage.items().len() + 1,
        expr_arena_tag(c2.expr_storage) == expr_arena_tag(c1.expr_storage),
        c2.interner == c1.interner,
        c2.span_storage@ == c1.span_storage@,
    ensures
        grown(c1, c2),
{
    assert forall|q: int| 0 <= q < c1.expr_storage.items().len() implies #[trigger] c2.expr_storage.items()[q]
        == c1.expr_storage.items()[q] by {
        assert(c2.expr_storage.items().drop_last()[q] == c2.expr_storage.items()[q]);
    }
}

/// What storing `t` leaves: `new` grows from `old` by at most the nodes and
/// names of `t`; the result stands for `t` and is stored after everything of
/// `old`; and it is missing only when `old` has no room for `t`.
spec fn store_post(old: ParseContext, new: ParseContext, t: Tree, r: Option<ExprRef>) -> bool {
    &&& grown(old, new)
    &&& new.expr_storage.items().len() <= old.expr_storage.items().len() + tree_size(t)
    &&& new.interner.strings().len() <= old.interner.strings().len() + tree_names(t)
    &&& (r matches Some(e) ==> (denotes(new, e, t) && e.0.index >= old.expr_storage.items().len()))
    &&& (fits(old, t) ==> r is Some)
}

proof fn lemma_interned_grown(c1: ParseContext, c2: ParseContext)
    requires
        c2.expr_storage == c1.expr_storage,
        c2.span_storage@ == c1.span_storage@,
        c1.interner.strings().len() <= c2.interner.strings().len(),
        c2.interner.strings().subrange(0, c1.interner.strings().len() as int) == c1.interner.strings(),
    ensures
        grown(c1, c2),
{
    assert forall|q: int| 0 <= q < c1.interner.strings().len() implies #[trigger] c2.interner.strings()[q]
        == c1.interner.strings()[q] by {
        assert(c2.interner.strings().subrange(0, c1.interner.strings().len() as int)[q] == c2.interner.strings()[q]);
    }
}

/// Stores the trees `args` in turn, as `store` does each.
fn store_all(ctx: &mut ParseContext, args: &Vec<Syntax>) -> (r: Option<Vec<ExprRef>>)
    ensures
        grown(*old(ctx), *final(ctx)),
        final(ctx).expr_storage.items().len() <= old(ctx).expr_storage.items().len() + trees_size(syntaxes_view(args@)),
        final(ctx).interner.strings().len() <= old(ctx).interner.strings().len() + trees_names(syntaxes_view(args@)),
        r matches Some(rs) ==> rs@.len() == args@.len() && forall|q: int| 0 <= q < rs@.len() ==> #[trigger] denotes(
            *final(ctx),
            rs@[q],
            syntaxes_view(args@)[q],
        ) && rs@[q].0.index >= old(ctx).expr_storage.items().len(),
        old(ctx).expr_storage.items().len() + trees_size(syntaxes_view(args@)) <= usize::MAX
            && old(ctx).interner.strings().len() + trees_names(syntaxes_view(args@)) < usize::MAX ==> r is Some,
    decreases args, 3int,
{
    let ghost c1 = *ctx;
    let ghost tv = syntaxes_view(args@);
    proof {
        lemma_grown_refl(c1);
        lemma_syntaxes_view(args@);
        assert(tv.take(0) =~= Seq::<Tree>::empty());
    }
    let mut rs: Vec<ExprRef> = Vec::new();
    let mut i: usize = 0;
    while i < args.len()
        invariant
            i <= args@.len(),
            c1 == *old(ctx),
            tv == syntaxes_view(args@),
            tv.len() == args@.len(),
            forall|q: int| 0 <= q < args@.len() ==> #[trigger] tv[q] == syntax_view(args@[q]),
            rs@.len() == i,
            grown(c1, *ctx),
            forall|q: int| 0 <= q < i ==> #[trigger] denotes(*ctx, rs@[q], tv[q]) && rs@[q].0.index
                >= c1.expr_storage.items().len(),
            ctx.expr_storage.items().len() <= c1.expr_storage.items().len() + trees_size(tv.take(i as int)),
            ctx.interner.strings().len() <= c1.interner.strings().len() + trees_names(tv.take(i as int)),
        decreases args@.len() - i,
    {
        let ghost cb = *ctx;
        let a = &args[i];
        let ghost ta = tv[i as int];
        proof {
            assert(decreases_to!(args => args@[i as int]));
            assert(*a == args@[i as int]);
            assert(syntax_view(*a) == ta);
            assert(tv.take(i + 1).drop_last() =~= tv.take(i as int));
            assert(tv.take(i + 1).last() == ta);
            assert(trees_size(tv.take(i + 1)) == trees_size(tv.take(i as int)) + tree_size(ta));
            assert(trees_names(tv.take(i + 1)) == trees_names(tv.take(i as int)) + tree_names(ta));
            lemma_trees_prefix(tv, i + 1);
        }
        let r = store(ctx, a);
        proof {
            lemma_grown_trans(c1, cb, *ctx);
        }
        let e = match r {
            Some(e) => e,
            None => {
                return None;
            },
        };
        proof {
            assert forall|q: int| 0 <= q < i implies #[trigger] denotes(*ctx, rs@[q], tv[q]) by {
                lemma_denotes_grown(cb, *ctx, rs@[q], tv[q]);
            }
        }
        let ghost rs0 = rs@;
        rs.push(e);
        proof {
            assert forall|q: int| 0 <= q < i + 1 implies #[trigger] denotes(*ctx, rs@[q], tv[q]) && rs@[q].0.index
                >= c1.expr_storage.items().len() by {
                if q < i {
                    assert(rs@[q] == rs0[q]);
                    assert(denotes(cb, rs0[q], tv[q]));
                    assert(denotes(*ctx, rs0[q], tv[q]));
                } else {
                    assert(rs@[q] == e);
                    assert(cb.expr_storage.items().len() >= c1.expr_storage.items().len());
                    assert(e.0.index >= cb.expr_storage.items().len());
                    assert(denotes(*ctx, e, ta));
                }
            }
        }
        i += 1;
    }
    proof {
        assert(tv.take(args@.len() as int) =~= tv);
    }
    Some(rs)
}

/// Stores the tree `s` in `ctx`, its parts before each node. `None` only
/// when the arena or the interner runs out of room, which cannot happen
/// when `ctx` has room for the tree.
fn store(ctx: &mut ParseContext, s: &Syntax) -> (r: Option<ExprRef>)
    ensures
        store_post(*old(ctx), *final(ctx), syntax_view(*s), r),
    decreases s, 2int,
{
    let ghost c0 = *ctx;
    proof {
        lemma_grown_refl(c0);
    }
    match s {
        Syntax::Var(n, sp) => {
            if !room(ctx) {
                return None;
            }
            let e = ctx.make_var(n.as_str());
            let e = ctx.make_span(e, Range { start: sp.start, end: sp.end });
            Some(e)
        },
        Syntax::Number(b, sp) => {
            if !room(ctx) {
                return None;
            }
            let e = ctx.make_literal(Literal::Number(*b));
            let e = ctx.make_span(e, Range { start: sp.start, end: sp.end });
            Some(e)
        },
        Syntax::Str(n, sp) => {
            if !room(ctx) {
                return None;
            }
            let e = ctx.make_literal(Literal::String(n.clone()));
            let e = ctx.make_span(e, Range { start: sp.start, end: sp.end });
            Some(e)
        },
        Syntax::Nop => {
            if !room(ctx) {
                return None;
            }
            Some(ctx.make_nop())
        },
        Syntax::Let(..) => store_let(ctx, s),
        Syntax::Attributed(..) => store_attributed(ctx, s),
        Syntax::Lambda(..) => store_lambda(ctx, s),
        Syntax::App(..) => store_app(ctx, s),
        Syntax::BinOp(..) => store_binop(ctx, s),
        Syntax::Paren(..) => store_paren(ctx, s),
    }
}

fn store_let(ctx: &mut ParseContext, s: &Syntax) -> (r: Option<ExprRef>)
    requires
        s is Let,
    ensures
        store_post(*old(ctx), *final(ctx), syntax_view(*s), r),
    decreases s, 1int,
{
    let ghost c0 = *ctx;
    let (n, b, th) = match s {
        Syntax::Let(n, b, th) => (n, b, th),
        _ => {
            proof {
                assert(false);
            }
            return None;
        },
    };
    let rb = store(ctx, b);
    let ghost c1 = *ctx;
    let eb = match rb {
        Some(e) => e,
        None => {
            return None;
        },
    };
    let rt = store(ctx, th);
    let ghost c2 = *ctx;
    proof {
        lemma_grown_trans(c0, c1, c2);
    }
    let et = match rt {
        Some(e) => e,
        None => {
            return None;
        },
    };
    proof {
        lemma_denotes_grown(c1, c2, eb, syntax_view(**b));
    }
    if ctx.interner.len() == usize::MAX {
        return None;
    }
    let sym = ctx.make_lvar(n.as_str());
    let ghost c3 = *ctx;
    proof {
        lemma_interned_grown(c2, c3);
        lemma_grown_trans(c0, c2, c3);
        lemma_denotes_grown(c2, c3, eb, syntax_view(**b));
        lemma_denotes_grown(c2, c3, et, syntax_view(**th));
    }
    if !room(ctx) {
        return None;
    }
    let l = ctx.make_let(sym, eb, et);
    proof {
        lemma_denotes_grown(c3, *ctx, eb, syntax_view(**b));
        lemma_denotes_grown(c3, *ctx, et, syntax_view(**th));
        lemma_grown_trans(c0, c3, *ctx);
    }
    Some(l)
}

fn store_attributed(ctx: &mut ParseContext, s: &Syntax) -> (r: Option<ExprRef>)
    requires
        s is Attributed,
    ensures
        store_post(*old(ctx), *final(ctx), syntax_view(*s), r),
    decreases s, 1int,
{
    let ghost c0 = *ctx;
    let (n, lo, hi, b) = match s {
        Syntax::Attributed(n, lo, hi, b) => (n, *lo, *hi, b),
        _ => {
            proof {
                assert(false);
            }
            return None;
        },
    };
    let rb = store(ctx, b);
    let eb = match rb {
        Some(e) => e,
        None => {
            return None;
        },
    };
    let ghost c1 = *ctx;
    if ctx.interner.len() == usize::MAX {
        return None;
    }
    let sym = ctx.make_lvar(n.as_str());
    let ghost c2 = *ctx;
    proof {
        lemma_interned_grown(c1, c2);
        lemma_grown_trans(c0, c1, c2);
        lemma_denotes_grown(c1, c2, eb, syntax_view(**b));
    }
    if !room(ctx) {
        return None;
    }
    let w = ctx.make_with_attribute(Attribute(sym, lo, hi), eb);
    proof {
        lemma_denotes_grown(c2, *ctx, eb, syntax_view(**b));
        lemma_grown_trans(c0, c2, *ctx);
    }
    Some(w)
}

fn store_lambda(ctx: &mut ParseContext, s: &Syntax) -> (r: Option<ExprRef>)
    requires
        s is Lambda,
    ensures
        store_post(*old(ctx), *final(ctx), syntax_view(*s), r),
    decreases s, 1int,
{
    let ghost c0 = *ctx;
    let (ns, b) = match s {
        Syntax::Lambda(ns, b) => (ns, b),
        _ => {
            proof {
                assert(false);
            }
            return None;
        },
    };
    let rb = store(ctx, b);
    let eb = match rb {
        Some(e) => e,
        None => {
            return None;
        },
    };
    let ghost c1 = *ctx;
    let ghost nv = strings_view(ns@);
    let mut syms: Vec<Symbol> = Vec::new();
    let mut i: usize = 0;
    while i < ns.len()
        invariant
            i <= ns@.len(),
            c0 == *old(ctx),
            nv == strings_view(ns@),
            nv.len() == ns@.len(),
            syms@.len() == i,
            grown(c0, c1),
            grown(c1, *ctx),
            ctx.expr_storage == c1.expr_storage,
            ctx.span_storage@ == c1.span_storage@,
            ctx.interner.strings().len() <= c1.interner.strings().len() + i,
            forall|q: int| 0 <= q < i ==> #[trigger] names(*ctx, syms@[q], nv[q]),
            store_post(c0, c1, syntax_view(**b), Some(eb)),
            syntax_view(*s) == Tree::Lambda(nv, Box::new(syntax_view(**b))),
        decreases ns@.len() - i,
    {
        if ctx.interner.len() == usize::MAX {
            proof {
                lemma_grown_trans(c0, c1, *ctx);
            }
            return None;
        }
        let ghost cb = *ctx;
        let sym = ctx.make_lvar(ns[i].as_str());
        proof {
            lemma_interned_grown(cb, *ctx);
            lemma_grown_trans(c1, cb, *ctx);
        }
        let ghost syms0 = syms@;
        syms.push(sym);
        proof {
            assert forall|q: int| 0 <= q < i + 1 implies #[trigger] names(*ctx, syms@[q], nv[q]) by {
                if q < i {
                    assert(syms@[q] == syms0[q]);
                    assert(names(cb, syms0[q], nv[q]));
                }
            }
        }
        i += 1;
    }
    let ghost c2 = *ctx;
    proof {
        lemma_grown_trans(c0, c1, c2);
        lemma_denotes_grown(c1, c2, eb, syntax_view(**b));
    }
    if !room(ctx) {
        return None;
    }
    let e = ctx.make_lambda(syms.as_slice(), eb);
    proof {
        lemma_grown_after_drop_last(c2, *ctx);
        lemma_grown_trans(c0, c2, *ctx);
        lemma_denotes_grown(c2, *ctx, eb, syntax_view(**b));
        assert forall|q: int| 0 <= q < syms@.len() implies #[trigger] names(*ctx, syms@[q], nv[q]) by {
            assert(names(c2, syms@[q], nv[q]));
        }
    }
    Some(e)
}

fn store_app(ctx: &mut ParseContext, s: &Syntax) -> (r: Option<ExprRef>)
    requires
        s is App,
    ensures
        store_post(*old(ctx), *final(ctx), syntax_view(*s), r),
    decreases s, 1int,
{
    let ghost c0 = *ctx;
    let (f, args) = match s {
        Syntax::App(f, args) => (f, args),
        _ => {
            proof {
                assert(false);
            }
            return None;
        },
    };
    let rf = store(ctx, f);
    let ef = match rf {
        Some(e) => e,
        None => {
            return None;
        },
    };
    let ghost c1 = *ctx;
    let ghost tv = syntaxes_view(args@);
    let rr = store_all(ctx, args);
    proof {
        lemma_grown_trans(c0, c1, *ctx);
    }
    let rs = match rr {
        Some(rs) => rs,
        None => {
            return None;
        },
    };
    let ghost c2 = *ctx;
    proof {
        lemma_denotes_grown(c1, c2, ef, syntax_view(**f));
        lemma_syntaxes_view(args@);
    }
    if !room(ctx) {
        return None;
    }
    let e = ctx.make_apply(ef, rs.as_slice());
    proof {
        lemma_grown_after_drop_last(c2, *ctx);
        lemma_grown_trans(c0, c2, *ctx);
        lemma_denotes_grown(c2, *ctx, ef, syntax_view(**f));
        assert forall|q: int| 0 <= q < rs@.len() implies before(*ctx, #[trigger] rs@[q], e) && denotes(*ctx, rs@[q], tv[q]) by {
            assert(denotes(c2, rs@[q], tv[q]));
            assert(c2.expr_storage.holds(rs@[q].0));
            lemma_denotes_grown(c2, *ctx, rs@[q], tv[q]);
        }
        lemma_denotes_all_intro(*ctx, rs@, tv, 0, e);
    }
    Some(e)
}

fn store_binop(ctx: &mut ParseContext, s: &Syntax) -> (r: Option<ExprRef>)
    requires
        s is BinOp,
    ensures
        store_post(*old(ctx), *final(ctx), syntax_view(*s), r),
    decreases s, 1int,
{
    let ghost c0 = *ctx;
    let (op, l, r) = match s {
        Syntax::BinOp(op, l, r) => (*op, l, r),
        _ => {
            proof {
                assert(false);
            }
            return None;
        },
    };
    let rl = store(ctx, l);
    let ghost c1 = *ctx;
    let el = match rl {
        Some(e) => e,
        None => {
            return None;
        },
    };
    let rr = store(ctx, r);
    let ghost c2 = *ctx;
    proof {
        lemma_grown_trans(c0, c1, c2);
    }
    let er = match rr {
        Some(e) => e,
        None => {
            return None;
        },
    };
    proof {
        lemma_denotes_grown(c1, c2, el, syntax_view(**l));
    }
    if !room(ctx) {
        return None;
    }
    let e = ctx.make_binop(op, el, er);
    proof {
        lemma_denotes_grown(c2, *ctx, el, syntax_view(**l));
        lemma_denotes_grown(c2, *ctx, er, syntax_view(**r));
        lemma_grown_trans(c0, c2, *ctx);
    }
    Some(e)
}

fn store_paren(ctx: &mut ParseContext, s: &Syntax) -> (r: Option<ExprRef>)
    requires
        s is Paren,
    ensures
        store_post(*old(ctx), *final(ctx), syntax_view(*s), r),
    decreases s, 1int,
{
    let ghost c0 = *ctx;
    let b = match s {
        Syntax::Paren(b) => b,
        _ => {
            proof {
                assert(false);
            }
            return None;
        },
    };
    let rb = store(ctx, b);
    let eb = match rb {
        Some(e) => e,
        None => {
            return None;
        },
    };
    let ghost c1 = *ctx;
    if !room(ctx) {
        return None;
    }
    let e = ctx.make_paren(eb);
    proof {
        lemma_denotes_grown(c1, *ctx, eb, syntax_view(**b));
        lemma_grown_trans(c0, c1, *ctx);
    }
    Some(e)
}

/// A parse error: an unexpected token (its span), the end of the tokens
/// where more was expected, or no room left for the expressions or names.
#[derive(Debug)]
pub enum ParseError {
    Unexpected(Span),
    UnexpectedEnd,
    Exhausted,
}

/// The span from the start of token `0` to the end of token `j - 1`.
pub open spec fn covered(ts: Seq<(Token, Span)>, j: int) -> Span {
    Range { start: ts[0].1.start, end: ts[j - 1].1.end }
}

/// What the grammar makes of the whole token sequence: the expression's tree
/// and the number of tokens it takes up, or the position where the tokens do
/// not fit. Tokens after the expression are left unread.
pub open spec fn parse_spec(ts: Seq<(Token, Span)>) -> Parsed {
    match p_level(ts, 8, 0) {
        Ok((t, j)) => if 0 < j <= ts.len() {
            Ok((t, j))
        } else {
            Err(0)
        },
        Err(p) => Err(p),
    }
}

proof fn lemma_calls_bound(ts: Seq<(Token, Span)>, j: int, f: Tree)
    requires
        j <= ts.len(),
    ensures
        p_calls(ts, j, f).1 <= ts.len(),
    decreases ts.len() - j,
{
    if 0 <= j < ts.len() && ts[j].0 is ParenBegin {
        let (args, j2) = p_items(ts, j + 1, Seq::empty());
        if j2 > j && 0 <= j2 < ts.len() && ts[j2].0 is ParenEnd {
            lemma_calls_bound(ts, j2 + 1, Tree::App(Box::new(f), args));
        }
    }
}

proof fn lemma_rest_bound(ts: Seq<(Token, Span)>, k: nat, j: int, lhs: Tree)
    requires
        j <= ts.len(),
    ensures
        p_rest(ts, k, j, lhs).1 <= ts.len(),
    decreases ts.len() - j,
{
    if 0 <= j < ts.len() && ts[j].0 is Op && level_has(k, ts[j].0->Op_0) && j + 1 + breaks_from(ts, j + 1) <= ts.len() {
        let op = ts[j].0->Op_0;
        let j1 = j + 1 + breaks_from(ts, j + 1);
        if let Ok((rhs, j2)) = p_level(ts, (k - 1) as nat, j1) {
            if j < j2 <= ts.len() {
                lemma_rest_bound(ts, k, j2, combined(op, lhs, rhs));
            }
        }
    }
}

/// A name, number or string at `i` starts an expression of every level.
proof fn lemma_atom_starts_level(ts: Seq<(Token, Span)>, k: nat, i: int)
    requires
        0 <= i < ts.len(),
        ts[i].0 is Ident || ts[i].0 is Int || ts[i].0 is Float || ts[i].0 is Str,
    ensures
        p_level(ts, k, i) matches Ok((_, j)) && i < j <= ts.len(),
    decreases k,
{
    if k == 0 {
        let (f, j) = p_atom(ts, i)->Ok_0;
        assert(j == i + 1);
        lemma_calls_size(ts, j, f);
        lemma_calls_bound(ts, j, f);
        assert(p_apply(ts, i) == Ok::<(Tree, int), int>(p_calls(ts, j, f)));
        assert(p_level(ts, k, i) == p_apply(ts, i));
    } else {
        lemma_atom_starts_level(ts, (k - 1) as nat, i);
        let (lhs, j) = p_level(ts, (k - 1) as nat, i)->Ok_0;
        lemma_rest_size(ts, k, j, lhs);
        lemma_rest_bound(ts, k, j, lhs);
        assert(p_level(ts, k, i) == Ok::<(Tree, int), int>(p_rest(ts, k, j, lhs)));
    }
}

/// Tokens that start with a name, a number or a string always parse: every
/// repetition of the grammar ends at the first part that does not fit, and
/// what follows is left unread.
pub proof fn law_leading_atom_parses(ts: Seq<(Token, Span)>)
    requires
        ts.len() > 0,
        ts[0].0 is Ident || ts[0].0 is Int || ts[0].0 is Float || ts[0].0 is Str,
    ensures
        parse_spec(ts) is Ok,
{
    lemma_atom_starts_level(ts, 8, 0);
}

/// A name, number or string token.
pub open spec fn is_atom(t: Token) -> bool {
    t is Ident || t is Int || t is Float || t is Str
}

/// The tree of a name, number or string token with its span.
pub open spec fn atom_tree(t: Token, sp: Span) -> Tree {
    match t {
        Token::Ident(s) => Tree::Var(s@, sp),
        Token::Int(b) => Tree::Number(b, sp),
        Token::Float(b) => Tree::Number(b, sp),
        Token::Str(s) => Tree::Str(s@, sp),
        _ => Tree::Nop,
    }
}

/// Position `j` holds no operator of the levels `lo..=hi`.
spec fn no_op_between(ts: Seq<(Token, Span)>, j: int, lo: nat, hi: nat) -> bool {
    forall|l: nat| lo <= l <= hi ==> !(0 <= j < ts.len() && ts[j].0 is Op && #[trigger] level_has(l, ts[j].0->Op_0))
}

proof fn lemma_level_unique(op: Op, k1: nat, k2: nat)
    requires
        level_has(k1, op),
        level_has(k2, op),
    ensures
        k1 == k2,
{
}

/// An atom followed by the end, or by a token that neither opens a call nor
/// is an operator of the levels up to `k`, is an expression of level `k` by
/// itself.
proof fn lemma_atom_alone(ts: Seq<(Token, Span)>, k: nat, i: int)
    requires
        0 <= i < ts.len(),
        is_atom(ts[i].0),
        !(i + 1 < ts.len() && ts[i + 1].0 is ParenBegin),
        no_op_between(ts, i + 1, 1, k),
    ensures
        p_level(ts, k, i) == Ok::<(Tree, int), int>((atom_tree(ts[i].0, ts[i].1), i + 1)),
    decreases k,
{
    let a = atom_tree(ts[i].0, ts[i].1);
    if k == 0 {
        assert(p_atom(ts, i) == Ok::<(Tree, int), int>((a, i + 1)));
        assert(p_calls(ts, i + 1, a) == (a, i + 1));
        assert(p_apply(ts, i) == Ok::<(Tree, int), int>((a, i + 1)));
    } else {
        assert(no_op_between(ts, i + 1, 1, (k - 1) as nat));
        lemma_atom_alone(ts, (k - 1) as nat, i);
        if i + 1 < ts.len() && ts[i + 1].0 is Op {
            assert(!level_has(k, ts[i + 1].0->Op_0));
        }
        assert(p_rest(ts, k, i + 1, a) == (a, i + 1));
    }
}

/// An expression of level `k0` that ends where no operator of the levels
/// above it, up to `k`, follows is an expression of level `k` as it stands.
proof fn lemma_level_lift(ts: Seq<(Token, Span)>, k0: nat, k: nat, i: int, t: Tree, j: int)
    requires
        k0 <= k,
        i < j <= ts.len(),
        p_level(ts, k0, i) == Ok::<(Tree, int), int>((t, j)),
        no_op_between(ts, j, k0 + 1, k),
    ensures
        p_level(ts, k, i) == Ok::<(Tree, int), int>((t, j)),
    decreases k,
{
    if k > k0 {
        assert(no_op_between(ts, j, k0 + 1, (k - 1) as nat));
        lemma_level_lift(ts, k0, (k - 1) as nat, i, t, j);
        if 0 <= j < ts.len() && ts[j].0 is Op {
            assert(!level_has(k, ts[j].0->Op_0));
        }
        assert(p_rest(ts, k, j, t) == (t, j));
    }
}

/// Of two operators, the one of the lower (tighter) level `kt` groups first,
/// on whichever side it stands: `x lo y hi z` is `x lo (y hi z)` and
/// `x hi y lo z` is `(x hi y) lo z`, for all names, numbers and strings
/// `x`, `y`, `z`.
pub proof fn law_tighter_operator_groups_first(
    lo: Op,
    hi: Op,
    kl: nat,
    kt: nat,
    x: (Token, Span),
    y: (Token, Span),
    z: (Token, Span),
    s1: Span,
    s2: Span,
)
    requires
        1 <= kt < kl <= 8,
        level_has(kl, lo),
        level_has(kt, hi),
        lo != Op::Pipe,
        is_atom(x.0),
        is_atom(y.0),
        is_atom(z.0),
    ensures
        parse_spec(seq![x, (Token::Op(lo), s1), y, (Token::Op(hi), s2), z]) == Ok::<(Tree, int), int>(
            (
                Tree::BinOp(
                    lo,
                    Box::new(atom_tree(x.0, x.1)),
                    Box::new(Tree::BinOp(hi, Box::new(atom_tree(y.0, y.1)), Box::new(atom_tree(z.0, z.1)))),
                ),
                5,
            ),
        ),
        parse_spec(seq![x, (Token::Op(hi), s1), y, (Token::Op(lo), s2), z]) == Ok::<(Tree, int), int>(
            (
                Tree::BinOp(
                    lo,
                    Box::new(Tree::BinOp(hi, Box::new(atom_tree(x.0, x.1)), Box::new(atom_tree(y.0, y.1)))),
                    Box::new(atom_tree(z.0, z.1)),
                ),
                5,
            ),
        ),
{
    let tx = atom_tree(x.0, x.1);
    let ty = atom_tree(y.0, y.1);
    let tz = atom_tree(z.0, z.1);
    assert(hi != Op::Pipe);
    assert forall|l: nat| #![trigger level_has(l, lo)] level_has(l, lo) implies l == kl by {
        lemma_level_unique(lo, l, kl);
    }
    assert forall|l: nat| #![trigger level_has(l, hi)] level_has(l, hi) implies l == kt by {
        lemma_level_unique(hi, l, kt);
    }
    // x lo y hi z
    let ts = seq![x, (Token::Op(lo), s1), y, (Token::Op(hi), s2), z];
    let ktm = (kt - 1) as nat;
    let klm = (kl - 1) as nat;
    assert(no_op_between(ts, 3, 1, ktm));
    lemma_atom_alone(ts, ktm, 2);
    assert(no_op_between(ts, 5, 1, ktm));
    lemma_atom_alone(ts, ktm, 4);
    assert(breaks_from(ts, 4) == 0);
    let hyz = Tree::BinOp(hi, Box::new(ty), Box::new(tz));
    assert(combined(hi, ty, tz) == hyz);
    assert(p_rest(ts, kt, 5, hyz) == (hyz, 5int));
    assert(p_rest(ts, kt, 3, ty) == (hyz, 5int));
    assert(p_level(ts, kt, 2) == Ok::<(Tree, int), int>((hyz, 5)));
    assert(no_op_between(ts, 5, kt + 1, klm));
    lemma_level_lift(ts, kt, klm, 2, hyz, 5);
    assert(no_op_between(ts, 1, 1, klm));
    lemma_atom_alone(ts, klm, 0);
    assert(breaks_from(ts, 2) == 0);
    let whole = Tree::BinOp(lo, Box::new(tx), Box::new(hyz));
    assert(combined(lo, tx, hyz) == whole);
    assert(p_rest(ts, kl, 5, whole) == (whole, 5int));
    assert(p_rest(ts, kl, 1, tx) == (whole, 5int));
    assert(p_level(ts, kl, 0) == Ok::<(Tree, int), int>((whole, 5)));
    assert(no_op_between(ts, 5, kl + 1, 8));
    lemma_level_lift(ts, kl, 8, 0, whole, 5);
    // x hi y lo z
    let us = seq![x, (Token::Op(hi), s1), y, (Token::Op(lo), s2), z];
    assert(no_op_between(us, 1, 1, ktm));
    lemma_atom_alone(us, ktm, 0);
    assert(no_op_between(us, 3, 1, ktm));
    lemma_atom_alone(us, ktm, 2);
    assert(breaks_from(us, 2) == 0);
    let hxy = Tree::BinOp(hi, Box::new(tx), Box::new(ty));
    assert(combined(hi, tx, ty) == hxy);
    assert(!level_has(kt, lo));
    assert(p_rest(us, kt, 3, hxy) == (hxy, 3int));
    assert(p_rest(us, kt, 1, tx) == (hxy, 3int));
    assert(p_level(us, kt, 0) == Ok::<(Tree, int), int>((hxy, 3)));
    assert(no_op_between(us, 3, kt + 1, klm));
    lemma_level_lift(us, kt, klm, 0, hxy, 3);
    assert(no_op_between(us, 5, 1, klm));
    lemma_atom_alone(us, klm, 4);
    assert(breaks_from(us, 4) == 0);
    let whole2 = Tree::BinOp(lo, Box::new(hxy), Box::new(tz));
    assert(combined(lo, hxy, tz) == whole2);
    assert(p_rest(us, kl, 5, whole2) == (whole2, 5int));
    assert(p_rest(us, kl, 3, hxy) == (whole2, 5int));
    assert(p_level(us, kl, 0) == Ok::<(Tree, int), int>((whole2, 5)));
    assert(no_op_between(us, 5, kl + 1, 8));
    lemma_level_lift(us, kl, 8, 0, whole2, 5);
}

/// `&&` binds tighter than `||`: `x || y && z` is `x || (y && z)` and
/// `x && y || z` is `(x && y) || z`, for all names, numbers and strings.
pub proof fn law_and_binds_tighter_than_or(
    x: (Token, Span),
    y: (Token, Span),
    z: (Token, Span),
    s1: Span,
    s2: Span,
)
    requires
        is_atom(x.0),
        is_atom(y.0),
        is_atom(z.0),
    ensures
        parse_spec(seq![x, (Token::Op(Op::Or), s1), y, (Token::Op(Op::And), s2), z]) == Ok::<(Tree, int), int>(
            (
                Tree::BinOp(
                    Op::Or,
                    Box::new(atom_tree(x.0, x.1)),
                    Box::new(Tree::BinOp(Op::And, Box::new(atom_tree(y.0, y.1)), Box::new(atom_tree(z.0, z.1)))),
                ),
                5,
            ),
        ),
        parse_spec(seq![x, (Token::Op(Op::And), s1), y, (Token::Op(Op::Or), s2), z]) == Ok::<(Tree, int), int>(
            (
                Tree::BinOp(
                    Op::Or,
                    Box::new(Tree::BinOp(Op::And, Box::new(atom_tree(x.0, x.1)), Box::new(atom_tree(y.0, y.1)))),
                    Box::new(atom_tree(z.0, z.1)),
                ),
                5,
            ),
        ),
{
    law_tighter_operator_groups_first(Op::Or, Op::And, 6, 5, x, y, z, s1, s2);
}

/// `*` binds tighter than `+`: `x + y * z` is `x + (y * z)` and `x * y + z`
/// is `(x * y) + z`, for all names, numbers and strings.
pub proof fn law_product_binds_tighter_than_sum(
    x: (Token, Span),
    y: (Token, Span),
    z: (Token, Span),
    s1: Span,
    s2: Span,
)
    requires
        is_atom(x.0),
        is_atom(y.0),
        is_atom(z.0),
    ensures
        parse_spec(seq![x, (Token::Op(Op::Sum), s1), y, (Token::Op(Op::Product), s2), z]) == Ok::<(Tree, int), int>(
            (
                Tree::BinOp(
                    Op::Sum,
                    Box::new(atom_tree(x.0, x.1)),
                    Box::new(Tree::BinOp(Op::Product, Box::new(atom_tree(y.0, y.1)), Box::new(atom_tree(z.0, z.1)))),
                ),
                5,
            ),
        ),
        parse_spec(seq![x, (Token::Op(Op::Product), s1), y, (Token::Op(Op::Sum), s2), z]) == Ok::<(Tree, int), int>(
            (
                Tree::BinOp(
                    Op::Sum,
                    Box::new(Tree::BinOp(Op::Product, Box::new(atom_tree(x.0, x.1)), Box::new(atom_tree(y.0, y.1)))),
                    Box::new(atom_tree(z.0, z.1)),
                ),
                5,
            ),
        ),
{
    law_tighter_operator_groups_first(Op::Sum, Op::Product, 3, 2, x, y, z, s1, s2);
}

/// Parses `tokens` as one expression and stores it in `ctx`, with the span of
/// the tokens it takes up; the error says where the tokens stop fitting the
/// grammar. Storing adds at most one expression and one name per token, so
/// with room for that many the tokens are stored exactly when they parse.
pub fn parse_tokens(ctx: &mut ParseContext, tokens: &[(Token, Span)]) -> (r: Result<ExprRef, Vec<ParseError>>)
    ensures
        grown(*old(ctx), *final(ctx)),
        final(ctx).expr_storage.items().len() <= old(ctx).expr_storage.items().len() + tokens@.len(),
        final(ctx).interner.strings().len() <= old(ctx).interner.strings().len() + tokens@.len(),
        r matches Ok(e) ==> parse_spec(tokens@) matches Ok((t, j)) && denotes(*final(ctx), e, t)
            && (!(t is Var || t is Number || t is Str) ==> spanned(*final(ctx), e, covered(tokens@, j))),
        r matches Err(errs) ==> errs@.len() == 1 && match errs@[0] {
            ParseError::Exhausted => parse_spec(tokens@) matches Ok((t, _)) && !fits(*old(ctx), t),
            ParseError::Unexpected(sp) => parse_spec(tokens@) matches Err(p) && 0 <= p < tokens@.len() && sp == tokens@[p].1,
            ParseError::UnexpectedEnd => parse_spec(tokens@) matches Err(p) && !(0 <= p < tokens@.len()),
        },
        old(ctx).expr_storage.items().len() + tokens@.len() <= usize::MAX
            && old(ctx).interner.strings().len() + tokens@.len() < usize::MAX
            ==> (r is Ok <==> parse_spec(tokens@) is Ok),
{
    let ghost c0 = *ctx;
    proof {
        lemma_grown_refl(c0);
        lemma_level_size(tokens@, 8, 0);
    }
    match parse_level(tokens, 8, 0) {
        Ok((s, j)) => {
            if !(0 < j && j <= tokens.len()) {
                let mut errs = Vec::new();
                if tokens.len() > 0 {
                    errs.push(ParseError::Unexpected(span_at(tokens, 0)));
                } else {
                    errs.push(ParseError::UnexpectedEnd);
                }
                return Err(errs);
            }
            let ghost t = syntax_view(s);
            let e = match store(ctx, &s) {
                Some(e) => e,
                None => {
                    let mut errs = Vec::new();
                    errs.push(ParseError::Exhausted);
                    return Err(errs);
                },
            };
            let leaf = match &s {
                Syntax::Var(_, _) => true,
                Syntax::Number(_, _) => true,
                Syntax::Str(_, _) => true,
                _ => false,
            };
            if !leaf {
                let ghost c1 = *ctx;
                let sp = Range { start: tokens[0].1.start, end: tokens[j - 1].1.end };
                ctx.make_span(e, sp);
                proof {
                    lemma_denotes_respan(c1, *ctx, e, t, sp);
                    assert(grown(c0, *ctx));
                }
            }
            Ok(e)
        },
        Err(p) => {
            let mut errs = Vec::new();
            if p < tokens.len() {
                errs.push(ParseError::Unexpected(span_at(tokens, p)));
            } else {
                errs.push(ParseError::UnexpectedEnd);
            }
            Err(errs)
        },
    }
}

} // verus!
