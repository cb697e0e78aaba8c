//! The parse context: the storage that the parser fills with expressions,
//! their source spans and the interned identifiers.

use vstd::prelude::*;
use std::collections::BTreeMap;
use std::ops::Range;
use crate::store::{ExprArena, Interner, expr_arena_tag};
use super::Symbol;
use super::expr::{Attribute, Expr, ExprRef, Literal, Op, arena_ordered, copy_refs, copy_symbols, ref_below, refs_below};

verus! {

broadcast use vstd::std_specs::btree::group_btree_axioms, vstd::laws_cmp::group_laws_cmp;

/// A range of character positions in the source text.
pub type Span = Range<usize>;

pub struct ParseContext {
    pub expr_storage: ExprArena,
    /// Source spans, keyed by the index of the expression in `expr_storage`.
    pub span_storage: BTreeMap<usize, Span>,
    pub interner: Interner,
}

impl ParseContext {
    /// Room is left for one more expression and one more identifier.
    pub open spec fn has_room(self) -> bool {
        &&& self.expr_storage.items().len() < usize::MAX
        &&& self.interner.strings().len() < usize::MAX
    }

    /// `final` is `old` with `e` stored at the end of the arena, returned as `r`.
    pub open spec fn stored(old: Self, new: Self, e: Expr, r: ExprRef) -> bool {
        &&& new.expr_storage.items() == old.expr_storage.items().push(e)
        &&& expr_arena_tag(new.expr_storage) == expr_arena_tag(old.expr_storage)
        &&& r.0.index == old.expr_storage.items().len()
        &&& r.0.arena == expr_arena_tag(old.expr_storage)
        &&& new.span_storage@ == old.span_storage@
        &&& new.interner == old.interner
    }

    pub open spec fn held(self, r: ExprRef) -> bool {
        ref_below(r, self.expr_storage.items().len() as int, expr_arena_tag(self.expr_storage))
    }

    pub open spec fn all_held(self, rs: Seq<ExprRef>) -> bool {
        refs_below(rs, self.expr_storage.items().len() as int, expr_arena_tag(self.expr_storage))
    }

    pub fn new() -> (r: Self)
        ensures
            r.expr_storage.items().len() == 0,
            r.span_storage@ == Map::<usize, Span>::empty(),
            r.interner.strings().len() == 0,
            arena_ordered(r.expr_storage),
    {
        ParseContext { expr_storage: ExprArena::new(), span_storage: BTreeMap::new(), interner: Interner::new() }
    }

    pub fn get_expr(&self, id: ExprRef) -> (r: Option<&Expr>)
        ensures
            r == (if self.expr_storage.holds(id.0) { Some(&self.expr_storage.at(id.0)) } else { None::<&Expr> }),
    {
        self.expr_storage.get(id.0)
    }

    fn store(&mut self, e: Expr) -> (r: ExprRef)
        requires
            old(self).expr_storage.items().len() < usize::MAX,
        ensures
            Self::stored(*old(self), *final(self), e, r),
    {
        ExprRef(self.expr_storage.allocate(e))
    }

    /// Records the source span of `e`.
    pub fn make_span(&mut self, e: ExprRef, span: Span) -> (r: ExprRef)
        ensures
            r == e,
            final(self).span_storage@ == old(self).span_storage@.insert(e.0.index, span),
            final(self).expr_storage == old(self).expr_storage,
            final(self).interner == old(self).interner,
    {
        self.span_storage.insert(e.0.index, span);
        e
    }

    /// Interns an identifier.
    pub fn make_lvar(&mut self, id: &str) -> (r: Symbol)
        requires
            old(self).interner.strings().len() < usize::MAX,
        ensures
            r.0 < final(self).interner.strings().len(),
            final(self).interner.strings()[r.0 as int] == id@,
            old(self).interner.strings().contains(id@) ==> final(self).interner.strings() == old(self).interner.strings(),
            final(self).interner.strings().len() <= old(self).interner.strings().len() + 1,
            final(self).interner.strings().subrange(0, old(self).interner.strings().len() as int)
                == old(self).interner.strings(),
            old(self).interner.strings().is_prefix_of(final(self).interner.strings()),
            old(self).interner.strings().no_duplicates() ==> final(self).interner.strings().no_duplicates(),
            final(self).expr_storage == old(self).expr_storage,
            final(self).span_storage@ == old(self).span_storage@,
    {
        let ghost before = self.interner.strings();
        let r = Symbol(self.interner.get_or_intern(id));
        assert(self.interner.strings().subrange(0, old(self).interner.strings().len() as int)
            =~= old(self).interner.strings());
        proof {
            if before.no_duplicates() && !before.contains(id@) {
                let after = self.interner.strings();
                assert forall|a: int, b: int| 0 <= a < after.len() && 0 <= b < after.len() && a != b
                    implies after[a] != after[b] by {
                    if a == before.len() {
                        assert(before[b] == after[b]);
                    } else if b == before.len() {
                        assert(before[a] == after[a]);
                    }
                }
            }
        }
        r
    }

    pub fn make_nop(&mut self) -> (r: ExprRef)
        requires
            old(self).has_room(),
        ensures
            Self::stored(*old(self), *final(self), Expr::Nop, r),
            arena_ordered(old(self).expr_storage) ==> arena_ordered(final(self).expr_storage),
    {
        self.store(Expr::Nop)
    }

    pub fn make_literal(&mut self, l: Literal) -> (r: ExprRef)
        requires
            old(self).has_room(),
        ensures
            Self::stored(*old(self), *final(self), Expr::Literal(l), r),
            arena_ordered(old(self).expr_storage) ==> arena_ordered(final(self).expr_storage),
    {
        self.store(Expr::Literal(l))
    }

    /// Interns the name and stores a variable expression for it.
    pub fn make_var(&mut self, v: &str) -> (r: ExprRef)
        requires
            old(self).has_room(),
        ensures
            final(self).interner.strings().len() <= old(self).interner.strings().len() + 1,
            final(self).interner.strings().subrange(0, old(self).interner.strings().len() as int)
                == old(self).interner.strings(),
            old(self).interner.strings().is_prefix_of(final(self).interner.strings()),
            old(self).interner.strings().no_duplicates() ==> final(self).interner.strings().no_duplicates(),
            final(self).expr_storage.items().len() == old(self).expr_storage.items().len() + 1,
            final(self).expr_storage.items().subrange(0, old(self).expr_storage.items().len() as int)
                == old(self).expr_storage.items(),
            expr_arena_tag(final(self).expr_storage) == expr_arena_tag(old(self).expr_storage),
            r.0.index == old(self).expr_storage.items().len(),
            r.0.arena == expr_arena_tag(old(self).expr_storage),
            final(self).expr_storage.items().last() matches Expr::Var(sym)
                && sym.0 < final(self).interner.strings().len()
                && final(self).interner.strings()[sym.0 as int] == v@,
            final(self).span_storage@ == old(self).span_storage@,
            arena_ordered(old(self).expr_storage) ==> arena_ordered(final(self).expr_storage),
    {
        let id = self.make_lvar(v);
        let r = self.store(Expr::Var(id));
        assert(self.expr_storage.items().subrange(0, old(self).expr_storage.items().len() as int)
            =~= old(self).expr_storage.items());
        r
    }

    pub fn make_let(&mut self, ident: Symbol, body: ExprRef, then: ExprRef) -> (r: ExprRef)
        requires
            old(self).has_room(),
        ensures
            Self::stored(*old(self), *final(self), Expr::Let(ident, body, then), r),
            arena_ordered(old(self).expr_storage) && old(self).held(body) && old(self).held(then)
                ==> arena_ordered(final(self).expr_storage),
    {
        self.store(Expr::Let(ident, body, then))
    }

    pub fn make_with_attribute(&mut self, attr: Attribute, body: ExprRef) -> (r: ExprRef)
        requires
            old(self).has_room(),
        ensures
            Self::stored(*old(self), *final(self), Expr::WithAttribute(attr, body), r),
            arena_ordered(old(self).expr_storage) && old(self).held(body)
                ==> arena_ordered(final(self).expr_storage),
    {
        self.store(Expr::WithAttribute(attr, body))
    }

    pub fn make_lambda(&mut self, ident: &[Symbol], body: ExprRef) -> (r: ExprRef)
        requires
            old(self).has_room(),
        ensures
            final(self).expr_storage.items().last() matches Expr::Lambda(ids, b)
                && ids@ == ident@ && b == body,
            final(self).expr_storage.items().len() == old(self).expr_storage.items().len() + 1,
            final(self).expr_storage.items().drop_last() == old(self).expr_storage.items(),
            expr_arena_tag(final(self).expr_storage) == expr_arena_tag(old(self).expr_storage),
            r.0.index == old(self).expr_storage.items().len(),
            r.0.arena == expr_arena_tag(old(self).expr_storage),
            final(self).span_storage@ == old(self).span_storage@,
            final(self).interner == old(self).interner,
            arena_ordered(old(self).expr_storage) && old(self).held(body)
                ==> arena_ordered(final(self).expr_storage),
    {
        let ids = copy_symbols(ident);
        let e = Expr::Lambda(ids, body);
        let r = self.store(e);
        r
    }

    pub fn make_apply(&mut self, callee: ExprRef, args: &[ExprRef]) -> (r: ExprRef)
        requires
            old(self).has_room(),
        ensures
            final(self).expr_storage.items().last() matches Expr::App(f, a)
                && f == callee && a@ == args@,
            final(self).expr_storage.items().len() == old(self).expr_storage.items().len() + 1,
            final(self).expr_storage.items().drop_last() == old(self).expr_storage.items(),
            expr_arena_tag(final(self).expr_storage) == expr_arena_tag(old(self).expr_storage),
            r.0.index == old(self).expr_storage.items().len(),
            r.0.arena == expr_arena_tag(old(self).expr_storage),
            final(self).span_storage@ == old(self).span_storage@,
            final(self).interner == old(self).interner,
            arena_ordered(old(self).expr_storage) && old(self).held(callee) && old(self).all_held(args@)
                ==> arena_ordered(final(self).expr_storage),
    {
        let a = copy_refs(args);
        let r = self.store(Expr::App(callee, a));
        r
    }

    pub fn make_binop(&mut self, op: Op, lhs: ExprRef, rhs: ExprRef) -> (r: ExprRef)
        requires
            old(self).has_room(),
        ensures
            Self::stored(*old(self), *final(self), Expr::BinOp(op, lhs, rhs), r),
            arena_ordered(old(self).expr_storage) && old(self).held(lhs) && old(self).held(rhs)
                ==> arena_ordered(final(self).expr_storage),
    {
        self.store(Expr::BinOp(op, lhs, rhs))
    }

    pub fn make_paren(&mut self, body: ExprRef) -> (r: ExprRef)
        requires
            old(self).has_room(),
        ensures
            Self::stored(*old(self), *final(self), Expr::Paren(body), r),
            arena_ordered(old(self).expr_storage) && old(self).held(body)
                ==> arena_ordered(final(self).expr_storage),
    {
        self.store(Expr::Paren(body))
    }
}

impl Default for ParseContext {
    fn default() -> (r: Self)
        ensures
            r.expr_storage.items().len() == 0,
            r.span_storage@ == Map::<usize, Span>::empty(),
            r.interner.strings().len() == 0,
    {
        Self::new()
    }
}

} // verus!
