//! Storage provided by outside crates: the arenas of `id_arena` and the string
//! interner of `string_interner`. Each item here is trusted: the contracts
//! restate what the crates' sources do.

use vstd::prelude::*;
use id_arena::{Arena, ArenaBehavior, DefaultArenaBehavior};
use string_interner::StringInterner;
use string_interner::backend::StringBackend;
use crate::lang::expr::Expr;
use crate::lang::environment::Environment;

verus! {

/// A handle to an expression in an `ExprArena`: the two components of an
/// `id_arena::Id<Expr>`, its index and the identity of its arena.
#[derive(Clone, Copy, Debug, PartialEq, Eq, Structural)]
pub struct ExprId {
    pub index: usize,
    pub arena: u32,
}

/// An arena of expressions; it holds an `id_arena::Arena<Expr>`.
#[verifier::external_body]
pub struct ExprArena {
    arena: Arena<Expr>,
}

/// The expressions of the arena, in order of allocation.
pub uninterp spec fn expr_arena_items(a: ExprArena) -> Seq<Expr>;

/// The identity of the arena (the private `arena_id` field of
/// `id_arena::Arena`), drawn from a process-wide counter at creation.
pub uninterp spec fn expr_arena_tag(a: ExprArena) -> u32;

impl ExprArena {
    pub open spec fn items(self) -> Seq<Expr> {
        expr_arena_items(self)
    }

    /// Whether `id` refers to an expression of this arena.
    pub open spec fn holds(self, id: ExprId) -> bool {
        &&& id.arena == expr_arena_tag(self)
        &&& id.index < self.items().len()
    }

    pub open spec fn at(self, id: ExprId) -> Expr {
        self.items()[id.index as int]
    }

    /// `id_arena::Arena::new`: an empty arena. Its identity comes from a global
    /// counter, so nothing is said of it.
    #[verifier::external_body]
    pub fn new() -> (r: ExprArena)
        ensures
            expr_arena_items(r) == Seq::<Expr>::empty(),
    {
        ExprArena { arena: Arena::new() }
    }

    /// `id_arena::Arena::alloc`: pushes the expression and returns an id
    /// carrying the arena's identity and the position it was stored at.
    #[verifier::external_body]
    pub fn allocate(&mut self, e: Expr) -> (id: ExprId)
        requires
            expr_arena_items(*old(self)).len() < usize::MAX,
        ensures
            expr_arena_items(*final(self)) == expr_arena_items(*old(self)).push(e),
            expr_arena_tag(*final(self)) == expr_arena_tag(*old(self)),
            id.index == expr_arena_items(*old(self)).len(),
            id.arena == expr_arena_tag(*old(self)),
    {
        let id = self.arena.alloc(e);
        ExprId {
            index: DefaultArenaBehavior::<Expr>::index(id),
            arena: DefaultArenaBehavior::<Expr>::arena_id(id),
        }
    }

    /// `id_arena::Arena::len`: the number of expressions allocated.
    #[verifier::external_body]
    pub fn len(&self) -> (r: usize)
        ensures
            r == expr_arena_items(*self).len(),
    {
        self.arena.len()
    }

    /// `id_arena::Arena::get`: the expression when the id was handed out by
    /// this arena and lies within it, `None` otherwise.
    #[verifier::external_body]
    pub fn get(&self, id: ExprId) -> (r: Option<&Expr>)
        ensures
            r == (if self.holds(id) { Some(&self.at(id)) } else { None::<&Expr> }),
    {
        self.arena.get(DefaultArenaBehavior::<Expr>::new_id(id.arena, id.index))
    }

    /// `id_arena::Arena::get_mut`, through which the expression at `id` is
    /// overwritten with `e`; the slot exists when the arena holds `id`.
    #[verifier::external_body]
    pub fn set(&mut self, id: ExprId, e: Expr)
        requires
            old(self).holds(id),
        ensures
            expr_arena_items(*final(self)) == expr_arena_items(*old(self)).update(id.index as int, e),
            expr_arena_tag(*final(self)) == expr_arena_tag(*old(self)),
    {
        if let Some(slot) = self.arena.get_mut(DefaultArenaBehavior::<Expr>::new_id(id.arena, id.index)) {
            *slot = e;
        }
    }
}

/// A handle to an environment in an `EnvArena`: the two components of an
/// `id_arena::Id<Environment>`.
#[derive(Clone, Copy, Debug, PartialEq, Eq, Structural)]
pub struct EnvId {
    pub index: usize,
    pub arena: u32,
}

/// An arena of environments; it holds an `id_arena::Arena<Environment>`.
#[verifier::external_body]
pub struct EnvArena {
    arena: Arena<Environment>,
}

/// The environments of the arena, in order of allocation.
pub uninterp spec fn env_arena_items(a: EnvArena) -> Seq<Environment>;

/// The identity of the arena, drawn from a process-wide counter at creation.
pub uninterp spec fn env_arena_tag(a: EnvArena) -> u32;

impl EnvArena {
    pub open spec fn items(self) -> Seq<Environment> {
        env_arena_items(self)
    }

    pub open spec fn holds(self, id: EnvId) -> bool {
        &&& id.arena == env_arena_tag(self)
        &&& id.index < self.items().len()
    }

    pub open spec fn at(self, id: EnvId) -> Environment {
        self.items()[id.index as int]
    }

    /// `id_arena::Arena::new`: an empty arena of unknown identity.
    #[verifier::external_body]
    pub fn new() -> (r: EnvArena)
        ensures
            env_arena_items(r) == Seq::<Environment>::empty(),
    {
        EnvArena { arena: Arena::new() }
    }

    /// `id_arena::Arena::alloc`.
    #[verifier::external_body]
    pub fn allocate(&mut self, e: Environment) -> (id: EnvId)
        requires
            env_arena_items(*old(self)).len() < usize::MAX,
        ensures
            env_arena_items(*final(self)) == env_arena_items(*old(self)).push(e),
            env_arena_tag(*final(self)) == env_arena_tag(*old(self)),
            id.index == env_arena_items(*old(self)).len(),
            id.arena == env_arena_tag(*old(self)),
    {
        let id = self.arena.alloc(e);
        EnvId {
            index: DefaultArenaBehavior::<Environment>::index(id),
            arena: DefaultArenaBehavior::<Environment>::arena_id(id),
        }
    }

    /// `id_arena::Arena::get`.
    #[verifier::external_body]
    pub fn get(&self, id: EnvId) -> (r: Option<&Environment>)
        ensures
            r == (if self.holds(id) { Some(&self.at(id)) } else { None::<&Environment> }),
    {
        self.arena.get(DefaultArenaBehavior::<Environment>::new_id(id.arena, id.index))
    }
}

/// A string interner; it holds a
/// `string_interner::StringInterner<StringBackend<usize>>`.
#[verifier::external_body]
pub struct Interner {
    inner: StringInterner<StringBackend<usize>>,
}

/// The interned strings; a symbol is the index of its string here.
pub uninterp spec fn interned_strings(i: Interner) -> Seq<Seq<char>>;

impl Interner {
    pub open spec fn strings(self) -> Seq<Seq<char>> {
        interned_strings(self)
    }

    /// `StringInterner::new`: no string interned.
    #[verifier::external_body]
    pub fn new() -> (r: Interner)
        ensures
            interned_strings(r) == Seq::<Seq<char>>::empty(),
    {
        Interner { inner: StringInterner::new() }
    }

    /// `StringInterner::get_or_intern`: the symbol of an equal string already
    /// interned, with nothing changed; otherwise the string is appended and
    /// its new index returned.
    #[verifier::external_body]
    pub fn get_or_intern(&mut self, s: &str) -> (r: usize)
        requires
            interned_strings(*old(self)).len() < usize::MAX,
        ensures
            interned_strings(*old(self)).contains(s@) ==> {
                &&& interned_strings(*final(self)) == interned_strings(*old(self))
                &&& r < interned_strings(*old(self)).len()
                &&& interned_strings(*old(self))[r as int] == s@
            },
            !interned_strings(*old(self)).contains(s@) ==> {
                &&& interned_strings(*final(self)) == interned_strings(*old(self)).push(s@)
                &&& r == interned_strings(*old(self)).len()
            },
    {
        self.inner.get_or_intern(s)
    }

    /// `StringInterner::len`: the number of entries of its deduplication
    /// map, one for each string interned.
    #[verifier::external_body]
    pub fn len(&self) -> (r: usize)
        ensures
            r == interned_strings(*self).len(),
    {
        self.inner.len()
    }

    /// `StringInterner::resolve`: the string of the symbol, `None` past the end.
    #[verifier::external_body]
    pub fn resolve(&self, sym: usize) -> (r: Option<&str>)
        ensures
            r is Some <==> sym < interned_strings(*self).len(),
            r matches Some(s) ==> s@ == interned_strings(*self)[sym as int],
    {
        self.inner.resolve(sym)
    }
}

} // verus!
