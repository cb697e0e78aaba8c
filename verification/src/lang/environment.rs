//! Lexical environments. All bindings live in one vector; an environment is a
//! range of that vector plus an optional parent environment.

use vstd::prelude::*;
use std::ops::Range;
use crate::store::{EnvArena, EnvId, env_arena_tag};
use super::{DeepClone, Symbol};

verus! {

#[derive(Debug)]
pub struct Environment {
    pub parent: Option<EnvId>,
    pub locals: Range<usize>,
}

pub type EnvironmentRef = EnvId;

pub struct EnvironmentStorage<V> {
    pub store: EnvArena,
    pub data: Vec<(Symbol, V)>,
}

/// The mathematical content of an environment storage: the environments, the
/// bindings, and the identity of the arena.
pub struct EnvModel<V> {
    pub envs: Seq<Environment>,
    pub data: Seq<(Symbol, V)>,
    pub tag: u32,
}

impl<V> EnvModel<V> {
    /// Environment `i` has its bindings inside `data` and, if it has a parent,
    /// the parent is an earlier environment of the same arena.
    pub open spec fn env_wf(self, i: int) -> bool {
        let e = self.envs[i];
        &&& e.locals.start <= e.locals.end <= self.data.len()
        &&& match e.parent {
            Some(p) => p.arena == self.tag && p.index < i,
            None => true,
        }
    }

    pub open spec fn wf(self) -> bool {
        forall|i: int| 0 <= i < self.envs.len() ==> #[trigger] self.env_wf(i)
    }

    /// `id` names an environment of this storage.
    pub open spec fn valid(self, id: EnvId) -> bool {
        id.arena == self.tag && id.index < self.envs.len()
    }

    /// The last position in `start..end` that binds `key`.
    pub open spec fn last_binding(self, start: int, end: int, key: Symbol) -> Option<int>
        decreases end - start,
    {
        if end <= start {
            None
        } else if self.data[end - 1].0 == key {
            Some(end - 1)
        } else {
            self.last_binding(start, end - 1, key)
        }
    }

    /// What `lookup` finds in environment number `i`: nothing when the
    /// environment binds nothing; its last binding when that binding is `key`;
    /// otherwise what the parent finds, and failing that the last binding of
    /// `key` among the environment's other bindings.
    pub open spec fn lookup_at(self, i: int, key: Symbol) -> Option<V>
        decreases i,
    {
        let e = self.envs[i];
        let s = e.locals.start as int;
        let t = e.locals.end as int;
        if t <= s {
            None
        } else if self.data[t - 1].0 == key {
            Some(self.data[t - 1].1)
        } else {
            let from_parent = match e.parent {
                Some(p) => if 0 <= p.index < i {
                    self.lookup_at(p.index as int, key)
                } else {
                    None
                },
                None => None,
            };
            match from_parent {
                Some(v) => Some(v),
                None => match self.last_binding(s, t - 1, key) {
                    Some(j) => Some(self.data[j].1),
                    None => None,
                },
            }
        }
    }

    pub open spec fn spec_lookup(self, env: EnvId, key: Symbol) -> Option<V> {
        self.lookup_at(env.index as int, key)
    }

    /// The storage after `svs` is bound in a new environment under `parent`,
    /// and the id of that environment.
    pub open spec fn extended(self, parent: Option<EnvId>, svs: Seq<(Symbol, V)>) -> (EnvModel<V>, EnvId) {
        (
            EnvModel {
                envs: self.envs.push(
                    Environment {
                        parent,
                        locals: Range { start: self.data.len() as usize, end: (self.data.len() + svs.len()) as usize },
                    },
                ),
                data: self.data + svs,
                tag: self.tag,
            },
            EnvId { index: self.envs.len() as usize, arena: self.tag },
        )
    }

    /// `new` holds all bindings and environments of `self`, unchanged, and
    /// possibly more after them.
    pub open spec fn grows_to(self, new: Self) -> bool {
        &&& self.data.len() <= new.data.len()
        &&& new.data.subrange(0, self.data.len() as int) == self.data
        &&& self.envs.len() <= new.envs.len()
        &&& new.envs.subrange(0, self.envs.len() as int) == self.envs
        &&& new.tag == self.tag
    }

    pub proof fn lemma_last_binding_range(self, start: int, end: int, key: Symbol)
        ensures
            self.last_binding(start, end, key) matches Some(j) ==> start <= j < end,
        decreases end - start,
    {
        if end > start {
            self.lemma_last_binding_range(start, end - 1, key);
        }
    }

    /// No position of `start..end` binds `key`, so none is found.
    pub proof fn lemma_last_binding_absent(self, start: int, end: int, key: Symbol)
        requires
            forall|j: int| start <= j < end ==> self.data[j].0 != key,
        ensures
            self.last_binding(start, end, key) is None,
        decreases end - start,
    {
        if end > start {
            self.lemma_last_binding_absent(start, end - 1, key);
        }
    }

    /// Position `j` binds `key` and no later one of `start..end` does.
    pub proof fn lemma_last_binding_at(self, start: int, end: int, key: Symbol, j: int)
        requires
            start <= j < end,
            self.data[j].0 == key,
            forall|k: int| j < k < end ==> self.data[k].0 != key,
        ensures
            self.last_binding(start, end, key) == Some(j),
        decreases end - start,
    {
        if end - 1 != j {
            self.lemma_last_binding_at(start, end - 1, key, j);
        }
    }

    pub proof fn lemma_last_binding_prefix(self, new: Self, start: int, end: int, key: Symbol)
        requires
            0 <= start,
            end <= self.data.len(),
            self.data.len() <= new.data.len(),
            forall|j: int| 0 <= j < self.data.len() ==> new.data[j] == self.data[j],
        ensures
            new.last_binding(start, end, key) == self.last_binding(start, end, key),
        decreases end - start,
    {
        if end > start {
            self.lemma_last_binding_prefix(new, start, end - 1, key);
        }
    }

    /// Growing a storage changes no lookup in its environments and keeps them
    /// well formed.
    pub proof fn lemma_grows_lookup(self, new: Self, i: int, key: Symbol)
        requires
            self.grows_to(new),
            self.wf(),
            0 <= i < self.envs.len(),
        ensures
            new.lookup_at(i, key) == self.lookup_at(i, key),
            new.env_wf(i),
        decreases i,
    {
        assert(self.env_wf(i));
        assert(new.envs[i] == new.envs.subrange(0, self.envs.len() as int)[i]);
        let e = self.envs[i];
        assert forall|j: int| 0 <= j < self.data.len() implies new.data[j] == self.data[j] by {
            assert(new.data.subrange(0, self.data.len() as int)[j] == new.data[j]);
        }
        self.lemma_last_binding_prefix(new, e.locals.start as int, e.locals.end - 1, key);
        if let Some(p) = e.parent {
            if 0 <= p.index < i {
                self.lemma_grows_lookup(new, p.index as int, key);
            }
        }
        if e.locals.end > e.locals.start {
            assert(new.data[e.locals.end - 1] == self.data[e.locals.end - 1]);
            let lb = self.last_binding(e.locals.start as int, e.locals.end - 1, key);
            if let Some(j) = lb {
                self.lemma_last_binding_range(e.locals.start as int, e.locals.end - 1, key);
                assert(new.data[j] == self.data[j]);
            }
        }
    }

    pub proof fn lemma_grows_valid(self, new: Self, env: EnvId, key: Symbol)
        requires
            self.grows_to(new),
            self.wf(),
            self.valid(env),
        ensures
            new.valid(env),
            new.spec_lookup(env, key) == self.spec_lookup(env, key),
    {
        self.lemma_grows_lookup(new, env.index as int, key);
    }

    pub proof fn lemma_grows_refl(self)
        ensures
            self.grows_to(self),
    {
        assert(self.data.subrange(0, self.data.len() as int) =~= self.data);
        assert(self.envs.subrange(0, self.envs.len() as int) =~= self.envs);
    }

    pub proof fn lemma_grows_trans(self, b: Self, c: Self)
        requires
            self.grows_to(b),
            b.grows_to(c),
        ensures
            self.grows_to(c),
    {
        assert(c.data.subrange(0, self.data.len() as int) =~= b.data.subrange(0, self.data.len() as int));
        assert(c.envs.subrange(0, self.envs.len() as int) =~= b.envs.subrange(0, self.envs.len() as int));
    }

    /// Extending keeps the storage well formed when the parent is valid, and
    /// only grows it.
    pub proof fn lemma_extended(self, parent: Option<EnvId>, svs: Seq<(Symbol, V)>)
        requires
            self.wf(),
            parent matches Some(p) ==> self.valid(p),
            self.data.len() + svs.len() <= usize::MAX,
            self.envs.len() < usize::MAX,
        ensures
            self.extended(parent, svs).0.wf(),
            self.grows_to(self.extended(parent, svs).0),
            self.extended(parent, svs).0.valid(self.extended(parent, svs).1),
    {
        let n = self.extended(parent, svs).0;
        assert forall|i: int| 0 <= i < n.envs.len() implies #[trigger] n.env_wf(i) by {
            if i < self.envs.len() {
                assert(self.env_wf(i));
                assert(n.envs[i] == self.envs[i]);
            }
        }
        assert(n.data.subrange(0, self.data.len() as int) =~= self.data);
        assert(n.envs.subrange(0, self.envs.len() as int) =~= self.envs);
    }
}

impl<V: DeepClone> EnvironmentStorage<V> {
    pub open spec fn model(self) -> EnvModel<V> {
        EnvModel { envs: self.store.items(), data: self.data@, tag: env_arena_tag(self.store) }
    }

    pub open spec fn envs(self) -> Seq<Environment> {
        self.store.items()
    }

    pub open spec fn env_wf(self, i: int) -> bool {
        self.model().env_wf(i)
    }

    pub open spec fn wf(self) -> bool {
        self.model().wf()
    }

    pub open spec fn valid(self, id: EnvId) -> bool {
        self.model().valid(id)
    }

    pub open spec fn last_binding(self, start: int, end: int, key: Symbol) -> Option<int> {
        self.model().last_binding(start, end, key)
    }

    pub open spec fn lookup_at(self, i: int, key: Symbol) -> Option<V> {
        self.model().lookup_at(i, key)
    }

    pub open spec fn spec_lookup(self, env: EnvId, key: Symbol) -> Option<V> {
        self.model().spec_lookup(env, key)
    }

    /// `b` holds copies of the bindings of `a`: the same symbols bound to
    /// values with the same views.
    pub open spec fn copies(a: Seq<(Symbol, V)>, b: Seq<(Symbol, V)>) -> bool {
        &&& a.len() == b.len()
        &&& forall|j: int| 0 <= j < a.len() ==> #[trigger] a[j].0 == b[j].0 && a[j].1@ == b[j].1@
    }

    /// `new` is the outcome of appending copies of `svs` as a new environment
    /// under `parent` (or as a root when `parent` is `None`) to `old`, whose
    /// new environment is `r`.
    pub open spec fn appended(
        old: Self,
        new: Self,
        parent: Option<EnvId>,
        svs: Seq<(Symbol, V)>,
        r: EnvId,
    ) -> bool {
        &&& old.data.len() + svs.len() <= usize::MAX
        &&& new.data@.len() == old.data@.len() + svs.len()
        &&& new.data@.subrange(0, old.data@.len() as int) == old.data@
        &&& Self::copies(new.data@.subrange(old.data@.len() as int, new.data@.len() as int), svs)
        &&& new.envs() == old.envs().push(
            Environment {
                parent,
                locals: Range { start: old.data.len(), end: (old.data.len() + svs.len()) as usize },
            },
        )
        &&& env_arena_tag(new.store) == env_arena_tag(old.store)
        &&& r.arena == env_arena_tag(old.store)
        &&& r.index == old.envs().len()
    }

    /// `new` is the outcome of `set_root(svs)` on `old`, whose new root
    /// environment is `r`: the bindings are copies of `svs`, and the new
    /// environment, without parent, covers the range where the old bindings
    /// ended.
    pub open spec fn rooted(old: Self, new: Self, svs: Seq<(Symbol, V)>, r: EnvId) -> bool {
        &&& Self::copies(new.data@, svs)
        &&& new.envs() == old.envs().push(
            Environment {
                parent: None,
                locals: Range { start: old.data.len(), end: (old.data.len() + svs.len()) as usize },
            },
        )
        &&& env_arena_tag(new.store) == env_arena_tag(old.store)
        &&& r.arena == env_arena_tag(old.store)
        &&& r.index == old.envs().len()
    }

    pub open spec fn grows(old: Self, new: Self) -> bool {
        old.model().grows_to(new.model())
    }

    pub fn new() -> (r: Self)
        ensures
            r.envs().len() == 0,
            r.data@.len() == 0,
            r.wf(),
    {
        EnvironmentStorage { store: EnvArena::new(), data: Vec::new() }
    }

    fn push_all(&mut self, svs: &[(Symbol, V)])
        requires
            old(self).data.len() + svs@.len() <= usize::MAX,
        ensures
            final(self).data@.len() == old(self).data@.len() + svs@.len(),
            final(self).data@.subrange(0, old(self).data@.len() as int) == old(self).data@,
            Self::copies(
                final(self).data@.subrange(old(self).data@.len() as int, final(self).data@.len() as int),
                svs@,
            ),
            final(self).store == old(self).store,
    {
        let ghost start = self.data@;
        let mut i: usize = 0;
        while i < svs.len()
            invariant
                i <= svs@.len(),
                self.data@.len() == start.len() + i,
                self.data@.subrange(0, start.len() as int) == start,
                forall|j: int| 0 <= j < i ==> #[trigger] self.data@[start.len() + j].0 == svs@[j].0
                    && self.data@[start.len() + j].1@ == svs@[j].1@,
                self.store == old(self).store,
                start == old(self).data@,
                start.len() + svs@.len() <= usize::MAX,
            decreases svs@.len() - i,
        {
            let (sym, ref v) = svs[i];
            let item = (sym, v.deep_clone());
            self.data.push(item);
            assert(self.data@.subrange(0, start.len() as int) == start);
            i += 1;
        }
        let ghost fin = self.data@.subrange(start.len() as int, self.data@.len() as int);
        assert forall|j: int| 0 <= j < svs@.len() implies #[trigger] fin[j].0 == svs@[j].0 && fin[j].1@ == svs@[j].1@ by {
            assert(fin[j] == self.data@[start.len() + j]);
        }
    }

    /// Replaces all bindings by `svs` and makes them a new root environment.
    /// The new root's range starts where the old bindings ended, so it covers
    /// `svs` only when the storage held no bindings before.
    pub fn set_root(&mut self, svs: &[(Symbol, V)]) -> (r: EnvId)
        requires
            old(self).data.len() + svs@.len() <= usize::MAX,
            old(self).envs().len() < usize::MAX,
        ensures
            Self::rooted(*old(self), *final(self), svs@, r),
            final(self).valid(r),
            old(self).data.len() == 0 && old(self).wf() ==> final(self).wf(),
    {
        let start = self.data.len();
        let end = start + svs.len();
        self.data.clear();
        self.push_all(svs);
        let r = self.store.allocate(Environment { parent: None, locals: Range { start, end } });
        proof {
            assert(self.data@.subrange(0, self.data@.len() as int) == self.data@);
            if start == 0 && old(self).wf() {
                assert forall|i: int| 0 <= i < self.envs().len() implies #[trigger] self.model().env_wf(i) by {
                    if i < old(self).envs().len() {
                        assert(old(self).model().env_wf(i));
                        assert(self.envs()[i] == old(self).envs()[i]);
                    }
                }
            }
        }
        r
    }

    /// Binds `svs` in a new environment whose parent is `parent`.
    pub fn extend(&mut self, parent: EnvId, svs: &[(Symbol, V)]) -> (r: EnvId)
        requires
            old(self).data.len() + svs@.len() <= usize::MAX,
            old(self).envs().len() < usize::MAX,
        ensures
            Self::appended(*old(self), *final(self), Some(parent), svs@, r),
            final(self).valid(r),
            old(self).wf() && old(self).valid(parent) ==> final(self).wf(),
    {
        let start = self.data.len();
        let end = start + svs.len();
        self.push_all(svs);
        let r = self.store.allocate(Environment { parent: Some(parent), locals: Range { start, end } });
        proof {
            if old(self).wf() && old(self).valid(parent) {
                assert forall|i: int| 0 <= i < self.envs().len() implies #[trigger] self.model().env_wf(i) by {
                    if i < old(self).envs().len() {
                        assert(old(self).model().env_wf(i));
                        assert(self.envs()[i] == old(self).envs()[i]);
                    }
                }
            }
        }
        r
    }

    /// Looks `key` up in `env` as `lookup_at` describes.
    pub fn lookup(&self, env: EnvId, key: &Symbol) -> (r: Option<V>)
        requires
            self.wf(),
            self.valid(env),
        ensures
            r is Some <==> self.spec_lookup(env, *key) is Some,
            r is Some ==> r.unwrap()@ == self.spec_lookup(env, *key).unwrap()@,
        decreases env.index,
    {
        proof {
            assert(self.env_wf(env.index as int));
        }
        let e = match self.store.get(env) {
            Some(e) => e,
            None => { return None; },
        };
        let start = e.locals.start;
        let end = e.locals.end;
        if end <= start {
            return None;
        }
        if self.data[end - 1].0 == *key {
            return Some(self.data[end - 1].1.deep_clone());
        }
        let from_parent = match e.parent {
            Some(p) => self.lookup(p, key),
            None => None,
        };
        if from_parent.is_some() {
            return from_parent;
        }
        assert(self.spec_lookup(env, *key) == match self.last_binding(start as int, end - 1, *key) {
            Some(jj) => Some(self.data@[jj].1),
            None => None,
        });
        let ghost fallback = match self.last_binding(start as int, end - 1, *key) {
            Some(jj) => Some(self.data@[jj].1),
            None => None,
        };
        assert(self.spec_lookup(env, *key) == fallback);
        let mut j = end - 1;
        while j > start
            invariant
                start <= j <= end - 1,
                end <= self.data@.len(),
                self.last_binding(start as int, end - 1, *key) == self.last_binding(start as int, j as int, *key),
                self.spec_lookup(env, *key) == fallback,
                fallback == match self.last_binding(start as int, end - 1, *key) {
                    Some(jj) => Some(self.data@[jj].1),
                    None => None,
                },
            decreases j,
        {
            if self.data[j - 1].0 == *key {
                return Some(self.data[j - 1].1.deep_clone());
            }
            j -= 1;
        }
        None
    }
}

impl<V: DeepClone> EnvironmentStorage<V> {
    /// A binding made by `extend` is what a lookup of its key in the new
    /// environment finds.
    pub proof fn law_extend_binds(old: Self, new: Self, parent: EnvId, key: Symbol, value: V, r: EnvId)
        requires
            Self::appended(old, new, Some(parent), seq![(key, value)], r),
        ensures
            new.spec_lookup(r, key) matches Some(v) && v@ == value@,
    {
        let tail = new.data@.subrange(old.data@.len() as int, new.data@.len() as int);
        assert(tail[0] == new.data@[old.data.len() as int]);
        assert(seq![(key, value)][0] == (key, value));
    }

    /// Extending with a single binding leaves every other key as the parent
    /// environment sees it.
    pub proof fn law_extend_other_keys(
        old: Self,
        new: Self,
        parent: EnvId,
        key: Symbol,
        value: V,
        r: EnvId,
        other: Symbol,
    )
        requires
            Self::appended(old, new, Some(parent), seq![(key, value)], r),
            old.wf(),
            old.valid(parent),
            other != key,
        ensures
            new.spec_lookup(r, other) == old.spec_lookup(parent, other),
    {
        let tail = new.data@.subrange(old.data@.len() as int, new.data@.len() as int);
        assert(tail[0] == new.data@[old.data.len() as int]);
        assert(seq![(key, value)][0] == (key, value));
        Self::lemma_appended_grows(old, new, Some(parent), seq![(key, value)], r);
        old.model().lemma_grows_valid(new.model(), parent, other);
    }

    /// On a storage that holds no bindings, `set_root` with distinct keys
    /// makes a root environment in which each key of `svs` finds its own
    /// value and every other key finds nothing.
    pub proof fn law_set_root_lookup(old: Self, new: Self, svs: Seq<(Symbol, V)>, r: EnvId, key: Symbol)
        requires
            old.data@.len() == 0,
            Self::rooted(old, new, svs, r),
            forall|a: int, b: int| 0 <= a < b < svs.len() ==> svs[a].0 != svs[b].0,
        ensures
            forall|j: int| 0 <= j < svs.len() && #[trigger] svs[j].0 == key
                ==> (new.spec_lookup(r, key) matches Some(v) && v@ == svs[j].1@),
            (forall|j: int| 0 <= j < svs.len() ==> #[trigger] svs[j].0 != key) ==> new.spec_lookup(r, key) is None,
    {
        let m = new.model();
        let n = svs.len() as int;
        let i = r.index as int;
        assert(new.data@.len() == n);
        assert(new.data.len() == new.data@.len());
        assert(old.data.len() == 0);
        assert(m.envs[i].parent is None);
        assert(m.envs[i].locals.start == 0);
        assert(m.envs[i].locals.end == n);
        assert forall|k: int| 0 <= k < n implies #[trigger] m.data[k].0 == svs[k].0 && m.data[k].1@ == svs[k].1@ by {
            assert(new.data@[k].0 == svs[k].0);
        }
        if exists|j: int| 0 <= j < n && #[trigger] svs[j].0 == key {
            let j = choose|j: int| 0 <= j < n && #[trigger] svs[j].0 == key;
            assert forall|j2: int| 0 <= j2 < n && #[trigger] svs[j2].0 == key implies j2 == j by {
                if j2 < j {
                    assert(svs[j2].0 != svs[j].0);
                } else if j < j2 {
                    assert(svs[j].0 != svs[j2].0);
                }
            }
            if j < n - 1 {
                assert forall|k: int| j < k < n - 1 implies m.data[k].0 != key by {
                    assert(svs[j].0 != svs[k].0);
                }
                assert(m.data[n - 1].0 != key) by {
                    assert(svs[j].0 != svs[n - 1].0);
                }
                m.lemma_last_binding_at(0, n - 1, key, j);
            }
            assert(m.lookup_at(i, key) == Some(m.data[j].1));
            assert(m.data[j].0 == svs[j].0);
            assert(m.data[j].1@ == svs[j].1@);
            assert forall|j2: int| 0 <= j2 < svs.len() && #[trigger] svs[j2].0 == key implies (new.spec_lookup(r, key) matches Some(v)
                && v@ == svs[j2].1@) by {
                assert(j2 == j);
            }
        } else {
            assert forall|k: int| 0 <= k < n - 1 implies m.data[k].0 != key by {
                assert(svs[k].0 != key);
            }
            if n > 0 {
                assert(svs[n - 1].0 != key);
            }
            m.lemma_last_binding_absent(0, n - 1, key);
            assert(m.lookup_at(i, key) is None);
        }
    }

    /// Adding an environment changes no lookup in the environments that
    /// existed before.
    pub proof fn law_append_keeps_old_lookups(
        old: Self,
        new: Self,
        parent: Option<EnvId>,
        svs: Seq<(Symbol, V)>,
        r: EnvId,
        env: EnvId,
        key: Symbol,
    )
        requires
            Self::appended(old, new, parent, svs, r),
            old.wf(),
            old.valid(env),
        ensures
            new.spec_lookup(env, key) == old.spec_lookup(env, key),
    {
        Self::lemma_appended_grows(old, new, parent, svs, r);
        old.model().lemma_grows_valid(new.model(), env, key);
    }

    pub proof fn lemma_appended_grows(old: Self, new: Self, parent: Option<EnvId>, svs: Seq<(Symbol, V)>, r: EnvId)
        requires
            Self::appended(old, new, parent, svs, r),
        ensures
            Self::grows(old, new),
    {
        assert(new.envs().subrange(0, old.envs().len() as int) =~= old.envs());
    }

    pub proof fn lemma_grows_refl(a: Self)
        ensures
            Self::grows(a, a),
    {
        a.model().lemma_grows_refl();
    }

    pub proof fn lemma_grows_trans(a: Self, b: Self, c: Self)
        requires
            Self::grows(a, b),
            Self::grows(b, c),
        ensures
            Self::grows(a, c),
    {
        a.model().lemma_grows_trans(b.model(), c.model());
    }

    pub proof fn lemma_grows_valid(old: Self, new: Self, env: EnvId, key: Symbol)
        requires
            Self::grows(old, new),
            old.wf(),
            old.valid(env),
        ensures
            new.valid(env),
            new.spec_lookup(env, key) == old.spec_lookup(env, key),
    {
        old.model().lemma_grows_valid(new.model(), env, key);
    }
}

} // verus!
