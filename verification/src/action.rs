//! Undoable edits of a project held in a parse context: adding a region to a
//! track, adding a track, and wrapping a region in a fade. A project is the
//! expression `Project(sample_rate, tracks)`, each track `Track(array)` and the
//! array `Array(regions)`.

use vstd::prelude::*;
use std::sync::Arc;
use crate::lang::expr::{Expr, ExprRef, ExprV, FloatParamV, FloatParameter, Literal, LiteralV, clone_expr};
use crate::lang::parser::ParseContext;
use crate::store::{ExprId, expr_arena_tag};

verus! {

#[derive(Debug)]
pub enum Error {
    FailToLock(String),
    /// Length of the container and the index.
    InvalidIndex(usize, i64),
    ContainerEmpty,
    InvalidTrackType,
    NothingToBeAdded,
    InvalidConversion,
    InvalidAllocation,
}

/// Bit pattern of the `f64` 10.0, the upper bound of a fade time in seconds.
pub const FADE_TIME_MAX_BITS: u64 = 0x4024000000000000u64;

/// The expressions of a parse context, by view.
pub open spec fn exprs_of(ctx: ParseContext) -> Seq<ExprV> {
    ctx.expr_storage.items().map_values(|e: Expr| e@)
}

pub open spec fn tag_of(ctx: ParseContext) -> u32 {
    expr_arena_tag(ctx.expr_storage)
}

pub open spec fn holds(exprs: Seq<ExprV>, tag: u32, e: ExprRef) -> bool {
    e.0.arena == tag && e.0.index < exprs.len()
}

/// The project `proj` refers to: its reference, sample rate and tracks.
pub open spec fn tracks_at(exprs: Seq<ExprV>, tag: u32, proj: Option<ExprRef>) -> Result<(ExprRef, u64, Seq<ExprRef>), Error> {
    match proj {
        None => Err(Error::InvalidConversion),
        Some(p) => if !holds(exprs, tag, p) {
            Err(Error::InvalidAllocation)
        } else {
            match exprs[p.0.index as int] {
                ExprV::Project(sr, ts) => Ok((p, sr, ts)),
                _ => Err(Error::InvalidConversion),
            }
        },
    }
}

/// The array of regions of track `track_num` of the project: its reference
/// and the regions.
pub open spec fn regions_at(exprs: Seq<ExprV>, tag: u32, proj: Option<ExprRef>, track_num: usize) -> Result<(ExprRef, Seq<ExprRef>), Error> {
    match tracks_at(exprs, tag, proj) {
        Err(x) => Err(x),
        Ok((_, _, ts)) => if track_num >= ts.len() {
            Err(Error::InvalidIndex(ts.len() as usize, track_num as i64))
        } else {
            let t = ts[track_num as int];
            if !holds(exprs, tag, t) {
                Err(Error::InvalidAllocation)
            } else {
                match exprs[t.0.index as int] {
                    ExprV::Track(a) => if !holds(exprs, tag, a) {
                        Err(Error::InvalidAllocation)
                    } else {
                        match exprs[a.0.index as int] {
                            ExprV::Array(rs) => Ok((a, rs)),
                            _ => Err(Error::InvalidTrackType),
                        }
                    },
                    _ => Err(Error::InvalidTrackType),
                }
            }
        },
    }
}

pub open spec fn tracks_result(r: Result<(ExprRef, u64, Vec<ExprRef>), Error>) -> Result<(ExprRef, u64, Seq<ExprRef>), Error> {
    match r {
        Ok((p, sr, ts)) => Ok((p, sr, ts@)),
        Err(x) => Err(x),
    }
}

pub open spec fn regions_result(r: Result<(ExprRef, Vec<ExprRef>), Error>) -> Result<(ExprRef, Seq<ExprRef>), Error> {
    match r {
        Ok((a, rs)) => Ok((a, rs@)),
        Err(x) => Err(x),
    }
}

/// A copy of the expression `e`, or `InvalidAllocation` when the context
/// does not hold it.
fn get_expr(ctx: &ParseContext, e: ExprRef) -> (r: Result<Expr, Error>)
    ensures
        match r {
            Ok(x) => holds(exprs_of(*ctx), tag_of(*ctx), e) && x@ == exprs_of(*ctx)[e.0.index as int],
            Err(x) => !holds(exprs_of(*ctx), tag_of(*ctx), e) && x == Error::InvalidAllocation,
        },
{
    match ctx.get_expr(e) {
        Some(x) => Ok(clone_expr(x)),
        None => Err(Error::InvalidAllocation),
    }
}

fn get_tracks(ctx: &ParseContext, proj: Option<ExprRef>) -> (r: Result<(ExprRef, u64, Vec<ExprRef>), Error>)
    ensures
        tracks_result(r) == tracks_at(exprs_of(*ctx), tag_of(*ctx), proj),
{
    match proj {
        Some(p) => match get_expr(ctx, p) {
            Ok(Expr::Project(sr, ts)) => Ok((p, sr, ts)),
            Ok(_) => Err(Error::InvalidConversion),
            Err(x) => Err(x),
        },
        None => Err(Error::InvalidConversion),
    }
}

fn get_regions(ctx: &ParseContext, proj: Option<ExprRef>, track_num: usize) -> (r: Result<(ExprRef, Vec<ExprRef>), Error>)
    ensures
        regions_result(r) == regions_at(exprs_of(*ctx), tag_of(*ctx), proj, track_num),
{
    let tracks = match get_tracks(ctx, proj) {
        Ok((_, _, ts)) => ts,
        Err(x) => {
            return Err(x);
        },
    };
    if track_num >= tracks.len() {
        return Err(Error::InvalidIndex(tracks.len(), track_num as i64));
    }
    let t = tracks[track_num];
    let a = match get_expr(ctx, t) {
        Ok(Expr::Track(a)) => a,
        Ok(_) => {
            return Err(Error::InvalidTrackType);
        },
        Err(x) => {
            return Err(x);
        },
    };
    match get_expr(ctx, a) {
        Ok(Expr::Array(rs)) => Ok((a, rs)),
        Ok(_) => Err(Error::InvalidTrackType),
        Err(x) => Err(x),
    }
}

/// Overwrites the expression `id` of the context.
fn set_expr(ctx: &mut ParseContext, id: ExprRef, e: Expr)
    requires
        holds(exprs_of(*old(ctx)), tag_of(*old(ctx)), id),
    ensures
        exprs_of(*final(ctx)) == exprs_of(*old(ctx)).update(id.0.index as int, e@),
        tag_of(*final(ctx)) == tag_of(*old(ctx)),
        final(ctx).interner == old(ctx).interner,
        final(ctx).span_storage@ == old(ctx).span_storage@,
{
    let ghost ev = e@;
    ctx.expr_storage.set(id.0, e);
    proof {
        assert(exprs_of(*ctx) =~= exprs_of(*old(ctx)).update(id.0.index as int, ev));
    }
}

/// The expressions after `elem` is appended to the regions of track
/// `track_num`, and the position it got.
pub open spec fn region_added(exprs: Seq<ExprV>, tag: u32, proj: Option<ExprRef>, track_num: usize, elem: ExprRef) -> Result<(Seq<ExprV>, usize), Error> {
    match regions_at(exprs, tag, proj, track_num) {
        Err(x) => Err(x),
        Ok((a, rs)) => Ok((exprs.update(a.0.index as int, ExprV::Array(rs.push(elem))), rs.len() as usize)),
    }
}

/// The expressions after the region at `pos` of track `track_num` is removed.
pub open spec fn region_removed(exprs: Seq<ExprV>, tag: u32, proj: Option<ExprRef>, track_num: usize, pos: usize) -> Result<Seq<ExprV>, Error> {
    match regions_at(exprs, tag, proj, track_num) {
        Err(x) => Err(x),
        Ok((a, rs)) => if rs.len() == 0 {
            Err(Error::ContainerEmpty)
        } else if rs.len() < pos {
            Err(Error::InvalidIndex(rs.len() as usize, pos as i64))
        } else {
            Ok(exprs.update(a.0.index as int, ExprV::Array(rs.remove(pos as int))))
        },
    }
}

/// Removing the region at `pos` would index one past the end.
pub open spec fn region_removal_overruns(exprs: Seq<ExprV>, tag: u32, proj: Option<ExprRef>, track_num: usize, pos: usize) -> bool {
    regions_at(exprs, tag, proj, track_num) matches Ok((_, rs)) && rs.len() > 0 && rs.len() == pos
}

/// Adds a region to a track.
#[derive(Debug)]
pub struct AddRegion {
    pub elem: ExprRef,
    pub track_num: usize,
    pub pos: usize,
}

impl AddRegion {
    pub fn new(elem: ExprRef, track_num: usize) -> (r: Self)
        ensures
            r.elem == elem,
            r.track_num == track_num,
            r.pos == 0,
    {
        AddRegion { elem, track_num, pos: 0 }
    }

    /// Appends the region to the track of the project `proj` and remembers
    /// its position.
    pub fn apply(&mut self, ctx: &mut ParseContext, proj: Option<ExprRef>) -> (r: Result<(), Error>)
        ensures
            final(self).elem == old(self).elem,
            final(self).track_num == old(self).track_num,
            tag_of(*final(ctx)) == tag_of(*old(ctx)),
            final(ctx).interner == old(ctx).interner,
            match region_added(exprs_of(*old(ctx)), tag_of(*old(ctx)), proj, old(self).track_num, old(self).elem) {
                Ok((es, p)) => r is Ok && exprs_of(*final(ctx)) == es && final(self).pos == p,
                Err(x) => r == Err::<(), Error>(x) && exprs_of(*final(ctx)) == exprs_of(*old(ctx))
                    && final(self).pos == old(self).pos,
            },
    {
        let (a, mut regions) = match get_regions(ctx, proj, self.track_num) {
            Ok(x) => x,
            Err(x) => {
                return Err(x);
            },
        };
        regions.push(self.elem);
        self.pos = regions.len() - 1;
        set_expr(ctx, a, Expr::Array(regions));
        Ok(())
    }

    /// Removes the region at the remembered position from the track.
    pub fn undo(&mut self, ctx: &mut ParseContext, proj: Option<ExprRef>) -> (r: Result<(), Error>)
        requires
            !region_removal_overruns(exprs_of(*old(ctx)), tag_of(*old(ctx)), proj, old(self).track_num, old(self).pos),
        ensures
            *final(self) == *old(self),
            tag_of(*final(ctx)) == tag_of(*old(ctx)),
            final(ctx).interner == old(ctx).interner,
            match region_removed(exprs_of(*old(ctx)), tag_of(*old(ctx)), proj, old(self).track_num, old(self).pos) {
                Ok(es) => r is Ok && exprs_of(*final(ctx)) == es,
                Err(x) => r == Err::<(), Error>(x) && exprs_of(*final(ctx)) == exprs_of(*old(ctx)),
            },
    {
        let (a, mut regions) = match get_regions(ctx, proj, self.track_num) {
            Ok(x) => x,
            Err(x) => {
                return Err(x);
            },
        };
        if regions.len() == 0 {
            Err(Error::ContainerEmpty)
        } else if regions.len() < self.pos {
            Err(Error::InvalidIndex(regions.len(), self.pos as i64))
        } else {
            regions.remove(self.pos);
            set_expr(ctx, a, Expr::Array(regions));
            Ok(())
        }
    }
}

/// Navigating to the regions of a track again after the array of regions was
/// replaced by another array finds the new array.
proof fn lemma_regions_after_update(exprs: Seq<ExprV>, tag: u32, proj: Option<ExprRef>, track_num: usize, rs2: Seq<ExprRef>)
    requires
        regions_at(exprs, tag, proj, track_num) is Ok,
    ensures
        ({
            let a = regions_at(exprs, tag, proj, track_num)->Ok_0.0;
            regions_at(exprs.update(a.0.index as int, ExprV::Array(rs2)), tag, proj, track_num)
                == Ok::<(ExprRef, Seq<ExprRef>), Error>((a, rs2))
        }),
{
    let a = regions_at(exprs, tag, proj, track_num)->Ok_0.0;
    let es = exprs.update(a.0.index as int, ExprV::Array(rs2));
    let p = proj->Some_0;
    let ts = tracks_at(exprs, tag, proj)->Ok_0.2;
    let t = ts[track_num as int];
    assert(p.0.index != a.0.index);
    assert(t.0.index != a.0.index);
    assert(es[p.0.index as int] == exprs[p.0.index as int]);
    assert(es[t.0.index as int] == exprs[t.0.index as int]);
}

/// Undoing the addition of a region restores the project as it was.
pub proof fn law_add_region_undo(exprs: Seq<ExprV>, tag: u32, proj: Option<ExprRef>, track_num: usize, elem: ExprRef)
    requires
        region_added(exprs, tag, proj, track_num, elem) is Ok,
        regions_at(exprs, tag, proj, track_num)->Ok_0.1.len() < usize::MAX,
    ensures
        ({
            let (es, pos) = region_added(exprs, tag, proj, track_num, elem)->Ok_0;
            &&& !region_removal_overruns(es, tag, proj, track_num, pos)
            &&& region_removed(es, tag, proj, track_num, pos) == Ok::<Seq<ExprV>, Error>(exprs)
        }),
{
    let (a, rs) = regions_at(exprs, tag, proj, track_num)->Ok_0;
    lemma_regions_after_update(exprs, tag, proj, track_num, rs.push(elem));
    let es = exprs.update(a.0.index as int, ExprV::Array(rs.push(elem)));
    assert(rs.push(elem).remove(rs.len() as int) =~= rs);
    assert(es.update(a.0.index as int, ExprV::Array(rs)) =~= exprs);
}

/// The expressions after `elem` is appended to the tracks of the project,
/// and the position it got.
pub open spec fn track_added(exprs: Seq<ExprV>, tag: u32, proj: Option<ExprRef>, elem: ExprRef) -> Result<(Seq<ExprV>, usize), Error> {
    match tracks_at(exprs, tag, proj) {
        Err(x) => Err(x),
        Ok((p, sr, ts)) => Ok((exprs.update(p.0.index as int, ExprV::Project(sr, ts.push(elem))), ts.len() as usize)),
    }
}

/// The expressions after the track at `pos` is removed from the project.
pub open spec fn track_removed(exprs: Seq<ExprV>, tag: u32, proj: Option<ExprRef>, pos: usize) -> Result<Seq<ExprV>, Error> {
    match tracks_at(exprs, tag, proj) {
        Err(x) => Err(x),
        Ok((p, sr, ts)) => if ts.len() == 0 {
            Err(Error::ContainerEmpty)
        } else {
            Ok(exprs.update(p.0.index as int, ExprV::Project(sr, ts.remove(pos as int))))
        },
    }
}

/// Removing the track at `pos` would index past the end.
pub open spec fn track_removal_overruns(exprs: Seq<ExprV>, tag: u32, proj: Option<ExprRef>, pos: usize) -> bool {
    tracks_at(exprs, tag, proj) matches Ok((_, _, ts)) && ts.len() > 0 && pos >= ts.len()
}

/// Adds a track to the project.
#[derive(Debug)]
pub struct AddTrack {
    pub elem: ExprRef,
    pub pos: usize,
}

impl AddTrack {
    pub fn new(elem: ExprRef) -> (r: Self)
        ensures
            r.elem == elem,
            r.pos == 0,
    {
        AddTrack { elem, pos: 0 }
    }

    /// Appends the track to the project `proj` and remembers its position.
    pub fn apply(&mut self, ctx: &mut ParseContext, proj: Option<ExprRef>) -> (r: Result<(), Error>)
        ensures
            final(self).elem == old(self).elem,
            tag_of(*final(ctx)) == tag_of(*old(ctx)),
            final(ctx).interner == old(ctx).interner,
            match track_added(exprs_of(*old(ctx)), tag_of(*old(ctx)), proj, old(self).elem) {
                Ok((es, p)) => r is Ok && exprs_of(*final(ctx)) == es && final(self).pos == p,
                Err(x) => r == Err::<(), Error>(x) && exprs_of(*final(ctx)) == exprs_of(*old(ctx))
                    && final(self).pos == old(self).pos,
            },
    {
        let (p, sr, mut tracks) = match get_tracks(ctx, proj) {
            Ok(x) => x,
            Err(x) => {
                return Err(x);
            },
        };
        tracks.push(self.elem);
        self.pos = tracks.len() - 1;
        set_expr(ctx, p, Expr::Project(sr, tracks));
        Ok(())
    }

    /// Removes the track at the remembered position.
    pub fn undo(&mut self, ctx: &mut ParseContext, proj: Option<ExprRef>) -> (r: Result<(), Error>)
        requires
            !track_removal_overruns(exprs_of(*old(ctx)), tag_of(*old(ctx)), proj, old(self).pos),
        ensures
            *final(self) == *old(self),
            tag_of(*final(ctx)) == tag_of(*old(ctx)),
            final(ctx).interner == old(ctx).interner,
            match track_removed(exprs_of(*old(ctx)), tag_of(*old(ctx)), proj, old(self).pos) {
                Ok(es) => r is Ok && exprs_of(*final(ctx)) == es,
                Err(x) => r == Err::<(), Error>(x) && exprs_of(*final(ctx)) == exprs_of(*old(ctx)),
            },
    {
        let (p, sr, mut tracks) = match get_tracks(ctx, proj) {
            Ok(x) => x,
            Err(x) => {
                return Err(x);
            },
        };
        if tracks.len() == 0 {
            Err(Error::ContainerEmpty)
        } else {
            tracks.remove(self.pos);
            set_expr(ctx, p, Expr::Project(sr, tracks));
            Ok(())
        }
    }
}

/// Undoing the addition of a track restores the project as it was.
pub proof fn law_add_track_undo(exprs: Seq<ExprV>, tag: u32, proj: Option<ExprRef>, elem: ExprRef)
    requires
        track_added(exprs, tag, proj, elem) is Ok,
        tracks_at(exprs, tag, proj)->Ok_0.2.len() < usize::MAX,
    ensures
        ({
            let (es, pos) = track_added(exprs, tag, proj, elem)->Ok_0;
            &&& !track_removal_overruns(es, tag, proj, pos)
            &&& track_removed(es, tag, proj, pos) == Ok::<Seq<ExprV>, Error>(exprs)
        }),
{
    let (p, sr, ts) = tracks_at(exprs, tag, proj)->Ok_0;
    let es = exprs.update(p.0.index as int, ExprV::Project(sr, ts.push(elem)));
    assert(tracks_at(es, tag, proj) == Ok::<(ExprRef, u64, Seq<ExprRef>), Error>((p, sr, ts.push(elem))));
    assert(ts.push(elem).remove(ts.len() as int) =~= ts);
    assert(es.update(p.0.index as int, ExprV::Project(sr, ts)) =~= exprs);
}

/// Tracks are numbered from the first: the regions of track `track_num` are
/// the array of the `track_num`-th track of the project, counted from the
/// front, whatever the number of tracks.
pub proof fn law_track_number_counts_from_front(
    exprs: Seq<ExprV>,
    tag: u32,
    proj: Option<ExprRef>,
    track_num: usize,
    a: ExprRef,
    rs: Seq<ExprRef>,
)
    requires
        tracks_at(exprs, tag, proj) is Ok,
        track_num < tracks_at(exprs, tag, proj)->Ok_0.2.len(),
        holds(exprs, tag, tracks_at(exprs, tag, proj)->Ok_0.2[track_num as int]),
        exprs[tracks_at(exprs, tag, proj)->Ok_0.2[track_num as int].0.index as int] == ExprV::Track(a),
        holds(exprs, tag, a),
        exprs[a.0.index as int] == ExprV::Array(rs),
    ensures
        regions_at(exprs, tag, proj, track_num) == Ok::<(ExprRef, Seq<ExprRef>), Error>((a, rs)),
{
}

/// A track that was just added is the last one: its regions are found under
/// the position that adding it reported, and every track that was there
/// before keeps its number and its regions.
pub proof fn law_added_track_keeps_numbers(
    exprs: Seq<ExprV>,
    tag: u32,
    proj: Option<ExprRef>,
    elem: ExprRef,
    a: ExprRef,
    rs: Seq<ExprRef>,
    k: usize,
)
    requires
        track_added(exprs, tag, proj, elem) is Ok,
        holds(exprs, tag, elem),
        exprs[elem.0.index as int] == ExprV::Track(a),
        holds(exprs, tag, a),
        exprs[a.0.index as int] == ExprV::Array(rs),
        k < tracks_at(exprs, tag, proj)->Ok_0.2.len(),
        tracks_at(exprs, tag, proj)->Ok_0.2.len() < usize::MAX,
    ensures
        ({
            let (es, pos) = track_added(exprs, tag, proj, elem)->Ok_0;
            &&& regions_at(es, tag, proj, pos) == Ok::<(ExprRef, Seq<ExprRef>), Error>((a, rs))
            &&& regions_at(es, tag, proj, k) == regions_at(exprs, tag, proj, k)
        }),
{
    let (p, sr, ts) = tracks_at(exprs, tag, proj)->Ok_0;
    let es = exprs.update(p.0.index as int, ExprV::Project(sr, ts.push(elem)));
    assert(tracks_at(es, tag, proj) == Ok::<(ExprRef, u64, Seq<ExprRef>), Error>((p, sr, ts.push(elem))));
    assert(p.0.index != elem.0.index);
    assert(p.0.index != a.0.index);
    assert(ts.push(elem)[ts.len() as int] == elem);
    assert(ts.push(elem)[k as int] == ts[k as int]);
    assert(es[elem.0.index as int] == ExprV::Track(a));
    assert(es[a.0.index as int] == ExprV::Array(rs));
    assert(regions_at(es, tag, proj, ts.len() as usize) == Ok::<(ExprRef, Seq<ExprRef>), Error>((a, rs)));
    let t = ts[k as int];
    if holds(exprs, tag, t) {
        assert(t.0.index != p.0.index ==> es[t.0.index as int] == exprs[t.0.index as int]);
        if let ExprV::Track(b) = exprs[t.0.index as int] {
            assert(t.0.index != p.0.index);
            if holds(exprs, tag, b) {
                if exprs[b.0.index as int] is Array {
                    assert(b.0.index != p.0.index);
                }
            }
        }
        if t.0.index == p.0.index {
            assert(es[t.0.index as int] is Project);
        }
    }
}

/// The parameter literal that holds a fade time.
pub open spec fn fade_time_literal(bits: u64) -> ExprV {
    ExprV::Literal(
        LiteralV::FloatParameter(
            FloatParamV { value_bits: bits, label: "time_in"@, min_bits: 0, max_bits: FADE_TIME_MAX_BITS },
        ),
    )
}

/// The reference to position `i` of the arena `tag`.
pub open spec fn ref_at(tag: u32, i: int) -> ExprRef {
    ExprRef(ExprId { index: i as usize, arena: tag })
}

/// `new` is `old` with the region at `pos` of track `track_num` replaced by a
/// call of `fadeinout` on that region and two fade-time parameters `ti` and
/// `to`; the parameters, the name and the call are stored after the old
/// expressions.
pub open spec fn fade_applied(
    old: Seq<ExprV>,
    new: Seq<ExprV>,
    strings: Seq<Seq<char>>,
    tag: u32,
    proj: Option<ExprRef>,
    track_num: usize,
    pos: usize,
    ti: u64,
    to: u64,
) -> bool {
    regions_at(old, tag, proj, track_num) matches Ok((a, rs)) && pos < rs.len() && {
        let n = old.len() as int;
        &&& new.len() == n + 4
        &&& new[n] == fade_time_literal(ti)
        &&& new[n + 1] == fade_time_literal(to)
        &&& new[n + 2] is Var
        &&& new[n + 2]->Var_0.0 < strings.len()
        &&& strings[new[n + 2]->Var_0.0 as int] == "fadeinout"@
        &&& new[n + 3] == ExprV::App(ref_at(tag, n + 2), seq![rs[pos as int], ref_at(tag, n), ref_at(tag, n + 1)])
        &&& new.take(n) == old.update(a.0.index as int, ExprV::Array(rs.update(pos as int, ref_at(tag, n + 3))))
    }
}

/// The error that wrapping the region at `pos` meets, if any.
pub open spec fn fade_apply_error(exprs: Seq<ExprV>, tag: u32, proj: Option<ExprRef>, track_num: usize, pos: usize) -> Option<Error> {
    match regions_at(exprs, tag, proj, track_num) {
        Err(x) => Some(x),
        Ok((_, rs)) => if pos >= rs.len() {
            Some(Error::InvalidAllocation)
        } else {
            None
        },
    }
}

/// The fade time a parameter or number literal holds; zero for anything else.
pub open spec fn fade_time_of(exprs: Seq<ExprV>, tag: u32, e: ExprRef) -> u64 {
    if holds(exprs, tag, e) {
        match exprs[e.0.index as int] {
            ExprV::Literal(LiteralV::FloatParameter(p)) => p.value_bits,
            ExprV::Literal(LiteralV::Number(b)) => b,
            _ => 0,
        }
    } else {
        0
    }
}

/// Unwrapping the region at `pos`: when it is a call of `fadeinout` on three
/// arguments, the expressions with the first argument put back and the two
/// fade times; when it is no call of a name, nothing changes.
pub open spec fn fade_removed(
    exprs: Seq<ExprV>,
    strings: Seq<Seq<char>>,
    tag: u32,
    proj: Option<ExprRef>,
    track_num: usize,
    pos: usize,
) -> Result<(Seq<ExprV>, Option<(u64, u64)>), Error> {
    match regions_at(exprs, tag, proj, track_num) {
        Err(x) => Err(x),
        Ok((a, rs)) => if rs.len() == 0 {
            Err(Error::ContainerEmpty)
        } else if rs.len() < pos {
            Err(Error::InvalidIndex(rs.len() as usize, pos as i64))
        } else {
            let r = rs[pos as int];
            if holds(exprs, tag, r) && exprs[r.0.index as int] is App && holds(
                exprs,
                tag,
                exprs[r.0.index as int]->App_0,
            ) && exprs[exprs[r.0.index as int]->App_0.0.index as int] is Var {
                let name = exprs[exprs[r.0.index as int]->App_0.0.index as int]->Var_0;
                let args = exprs[r.0.index as int]->App_1;
                if name.0 < strings.len() && strings[name.0 as int] == "fadeinout"@ && args.len() == 3 {
                    Ok(
                        (
                            exprs.update(a.0.index as int, ExprV::Array(rs.update(pos as int, args[0]))),
                            Some((fade_time_of(exprs, tag, args[1]), fade_time_of(exprs, tag, args[2]))),
                        ),
                    )
                } else {
                    Err(Error::InvalidConversion)
                }
            } else {
                Ok((exprs, None))
            }
        },
    }
}

/// Unwrapping the region at `pos` would index one past the end.
pub open spec fn fade_removal_overruns(exprs: Seq<ExprV>, tag: u32, proj: Option<ExprRef>, track_num: usize, pos: usize) -> bool {
    regions_at(exprs, tag, proj, track_num) matches Ok((_, rs)) && rs.len() > 0 && rs.len() == pos
}

/// Wraps a region in a fade in and out.
#[derive(Debug)]
pub struct AddFadeInOut {
    pub track_num: usize,
    pub pos: usize,
    /// Fade-in time in seconds, as the bit pattern of an `f64`.
    pub time_in: u64,
    /// Fade-out time in seconds, as the bit pattern of an `f64`.
    pub time_out: u64,
}

/// The fade time held by the literal `e`.
fn fade_time(ctx: &ParseContext, e: ExprRef) -> (r: u64)
    ensures
        r == fade_time_of(exprs_of(*ctx), tag_of(*ctx), e),
{
    match get_expr(ctx, e) {
        Ok(Expr::Literal(Literal::FloatParameter(p))) => p.value_bits,
        Ok(Expr::Literal(Literal::Number(b))) => b,
        _ => 0,
    }
}

impl AddFadeInOut {
    /// Replaces the region at `pos` of track `track_num` by a call of
    /// `fadeinout` on it and the two fade times.
    pub fn apply(&mut self, ctx: &mut ParseContext, proj: Option<ExprRef>) -> (r: Result<(), Error>)
        requires
            old(ctx).expr_storage.items().len() + 4 < usize::MAX,
            old(ctx).interner.strings().len() + 1 < usize::MAX,
        ensures
            *final(self) == *old(self),
            tag_of(*final(ctx)) == tag_of(*old(ctx)),
            match fade_apply_error(exprs_of(*old(ctx)), tag_of(*old(ctx)), proj, old(self).track_num, old(self).pos) {
                Some(x) => r == Err::<(), Error>(x) && exprs_of(*final(ctx)) == exprs_of(*old(ctx))
                    && final(ctx).interner == old(ctx).interner,
                None => r is Ok && fade_applied(
                    exprs_of(*old(ctx)),
                    exprs_of(*final(ctx)),
                    final(ctx).interner.strings(),
                    tag_of(*old(ctx)),
                    proj,
                    old(self).track_num,
                    old(self).pos,
                    old(self).time_in,
                    old(self).time_out,
                ) && old(ctx).interner.strings().is_prefix_of(final(ctx).interner.strings()),
            },
    {
        let ghost e0 = exprs_of(*ctx);
        let ghost tag = tag_of(*ctx);
        let (a, mut regions) = match get_regions(ctx, proj, self.track_num) {
            Ok(x) => x,
            Err(x) => {
                return Err(x);
            },
        };
        if self.pos >= regions.len() {
            return Err(Error::InvalidAllocation);
        }
        let ghost rs = regions@;
        let reg = regions[self.pos];
        let ti = ctx.make_literal(
            Literal::FloatParameter(
                Arc::new(
                    FloatParameter {
                        value_bits: self.time_in,
                        label: "time_in".to_owned(),
                        min_bits: 0,
                        max_bits: FADE_TIME_MAX_BITS,
                    },
                ),
            ),
        );
        let ghost e1 = exprs_of(*ctx);
        assert(e1 =~= e0.push(fade_time_literal(self.time_in)));
        let to = ctx.make_literal(
            Literal::FloatParameter(
                Arc::new(
                    FloatParameter {
                        value_bits: self.time_out,
                        label: "time_in".to_owned(),
                        min_bits: 0,
                        max_bits: FADE_TIME_MAX_BITS,
                    },
                ),
            ),
        );
        let ghost e2 = exprs_of(*ctx);
        assert(e2 =~= e1.push(fade_time_literal(self.time_out)));
        let ghost s2 = ctx.interner.strings();
        let func = ctx.make_var("fadeinout");
        let ghost e3 = exprs_of(*ctx);
        assert(e3.drop_last() =~= e2);
        let mut args: Vec<ExprRef> = Vec::new();
        args.push(reg);
        args.push(ti);
        args.push(to);
        let app = ctx.make_apply(func, args.as_slice());
        let ghost e4 = exprs_of(*ctx);
        assert(e4.drop_last() =~= e3);
        regions.set(self.pos, app);
        proof {
            assert(s2.is_prefix_of(ctx.interner.strings()));
            assert(holds(e4, tag, a));
        }
        set_expr(ctx, a, Expr::Array(regions));
        proof {
            let n = e0.len() as int;
            assert forall|i: int| 0 <= i < n implies e4[i] == e0[i] by {
                assert(e4.drop_last()[i] == e3[i]);
                assert(e3.drop_last()[i] == e2[i]);
            }
            assert(e4[n] == e3[n]);
            assert(e3[n] == e2[n]);
            assert(e4[n + 1] == e3[n + 1]);
            assert(e3[n + 1] == e2[n + 1]);
            assert(e4[n + 2] == e3[n + 2]);
            let e5 = exprs_of(*ctx);
            assert(e5.take(n) =~= e0.update(a.0.index as int, ExprV::Array(rs.update(self.pos as int, ref_at(tag, n + 3)))));
            assert(e5[n] == e1[n]);
            assert(e5[n + 1] == e2[n + 1]);
            assert(e5[n + 2] == e3[n + 2]);
            assert(e5[n + 3] == e4[n + 3]);
            assert(args@ =~= seq![rs[self.pos as int], ref_at(tag, n), ref_at(tag, n + 1)]);
        }
        Ok(())
    }

    /// Puts back the region that `apply` wrapped, and reads back the fade
    /// times.
    pub fn undo(&mut self, ctx: &mut ParseContext, proj: Option<ExprRef>) -> (r: Result<(), Error>)
        requires
            !fade_removal_overruns(exprs_of(*old(ctx)), tag_of(*old(ctx)), proj, old(self).track_num, old(self).pos),
        ensures
            final(self).track_num == old(self).track_num,
            final(self).pos == old(self).pos,
            tag_of(*final(ctx)) == tag_of(*old(ctx)),
            final(ctx).interner == old(ctx).interner,
            match fade_removed(exprs_of(*old(ctx)), old(ctx).interner.strings(), tag_of(*old(ctx)), proj, old(self).track_num, old(self).pos) {
                Ok((es, times)) => r is Ok && exprs_of(*final(ctx)) == es && match times {
                    Some((ti, to)) => final(self).time_in == ti && final(self).time_out == to,
                    None => final(self).time_in == old(self).time_in && final(self).time_out == old(self).time_out,
                },
                Err(x) => r == Err::<(), Error>(x) && exprs_of(*final(ctx)) == exprs_of(*old(ctx)) && *final(self) == *old(self),
            },
    {
        let (a, mut regions) = match get_regions(ctx, proj, self.track_num) {
            Ok(x) => x,
            Err(x) => {
                return Err(x);
            },
        };
        if regions.len() == 0 {
            return Err(Error::ContainerEmpty);
        }
        if regions.len() < self.pos {
            return Err(Error::InvalidIndex(regions.len(), self.pos as i64));
        }
        let r = regions[self.pos];
        let (f, args) = match get_expr(ctx, r) {
            Ok(Expr::App(f, args)) => (f, args),
            _ => {
                return Ok(());
            },
        };
        let name = match get_expr(ctx, f) {
            Ok(Expr::Var(n)) => n,
            _ => {
                return Ok(());
            },
        };
        let is_fade = match ctx.interner.resolve(name.0) {
            Some(s) => s.to_owned() == "fadeinout".to_owned(),
            None => false,
        };
        if !is_fade || args.len() != 3 {
            return Err(Error::InvalidConversion);
        }
        self.time_in = fade_time(ctx, args[1]);
        self.time_out = fade_time(ctx, args[2]);
        regions.set(self.pos, args[0]);
        set_expr(ctx, a, Expr::Array(regions));
        Ok(())
    }
}

/// Looking up the regions of a track depends only on the expressions that
/// were there: storing more expressions after them changes nothing.
proof fn lemma_regions_prefix(exprs: Seq<ExprV>, more: Seq<ExprV>, tag: u32, proj: Option<ExprRef>, track_num: usize)
    requires
        regions_at(exprs, tag, proj, track_num) is Ok,
        more.len() >= exprs.len(),
        more.take(exprs.len() as int) == exprs,
    ensures
        regions_at(more, tag, proj, track_num) == regions_at(exprs, tag, proj, track_num),
{
    let p = proj->Some_0;
    let ts = tracks_at(exprs, tag, proj)->Ok_0.2;
    let t = ts[track_num as int];
    let a = regions_at(exprs, tag, proj, track_num)->Ok_0.0;
    assert(more[p.0.index as int] == more.take(exprs.len() as int)[p.0.index as int]);
    assert(more[t.0.index as int] == more.take(exprs.len() as int)[t.0.index as int]);
    assert(more[a.0.index as int] == more.take(exprs.len() as int)[a.0.index as int]);
}

/// Undoing a fade puts back the region that was wrapped, and reads back the
/// fade times that were applied: every expression that was there before the
/// fade holds its value from before, and only the four expressions that the
/// fade stored after them remain.
pub proof fn law_add_fade_undo(
    old: Seq<ExprV>,
    new: Seq<ExprV>,
    strings: Seq<Seq<char>>,
    tag: u32,
    proj: Option<ExprRef>,
    track_num: usize,
    pos: usize,
    ti: u64,
    to: u64,
)
    requires
        fade_applied(old, new, strings, tag, proj, track_num, pos, ti, to),
        old.len() + 4 <= usize::MAX,
    ensures
        ({
            let (a, rs) = regions_at(old, tag, proj, track_num)->Ok_0;
            &&& !fade_removal_overruns(new, tag, proj, track_num, pos)
            &&& fade_removed(new, strings, tag, proj, track_num, pos) == Ok::<(Seq<ExprV>, Option<(u64, u64)>), Error>(
                (new.update(a.0.index as int, ExprV::Array(rs)), Some((ti, to))),
            )
            &&& new.update(a.0.index as int, ExprV::Array(rs)).take(old.len() as int) == old
            &&& new.update(a.0.index as int, ExprV::Array(rs)).len() == old.len() + 4
        }),
{
    let (a, rs) = regions_at(old, tag, proj, track_num)->Ok_0;
    let n = old.len() as int;
    let rs2 = rs.update(pos as int, ref_at(tag, n + 3));
    lemma_regions_after_update(old, tag, proj, track_num, rs2);
    let mid = old.update(a.0.index as int, ExprV::Array(rs2));
    lemma_regions_prefix(mid, new, tag, proj, track_num);
    assert(regions_at(new, tag, proj, track_num) == Ok::<(ExprRef, Seq<ExprRef>), Error>((a, rs2)));
    assert(rs2.update(pos as int, rs[pos as int]) =~= rs);
    assert(ref_at(tag, n + 3).0.index == n + 3);
    assert(ref_at(tag, n + 2).0.index == n + 2);
    assert(ref_at(tag, n).0.index == n);
    assert(ref_at(tag, n + 1).0.index == n + 1);
    assert(old[a.0.index as int] == ExprV::Array(rs));
    assert(new.update(a.0.index as int, ExprV::Array(rs)).take(n) =~= old) by {
        assert forall|i: int| 0 <= i < n implies new.update(a.0.index as int, ExprV::Array(rs))[i] == old[i] by {
            assert(new.take(n)[i] == new[i]);
        }
    }
}

} // verus!
