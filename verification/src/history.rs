//! Transactional undo/redo: bounded stacks of committed actions, each an
//! ordered list of cell mutations applied or reverted atomically, with an
//! optional pending buffer that batches the mutations of one drag stroke.

use vstd::prelude::*;

use crate::canvas::Canvas;
use crate::cell::Cell;

verus! {

/// Capacity of the undo history; the oldest action is discarded on overflow.
pub const MAX_HISTORY: usize = 256;

/// An immutable record of one cell's before/after state.
#[derive(Clone, Copy, PartialEq, Eq, Structural, Debug)]
pub struct CellMutation {
    pub x: usize,
    pub y: usize,
    pub old: Cell,
    pub new: Cell,
}

/// An ordered list of cell mutations applied or reverted as one undo unit.
#[derive(Clone)]
pub struct Action {
    pub mutations: Vec<CellMutation>,
}

/// A grid with one cell replaced, when the position is in bounds; unchanged
/// otherwise.
pub open spec fn spec_set_cell(
    g: Seq<Seq<Cell>>,
    w: int,
    h: int,
    x: int,
    y: int,
    cell: Cell,
) -> Seq<Seq<Cell>> {
    if 0 <= x < w && 0 <= y < h {
        g.update(y, g[y].update(x, cell))
    } else {
        g
    }
}

/// The grid after reverting a list of mutations: each mutation's `old` value
/// written in reverse list order, so at a position touched more than once
/// the earliest mutation's `old` wins.
pub open spec fn spec_apply_olds(
    g: Seq<Seq<Cell>>,
    w: int,
    h: int,
    muts: Seq<CellMutation>,
) -> Seq<Seq<Cell>>
    decreases muts.len(),
{
    if muts.len() == 0 {
        g
    } else {
        spec_set_cell(
            spec_apply_olds(g, w, h, muts.skip(1)),
            w,
            h,
            muts[0].x as int,
            muts[0].y as int,
            muts[0].old,
        )
    }
}

/// The grid after replaying a list of mutations: each mutation's `new` value
/// written in forward list order, so at a position touched more than once
/// the latest mutation's `new` wins.
pub open spec fn spec_apply_news(
    g: Seq<Seq<Cell>>,
    w: int,
    h: int,
    muts: Seq<CellMutation>,
) -> Seq<Seq<Cell>>
    decreases muts.len(),
{
    if muts.len() == 0 {
        g
    } else {
        spec_set_cell(
            spec_apply_news(g, w, h, muts.drop_last()),
            w,
            h,
            muts.last().x as int,
            muts.last().y as int,
            muts.last().new,
        )
    }
}

/// Whether some mutation in the list is at position `(x, y)`.
pub open spec fn spec_touches(muts: Seq<CellMutation>, x: int, y: int) -> bool {
    exists|k: int| 0 <= k < muts.len() && (#[trigger] muts[k]).x == x && muts[k].y == y
}

/// Whether every mutation in the list lies inside a `w x h` grid.
pub open spec fn spec_all_in_bounds(muts: Seq<CellMutation>, w: int, h: int) -> bool {
    forall|k: int| 0 <= k < muts.len() ==> (#[trigger] muts[k]).x < w && muts[k].y < h
}

/// Whether no two mutations in the list share a position.
pub open spec fn spec_distinct_positions(muts: Seq<CellMutation>) -> bool {
    forall|i: int, j: int|
        0 <= i < j < muts.len() ==> !((#[trigger] muts[i]).x == (#[trigger] muts[j]).x && muts[i].y
            == muts[j].y)
}

/// Whether a grid is a full `w x h` rectangle.
pub open spec fn spec_grid_dims(g: Seq<Seq<Cell>>, w: int, h: int) -> bool {
    g.len() == h && forall|y: int| 0 <= y < h ==> (#[trigger] g[y]).len() == w
}

proof fn lemma_apply_olds_dims(g: Seq<Seq<Cell>>, w: int, h: int, muts: Seq<CellMutation>)
    requires
        spec_grid_dims(g, w, h),
    ensures
        spec_grid_dims(spec_apply_olds(g, w, h, muts), w, h),
    decreases muts.len(),
{
    if muts.len() > 0 {
        lemma_apply_olds_dims(g, w, h, muts.skip(1));
    }
}

proof fn lemma_apply_news_dims(g: Seq<Seq<Cell>>, w: int, h: int, muts: Seq<CellMutation>)
    requires
        spec_grid_dims(g, w, h),
    ensures
        spec_grid_dims(spec_apply_news(g, w, h, muts), w, h),
    decreases muts.len(),
{
    if muts.len() > 0 {
        lemma_apply_news_dims(g, w, h, muts.drop_last());
    }
}

/// Reverting a list of mutations leaves every position that none of them
/// touches exactly as it was.
pub proof fn lemma_apply_olds_untouched(
    g: Seq<Seq<Cell>>,
    w: int,
    h: int,
    muts: Seq<CellMutation>,
    x: int,
    y: int,
)
    requires
        spec_grid_dims(g, w, h),
        0 <= x < w,
        0 <= y < h,
        !spec_touches(muts, x, y),
    ensures
        spec_apply_olds(g, w, h, muts)[y][x] == g[y][x],
    decreases muts.len(),
{
    if muts.len() > 0 {
        assert(!spec_touches(muts.skip(1), x, y)) by {
            assert forall|k: int|
                0 <= k < muts.skip(1).len() implies !((#[trigger] muts.skip(1)[k]).x == x && muts
                .skip(1)[k].y == y) by {
                assert(muts.skip(1)[k] == muts[k + 1]);
            }
        }
        lemma_apply_olds_untouched(g, w, h, muts.skip(1), x, y);
        lemma_apply_olds_dims(g, w, h, muts.skip(1));
        assert(muts[0].x != x || muts[0].y != y);
    }
}

/// One undo call reverts the whole batch: when a committed action's
/// mutations lie in bounds and no two share a position, reverting it writes
/// every mutation's `old` value back at its position.
pub proof fn lemma_undo_reverts_batch(
    g: Seq<Seq<Cell>>,
    w: int,
    h: int,
    muts: Seq<CellMutation>,
)
    requires
        spec_grid_dims(g, w, h),
        spec_all_in_bounds(muts, w, h),
        spec_distinct_positions(muts),
    ensures
        forall|k: int|
            0 <= k < muts.len() ==> spec_apply_olds(g, w, h, muts)[(#[trigger] muts[k]).y as int][muts[k].x as int] == muts[k].old,
    decreases muts.len(),
{
    if muts.len() > 0 {
        let tail = muts.skip(1);
        assert(spec_all_in_bounds(tail, w, h) && spec_distinct_positions(tail)) by {
            assert(forall|k: int| 0 <= k < tail.len() ==> #[trigger] tail[k] == muts[k + 1]);
        }
        lemma_undo_reverts_batch(g, w, h, tail);
        lemma_apply_olds_dims(g, w, h, tail);
        let inner = spec_apply_olds(g, w, h, tail);
        assert forall|k: int|
            0 <= k < muts.len() implies spec_apply_olds(g, w, h, muts)[(#[trigger] muts[k]).y as int][muts[k].x as int] == muts[k].old by {
            if k == 0 {
                assert(spec_apply_olds(g, w, h, muts)[muts[0].y as int][muts[0].x as int] == muts[0].old);
            } else {
                assert(tail[k - 1] == muts[k]);
                assert(inner[muts[k].y as int][muts[k].x as int] == muts[k].old);
                assert(muts[k].x != muts[0].x || muts[k].y != muts[0].y);
            }
        }
    }
}

/// Replaying the same mutation list over two grids of the same dimensions
/// gives the same value at every in-bounds touched position, and leaves each
/// grid's untouched positions as they were.
proof fn lemma_apply_news_agree(
    g1: Seq<Seq<Cell>>,
    g2: Seq<Seq<Cell>>,
    w: int,
    h: int,
    muts: Seq<CellMutation>,
)
    requires
        spec_grid_dims(g1, w, h),
        spec_grid_dims(g2, w, h),
    ensures
        forall|x: int, y: int|
            0 <= x < w && 0 <= y < h && #[trigger] spec_touches(muts, x, y) ==> spec_apply_news(
                g1,
                w,
                h,
                muts,
            )[y][x] == spec_apply_news(g2, w, h, muts)[y][x],
        forall|x: int, y: int|
            0 <= x < w && 0 <= y < h && !(#[trigger] spec_touches(muts, x, y))
                ==> spec_apply_news(g1, w, h, muts)[y][x] == g1[y][x] && spec_apply_news(
                g2,
                w,
                h,
                muts,
            )[y][x] == g2[y][x],
    decreases muts.len(),
{
    if muts.len() > 0 {
        let dl = muts.drop_last();
        lemma_apply_news_agree(g1, g2, w, h, dl);
        lemma_apply_news_dims(g1, w, h, dl);
        lemma_apply_news_dims(g2, w, h, dl);
        let m = muts.last();
        assert forall|x: int, y: int|
            0 <= x < w && 0 <= y < h && #[trigger] spec_touches(muts, x, y) implies spec_apply_news(
            g1,
            w,
            h,
            muts,
        )[y][x] == spec_apply_news(g2, w, h, muts)[y][x] by {
            if m.x == x && m.y == y {
            } else {
                let k = choose|k: int|
                    0 <= k < muts.len() && (#[trigger] muts[k]).x == x && muts[k].y == y;
                assert(k < dl.len() && dl[k] == muts[k]);
                assert(spec_touches(dl, x, y));
            }
        }
        assert forall|x: int, y: int|
            0 <= x < w && 0 <= y < h && !(#[trigger] spec_touches(muts, x, y))
            implies spec_apply_news(g1, w, h, muts)[y][x] == g1[y][x] && spec_apply_news(
            g2,
            w,
            h,
            muts,
        )[y][x] == g2[y][x] by {
            assert(!(m.x == x && m.y == y)) by {
                assert(muts[muts.len() - 1] == m);
            }
            assert(!spec_touches(dl, x, y)) by {
                assert forall|k: int|
                    0 <= k < dl.len() implies !((#[trigger] dl[k]).x == x && dl[k].y == y) by {
                    assert(dl[k] == muts[k]);
                }
            }
        }
    }
}

/// Undo then redo reproduces the prior grid exactly: for a grid that already
/// reflects an action's replayed `new` values, reverting the action and then
/// replaying it yields that same grid again.
pub proof fn lemma_undo_redo_roundtrip(
    g: Seq<Seq<Cell>>,
    w: int,
    h: int,
    muts: Seq<CellMutation>,
)
    requires
        spec_grid_dims(g, w, h),
        spec_apply_news(g, w, h, muts) == g,
    ensures
        spec_apply_news(spec_apply_olds(g, w, h, muts), w, h, muts) == g,
{
    let reverted = spec_apply_olds(g, w, h, muts);
    lemma_apply_olds_dims(g, w, h, muts);
    lemma_apply_news_agree(reverted, g, w, h, muts);
    lemma_apply_news_dims(reverted, w, h, muts);
    assert forall|x: int, y: int|
        0 <= x < w && 0 <= y < h implies spec_apply_news(reverted, w, h, muts)[y][x] == g[y][x] by {
        if spec_touches(muts, x, y) {
            assert(spec_apply_news(reverted, w, h, muts)[y][x] == spec_apply_news(g, w, h, muts)[y][x]);
        } else {
            lemma_apply_olds_untouched(g, w, h, muts, x, y);
        }
    }
    assert(spec_apply_news(reverted, w, h, muts) =~= g) by {
        assert forall|y: int| 0 <= y < h implies spec_apply_news(reverted, w, h, muts)[y] =~= g[y]
        by {
        }
    }
}

/// The undo stack after committing one more action: push, evicting the
/// oldest entry when the capacity would be exceeded.
pub open spec fn spec_committed(
    undo: Seq<Seq<CellMutation>>,
    muts: Seq<CellMutation>,
) -> Seq<Seq<CellMutation>> {
    if undo.len() < MAX_HISTORY {
        undo.push(muts)
    } else {
        undo.skip(1).push(muts)
    }
}

/// The undo/redo engine. `pending` is open between `begin_stroke` and
/// `end_stroke`; mutations pushed while it is open batch into one action.
pub struct History {
    pub undo_stack: Vec<Action>,
    pub redo_stack: Vec<Action>,
    pub pending: Option<Vec<CellMutation>>,
}

impl History {
    /// The undo stack's actions, oldest first, each as its mutation list.
    pub open spec fn undo_view(&self) -> Seq<Seq<CellMutation>> {
        self.undo_stack@.map_values(|a: Action| a.mutations@)
    }

    /// The redo stack's actions, each as its mutation list.
    pub open spec fn redo_view(&self) -> Seq<Seq<CellMutation>> {
        self.redo_stack@.map_values(|a: Action| a.mutations@)
    }

    /// The pending stroke buffer, if one is open.
    pub open spec fn pending_view(&self) -> Option<Seq<CellMutation>> {
        match self.pending {
            Some(v) => Some(v@),
            None => None,
        }
    }

    /// Well-formedness: the stacks hold at most the capacity between them,
    /// and every committed action is non-empty.
    pub open spec fn wf(&self) -> bool {
        &&& self.undo_view().len() + self.redo_view().len() <= MAX_HISTORY
        &&& forall|i: int|
            0 <= i < self.undo_view().len() ==> #[trigger] self.undo_view()[i].len() > 0
        &&& forall|i: int|
            0 <= i < self.redo_view().len() ==> #[trigger] self.redo_view()[i].len() > 0
    }

    /// A fresh, empty history with no open stroke.
    pub fn new() -> (h: History)
        ensures
            h.wf(),
            h.undo_view() == Seq::<Seq<CellMutation>>::empty(),
            h.redo_view() == Seq::<Seq<CellMutation>>::empty(),
            h.pending_view() is None,
    {
        let h = History { undo_stack: Vec::new(), redo_stack: Vec::new(), pending: None };
        proof {
            assert(h.undo_view() =~= Seq::<Seq<CellMutation>>::empty());
            assert(h.redo_view() =~= Seq::<Seq<CellMutation>>::empty());
        }
        h
    }

    /// Open an empty pending buffer for a drag stroke, discarding any prior
    /// unflushed buffer.
    pub fn begin_stroke(&mut self)
        requires
            old(self).wf(),
        ensures
            final(self).wf(),
            final(self).undo_view() == old(self).undo_view(),
            final(self).redo_view() == old(self).redo_view(),
            final(self).pending_view() == Some(Seq::<CellMutation>::empty()),
    {
        self.pending = Some(Vec::new());
    }

    /// Record one mutation: appended to the pending buffer while a stroke is
    /// open, otherwise committed immediately as a singleton action.
    pub fn push_mutation(&mut self, mutation: CellMutation)
        requires
            old(self).wf(),
        ensures
            final(self).wf(),
            old(self).pending_view() matches Some(p) ==> {
                &&& final(self).pending_view() == Some(p.push(mutation))
                &&& final(self).undo_view() == old(self).undo_view()
                &&& final(self).redo_view() == old(self).redo_view()
            },
            old(self).pending_view() is None ==> {
                &&& final(self).pending_view() is None
                &&& final(self).undo_view() == spec_committed(
                    old(self).undo_view(),
                    seq![mutation],
                )
                &&& final(self).redo_view() == Seq::<Seq<CellMutation>>::empty()
            },
    {
        if self.pending.is_some() {
            let mut buf = self.pending.take().unwrap();
            buf.push(mutation);
            self.pending = Some(buf);
        } else {
            let mut mutations: Vec<CellMutation> = Vec::new();
            mutations.push(mutation);
            proof {
                assert(mutations@ =~= seq![mutation]);
            }
            self.commit(Action { mutations });
        }
    }

    /// Close the pending buffer, committing it as one action when it is
    /// non-empty; an empty buffer commits nothing.
    pub fn end_stroke(&mut self)
        requires
            old(self).wf(),
        ensures
            final(self).wf(),
            final(self).pending_view() is None,
            old(self).pending_view() matches Some(p) ==> (p.len() > 0 ==> {
                &&& final(self).undo_view() == spec_committed(old(self).undo_view(), p)
                &&& final(self).redo_view() == Seq::<Seq<CellMutation>>::empty()
            }) && (p.len() == 0 ==> {
                &&& final(self).undo_view() == old(self).undo_view()
                &&& final(self).redo_view() == old(self).redo_view()
            }),
            old(self).pending_view() is None ==> {
                &&& final(self).undo_view() == old(self).undo_view()
                &&& final(self).redo_view() == old(self).redo_view()
            },
    {
        if self.pending.is_some() {
            let mutations = self.pending.take().unwrap();
            if mutations.len() > 0 {
                self.commit(Action { mutations });
            }
        }
    }

    /// Commit an action: a no-op for an empty mutation list; otherwise the
    /// redo stack is discarded and the action pushed onto the undo stack,
    /// evicting the oldest entry when the capacity is exceeded.
    pub fn commit(&mut self, action: Action)
        requires
            old(self).wf(),
        ensures
            final(self).wf(),
            final(self).pending_view() == old(self).pending_view(),
            action.mutations@.len() == 0 ==> *final(self) == *old(self),
            action.mutations@.len() > 0 ==> {
                &&& final(self).undo_view() == spec_committed(
                    old(self).undo_view(),
                    action.mutations@,
                )
                &&& final(self).redo_view() == Seq::<Seq<CellMutation>>::empty()
            },
    {
        if action.mutations.len() == 0 {
            return;
        }
        self.redo_stack = Vec::new();
        let ghost before = self.undo_view();
        self.undo_stack.push(action);
        if self.undo_stack.len() > MAX_HISTORY {
            self.undo_stack.remove(0);
            proof {
                assert(self.undo_view() =~= spec_committed(before, action.mutations@));
            }
        }
        proof {
            assert(self.redo_view() =~= Seq::<Seq<CellMutation>>::empty());
            assert(self.undo_view() =~= spec_committed(before, action.mutations@));
        }
    }

    /// Undo the most recent action: its mutations' `old` values are written
    /// back in reverse order in this single call, and the action moves to
    /// the redo stack. Returns whether an action existed.
    pub fn undo(&mut self, canvas: &mut Canvas) -> (r: bool)
        requires
            old(self).wf(),
            old(canvas).wf(),
        ensures
            final(self).wf(),
            final(canvas).wf(),
            final(canvas).width == old(canvas).width,
            final(canvas).height == old(canvas).height,
            r == (old(self).undo_view().len() > 0),
            !r ==> *final(self) == *old(self) && *final(canvas) == *old(canvas),
            r ==> {
                &&& final(self).undo_view() == old(self).undo_view().drop_last()
                &&& final(self).redo_view() == old(self).redo_view().push(
                    old(self).undo_view().last(),
                )
                &&& final(self).pending_view() == old(self).pending_view()
                &&& final(canvas).grid() == spec_apply_olds(
                    old(canvas).grid(),
                    old(canvas).width as int,
                    old(canvas).height as int,
                    old(self).undo_view().last(),
                )
            },
    {
        if self.undo_stack.len() == 0 {
            return false;
        }
        let action = self.undo_stack.pop().unwrap();
        let ghost muts = action.mutations@;
        let ghost w = canvas.width as int;
        let ghost h = canvas.height as int;
        let ghost orig = canvas.grid();
        let mut i: usize = action.mutations.len();
        while i > 0
            invariant
                canvas.wf(),
                canvas.width as int == w,
                canvas.height as int == h,
                i <= muts.len(),
                action.mutations@ == muts,
                canvas.grid() == spec_apply_olds(orig, w, h, muts.skip(i as int)),
            decreases i,
        {
            i -= 1;
            let m = action.mutations[i];
            proof {
                assert(muts.skip(i as int).skip(1) =~= muts.skip(i as int + 1));
            }
            canvas.set(m.x, m.y, m.old);
        }
        proof {
            assert(muts.skip(0) =~= muts);
            assert(old(self).undo_view().drop_last() =~= self.undo_view());
        }
        let ghost rbefore = self.redo_view();
        self.redo_stack.push(action);
        proof {
            assert(self.redo_view() =~= rbefore.push(muts));
            assert(old(self).undo_view().last().len() > 0);
            assert forall|k: int| 0 <= k < self.redo_view().len() implies #[trigger] self
                .redo_view()[k].len() > 0 by {
                if k < rbefore.len() {
                    assert(old(self).redo_view()[k].len() > 0);
                }
            }
            assert forall|k: int| 0 <= k < self.undo_view().len() implies #[trigger] self
                .undo_view()[k].len() > 0 by {
                assert(old(self).undo_view()[k].len() > 0);
            }
        }
        true
    }

    /// Redo the most recently undone action: its mutations' `new` values are
    /// reapplied in forward order, and the action moves back to the undo
    /// stack. Returns whether an action existed.
    pub fn redo(&mut self, canvas: &mut Canvas) -> (r: bool)
        requires
            old(self).wf(),
            old(canvas).wf(),
        ensures
            final(self).wf(),
            final(canvas).wf(),
            final(canvas).width == old(canvas).width,
            final(canvas).height == old(canvas).height,
            r == (old(self).redo_view().len() > 0),
            !r ==> *final(self) == *old(self) && *final(canvas) == *old(canvas),
            r ==> {
                &&& final(self).redo_view() == old(self).redo_view().drop_last()
                &&& final(self).undo_view() == old(self).undo_view().push(
                    old(self).redo_view().last(),
                )
                &&& final(self).pending_view() == old(self).pending_view()
                &&& final(canvas).grid() == spec_apply_news(
                    old(canvas).grid(),
                    old(canvas).width as int,
                    old(canvas).height as int,
                    old(self).redo_view().last(),
                )
            },
    {
        if self.redo_stack.len() == 0 {
            return false;
        }
        let action = self.redo_stack.pop().unwrap();
        let ghost muts = action.mutations@;
        let ghost w = canvas.width as int;
        let ghost h = canvas.height as int;
        let ghost orig = canvas.grid();
        let mut i: usize = 0;
        while i < action.mutations.len()
            invariant
                canvas.wf(),
                canvas.width as int == w,
                canvas.height as int == h,
                i <= muts.len(),
                action.mutations@ == muts,
                canvas.grid() == spec_apply_news(orig, w, h, muts.take(i as int)),
            decreases muts.len() - i,
        {
            let m = action.mutations[i];
            proof {
                assert(muts.take(i as int + 1).drop_last() =~= muts.take(i as int));
                assert(muts.take(i as int + 1).last() == muts[i as int]);
            }
            canvas.set(m.x, m.y, m.new);
            i += 1;
        }
        proof {
            assert(muts.take(muts.len() as int) =~= muts);
            assert(old(self).redo_view().drop_last() =~= self.redo_view());
        }
        let ghost ubefore = self.undo_view();
        self.undo_stack.push(action);
        proof {
            assert(self.undo_view() =~= ubefore.push(muts));
            assert(old(self).redo_view().last().len() > 0);
            assert forall|k: int| 0 <= k < self.undo_view().len() implies #[trigger] self
                .undo_view()[k].len() > 0 by {
                if k < ubefore.len() {
                    assert(old(self).undo_view()[k].len() > 0);
                }
            }
            assert forall|k: int| 0 <= k < self.redo_view().len() implies #[trigger] self
                .redo_view()[k].len() > 0 by {
                assert(old(self).redo_view()[k].len() > 0);
            }
        }
        true
    }

    /// Whether an action is available to undo.
    pub fn can_undo(&self) -> (r: bool)
        ensures
            r == (self.undo_view().len() > 0),
    {
        self.undo_stack.len() > 0
    }

    /// Whether an undone action is available to redo.
    pub fn can_redo(&self) -> (r: bool)
        ensures
            r == (self.redo_view().len() > 0),
    {
        self.redo_stack.len() > 0
    }

    /// Whether a stroke's pending buffer is open.
    pub fn is_stroke_active(&self) -> (r: bool)
        ensures
            r == (self.pending_view() is Some),
    {
        self.pending.is_some()
    }
}

impl Default for History {
    fn default() -> (h: Self)
        ensures
            h.wf(),
            h.undo_view() == Seq::<Seq<CellMutation>>::empty(),
            h.redo_view() == Seq::<Seq<CellMutation>>::empty(),
            h.pending_view() is None,
    {
        Self::new()
    }
}

} // verus!
