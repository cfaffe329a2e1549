//! The symmetry engine: expands a list of proposed mutations into mirrored
//! copies across the configured axes. A mirror copy is added only when its
//! coordinate differs from the original, so a point on a mirror axis never
//! duplicates.

use vstd::prelude::*;

use crate::history::{spec_all_in_bounds, spec_distinct_positions, CellMutation};

verus! {

/// The four symmetry modes: the horizontal and vertical axes are independent
/// bit flips combined into one closed enum.
#[derive(Clone, Copy, PartialEq, Eq, Structural, Debug)]
pub enum SymmetryMode {
    Off,
    Horizontal,
    Vertical,
    Quad,
}

impl SymmetryMode {
    /// Flip the horizontal-mirror bit.
    pub fn toggle_horizontal(self) -> (r: SymmetryMode)
        ensures
            r == match self {
                SymmetryMode::Off => SymmetryMode::Horizontal,
                SymmetryMode::Horizontal => SymmetryMode::Off,
                SymmetryMode::Vertical => SymmetryMode::Quad,
                SymmetryMode::Quad => SymmetryMode::Vertical,
            },
    {
        match self {
            SymmetryMode::Off => SymmetryMode::Horizontal,
            SymmetryMode::Horizontal => SymmetryMode::Off,
            SymmetryMode::Vertical => SymmetryMode::Quad,
            SymmetryMode::Quad => SymmetryMode::Vertical,
        }
    }

    /// Flip the vertical-mirror bit.
    pub fn toggle_vertical(self) -> (r: SymmetryMode)
        ensures
            r == match self {
                SymmetryMode::Off => SymmetryMode::Vertical,
                SymmetryMode::Vertical => SymmetryMode::Off,
                SymmetryMode::Horizontal => SymmetryMode::Quad,
                SymmetryMode::Quad => SymmetryMode::Horizontal,
            },
    {
        match self {
            SymmetryMode::Off => SymmetryMode::Vertical,
            SymmetryMode::Vertical => SymmetryMode::Off,
            SymmetryMode::Horizontal => SymmetryMode::Quad,
            SymmetryMode::Quad => SymmetryMode::Horizontal,
        }
    }

    /// Whether the horizontal mirror (across the vertical center line) is
    /// active.
    pub open spec fn spec_has_horizontal(self) -> bool {
        self == SymmetryMode::Horizontal || self == SymmetryMode::Quad
    }

    /// Whether the vertical mirror is active.
    pub open spec fn spec_has_vertical(self) -> bool {
        self == SymmetryMode::Vertical || self == SymmetryMode::Quad
    }

    pub fn has_horizontal(self) -> (r: bool)
        ensures
            r == self.spec_has_horizontal(),
    {
        match self {
            SymmetryMode::Horizontal | SymmetryMode::Quad => true,
            _ => false,
        }
    }

    pub fn has_vertical(self) -> (r: bool)
        ensures
            r == self.spec_has_vertical(),
    {
        match self {
            SymmetryMode::Vertical | SymmetryMode::Quad => true,
            _ => false,
        }
    }

    /// Short display label of the mode.
    pub fn label(self) -> (r: &'static str)
        ensures
            self == SymmetryMode::Off ==> r@ == "Off"@,
            self == SymmetryMode::Horizontal ==> r@ == "Horiz"@,
            self == SymmetryMode::Vertical ==> r@ == "Vert"@,
            self == SymmetryMode::Quad ==> r@ == "Quad"@,
    {
        match self {
            SymmetryMode::Off => "Off",
            SymmetryMode::Horizontal => "Horiz",
            SymmetryMode::Vertical => "Vert",
            SymmetryMode::Quad => "Quad",
        }
    }
}

/// The mirror expansion of one mutation, in emission order: the original,
/// then the horizontal mirror at `x' = width-1-x` unless `x' == x`, then the
/// vertical mirror at `y' = height-1-y` unless `y' == y`, then under Quad the
/// diagonal mirror only when both mirrored coordinates differ.
pub open spec fn spec_expand_one(m: CellMutation, mode: SymmetryMode, w: int, h: int) -> Seq<
    CellMutation,
> {
    let mx = w - 1 - m.x;
    let my = h - 1 - m.y;
    seq![m] + (if mode.spec_has_horizontal() && mx != m.x as int {
        seq![CellMutation { x: mx as usize, y: m.y, old: m.old, new: m.new }]
    } else {
        Seq::empty()
    }) + (if mode.spec_has_vertical() && my != m.y as int {
        seq![CellMutation { x: m.x, y: my as usize, old: m.old, new: m.new }]
    } else {
        Seq::empty()
    }) + (if mode == SymmetryMode::Quad && mx != m.x as int && my != m.y as int {
        seq![CellMutation { x: mx as usize, y: my as usize, old: m.old, new: m.new }]
    } else {
        Seq::empty()
    })
}

/// The mirror expansion of a mutation list: each input mutation's expansion,
/// in input order.
pub open spec fn spec_apply_symmetry(
    muts: Seq<CellMutation>,
    mode: SymmetryMode,
    w: int,
    h: int,
) -> Seq<CellMutation>
    decreases muts.len(),
{
    if muts.len() == 0 {
        Seq::empty()
    } else {
        spec_apply_symmetry(muts.drop_last(), mode, w, h) + spec_expand_one(
            muts.last(),
            mode,
            w,
            h,
        )
    }
}

/// With symmetry off, expansion is the identity.
proof fn lemma_apply_symmetry_off(muts: Seq<CellMutation>, w: int, h: int)
    ensures
        spec_apply_symmetry(muts, SymmetryMode::Off, w, h) == muts,
    decreases muts.len(),
{
    if muts.len() == 0 {
        assert(spec_apply_symmetry(muts, SymmetryMode::Off, w, h) =~= muts);
    } else {
        lemma_apply_symmetry_off(muts.drop_last(), w, h);
        assert(spec_expand_one(muts.last(), SymmetryMode::Off, w, h) =~= seq![muts.last()]);
        assert(muts.drop_last() + seq![muts.last()] =~= muts);
    }
}

/// A point on a mirror axis produces no duplicate: for an in-bounds
/// mutation, the positions of its expansion are pairwise distinct.
pub proof fn lemma_expand_one_distinct(m: CellMutation, mode: SymmetryMode, w: int, h: int)
    requires
        m.x < w <= usize::MAX,
        m.y < h <= usize::MAX,
    ensures
        spec_distinct_positions(spec_expand_one(m, mode, w, h)),
{
    let mx = w - 1 - m.x;
    let my = h - 1 - m.y;
    let s = spec_expand_one(m, mode, w, h);
    let mh = CellMutation { x: mx as usize, y: m.y, old: m.old, new: m.new };
    let mv = CellMutation { x: m.x, y: my as usize, old: m.old, new: m.new };
    let md = CellMutation { x: mx as usize, y: my as usize, old: m.old, new: m.new };
    let hh = mode.spec_has_horizontal() && mx != m.x as int;
    let vv = mode.spec_has_vertical() && my != m.y as int;
    let dd = mode == SymmetryMode::Quad && mx != m.x as int && my != m.y as int;
    if hh && vv && dd {
        assert(s =~= seq![m, mh, mv, md]);
    } else if hh && vv {
        assert(s =~= seq![m, mh, mv]);
    } else if hh {
        assert(s =~= seq![m, mh]);
    } else if vv {
        assert(s =~= seq![m, mv]);
    } else {
        assert(s =~= seq![m]);
    }
}

/// Expand a list of mutations by the active symmetry mode. Every mutation's
/// expansion keeps the original first; mirrors carry the original's `old`
/// and `new` cells, so their `old` must be re-derived against the live grid
/// before they are applied.
pub fn apply_symmetry(
    mutations: Vec<CellMutation>,
    mode: SymmetryMode,
    width: usize,
    height: usize,
) -> (r: Vec<CellMutation>)
    requires
        mode != SymmetryMode::Off ==> width >= 1 && height >= 1 && spec_all_in_bounds(
            mutations@,
            width as int,
            height as int,
        ),
    ensures
        r@ == spec_apply_symmetry(mutations@, mode, width as int, height as int),
{
    if mode == SymmetryMode::Off {
        proof {
            lemma_apply_symmetry_off(mutations@, width as int, height as int);
        }
        return mutations;
    }
    let mut r: Vec<CellMutation> = Vec::new();
    let mut i: usize = 0;
    while i < mutations.len()
        invariant
            mode != SymmetryMode::Off,
            width >= 1,
            height >= 1,
            spec_all_in_bounds(mutations@, width as int, height as int),
            i <= mutations@.len(),
            r@ == spec_apply_symmetry(mutations@.take(i as int), mode, width as int, height as int),
        decreases mutations@.len() - i,
    {
        let m = mutations[i];
        proof {
            assert(mutations@.take(i as int + 1).drop_last() =~= mutations@.take(i as int));
            assert(mutations@.take(i as int + 1).last() == mutations@[i as int]);
        }
        let ghost rbefore = r@;
        r.push(m);
        let mx = width - 1 - m.x;
        let my = height - 1 - m.y;
        if (mode == SymmetryMode::Horizontal || mode == SymmetryMode::Quad) && mx != m.x {
            r.push(CellMutation { x: mx, y: m.y, old: m.old, new: m.new });
        }
        if (mode == SymmetryMode::Vertical || mode == SymmetryMode::Quad) && my != m.y {
            r.push(CellMutation { x: m.x, y: my, old: m.old, new: m.new });
        }
        if mode == SymmetryMode::Quad && mx != m.x && my != m.y {
            r.push(CellMutation { x: mx, y: my, old: m.old, new: m.new });
        }
        proof {
            assert(r@ =~= rbefore + spec_expand_one(m, mode, width as int, height as int));
        }
        i += 1;
    }
    proof {
        assert(mutations@.take(mutations@.len() as int) =~= mutations@);
    }
    r
}

} // verus!
