//! The canvas: a bounded rectangular grid of cells with clamped dimensions
//! and bounds-checked access. Out-of-range reads yield nothing and
//! out-of-range writes are silent no-ops, so tool algorithms may probe past
//! the edges freely.

use vstd::prelude::*;

use crate::cell::{spec_default_cell, Cell};

verus! {

/// Default grid width.
pub const DEFAULT_WIDTH: usize = 32;

/// Default grid height.
pub const DEFAULT_HEIGHT: usize = 32;

/// Smallest permitted grid dimension.
pub const MIN_DIMENSION: usize = 8;

/// Largest permitted grid dimension.
pub const MAX_DIMENSION: usize = 128;

/// A requested dimension clamped to the permitted range.
pub open spec fn spec_clamp_dim(v: int) -> int {
    if v < MIN_DIMENSION as int {
        MIN_DIMENSION as int
    } else if v > MAX_DIMENSION as int {
        MAX_DIMENSION as int
    } else {
        v
    }
}

/// A `width x height` grid of cells, row-major.
#[derive(Clone)]
pub struct Canvas {
    pub cells: Vec<Vec<Cell>>,
    pub width: usize,
    pub height: usize,
}

impl Canvas {
    /// The grid contents as a sequence of rows.
    pub open spec fn grid(&self) -> Seq<Seq<Cell>> {
        self.cells@.map_values(|row: Vec<Cell>| row@)
    }

    /// Well-formedness: dimensions within range and a full rectangle of
    /// cells.
    pub open spec fn wf(&self) -> bool {
        &&& MIN_DIMENSION <= self.width <= MAX_DIMENSION
        &&& MIN_DIMENSION <= self.height <= MAX_DIMENSION
        &&& self.grid().len() == self.height
        &&& forall|y: int| 0 <= y < self.height ==> #[trigger] self.grid()[y].len() == self.width
    }

    /// The cell at an in-bounds position.
    pub open spec fn spec_at(&self, x: int, y: int) -> Cell {
        self.grid()[y][x]
    }

    /// A new grid of the default size, every cell default.
    pub fn new() -> (c: Canvas)
        ensures
            c.wf(),
            c.width == DEFAULT_WIDTH,
            c.height == DEFAULT_HEIGHT,
            forall|x: int, y: int|
                0 <= x < c.width && 0 <= y < c.height ==> #[trigger] c.spec_at(x, y)
                    == spec_default_cell(),
    {
        Self::new_with_size(DEFAULT_WIDTH, DEFAULT_HEIGHT)
    }

    /// A new grid of the requested size, clamped to the permitted range,
    /// every cell default.
    pub fn new_with_size(width: usize, height: usize) -> (c: Canvas)
        ensures
            c.wf(),
            c.width == spec_clamp_dim(width as int),
            c.height == spec_clamp_dim(height as int),
            forall|x: int, y: int|
                0 <= x < c.width && 0 <= y < c.height ==> #[trigger] c.spec_at(x, y)
                    == spec_default_cell(),
    {
        let w = clamp_dim(width);
        let h = clamp_dim(height);
        let mut cells: Vec<Vec<Cell>> = Vec::new();
        let mut y: usize = 0;
        while y < h
            invariant
                y <= h,
                cells@.len() == y,
                forall|i: int| 0 <= i < y ==> #[trigger] cells@[i]@.len() == w,
                forall|i: int, j: int|
                    0 <= i < y && 0 <= j < w ==> #[trigger] cells@[i]@[j] == spec_default_cell(),
            decreases h - y,
        {
            cells.push(default_row(w));
            y += 1;
        }
        let c = Canvas { cells, width: w, height: h };
        proof {
            assert(forall|i: int| 0 <= i < h ==> #[trigger] c.grid()[i] == c.cells@[i]@);
        }
        c
    }

    /// Bounds-checked read: the cell at `(x, y)`, or nothing when the
    /// position lies outside the grid.
    pub fn get(&self, x: usize, y: usize) -> (r: Option<Cell>)
        requires
            self.wf(),
        ensures
            r == if x < self.width && y < self.height {
                Some(self.spec_at(x as int, y as int))
            } else {
                Option::<Cell>::None
            },
    {
        if x < self.width && y < self.height {
            Some(self.cells[y][x])
        } else {
            None
        }
    }

    /// Bounds-checked write: stores the cell at `(x, y)`; a position outside
    /// the grid is a silent no-op and alters nothing.
    pub fn set(&mut self, x: usize, y: usize, cell: Cell)
        requires
            old(self).wf(),
        ensures
            final(self).wf(),
            final(self).width == old(self).width,
            final(self).height == old(self).height,
            x < old(self).width && y < old(self).height ==> final(self).grid() == old(
                self,
            ).grid().update(y as int, old(self).grid()[y as int].update(x as int, cell)),
            !(x < old(self).width && y < old(self).height) ==> final(self).grid() == old(
                self,
            ).grid(),
    {
        if x < self.width && y < self.height {
            proof {
                assert(self.grid()[y as int] == self.cells@[y as int]@);
            }
            let row = &mut self.cells[y];
            row.set(x, cell);
            proof {
                assert(final(self).grid() =~= old(self).grid().update(
                    y as int,
                    old(self).grid()[y as int].update(x as int, cell),
                ));
            }
        }
    }

    /// Reset every cell to the default.
    pub fn clear(&mut self)
        requires
            old(self).wf(),
        ensures
            final(self).wf(),
            final(self).width == old(self).width,
            final(self).height == old(self).height,
            forall|x: int, y: int|
                0 <= x < final(self).width && 0 <= y < final(self).height
                    ==> #[trigger] final(self).spec_at(x, y) == spec_default_cell(),
    {
        let fresh = Self::new_with_size(self.width, self.height);
        self.cells = fresh.cells;
    }

    /// Resize to the requested dimensions, clamped. The overlapping top-left
    /// region keeps its cells; newly exposed cells are default.
    pub fn resize(&mut self, new_width: usize, new_height: usize)
        requires
            old(self).wf(),
        ensures
            final(self).wf(),
            final(self).width == spec_clamp_dim(new_width as int),
            final(self).height == spec_clamp_dim(new_height as int),
            forall|x: int, y: int|
                0 <= x < final(self).width && 0 <= y < final(self).height
                    ==> #[trigger] final(self).spec_at(x, y) == if x < old(self).width && y < old(
                    self,
                ).height {
                    old(self).spec_at(x, y)
                } else {
                    spec_default_cell()
                },
    {
        let w = clamp_dim(new_width);
        let h = clamp_dim(new_height);
        let ghost orig = *self;
        let mut cells: Vec<Vec<Cell>> = Vec::new();
        let mut y: usize = 0;
        while y < h
            invariant
                orig.wf(),
                *self == orig,
                y <= h,
                MIN_DIMENSION <= w <= MAX_DIMENSION,
                cells@.len() == y,
                forall|i: int| 0 <= i < y ==> #[trigger] cells@[i]@.len() == w,
                forall|i: int, j: int|
                    0 <= i < y && 0 <= j < w ==> #[trigger] cells@[i]@[j] == if j < orig.width && i
                        < orig.height {
                        orig.spec_at(j, i)
                    } else {
                        spec_default_cell()
                    },
            decreases h - y,
        {
            let mut row: Vec<Cell> = Vec::new();
            let mut x: usize = 0;
            while x < w
                invariant
                    orig.wf(),
                    *self == orig,
                    x <= w,
                    y < h,
                    MIN_DIMENSION <= w <= MAX_DIMENSION,
                    row@.len() == x,
                    forall|j: int|
                        0 <= j < x ==> #[trigger] row@[j] == if j < orig.width && y < orig.height {
                            orig.spec_at(j, y as int)
                        } else {
                            spec_default_cell()
                        },
                decreases w - x,
            {
                if x < self.width && y < self.height {
                    row.push(self.cells[y][x]);
                } else {
                    row.push(Cell::default());
                }
                x += 1;
            }
            cells.push(row);
            y += 1;
        }
        self.cells = cells;
        self.width = w;
        self.height = h;
        proof {
            assert(forall|i: int| 0 <= i < h ==> #[trigger] self.grid()[i] == self.cells@[i]@);
        }
    }
}

impl Default for Canvas {
    fn default() -> (c: Self)
        ensures
            c.wf(),
            c.width == DEFAULT_WIDTH,
            c.height == DEFAULT_HEIGHT,
            forall|x: int, y: int|
                0 <= x < c.width && 0 <= y < c.height ==> #[trigger] c.spec_at(x, y)
                    == spec_default_cell(),
    {
        Self::new()
    }
}

/// Writing a cell in bounds and reading it back yields exactly that cell,
/// and no other in-bounds cell changes; `pre` and `post` are the grid before
/// and after a `set` at `(x, y)`.
pub proof fn lemma_set_then_get(pre: Canvas, post: Canvas, x: int, y: int, cell: Cell)
    requires
        pre.wf(),
        0 <= x < pre.width,
        0 <= y < pre.height,
        post.width == pre.width,
        post.height == pre.height,
        post.grid() == pre.grid().update(y, pre.grid()[y].update(x, cell)),
    ensures
        post.spec_at(x, y) == cell,
        forall|px: int, py: int|
            0 <= px < pre.width && 0 <= py < pre.height && !(px == x && py == y)
                ==> #[trigger] post.spec_at(px, py) == pre.spec_at(px, py),
{
}

fn clamp_dim(v: usize) -> (r: usize)
    ensures
        r == spec_clamp_dim(v as int),
        MIN_DIMENSION <= r <= MAX_DIMENSION,
{
    if v < MIN_DIMENSION {
        MIN_DIMENSION
    } else if v > MAX_DIMENSION {
        MAX_DIMENSION
    } else {
        v
    }
}

fn default_row(w: usize) -> (row: Vec<Cell>)
    ensures
        row@.len() == w,
        forall|j: int| 0 <= j < w ==> #[trigger] row@[j] == spec_default_cell(),
{
    let mut row: Vec<Cell> = Vec::new();
    let mut x: usize = 0;
    while x < w
        invariant
            x <= w,
            row@.len() == x,
            forall|j: int| 0 <= j < x ==> #[trigger] row@[j] == spec_default_cell(),
        decreases w - x,
    {
        row.push(Cell::default());
        x += 1;
    }
    row
}

} // verus!
