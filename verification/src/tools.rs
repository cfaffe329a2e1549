//! The drawing tools. Every tool is a pure function from a grid and request
//! to the ordered list of cell changes it would make; a mutation is emitted
//! for a position only when the new cell differs from the old one, and
//! out-of-bounds positions are skipped silently.

use vstd::prelude::*;

use crate::canvas::Canvas;
use crate::cell::{spec_default_cell, Cell, Rgb};
use crate::history::{spec_distinct_positions, spec_touches, CellMutation};

verus! {

/// The closed set of drawing tools.
#[derive(Clone, Copy, PartialEq, Eq, Structural, Debug)]
pub enum ToolKind {
    Pencil,
    Eraser,
    Line,
    Rectangle,
    Fill,
    Eyedropper,
}

impl ToolKind {
    /// Display name of the tool.
    pub fn name(self) -> (r: &'static str)
        ensures
            self == ToolKind::Pencil ==> r@ == "Pencil"@,
            self == ToolKind::Eraser ==> r@ == "Eraser"@,
            self == ToolKind::Line ==> r@ == "Line"@,
            self == ToolKind::Rectangle ==> r@ == "Rect"@,
            self == ToolKind::Fill ==> r@ == "Fill"@,
            self == ToolKind::Eyedropper ==> r@ == "Pick"@,
    {
        match self {
            ToolKind::Pencil => "Pencil",
            ToolKind::Eraser => "Eraser",
            ToolKind::Line => "Line",
            ToolKind::Rectangle => "Rect",
            ToolKind::Fill => "Fill",
            ToolKind::Eyedropper => "Pick",
        }
    }

    /// One-character icon of the tool.
    pub fn icon(self) -> (r: &'static str)
        ensures
            self == ToolKind::Pencil ==> r@ == "\u{270F}"@,
            self == ToolKind::Eraser ==> r@ == "\u{25FB}"@,
            self == ToolKind::Line ==> r@ == "\u{2571}"@,
            self == ToolKind::Rectangle ==> r@ == "\u{25AD}"@,
            self == ToolKind::Fill ==> r@ == "\u{25C9}"@,
            self == ToolKind::Eyedropper ==> r@ == "\u{25C8}"@,
    {
        match self {
            ToolKind::Pencil => "\u{270F}",
            ToolKind::Eraser => "\u{25FB}",
            ToolKind::Line => "\u{2571}",
            ToolKind::Rectangle => "\u{25AD}",
            ToolKind::Fill => "\u{25C9}",
            ToolKind::Eyedropper => "\u{25C8}",
        }
    }

    /// Keyboard shortcut of the tool.
    pub fn key(self) -> (r: &'static str)
        ensures
            self == ToolKind::Pencil ==> r@ == "P"@,
            self == ToolKind::Eraser ==> r@ == "E"@,
            self == ToolKind::Line ==> r@ == "L"@,
            self == ToolKind::Rectangle ==> r@ == "R"@,
            self == ToolKind::Fill ==> r@ == "F"@,
            self == ToolKind::Eyedropper ==> r@ == "I"@,
    {
        match self {
            ToolKind::Pencil => "P",
            ToolKind::Eraser => "E",
            ToolKind::Line => "L",
            ToolKind::Rectangle => "R",
            ToolKind::Fill => "F",
            ToolKind::Eyedropper => "I",
        }
    }

    /// All tools, in toolbar order.
    pub fn all() -> (r: Vec<ToolKind>)
        ensures
            r@ == seq![
                ToolKind::Pencil,
                ToolKind::Eraser,
                ToolKind::Line,
                ToolKind::Rectangle,
                ToolKind::Fill,
                ToolKind::Eyedropper,
            ],
    {
        let mut v: Vec<ToolKind> = Vec::new();
        v.push(ToolKind::Pencil);
        v.push(ToolKind::Eraser);
        v.push(ToolKind::Line);
        v.push(ToolKind::Rectangle);
        v.push(ToolKind::Fill);
        v.push(ToolKind::Eyedropper);
        proof {
            assert(v@ =~= seq![
                ToolKind::Pencil,
                ToolKind::Eraser,
                ToolKind::Line,
                ToolKind::Rectangle,
                ToolKind::Fill,
                ToolKind::Eyedropper,
            ]);
        }
        v
    }
}

/// The transient two-click state of the line and rectangle tools: the only
/// state the tool layer owns.
#[derive(Clone, Copy, PartialEq, Eq, Structural, Debug)]
pub enum ToolState {
    Idle,
    LineStart { x: usize, y: usize },
    RectStart { x: usize, y: usize },
}

/// The cell a drawing operation writes: a full replacement of whatever was
/// there. Half blocks stamp cleanly; the covered cell does not blend in.
pub open spec fn spec_compose(ch: char, fg: Option<Rgb>, bg: Option<Rgb>) -> Cell {
    Cell { ch, fg, bg }
}

/// Compose a new cell from a drawing operation. The existing cell is
/// discarded entirely; this is intentional, so stamping a lower half over an
/// upper half does not merge them into a full block.
pub fn compose_cell(_existing: Cell, new_ch: char, new_fg: Option<Rgb>, new_bg: Option<Rgb>) -> (r:
    Cell)
    ensures
        r == spec_compose(new_ch, new_fg, new_bg),
{
    Cell { ch: new_ch, fg: new_fg, bg: new_bg }
}

/// Composing is idempotent: stamping the same glyph and colors twice gives
/// the same cell as stamping them once.
pub proof fn lemma_compose_idempotent(c: Cell, ch: char, fg: Option<Rgb>, bg: Option<Rgb>)
    ensures
        spec_compose(ch, fg, bg) == {
            let once = spec_compose(ch, fg, bg);
            spec_compose(once.ch, once.fg, once.bg)
        },
{
}

/// The mutations of a single-cell stamp: one mutation when the position is
/// in bounds and the new cell differs from the old, none otherwise.
pub open spec fn spec_single_mutation(canvas: Canvas, x: int, y: int, new: Cell) -> Seq<
    CellMutation,
> {
    if 0 <= x < canvas.width && 0 <= y < canvas.height && canvas.spec_at(x, y) != new {
        seq![
            CellMutation {
                x: x as usize,
                y: y as usize,
                old: canvas.spec_at(x, y),
                new,
            },
        ]
    } else {
        Seq::empty()
    }
}

/// Place a single cell (pencil).
pub fn pencil(
    canvas: &Canvas,
    x: usize,
    y: usize,
    ch: char,
    fg: Option<Rgb>,
    bg: Option<Rgb>,
) -> (r: Vec<CellMutation>)
    requires
        canvas.wf(),
    ensures
        r@ == spec_single_mutation(*canvas, x as int, y as int, spec_compose(ch, fg, bg)),
{
    let new = Cell { ch, fg, bg };
    match canvas.get(x, y) {
        Some(old) => {
            if old != new {
                let mut v: Vec<CellMutation> = Vec::new();
                v.push(CellMutation { x, y, old, new });
                proof {
                    assert(v@ =~= spec_single_mutation(
                        *canvas,
                        x as int,
                        y as int,
                        spec_compose(ch, fg, bg),
                    ));
                }
                v
            } else {
                Vec::new()
            }
        },
        None => Vec::new(),
    }
}

/// Erase a cell: reset it to the default cell.
pub fn eraser(canvas: &Canvas, x: usize, y: usize) -> (r: Vec<CellMutation>)
    requires
        canvas.wf(),
    ensures
        r@ == spec_single_mutation(*canvas, x as int, y as int, spec_default_cell()),
{
    let new = Cell::default();
    match canvas.get(x, y) {
        Some(old) => {
            if old != new {
                let mut v: Vec<CellMutation> = Vec::new();
                v.push(CellMutation { x, y, old, new });
                proof {
                    assert(v@ =~= spec_single_mutation(
                        *canvas,
                        x as int,
                        y as int,
                        spec_default_cell(),
                    ));
                }
                v
            } else {
                Vec::new()
            }
        },
        None => Vec::new(),
    }
}

/// Read-only pick: the target cell's foreground, background, and glyph, or
/// nothing when the position is out of bounds.
pub fn eyedropper(canvas: &Canvas, x: usize, y: usize) -> (r: Option<
    (Option<Rgb>, Option<Rgb>, char),
>)
    requires
        canvas.wf(),
    ensures
        r == if x < canvas.width && y < canvas.height {
            let c = canvas.spec_at(x as int, y as int);
            Some((c.fg, c.bg, c.ch))
        } else {
            Option::<(Option<Rgb>, Option<Rgb>, char)>::None
        },
{
    match canvas.get(x, y) {
        Some(cell) => Some((cell.fg, cell.bg, cell.ch)),
        None => None,
    }
}

/// Whether `(x, y)` lies in the axis-aligned box between the two corners.
pub open spec fn spec_in_box(x0: int, y0: int, x1: int, y1: int, x: int, y: int) -> bool {
    let min_x = if x0 <= x1 { x0 } else { x1 };
    let max_x = if x0 <= x1 { x1 } else { x0 };
    let min_y = if y0 <= y1 { y0 } else { y1 };
    let max_y = if y0 <= y1 { y1 } else { y0 };
    min_x <= x <= max_x && min_y <= y <= max_y
}

/// Whether `(x, y)` lies on the border of that box.
pub open spec fn spec_on_border(x0: int, y0: int, x1: int, y1: int, x: int, y: int) -> bool {
    let min_x = if x0 <= x1 { x0 } else { x1 };
    let max_x = if x0 <= x1 { x1 } else { x0 };
    let min_y = if y0 <= y1 { y0 } else { y1 };
    let max_y = if y0 <= y1 { y1 } else { y0 };
    spec_in_box(x0, y0, x1, y1, x, y) && (x == min_x || x == max_x || y == min_y || y == max_y)
}

/// The positions a rectangle writes: the whole box when filled, else only
/// its border.
pub open spec fn spec_rect_selects(
    x0: int,
    y0: int,
    x1: int,
    y1: int,
    filled: bool,
    x: int,
    y: int,
) -> bool {
    if filled {
        spec_in_box(x0, y0, x1, y1, x, y)
    } else {
        spec_on_border(x0, y0, x1, y1, x, y)
    }
}

/// What each emitted rectangle mutation must look like: a selected,
/// in-bounds position whose old cell is the grid's actual value and differs
/// from the stamped cell.
pub open spec fn spec_rect_mutation_ok(
    canvas: Canvas,
    x0: int,
    y0: int,
    x1: int,
    y1: int,
    filled: bool,
    new: Cell,
    m: CellMutation,
) -> bool {
    &&& spec_rect_selects(x0, y0, x1, y1, filled, m.x as int, m.y as int)
    &&& m.x < canvas.width
    &&& m.y < canvas.height
    &&& m.old == canvas.spec_at(m.x as int, m.y as int)
    &&& m.old != new
    &&& m.new == new
}

/// Draw an axis-aligned rectangle between two corners: the border only, or
/// the filled box. A single-point rectangle stamps exactly one cell. The
/// result holds one mutation for every selected in-bounds position whose
/// cell would change, each position at most once.
pub fn rectangle(
    canvas: &Canvas,
    x0: usize,
    y0: usize,
    x1: usize,
    y1: usize,
    ch: char,
    fg: Option<Rgb>,
    bg: Option<Rgb>,
    filled: bool,
) -> (r: Vec<CellMutation>)
    requires
        canvas.wf(),
    ensures
        forall|k: int|
            0 <= k < r@.len() ==> spec_rect_mutation_ok(
                *canvas,
                x0 as int,
                y0 as int,
                x1 as int,
                y1 as int,
                filled,
                spec_compose(ch, fg, bg),
                #[trigger] r@[k],
            ),
        forall|x: int, y: int|
            spec_rect_selects(x0 as int, y0 as int, x1 as int, y1 as int, filled, x, y) && 0 <= x
                < canvas.width && 0 <= y < canvas.height && canvas.spec_at(x, y) != spec_compose(
                ch,
                fg,
                bg,
            ) ==> #[trigger] spec_touches(r@, x, y),
        spec_distinct_positions(r@),
{
    let min_x = if x0 <= x1 { x0 } else { x1 };
    let max_x = if x0 <= x1 { x1 } else { x0 };
    let min_y = if y0 <= y1 { y0 } else { y1 };
    let max_y = if y0 <= y1 { y1 } else { y0 };
    let new = Cell { ch, fg, bg };
    let mut r: Vec<CellMutation> = Vec::new();
    // Nothing outside the grid is ever written, so iteration may stop at the
    // grid's far edge.
    let y_end = if max_y < canvas.height - 1 { max_y } else { canvas.height - 1 };
    let x_end = if max_x < canvas.width - 1 { max_x } else { canvas.width - 1 };
    let ghost sel = |x: int, y: int|
        spec_rect_selects(x0 as int, y0 as int, x1 as int, y1 as int, filled, x, y) && 0 <= x
            < canvas.width && 0 <= y < canvas.height && canvas.spec_at(x, y) != spec_compose(
            ch,
            fg,
            bg,
        );
    if min_y > y_end || min_x > x_end {
        proof {
            assert forall|x: int, y: int| sel(x, y) implies spec_touches(r@, x, y) by {
                assert(!spec_in_box(x0 as int, y0 as int, x1 as int, y1 as int, x, y) || false);
            }
        }
        return r;
    }
    let mut y = min_y;
    while y <= y_end
        invariant
            canvas.wf(),
            min_y <= y <= y_end + 1,
            min_x <= x_end < canvas.width,
            min_y <= y_end < canvas.height,
            y_end == if max_y < canvas.height - 1 { max_y as int } else { canvas.height - 1 },
            x_end == if max_x < canvas.width - 1 { max_x as int } else { canvas.width - 1 },
            min_x == if x0 <= x1 { x0 as int } else { x1 as int },
            max_x == if x0 <= x1 { x1 as int } else { x0 as int },
            min_y == if y0 <= y1 { y0 as int } else { y1 as int },
            max_y == if y0 <= y1 { y1 as int } else { y0 as int },
            new == spec_compose(ch, fg, bg),
            sel == (|x: int, yy: int|
                spec_rect_selects(x0 as int, y0 as int, x1 as int, y1 as int, filled, x, yy) && 0
                    <= x < canvas.width && 0 <= yy < canvas.height && canvas.spec_at(x, yy)
                    != spec_compose(ch, fg, bg)),
            forall|k: int|
                0 <= k < r@.len() ==> spec_rect_mutation_ok(
                    *canvas,
                    x0 as int,
                    y0 as int,
                    x1 as int,
                    y1 as int,
                    filled,
                    spec_compose(ch, fg, bg),
                    #[trigger] r@[k],
                ),
            forall|xx: int, yy: int| sel(xx, yy) && yy < y ==> #[trigger] spec_touches(r@, xx, yy),
            forall|k: int| 0 <= k < r@.len() ==> (#[trigger] r@[k]).y < y,
            spec_distinct_positions(r@),
        decreases y_end + 1 - y,
    {
        let mut x = min_x;
        while x <= x_end
            invariant
                canvas.wf(),
                min_x <= x <= x_end + 1,
                min_y <= y <= y_end,
                min_x <= x_end < canvas.width,
                min_y <= y_end < canvas.height,
                y_end == if max_y < canvas.height - 1 { max_y as int } else { canvas.height - 1 },
                x_end == if max_x < canvas.width - 1 { max_x as int } else { canvas.width - 1 },
                min_x == if x0 <= x1 { x0 as int } else { x1 as int },
                max_x == if x0 <= x1 { x1 as int } else { x0 as int },
                min_y == if y0 <= y1 { y0 as int } else { y1 as int },
                max_y == if y0 <= y1 { y1 as int } else { y0 as int },
                new == spec_compose(ch, fg, bg),
                sel == (|xx: int, yy: int|
                    spec_rect_selects(x0 as int, y0 as int, x1 as int, y1 as int, filled, xx, yy)
                        && 0 <= xx < canvas.width && 0 <= yy < canvas.height && canvas.spec_at(
                        xx,
                        yy,
                    ) != spec_compose(ch, fg, bg)),
                forall|k: int|
                    0 <= k < r@.len() ==> spec_rect_mutation_ok(
                        *canvas,
                        x0 as int,
                        y0 as int,
                        x1 as int,
                        y1 as int,
                        filled,
                        spec_compose(ch, fg, bg),
                        #[trigger] r@[k],
                    ),
                forall|xx: int, yy: int|
                    sel(xx, yy) && yy < y ==> #[trigger] spec_touches(r@, xx, yy),
                forall|xx: int, yy: int|
                    sel(xx, yy) && yy == y && xx < x ==> #[trigger] spec_touches(r@, xx, yy),
                forall|k: int|
                    0 <= k < r@.len() ==> (#[trigger] r@[k]).y < y || (r@[k].y == y && r@[k].x < x),
                spec_distinct_positions(r@),
            decreases x_end + 1 - x,
        {
            let is_border = x == min_x || x == max_x || y == min_y || y == max_y;
            let ghost rold = r@;
            if filled || is_border {
                match canvas.get(x, y) {
                    Some(old) => {
                        if old != new {
                            r.push(CellMutation { x, y, old, new });
                        }
                    },
                    None => {},
                }
            }
            proof {
                assert forall|xx: int, yy: int|
                    sel(xx, yy) && (yy < y || (yy == y && xx < x + 1)) implies #[trigger] spec_touches(
                    r@,
                    xx,
                    yy,
                ) by {
                    if yy == y && xx == x {
                        assert(r@.last().x == x && r@.last().y == y);
                        assert(spec_touches(r@, xx, yy));
                    } else {
                        assert(spec_touches(rold, xx, yy));
                        let k = choose|k: int|
                            0 <= k < rold.len() && (#[trigger] rold[k]).x == xx && rold[k].y == yy;
                        assert(r@[k] == rold[k]);
                    }
                }
            }
            x += 1;
        }
        y += 1;
    }
    proof {
        assert forall|xx: int, yy: int| sel(xx, yy) implies #[trigger] spec_touches(r@, xx, yy) by {
            assert(yy <= y_end && xx <= x_end);
        }
    }
    r
}

/// Absolute value.
pub open spec fn spec_abs(v: int) -> int {
    if v >= 0 {
        v
    } else {
        -v
    }
}

/// Number of steps of the line walk: the larger coordinate distance. The
/// walk emits one more point than it has steps.
pub open spec fn spec_line_steps(x0: int, y0: int, x1: int, y1: int) -> int {
    let a = spec_abs(x1 - x0);
    let b = spec_abs(y1 - y0);
    if a >= b {
        a
    } else {
        b
    }
}

/// One step of the error-driven line walk: the error decides whether the
/// walk advances in x, in y, or diagonally in both.
pub open spec fn spec_bres_step(x0: int, y0: int, x1: int, y1: int, st: (int, int, int)) -> (
    int,
    int,
    int,
) {
    let dx = spec_abs(x1 - x0);
    let dy = -spec_abs(y1 - y0);
    let sx: int = if x0 < x1 {
        1
    } else {
        -1
    };
    let sy: int = if y0 < y1 {
        1
    } else {
        -1
    };
    let e2 = 2 * st.2;
    let x = if e2 >= dy {
        st.0 + sx
    } else {
        st.0
    };
    let err1 = if e2 >= dy {
        st.2 + dy
    } else {
        st.2
    };
    let y = if e2 <= dx {
        st.1 + sy
    } else {
        st.1
    };
    let err = if e2 <= dx {
        err1 + dx
    } else {
        err1
    };
    (x, y, err)
}

/// State of the line walk after `k` steps: position and error term.
pub open spec fn spec_bres_state(x0: int, y0: int, x1: int, y1: int, k: nat) -> (int, int, int)
    decreases k,
{
    if k == 0 {
        (x0, y0, spec_abs(x1 - x0) - spec_abs(y1 - y0))
    } else {
        spec_bres_step(x0, y0, x1, y1, spec_bres_state(x0, y0, x1, y1, (k - 1) as nat))
    }
}

/// The canonical walk direction: from the lexicographically smaller
/// endpoint. A line is walked canonically and read backwards otherwise,
/// which makes its point set independent of endpoint order.
pub open spec fn spec_lex_le(x0: int, y0: int, x1: int, y1: int) -> bool {
    x0 < x1 || (x0 == x1 && y0 <= y1)
}

/// The `i`-th point of the line from `(x0, y0)` to `(x1, y1)`, for `i` from
/// zero through `spec_line_steps`.
pub open spec fn spec_line_point(x0: int, y0: int, x1: int, y1: int, i: int) -> (int, int) {
    if spec_lex_le(x0, y0, x1, y1) {
        let st = spec_bres_state(x0, y0, x1, y1, i as nat);
        (st.0, st.1)
    } else {
        let st = spec_bres_state(x1, y1, x0, y0, (spec_line_steps(x0, y0, x1, y1) - i) as nat);
        (st.0, st.1)
    }
}

/// Reversing a line's endpoints reverses its point sequence: the `i`-th
/// point of the reversed line is the `(steps - i)`-th point of the original,
/// so the two lines yield identical point sets.
pub proof fn lemma_line_reverse(x0: int, y0: int, x1: int, y1: int, i: int)
    requires
        0 <= i <= spec_line_steps(x0, y0, x1, y1),
    ensures
        spec_line_point(x1, y1, x0, y0, i) == spec_line_point(
            x0,
            y0,
            x1,
            y1,
            spec_line_steps(x0, y0, x1, y1) - i,
        ),
{
}

/// One advance of the line walk in first-quadrant form: `u` and `v` are the
/// distances already walked along each axis, `a` and `b` the total
/// distances, and `d` the scaled deviation from the ideal line. Each advance
/// moves the axis with the most distance left, never overshoots, keeps the
/// deviation within half the longer distance, and brings the walk exactly
/// one step closer to the far corner.
proof fn lemma_bres_advance(a: int, b: int, u: int, v: int, d: int, n: int)
    requires
        a >= 0,
        b >= 0,
        n == if a >= b {
            a
        } else {
            b
        },
        0 <= u <= a,
        0 <= v <= b,
        d == v * a - u * b,
        -n <= 2 * d <= n,
        !(u == a && v == b),
    ensures
        ({
            let e2 = 2 * (a - b + d);
            let u2: int = if e2 >= -b {
                u + 1
            } else {
                u
            };
            let d1: int = if e2 >= -b {
                d - b
            } else {
                d
            };
            let v2: int = if e2 <= a {
                v + 1
            } else {
                v
            };
            let d2: int = if e2 <= a {
                d1 + a
            } else {
                d1
            };
            &&& u2 <= a
            &&& v2 <= b
            &&& u + v < u2 + v2
            &&& d2 == v2 * a - u2 * b
            &&& -n <= 2 * d2 <= n
            &&& (if a - u2 >= b - v2 {
                a - u2
            } else {
                b - v2
            }) == (if a - u >= b - v {
                a - u
            } else {
                b - v
            }) - 1
        }),
{
    let e2 = 2 * (a - b + d);
    let p = a - u;
    let q = b - v;
    // No overshoot in u: at the right edge the top/bottom distance left is
    // positive, and the error already points away from x.
    if u == a && e2 >= -b {
        assert(false) by (nonlinear_arith)
            requires
                u == a,
                0 <= v < b,
                d == v * a - u * b,
                e2 == 2 * (a - b + d),
                a >= 0,
                e2 >= -b,
        ;
    }
    // No overshoot in v.
    if v == b && e2 <= a {
        assert(false) by (nonlinear_arith)
            requires
                v == b,
                0 <= u < a,
                d == v * a - u * b,
                e2 == 2 * (a - b + d),
                b >= 0,
                e2 <= a,
        ;
    }
    // The axis with the most distance left always advances.
    if p >= q && p >= 1 {
        assert(e2 >= -b) by (nonlinear_arith)
            requires
                0 <= u <= a,
                0 <= v <= b,
                a - u >= b - v,
                u < a,
                d == v * a - u * b,
                e2 == 2 * (a - b + d),
                n == if a >= b {
                    a
                } else {
                    b
                },
                -n <= 2 * d <= n,
        ;
    }
    if q >= p && q >= 1 {
        assert(e2 <= a) by (nonlinear_arith)
            requires
                0 <= u <= a,
                0 <= v <= b,
                b - v >= a - u,
                v < b,
                d == v * a - u * b,
                e2 == 2 * (a - b + d),
                n == if a >= b {
                    a
                } else {
                    b
                },
                -n <= 2 * d <= n,
        ;
    }
    let u2: int = if e2 >= -b {
        u + 1
    } else {
        u
    };
    let d1: int = if e2 >= -b {
        d - b
    } else {
        d
    };
    let v2: int = if e2 <= a {
        v + 1
    } else {
        v
    };
    let d2: int = if e2 <= a {
        d1 + a
    } else {
        d1
    };
    assert(d2 == v2 * a - u2 * b) by (nonlinear_arith)
        requires
            d == v * a - u * b,
            u2 == if e2 >= -b {
                u + 1
            } else {
                u
            },
            d1 == if e2 >= -b {
                d - b
            } else {
                d
            },
            v2 == if e2 <= a {
                v + 1
            } else {
                v
            },
            d2 == if e2 <= a {
                d1 + a
            } else {
                d1
            },
    ;
    // The deviation stays within half the longer distance; each case is
    // linear in d once the fired branches are fixed.
    if e2 >= -b && e2 <= a {
        assert(-n <= 2 * d2 <= n);
    } else if e2 >= -b {
        assert(-n <= 2 * d2 <= n);
    } else {
        assert(-n <= 2 * d2 <= n);
    }
}

/// The error-driven walk from `(x0, y0)` to `(x1, y1)`, taken in the
/// canonical direction.
fn bres_walk(x0: usize, y0: usize, x1: usize, y1: usize) -> (r: Vec<(usize, usize)>)
    requires
        x0 <= 0x7fff_ffff,
        y0 <= 0x7fff_ffff,
        x1 <= 0x7fff_ffff,
        y1 <= 0x7fff_ffff,
    ensures
        r@.len() == spec_line_steps(x0 as int, y0 as int, x1 as int, y1 as int) + 1,
        forall|i: int|
            0 <= i < r@.len() ==> ((#[trigger] r@[i]).0 as int, r@[i].1 as int) == {
                let st = spec_bres_state(x0 as int, y0 as int, x1 as int, y1 as int, i as nat);
                (st.0, st.1)
            },
{
    let ghost gx0 = x0 as int;
    let ghost gy0 = y0 as int;
    let ghost gx1 = x1 as int;
    let ghost gy1 = y1 as int;
    let (a_u, sx): (usize, i64) = if x0 < x1 {
        (x1 - x0, 1)
    } else {
        (x0 - x1, -1)
    };
    let (b_u, sy): (usize, i64) = if y0 < y1 {
        (y1 - y0, 1)
    } else {
        (y0 - y1, -1)
    };
    let a = a_u as i64;
    let b = b_u as i64;
    let n = if a_u >= b_u {
        a_u
    } else {
        b_u
    };
    let ghost ga = a as int;
    let ghost gb = b as int;
    let ghost gn = n as int;
    let mut x = x0 as i64;
    let mut y = y0 as i64;
    let mut err: i64 = a - b;
    let ghost mut u: int = 0;
    let ghost mut v: int = 0;
    let ghost mut d: int = 0;
    let mut r: Vec<(usize, usize)> = Vec::new();
    let mut k: usize = 0;
    proof {
        assert(0 * ga == 0 && 0 * gb == 0) by (nonlinear_arith);
    }
    while k < n
        invariant
            x0 <= 0x7fff_ffff && y0 <= 0x7fff_ffff && x1 <= 0x7fff_ffff && y1 <= 0x7fff_ffff,
            gx0 == x0 as int && gy0 == y0 as int && gx1 == x1 as int && gy1 == y1 as int,
            ga == spec_abs(gx1 - gx0),
            gb == spec_abs(gy1 - gy0),
            gn == spec_line_steps(gx0, gy0, gx1, gy1),
            a == ga && b == gb && n as int == gn,
            sx == (if gx0 < gx1 {
                1int
            } else {
                -1int
            }),
            sy == (if gy0 < gy1 {
                1int
            } else {
                -1int
            }),
            0 <= u <= ga,
            0 <= v <= gb,
            x as int == (if gx0 < gx1 {
                gx0 + u
            } else {
                gx0 - u
            }),
            y as int == (if gy0 < gy1 {
                gy0 + v
            } else {
                gy0 - v
            }),
            d == v * ga - u * gb,
            -gn <= 2 * d <= gn,
            err as int == ga - gb + d,
            k <= n,
            (if ga - u >= gb - v {
                ga - u
            } else {
                gb - v
            }) == gn - k,
            spec_bres_state(gx0, gy0, gx1, gy1, k as nat) == (x as int, y as int, err as int),
            r@.len() == k,
            forall|i: int|
                0 <= i < k ==> ((#[trigger] r@[i]).0 as int, r@[i].1 as int) == {
                    let st = spec_bres_state(gx0, gy0, gx1, gy1, i as nat);
                    (st.0, st.1)
                },
        decreases n - k,
    {
        r.push((x as usize, y as usize));
        proof {
            lemma_bres_advance(ga, gb, u, v, d, gn);
        }
        let e2 = 2 * err;
        if e2 >= -b {
            err = err - b;
            x = x + sx;
            proof {
                u = u + 1;
                d = d - gb;
            }
        }
        if e2 <= a {
            err = err + a;
            y = y + sy;
            proof {
                v = v + 1;
                d = d + ga;
            }
        }
        k += 1;
        proof {
            assert(spec_bres_state(gx0, gy0, gx1, gy1, k as nat) == spec_bres_step(
                gx0,
                gy0,
                gx1,
                gy1,
                spec_bres_state(gx0, gy0, gx1, gy1, (k - 1) as nat),
            ));
        }
    }
    proof {
        assert(u == ga && v == gb);
    }
    r.push((x as usize, y as usize));
    r
}

/// Bresenham's integer line from `(x0, y0)` to `(x1, y1)`, both endpoints
/// included: exactly `max(|dx|, |dy|) + 1` points, walked in the canonical
/// direction so that reversing the endpoints yields the same point set.
pub fn bresenham_line(x0: usize, y0: usize, x1: usize, y1: usize) -> (r: Vec<(usize, usize)>)
    requires
        x0 <= 0x7fff_ffff,
        y0 <= 0x7fff_ffff,
        x1 <= 0x7fff_ffff,
        y1 <= 0x7fff_ffff,
    ensures
        r@.len() == spec_line_steps(x0 as int, y0 as int, x1 as int, y1 as int) + 1,
        forall|i: int|
            0 <= i < r@.len() ==> ((#[trigger] r@[i]).0 as int, r@[i].1 as int) == spec_line_point(
                x0 as int,
                y0 as int,
                x1 as int,
                y1 as int,
                i,
            ),
{
    let canonical = x0 < x1 || (x0 == x1 && y0 <= y1);
    if canonical {
        bres_walk(x0, y0, x1, y1)
    } else {
        let walked = bres_walk(x1, y1, x0, y0);
        let mut r: Vec<(usize, usize)> = Vec::new();
        let mut i: usize = walked.len();
        while i > 0
            invariant
                walked@.len() == spec_line_steps(x0 as int, y0 as int, x1 as int, y1 as int) + 1,
                forall|j: int|
                    0 <= j < walked@.len() ==> ((#[trigger] walked@[j]).0 as int, walked@[j].1 as int)
                        == {
                        let st = spec_bres_state(x1 as int, y1 as int, x0 as int, y0 as int, j as nat);
                        (st.0, st.1)
                    },
                !spec_lex_le(x0 as int, y0 as int, x1 as int, y1 as int),
                i <= walked@.len(),
                r@.len() == walked@.len() - i,
                forall|j: int|
                    0 <= j < r@.len() ==> ((#[trigger] r@[j]).0 as int, r@[j].1 as int)
                        == spec_line_point(x0 as int, y0 as int, x1 as int, y1 as int, j),
            decreases i,
        {
            i -= 1;
            let p = walked[i];
            r.push(p);
        }
        r
    }
}

/// Draw a line from `(x0, y0)` to `(x1, y1)`: one mutation per line point
/// that lies in bounds and whose cell would change.
pub open spec fn spec_line_mutations(
    canvas: Canvas,
    x0: int,
    y0: int,
    x1: int,
    y1: int,
    new: Cell,
    upto: int,
) -> Seq<CellMutation>
    decreases upto,
{
    if upto <= 0 {
        Seq::empty()
    } else {
        let prefix = spec_line_mutations(canvas, x0, y0, x1, y1, new, upto - 1);
        let p = spec_line_point(x0, y0, x1, y1, upto - 1);
        if 0 <= p.0 < canvas.width && 0 <= p.1 < canvas.height && canvas.spec_at(p.0, p.1) != new {
            prefix.push(
                CellMutation {
                    x: p.0 as usize,
                    y: p.1 as usize,
                    old: canvas.spec_at(p.0, p.1),
                    new,
                },
            )
        } else {
            prefix
        }
    }
}

/// Draw a line between two points with the given glyph and colors.
pub fn line(
    canvas: &Canvas,
    x0: usize,
    y0: usize,
    x1: usize,
    y1: usize,
    ch: char,
    fg: Option<Rgb>,
    bg: Option<Rgb>,
) -> (r: Vec<CellMutation>)
    requires
        canvas.wf(),
        x0 <= 0x7fff_ffff,
        y0 <= 0x7fff_ffff,
        x1 <= 0x7fff_ffff,
        y1 <= 0x7fff_ffff,
    ensures
        r@ == spec_line_mutations(
            *canvas,
            x0 as int,
            y0 as int,
            x1 as int,
            y1 as int,
            spec_compose(ch, fg, bg),
            spec_line_steps(x0 as int, y0 as int, x1 as int, y1 as int) + 1,
        ),
{
    let points = bresenham_line(x0, y0, x1, y1);
    let new = Cell { ch, fg, bg };
    let mut r: Vec<CellMutation> = Vec::new();
    let mut i: usize = 0;
    while i < points.len()
        invariant
            canvas.wf(),
            new == spec_compose(ch, fg, bg),
            points@.len() == spec_line_steps(x0 as int, y0 as int, x1 as int, y1 as int) + 1,
            forall|j: int|
                0 <= j < points@.len() ==> ((#[trigger] points@[j]).0 as int, points@[j].1 as int)
                    == spec_line_point(x0 as int, y0 as int, x1 as int, y1 as int, j),
            i <= points@.len(),
            r@ == spec_line_mutations(
                *canvas,
                x0 as int,
                y0 as int,
                x1 as int,
                y1 as int,
                new,
                i as int,
            ),
        decreases points@.len() - i,
    {
        let (px, py) = points[i];
        match canvas.get(px, py) {
            Some(old) => {
                if old != new {
                    r.push(CellMutation { x: px, y: py, old, new });
                }
            },
            None => {},
        }
        i += 1;
    }
    r
}

/// Whether two positions are 4-connected neighbors.
pub open spec fn spec_adjacent(p: (int, int), q: (int, int)) -> bool {
    (p.0 == q.0 && (p.1 == q.1 + 1 || p.1 == q.1 - 1)) || (p.1 == q.1 && (p.0 == q.0 + 1 || p.0
        == q.0 - 1))
}

/// Whether a position sequence is a path of in-bounds cells that all hold
/// the target cell value, each step 4-connected.
pub open spec fn spec_fill_path(canvas: Canvas, target: Cell, path: Seq<(int, int)>) -> bool {
    &&& path.len() > 0
    &&& forall|i: int|
        0 <= i < path.len() ==> 0 <= (#[trigger] path[i]).0 < canvas.width && 0 <= path[i].1
            < canvas.height && canvas.spec_at(path[i].0, path[i].1) == target
    &&& forall|i: int| 1 <= i < path.len() ==> spec_adjacent(path[i - 1], #[trigger] path[i])
}

/// Whether `p` is reachable from the seed through 4-connected cells that all
/// hold the target value.
pub open spec fn spec_fill_reachable(
    canvas: Canvas,
    target: Cell,
    seed: (int, int),
    p: (int, int),
) -> bool {
    exists|path: Seq<(int, int)>|
        spec_fill_path(canvas, target, path) && path.first() == seed && path.last() == p
}

proof fn lemma_fill_reachable_self(canvas: Canvas, target: Cell, seed: (int, int))
    requires
        0 <= seed.0 < canvas.width,
        0 <= seed.1 < canvas.height,
        canvas.spec_at(seed.0, seed.1) == target,
    ensures
        spec_fill_reachable(canvas, target, seed, seed),
{
    let path = seq![seed];
    assert(spec_fill_path(canvas, target, path));
    assert(path.first() == seed && path.last() == seed);
}

proof fn lemma_fill_reachable_extend(
    canvas: Canvas,
    target: Cell,
    seed: (int, int),
    p: (int, int),
    q: (int, int),
)
    requires
        spec_fill_reachable(canvas, target, seed, p),
        spec_adjacent(p, q),
        0 <= q.0 < canvas.width,
        0 <= q.1 < canvas.height,
        canvas.spec_at(q.0, q.1) == target,
    ensures
        spec_fill_reachable(canvas, target, seed, q),
{
    let path = choose|path: Seq<(int, int)>|
        spec_fill_path(canvas, target, path) && path.first() == seed && path.last() == p;
    let ext = path.push(q);
    assert(spec_fill_path(canvas, target, ext)) by {
        assert(forall|i: int| 0 <= i < path.len() ==> #[trigger] ext[i] == path[i]);
        assert(ext[ext.len() - 1] == q);
        assert(ext[path.len() - 1] == path.last());
    }
    assert(ext.first() == seed && ext.last() == q);
}

/// Number of positions already filled.
pub open spec fn spec_count_true(s: Seq<bool>) -> int
    decreases s.len(),
{
    if s.len() == 0 {
        0
    } else {
        spec_count_true(s.drop_last()) + if s.last() {
            1int
        } else {
            0int
        }
    }
}

proof fn lemma_count_true_le_len(s: Seq<bool>)
    ensures
        0 <= spec_count_true(s) <= s.len(),
    decreases s.len(),
{
    if s.len() > 0 {
        lemma_count_true_le_len(s.drop_last());
    }
}

proof fn lemma_count_true_update(s: Seq<bool>, i: int)
    requires
        0 <= i < s.len(),
        !s[i],
    ensures
        spec_count_true(s.update(i, true)) == spec_count_true(s) + 1,
    decreases s.len(),
{
    let t = s.update(i, true);
    if i == s.len() - 1 {
        assert(t.drop_last() =~= s.drop_last());
    } else {
        assert(t.drop_last() =~= s.drop_last().update(i, true));
        lemma_count_true_update(s.drop_last(), i);
    }
}

proof fn lemma_pos_index_bound(w: int, h: int, x: int, y: int)
    requires
        0 <= x < w,
        0 <= y < h,
    ensures
        0 <= y * w + x < w * h,
    decreases h,
{
    assert(0 <= y * w + x < w * h) by (nonlinear_arith)
        requires
            0 <= x < w,
            0 <= y < h,
    ;
}

proof fn lemma_pos_index_injective(w: int, x1: int, y1: int, x2: int, y2: int)
    requires
        0 <= x1 < w,
        0 <= x2 < w,
        y1 >= 0,
        y2 >= 0,
        y1 * w + x1 == y2 * w + x2,
    ensures
        x1 == x2 && y1 == y2,
{
    assert(x1 == x2 && y1 == y2) by (nonlinear_arith)
        requires
            0 <= x1 < w,
            0 <= x2 < w,
            y1 >= 0,
            y2 >= 0,
            y1 * w + x1 == y2 * w + x2,
    ;
}

/// Whether the visited word for position `(x, y)` is set.
pub open spec fn spec_vis(vis: Seq<bool>, w: int, x: int, y: int) -> bool {
    vis[y * w + x]
}

/// Whether the stack holds position `(x, y)`.
pub open spec fn spec_stack_has(s: Seq<(usize, usize)>, x: int, y: int) -> bool {
    exists|k: int| 0 <= k < s.len() && (#[trigger] s[k]).0 == x && s[k].1 == y
}

/// A filled set closed under adjacency contains everything a path from a
/// filled start can reach.
proof fn lemma_closed_under_paths(
    canvas: Canvas,
    target: Cell,
    vis: Seq<bool>,
    path: Seq<(int, int)>,
)
    requires
        canvas.wf(),
        vis.len() == canvas.width * canvas.height,
        spec_fill_path(canvas, target, path),
        spec_vis(vis, canvas.width as int, path.first().0, path.first().1),
        forall|x: int, y: int, qx: int, qy: int|
            0 <= x < canvas.width && 0 <= y < canvas.height && #[trigger] spec_vis(
                vis,
                canvas.width as int,
                x,
                y,
            ) && spec_adjacent((x, y), (qx, qy)) && 0 <= qx < canvas.width && 0 <= qy
                < canvas.height && canvas.spec_at(qx, qy) == target ==> #[trigger] spec_vis(
                vis,
                canvas.width as int,
                qx,
                qy,
            ),
    ensures
        spec_vis(vis, canvas.width as int, path.last().0, path.last().1),
    decreases path.len(),
{
    if path.len() > 1 {
        let prefix = path.drop_last();
        assert(spec_fill_path(canvas, target, prefix)) by {
            assert(forall|i: int| 0 <= i < prefix.len() ==> #[trigger] prefix[i] == path[i]);
        }
        lemma_closed_under_paths(canvas, target, vis, prefix);
        let p = path[path.len() - 2];
        let q = path.last();
        assert(spec_adjacent(p, q));
        assert(spec_vis(vis, canvas.width as int, p.0, p.1));
    }
}

/// After popping a cell that fills nothing (already filled, or off-target),
/// the closure and seed facts survive: any queued witness other than the
/// popped entry is still queued, and the popped entry needs no witness.
proof fn skip_pop_proof(
    canvas: Canvas,
    target: Cell,
    vis: Seq<bool>,
    stack_pre: Seq<(usize, usize)>,
    stack_now: Seq<(usize, usize)>,
    seed: (int, int),
    gw: int,
    gh: int,
    x: int,
    y: int,
    was_visited: bool,
)
    requires
        stack_pre.len() > 0,
        stack_now == stack_pre.drop_last(),
        stack_pre.last().0 == x && stack_pre.last().1 == y,
        was_visited ==> 0 <= x < gw && 0 <= y < gh && spec_vis(vis, gw, x, y),
        !was_visited ==> 0 <= x < gw && 0 <= y < gh && canvas.spec_at(x, y) != target,
        0 <= seed.0 < gw,
        0 <= seed.1 < gh,
        canvas.spec_at(seed.0, seed.1) == target,
        forall|px: int, py: int, qx: int, qy: int|
            0 <= px < gw && 0 <= py < gh && #[trigger] spec_vis(vis, gw, px, py) && spec_adjacent(
                (px, py),
                (qx, qy),
            ) && 0 <= qx < gw && 0 <= qy < gh && canvas.spec_at(qx, qy) == target
                ==> #[trigger] spec_vis(vis, gw, qx, qy) || spec_stack_has(stack_pre, qx, qy),
        spec_vis(vis, gw, seed.0, seed.1) || spec_stack_has(stack_pre, seed.0, seed.1),
    ensures
        forall|px: int, py: int, qx: int, qy: int|
            0 <= px < gw && 0 <= py < gh && #[trigger] spec_vis(vis, gw, px, py) && spec_adjacent(
                (px, py),
                (qx, qy),
            ) && 0 <= qx < gw && 0 <= qy < gh && canvas.spec_at(qx, qy) == target
                ==> #[trigger] spec_vis(vis, gw, qx, qy) || spec_stack_has(stack_now, qx, qy),
        spec_vis(vis, gw, seed.0, seed.1) || spec_stack_has(stack_now, seed.0, seed.1),
{
    assert forall|px: int, py: int, qx: int, qy: int|
        0 <= px < gw && 0 <= py < gh && #[trigger] spec_vis(vis, gw, px, py) && spec_adjacent(
            (px, py),
            (qx, qy),
        ) && 0 <= qx < gw && 0 <= qy < gh && canvas.spec_at(qx, qy) == target
        implies #[trigger] spec_vis(vis, gw, qx, qy) || spec_stack_has(stack_now, qx, qy) by {
        if !spec_vis(vis, gw, qx, qy) {
            assert(spec_stack_has(stack_pre, qx, qy));
            let k = choose|k: int|
                0 <= k < stack_pre.len() && (#[trigger] stack_pre[k]).0 == qx && stack_pre[k].1
                    == qy;
            if k < stack_pre.len() - 1 {
                assert(stack_now[k] == stack_pre[k]);
                assert(spec_stack_has(stack_now, qx, qy));
            } else {
                assert(qx == x && qy == y);
            }
        }
    }
    if !spec_vis(vis, gw, seed.0, seed.1) {
        assert(spec_stack_has(stack_pre, seed.0, seed.1));
        let k = choose|k: int|
            0 <= k < stack_pre.len() && (#[trigger] stack_pre[k]).0 == seed.0 && stack_pre[k].1
                == seed.1;
        if k < stack_pre.len() - 1 {
            assert(stack_now[k] == stack_pre[k]);
            assert(spec_stack_has(stack_now, seed.0, seed.1));
        } else {
            assert(seed == (x, y));
        }
    }
}

/// After filling one popped cell and queueing its in-bounds neighbors, the
/// loop facts survive: filled cells stay sound, the filled set stays closed
/// up to the stack, the stack stays sound, and the seed stays filled or
/// queued.
proof fn mark_pop_proof(
    canvas: Canvas,
    target: Cell,
    seed: (int, int),
    vis_before: Seq<bool>,
    vis_now: Seq<bool>,
    stack_pre: Seq<(usize, usize)>,
    stack_now: Seq<(usize, usize)>,
    gw: int,
    gh: int,
    x: int,
    y: int,
)
    requires
        canvas.wf(),
        gw == canvas.width,
        gh == canvas.height,
        0 <= x < gw,
        0 <= y < gh,
        0 <= seed.0 < gw,
        0 <= seed.1 < gh,
        canvas.spec_at(seed.0, seed.1) == target,
        canvas.spec_at(x, y) == target,
        spec_fill_reachable(canvas, target, seed, (x, y)),
        spec_vis(vis_now, gw, x, y),
        forall|px: int, py: int|
            0 <= px < gw && 0 <= py < gh && !(px == x && py == y) ==> #[trigger] spec_vis(
                vis_now,
                gw,
                px,
                py,
            ) == spec_vis(vis_before, gw, px, py),
        forall|px: int, py: int|
            0 <= px < gw && 0 <= py < gh && #[trigger] spec_vis(vis_before, gw, px, py)
                ==> canvas.spec_at(px, py) == target && spec_fill_reachable(
                canvas,
                target,
                seed,
                (px, py),
            ),
        forall|px: int, py: int, qx: int, qy: int|
            0 <= px < gw && 0 <= py < gh && #[trigger] spec_vis(vis_before, gw, px, py)
                && spec_adjacent((px, py), (qx, qy)) && 0 <= qx < gw && 0 <= qy < gh
                && canvas.spec_at(qx, qy) == target ==> #[trigger] spec_vis(vis_before, gw, qx, qy)
                || spec_stack_has(stack_pre, qx, qy),
        forall|k: int|
            0 <= k < stack_pre.len() ==> {
                let q = #[trigger] stack_pre[k];
                &&& q.0 < gw
                &&& q.1 < gh
                &&& (canvas.spec_at(q.0 as int, q.1 as int) == target ==> spec_fill_reachable(
                    canvas,
                    target,
                    seed,
                    (q.0 as int, q.1 as int),
                ))
            },
        spec_vis(vis_before, gw, seed.0, seed.1) || spec_stack_has(stack_pre, seed.0, seed.1),
        stack_pre.len() > 0,
        stack_pre.last().0 == x && stack_pre.last().1 == y,
        stack_now.len() >= stack_pre.len() - 1,
        forall|k: int| 0 <= k < stack_pre.len() - 1 ==> #[trigger] stack_now[k] == stack_pre[k],
        forall|k: int|
            stack_pre.len() - 1 <= k < stack_now.len() ==> ((#[trigger] stack_now[k]).0 < gw
                && stack_now[k].1 < gh && spec_adjacent(
                (x, y),
                (stack_now[k].0 as int, stack_now[k].1 as int),
            )),
        forall|qx: int, qy: int|
            0 <= qx < gw && 0 <= qy < gh && #[trigger] spec_adjacent((x, y), (qx, qy))
                ==> spec_stack_has(stack_now, qx, qy),
    ensures
        forall|px: int, py: int|
            0 <= px < gw && 0 <= py < gh && #[trigger] spec_vis(vis_now, gw, px, py)
                ==> canvas.spec_at(px, py) == target && spec_fill_reachable(
                canvas,
                target,
                seed,
                (px, py),
            ),
        forall|px: int, py: int, qx: int, qy: int|
            0 <= px < gw && 0 <= py < gh && #[trigger] spec_vis(vis_now, gw, px, py)
                && spec_adjacent((px, py), (qx, qy)) && 0 <= qx < gw && 0 <= qy < gh
                && canvas.spec_at(qx, qy) == target ==> #[trigger] spec_vis(vis_now, gw, qx, qy)
                || spec_stack_has(stack_now, qx, qy),
        forall|k: int|
            0 <= k < stack_now.len() ==> {
                let q = #[trigger] stack_now[k];
                &&& q.0 < gw
                &&& q.1 < gh
                &&& (canvas.spec_at(q.0 as int, q.1 as int) == target ==> spec_fill_reachable(
                    canvas,
                    target,
                    seed,
                    (q.0 as int, q.1 as int),
                ))
            },
        spec_vis(vis_now, gw, seed.0, seed.1) || spec_stack_has(stack_now, seed.0, seed.1),
{
    assert forall|k: int| 0 <= k < stack_now.len() implies {
        let q = #[trigger] stack_now[k];
        &&& q.0 < gw
        &&& q.1 < gh
        &&& (canvas.spec_at(q.0 as int, q.1 as int) == target ==> spec_fill_reachable(
            canvas,
            target,
            seed,
            (q.0 as int, q.1 as int),
        ))
    } by {
        let q = stack_now[k];
        if k < stack_pre.len() - 1 {
            assert(stack_now[k] == stack_pre[k]);
        } else {
            if canvas.spec_at(q.0 as int, q.1 as int) == target {
                lemma_fill_reachable_extend(
                    canvas,
                    target,
                    seed,
                    (x, y),
                    (q.0 as int, q.1 as int),
                );
            }
        }
    }
    assert forall|px: int, py: int, qx: int, qy: int|
        0 <= px < gw && 0 <= py < gh && #[trigger] spec_vis(vis_now, gw, px, py) && spec_adjacent(
            (px, py),
            (qx, qy),
        ) && 0 <= qx < gw && 0 <= qy < gh && canvas.spec_at(qx, qy) == target
        implies #[trigger] spec_vis(vis_now, gw, qx, qy) || spec_stack_has(stack_now, qx, qy) by {
        if px == x && py == y {
            assert(spec_stack_has(stack_now, qx, qy));
        } else {
            assert(spec_vis(vis_before, gw, px, py));
            if spec_vis(vis_before, gw, qx, qy) {
                if qx == x && qy == y {
                    assert(spec_vis(vis_now, gw, qx, qy));
                } else {
                    assert(spec_vis(vis_now, gw, qx, qy));
                }
            } else if qx == x && qy == y {
                assert(spec_vis(vis_now, gw, qx, qy));
            } else {
                assert(spec_stack_has(stack_pre, qx, qy));
                let k = choose|k: int|
                    0 <= k < stack_pre.len() && (#[trigger] stack_pre[k]).0 == qx && stack_pre[k].1
                        == qy;
                if k < stack_pre.len() - 1 {
                    assert(stack_now[k] == stack_pre[k]);
                    assert(spec_stack_has(stack_now, qx, qy));
                } else {
                    assert(qx == x && qy == y);
                }
            }
        }
    }
    if !spec_vis(vis_now, gw, seed.0, seed.1) {
        assert(!spec_vis(vis_before, gw, seed.0, seed.1));
        assert(spec_stack_has(stack_pre, seed.0, seed.1));
        let k = choose|k: int|
            0 <= k < stack_pre.len() && (#[trigger] stack_pre[k]).0 == seed.0 && stack_pre[k].1
                == seed.1;
        if k < stack_pre.len() - 1 {
            assert(stack_now[k] == stack_pre[k]);
            assert(spec_stack_has(stack_now, seed.0, seed.1));
        } else {
            assert(seed == (x, y));
            assert(false);
        }
    }
}

/// After recording the mutation for a newly filled cell, the mutation list
/// still matches the filled set exactly: one mutation per filled position,
/// no position twice.
proof fn mark_mutation_proof(
    r_before: Seq<CellMutation>,
    r_now: Seq<CellMutation>,
    m: CellMutation,
    vis_before: Seq<bool>,
    vis_now: Seq<bool>,
    gw: int,
    gh: int,
)
    requires
        r_now == r_before.push(m),
        0 <= m.x < gw,
        0 <= m.y < gh,
        !spec_vis(vis_before, gw, m.x as int, m.y as int),
        spec_vis(vis_now, gw, m.x as int, m.y as int),
        forall|px: int, py: int|
            0 <= px < gw && 0 <= py < gh && !(px == m.x as int && py == m.y as int)
                ==> #[trigger] spec_vis(vis_now, gw, px, py) == spec_vis(vis_before, gw, px, py),
        forall|k: int|
            0 <= k < r_before.len() ==> (#[trigger] r_before[k]).x < gw && r_before[k].y < gh
                && spec_vis(vis_before, gw, r_before[k].x as int, r_before[k].y as int),
        forall|px: int, py: int|
            0 <= px < gw && 0 <= py < gh && #[trigger] spec_vis(vis_before, gw, px, py)
                ==> spec_touches(r_before, px, py),
        spec_distinct_positions(r_before),
    ensures
        forall|px: int, py: int|
            0 <= px < gw && 0 <= py < gh && #[trigger] spec_vis(vis_now, gw, px, py)
                ==> spec_touches(r_now, px, py),
        spec_distinct_positions(r_now),
        forall|k: int|
            0 <= k < r_now.len() ==> (#[trigger] r_now[k]).x < gw && r_now[k].y < gh && spec_vis(
                vis_now,
                gw,
                r_now[k].x as int,
                r_now[k].y as int,
            ),
{
    assert forall|px: int, py: int|
        0 <= px < gw && 0 <= py < gh && #[trigger] spec_vis(vis_now, gw, px, py)
        implies spec_touches(r_now, px, py) by {
        if px == m.x as int && py == m.y as int {
            assert(r_now.last() == m);
            assert(spec_touches(r_now, px, py));
        } else {
            assert(spec_vis(vis_before, gw, px, py));
            let k = choose|k: int|
                0 <= k < r_before.len() && (#[trigger] r_before[k]).x == px && r_before[k].y == py;
            assert(r_now[k] == r_before[k]);
            assert(spec_touches(r_now, px, py));
        }
    }
    assert(spec_distinct_positions(r_now)) by {
        assert forall|i: int, j: int|
            0 <= i < j < r_now.len() implies !((#[trigger] r_now[i]).x == (#[trigger] r_now[j]).x
            && r_now[i].y == r_now[j].y) by {
            if j == r_now.len() - 1 {
                assert(r_now[i] == r_before[i]);
                assert(spec_vis(vis_before, gw, r_now[i].x as int, r_now[i].y as int));
            } else {
                assert(r_now[i] == r_before[i] && r_now[j] == r_before[j]);
            }
        }
    }
}

/// Iterative flood fill from a seed position: floods every cell reachable
/// from the seed through 4-connected cells equal to the seed's original
/// value. Yields nothing when the seed is out of bounds or already equals
/// the stamped cell; otherwise yields one mutation per reachable cell, each
/// cell at most once, visiting each in-bounds cell at most once. Uses an
/// explicit stack, not recursion, so grids bound its depth.
#[verifier::rlimit(100)]
pub fn flood_fill(
    canvas: &Canvas,
    start_x: usize,
    start_y: usize,
    ch: char,
    fg: Option<Rgb>,
    bg: Option<Rgb>,
) -> (r: Vec<CellMutation>)
    requires
        canvas.wf(),
    ensures
        !(start_x < canvas.width && start_y < canvas.height) ==> r@ == Seq::<CellMutation>::empty(),
        start_x < canvas.width && start_y < canvas.height && canvas.spec_at(
            start_x as int,
            start_y as int,
        ) == spec_compose(ch, fg, bg) ==> r@ == Seq::<CellMutation>::empty(),
        start_x < canvas.width && start_y < canvas.height && canvas.spec_at(
            start_x as int,
            start_y as int,
        ) != spec_compose(ch, fg, bg) ==> {
            let target = canvas.spec_at(start_x as int, start_y as int);
            let seed = (start_x as int, start_y as int);
            &&& forall|k: int|
                0 <= k < r@.len() ==> {
                    let m = #[trigger] r@[k];
                    &&& m.x < canvas.width
                    &&& m.y < canvas.height
                    &&& m.old == target
                    &&& m.new == spec_compose(ch, fg, bg)
                    &&& canvas.spec_at(m.x as int, m.y as int) == target
                    &&& spec_fill_reachable(*canvas, target, seed, (m.x as int, m.y as int))
                }
            &&& forall|x: int, y: int|
                0 <= x < canvas.width && 0 <= y < canvas.height && spec_fill_reachable(
                    *canvas,
                    target,
                    seed,
                    (x, y),
                ) ==> #[trigger] spec_touches(r@, x, y)
            &&& spec_distinct_positions(r@)
        },
{
    let new = Cell { ch, fg, bg };
    let target = match canvas.get(start_x, start_y) {
        Some(cell) => cell,
        None => {
            return Vec::new();
        },
    };
    if target == new {
        return Vec::new();
    }
    let w = canvas.width;
    let h = canvas.height;
    let ghost gw = w as int;
    let ghost gh = h as int;
    let ghost seed = (start_x as int, start_y as int);
    proof {
        assert(w * h <= 128 * 128) by (nonlinear_arith)
            requires
                w <= 128,
                h <= 128,
        ;
    }
    let area = w * h;
    let mut visited: Vec<bool> = Vec::new();
    let mut z: usize = 0;
    while z < area
        invariant
            z <= area,
            visited@.len() == z,
            forall|i: int| 0 <= i < z ==> !(#[trigger] visited@[i]),
        decreases area - z,
    {
        visited.push(false);
        z += 1;
    }
    let mut count: usize = 0;
    let mut r: Vec<CellMutation> = Vec::new();
    let mut stack: Vec<(usize, usize)> = Vec::new();
    stack.push((start_x, start_y));
    proof {
        assert(spec_count_true(visited@) == 0) by {
            lemma_count_zero_when_all_false(visited@);
        }
        assert forall|px: int, py: int| 0 <= px < gw && 0 <= py < gh implies !spec_vis(
            visited@,
            gw,
            px,
            py,
        ) by {
            lemma_pos_index_bound(gw, gh, px, py);
        }
        assert(stack@[0] == (start_x, start_y));
        assert(spec_stack_has(stack@, seed.0, seed.1));
        lemma_fill_reachable_self(*canvas, target, seed);
    }
    while stack.len() > 0
        invariant
            canvas.wf(),
            gw == canvas.width as int,
            gh == canvas.height as int,
            w == canvas.width,
            h == canvas.height,
            area == w * h,
            seed == (start_x as int, start_y as int),
            0 <= seed.0 < gw,
            0 <= seed.1 < gh,
            target == canvas.spec_at(seed.0, seed.1),
            target != new,
            new == spec_compose(ch, fg, bg),
            visited@.len() == area,
            count as int == spec_count_true(visited@),
            forall|x: int, y: int|
                0 <= x < gw && 0 <= y < gh && #[trigger] spec_vis(visited@, gw, x, y)
                    ==> canvas.spec_at(x, y) == target && spec_fill_reachable(
                    *canvas,
                    target,
                    seed,
                    (x, y),
                ),
            forall|k: int|
                0 <= k < stack@.len() ==> {
                    let q = #[trigger] stack@[k];
                    &&& q.0 < w
                    &&& q.1 < h
                    &&& (canvas.spec_at(q.0 as int, q.1 as int) == target ==> spec_fill_reachable(
                        *canvas,
                        target,
                        seed,
                        (q.0 as int, q.1 as int),
                    ))
                },
            forall|x: int, y: int, qx: int, qy: int|
                0 <= x < gw && 0 <= y < gh && #[trigger] spec_vis(visited@, gw, x, y)
                    && spec_adjacent((x, y), (qx, qy)) && 0 <= qx < gw && 0 <= qy < gh
                    && canvas.spec_at(qx, qy) == target ==> #[trigger] spec_vis(
                    visited@,
                    gw,
                    qx,
                    qy,
                ) || spec_stack_has(stack@, qx, qy),
            spec_vis(visited@, gw, seed.0, seed.1) || spec_stack_has(stack@, seed.0, seed.1),
            forall|k: int|
                0 <= k < r@.len() ==> {
                    let m = #[trigger] r@[k];
                    &&& m.x < w
                    &&& m.y < h
                    &&& m.old == target
                    &&& m.new == new
                    &&& spec_vis(visited@, gw, m.x as int, m.y as int)
                },
            forall|x: int, y: int|
                0 <= x < gw && 0 <= y < gh && #[trigger] spec_vis(visited@, gw, x, y)
                    ==> spec_touches(r@, x, y),
            spec_distinct_positions(r@),
        decreases area - count, stack@.len(),
    {
        let ghost stack_pre = stack@;
        let (x, y) = stack.pop().unwrap();
        proof {
            assert((x, y) == stack_pre.last());
            lemma_pos_index_bound(gw, gh, x as int, y as int);
        }
        let idx = y * w + x;
        if !visited[idx] {
            let cell = match canvas.get(x, y) {
                Some(c) => c,
                None => {
                    proof {
                        assert(false);
                    }
                    return r;
                },
            };
            if cell == target {
                let ghost vis_before = visited@;
                visited.set(idx, true);
                proof {
                    lemma_count_true_update(vis_before, idx as int);
                    lemma_count_true_le_len(visited@);
                }
                count += 1;
                proof {
                    assert forall|px: int, py: int|
                        0 <= px < gw && 0 <= py < gh && !(px == x as int && py == y as int)
                        implies #[trigger] spec_vis(visited@, gw, px, py) == spec_vis(
                        vis_before,
                        gw,
                        px,
                        py,
                    ) by {
                        lemma_pos_index_bound(gw, gh, px, py);
                        if py * gw + px == y as int * gw + x as int {
                            lemma_pos_index_injective(gw, px, py, x as int, y as int);
                        }
                    }
                    assert(spec_vis(visited@, gw, x as int, y as int));
                }
                let ghost r_before = r@;
                let m = CellMutation { x, y, old: target, new };
                r.push(m);
                proof {
                    mark_mutation_proof(r_before, r@, m, vis_before, visited@, gw, gh);
                }
                let ghost stack_mid = stack@;
                if x > 0 {
                    stack.push((x - 1, y));
                }
                if x + 1 < w {
                    stack.push((x + 1, y));
                }
                if y > 0 {
                    stack.push((x, y - 1));
                }
                if y + 1 < h {
                    stack.push((x, y + 1));
                }
                proof {
                    let n0 = stack_mid.len() as int;
                    let i1 = n0 + if x as int > 0 { 1int } else { 0int };
                    let i2 = i1 + if x as int + 1 < gw { 1int } else { 0int };
                    if x as int > 0 {
                        assert(stack@[n0] == ((x - 1) as usize, y));
                    }
                    if x as int + 1 < gw {
                        assert(stack@[i1] == ((x + 1) as usize, y));
                    }
                    if y as int > 0 {
                        assert(stack@[i2] == (x, (y - 1) as usize));
                    }
                    if y as int + 1 < gh {
                        assert(stack@[stack@.len() - 1] == (x, (y + 1) as usize));
                    }
                    assert forall|qx: int, qy: int|
                        0 <= qx < gw && 0 <= qy < gh && #[trigger] spec_adjacent(
                            (x as int, y as int),
                            (qx, qy),
                        ) implies spec_stack_has(stack@, qx, qy) by {
                        if qx == x as int - 1 && qy == y as int {
                            assert(stack@[n0].0 == qx && stack@[n0].1 == qy);
                        } else if qx == x as int + 1 && qy == y as int {
                            assert(stack@[i1].0 == qx && stack@[i1].1 == qy);
                        } else if qx == x as int && qy == y as int - 1 {
                            assert(stack@[i2].0 == qx && stack@[i2].1 == qy);
                        } else {
                            assert(qx == x as int && qy == y as int + 1);
                            assert(stack@[stack@.len() - 1].0 == qx && stack@[stack@.len() - 1].1
                                == qy);
                        }
                    }
                    if (x, y) == (start_x, start_y) {
                        lemma_fill_reachable_self(*canvas, target, seed);
                    }
                    mark_pop_proof(
                        *canvas,
                        target,
                        seed,
                        vis_before,
                        visited@,
                        stack_pre,
                        stack@,
                        gw,
                        gh,
                        x as int,
                        y as int,
                    );
                }
            } else {
                proof {
                    skip_pop_proof(
                        *canvas,
                        target,
                        visited@,
                        stack_pre,
                        stack@,
                        seed,
                        gw,
                        gh,
                        x as int,
                        y as int,
                        false,
                    );
                }
            }
        } else {
            proof {
                skip_pop_proof(
                    *canvas,
                    target,
                    visited@,
                    stack_pre,
                    stack@,
                    seed,
                    gw,
                    gh,
                    x as int,
                    y as int,
                    true,
                );
            }
        }
    }
    proof {
        assert forall|px: int, py: int|
            0 <= px < gw && 0 <= py < gh && spec_fill_reachable(*canvas, target, seed, (px, py))
            implies #[trigger] spec_touches(r@, px, py) by {
            let path = choose|path: Seq<(int, int)>|
                spec_fill_path(*canvas, target, path) && path.first() == seed && path.last() == (
                px,
                py,
            );
            assert(spec_vis(visited@, gw, seed.0, seed.1));
            lemma_closed_under_paths(*canvas, target, visited@, path);
            assert(spec_vis(visited@, gw, px, py));
        }
    }
    r
}

proof fn lemma_count_zero_when_all_false(s: Seq<bool>)
    requires
        forall|i: int| 0 <= i < s.len() ==> !(#[trigger] s[i]),
    ensures
        spec_count_true(s) == 0,
    decreases s.len(),
{
    if s.len() > 0 {
        lemma_count_zero_when_all_false(s.drop_last());
    }
}

/// The reconciliation the orchestrator must run before applying mutations:
/// re-derive `old` from the live grid at each mutation's position, recompute
/// `new` by composing the requested stamp against that value, and drop the
/// mutation when nothing would change. Mutations produced by symmetry
/// expansion carry `old` copied from their origin point, so this re-read is
/// what keeps undo exact at mirrored positions.
pub open spec fn spec_reconcile(canvas: Canvas, muts: Seq<CellMutation>) -> Seq<CellMutation>
    decreases muts.len(),
{
    if muts.len() == 0 {
        Seq::empty()
    } else {
        let m = muts.last();
        let prefix = spec_reconcile(canvas, muts.drop_last());
        if 0 <= m.x < canvas.width && 0 <= m.y < canvas.height {
            let actual_old = canvas.spec_at(m.x as int, m.y as int);
            let new = spec_compose(m.new.ch, m.new.fg, m.new.bg);
            if actual_old != new {
                prefix.push(CellMutation { x: m.x, y: m.y, old: actual_old, new })
            } else {
                prefix
            }
        } else {
            prefix
        }
    }
}

/// Re-derive every mutation's `old` and `new` against the grid's actual
/// values, dropping out-of-bounds positions and no-ops.
pub fn reconcile_mutations(canvas: &Canvas, muts: &Vec<CellMutation>) -> (r: Vec<CellMutation>)
    requires
        canvas.wf(),
    ensures
        r@ == spec_reconcile(*canvas, muts@),
{
    let mut r: Vec<CellMutation> = Vec::new();
    let mut i: usize = 0;
    while i < muts.len()
        invariant
            canvas.wf(),
            i <= muts@.len(),
            r@ == spec_reconcile(*canvas, muts@.take(i as int)),
        decreases muts@.len() - i,
    {
        let m = muts[i];
        proof {
            assert(muts@.take(i as int + 1).drop_last() =~= muts@.take(i as int));
            assert(muts@.take(i as int + 1).last() == muts@[i as int]);
        }
        match canvas.get(m.x, m.y) {
            Some(actual_old) => {
                let new = compose_cell(actual_old, m.new.ch, m.new.fg, m.new.bg);
                if actual_old != new {
                    r.push(CellMutation { x: m.x, y: m.y, old: actual_old, new });
                }
            },
            None => {},
        }
        i += 1;
    }
    proof {
        assert(muts@.take(muts@.len() as int) =~= muts@);
    }
    r
}

} // verus!
