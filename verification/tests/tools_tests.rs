use kaku::blocks;
use kaku::canvas::Canvas;
use kaku::cell::{color256_to_rgb, Cell, Rgb};
use kaku::tools::{
    bresenham_line, compose_cell, eraser, eyedropper, flood_fill, pencil, rectangle,
    reconcile_mutations,
};
use kaku::symmetry::{apply_symmetry, SymmetryMode};

fn red() -> Option<Rgb> {
    Some(color256_to_rgb(1))
}

fn blue() -> Option<Rgb> {
    Some(color256_to_rgb(4))
}

#[test]
fn test_bresenham_horizontal() {
    let points = bresenham_line(0, 0, 5, 0);
    assert_eq!(points.len(), 6);
    for (i, &(x, y)) in points.iter().enumerate() {
        assert_eq!(x, i);
        assert_eq!(y, 0);
    }
}

#[test]
fn test_bresenham_vertical() {
    let points = bresenham_line(0, 0, 0, 5);
    assert_eq!(points.len(), 6);
    for (i, &(x, y)) in points.iter().enumerate() {
        assert_eq!(x, 0);
        assert_eq!(y, i);
    }
}

#[test]
fn test_bresenham_diagonal() {
    let points = bresenham_line(0, 0, 5, 5);
    assert_eq!(points.len(), 6);
    for (i, &(x, y)) in points.iter().enumerate() {
        assert_eq!(x, i);
        assert_eq!(y, i);
    }
}

#[test]
fn test_bresenham_single_point() {
    let points = bresenham_line(3, 3, 3, 3);
    assert_eq!(points.len(), 1);
    assert_eq!(points[0], (3, 3));
}

#[test]
fn test_bresenham_steep() {
    let points = bresenham_line(0, 0, 2, 6);
    assert_eq!(points.first(), Some(&(0, 0)));
    assert_eq!(points.last(), Some(&(2, 6)));
    assert_eq!(points.len(), 7);
    for w in points.windows(2) {
        assert!(w[1].1 >= w[0].1);
    }
}

#[test]
fn test_bresenham_shallow() {
    let points = bresenham_line(0, 0, 6, 2);
    assert_eq!(points.first(), Some(&(0, 0)));
    assert_eq!(points.last(), Some(&(6, 2)));
    assert_eq!(points.len(), 7);
    for w in points.windows(2) {
        assert!(w[1].0 >= w[0].0);
    }
}

#[test]
fn test_bresenham_reverse() {
    let fwd = bresenham_line(0, 0, 5, 3);
    let rev = bresenham_line(5, 3, 0, 0);
    assert_eq!(fwd.len(), rev.len());
    for p in &fwd {
        assert!(rev.contains(p));
    }
}

#[test]
fn bresenham_reverse_is_reversed_sequence() {
    // Reversing the endpoints reverses the point sequence exactly, for
    // every direction.
    for &(x1, y1) in &[(7, 2), (2, 7), (0, 9), (9, 0), (4, 4), (2, 1), (1, 2), (6, 3)] {
        let fwd = bresenham_line(1, 8, x1, y1);
        let mut rev = bresenham_line(x1, y1, 1, 8);
        rev.reverse();
        assert_eq!(fwd, rev, "endpoints (1,8) and ({},{})", x1, y1);
    }
}

#[test]
fn test_rectangle_single_cell() {
    let canvas = Canvas::new();
    let mutations = rectangle(&canvas, 5, 5, 5, 5, blocks::FULL, red(), None, false);
    assert_eq!(mutations.len(), 1);
    assert_eq!(mutations[0].x, 5);
    assert_eq!(mutations[0].y, 5);
}

#[test]
fn test_rectangle_wide() {
    let canvas = Canvas::new();
    let mutations = rectangle(&canvas, 0, 0, 9, 0, blocks::FULL, red(), None, false);
    assert_eq!(mutations.len(), 10);
}

#[test]
fn test_rectangle_tall() {
    let canvas = Canvas::new();
    let mutations = rectangle(&canvas, 0, 0, 0, 7, blocks::FULL, red(), None, false);
    assert_eq!(mutations.len(), 8);
}

#[test]
fn test_flood_fill_boundary() {
    let mut canvas = Canvas::new();
    let wall = Cell { ch: blocks::FULL, fg: red(), bg: None };
    for x in 0..3 {
        canvas.set(x, 0, wall);
        canvas.set(x, 2, wall);
    }
    canvas.set(0, 1, wall);
    canvas.set(2, 1, wall);
    let mutations = flood_fill(&canvas, 1, 1, blocks::FULL, blue(), None);
    assert_eq!(mutations.len(), 1);
    assert_eq!(mutations[0].x, 1);
    assert_eq!(mutations[0].y, 1);
}

#[test]
fn test_flood_fill_noop() {
    let canvas = Canvas::new();
    let mutations = flood_fill(&canvas, 0, 0, ' ', Some(Rgb::white()), None);
    assert_eq!(mutations.len(), 0);
}

#[test]
fn test_flood_fill_entire_canvas() {
    let canvas = Canvas::new();
    let mutations = flood_fill(&canvas, 0, 0, blocks::FULL, red(), None);
    assert_eq!(mutations.len(), 32 * 32);
}

#[test]
fn flood_fill_refill_with_same_cell_is_noop() {
    // Filling glyph A over the default 32x32 grid mutates every cell once;
    // re-filling with the same glyph and colors mutates nothing.
    let mut canvas = Canvas::new();
    let first = flood_fill(&canvas, 0, 0, 'A', red(), None);
    assert_eq!(first.len(), 1024);
    for m in &first {
        canvas.set(m.x, m.y, m.new);
    }
    let second = flood_fill(&canvas, 0, 0, 'A', red(), None);
    assert_eq!(second.len(), 0);
}

#[test]
fn flood_fill_out_of_bounds_seed_is_empty() {
    let canvas = Canvas::new();
    assert_eq!(flood_fill(&canvas, 32, 0, blocks::FULL, red(), None).len(), 0);
    assert_eq!(flood_fill(&canvas, 0, 99, blocks::FULL, red(), None).len(), 0);
}

#[test]
fn test_rectangle_outline() {
    let canvas = Canvas::new();
    let mutations = rectangle(&canvas, 0, 0, 3, 3, blocks::FULL, red(), None, false);
    assert_eq!(mutations.len(), 12);
}

#[test]
fn test_rectangle_filled() {
    let canvas = Canvas::new();
    let mutations = rectangle(&canvas, 0, 0, 3, 3, blocks::FULL, red(), None, true);
    assert_eq!(mutations.len(), 16);
}

#[test]
fn pencil_emits_one_mutation_then_none() {
    let mut canvas = Canvas::new();
    let muts = pencil(&canvas, 4, 6, blocks::FULL, red(), None);
    assert_eq!(muts.len(), 1);
    assert_eq!((muts[0].x, muts[0].y), (4, 6));
    assert_eq!(muts[0].old, Cell::default());
    canvas.set(4, 6, muts[0].new);
    // Stamping the identical cell again is a no-op.
    assert_eq!(pencil(&canvas, 4, 6, blocks::FULL, red(), None).len(), 0);
    // Out of bounds emits nothing.
    assert_eq!(pencil(&canvas, 32, 0, blocks::FULL, red(), None).len(), 0);
}

#[test]
fn eraser_resets_to_default() {
    let mut canvas = Canvas::new();
    canvas.set(2, 2, Cell { ch: blocks::FULL, fg: red(), bg: None });
    let muts = eraser(&canvas, 2, 2);
    assert_eq!(muts.len(), 1);
    assert_eq!(muts[0].new, Cell::default());
    // Erasing an already-default cell is a no-op.
    assert_eq!(eraser(&canvas, 0, 0).len(), 0);
}

#[test]
fn eyedropper_reads_without_mutating() {
    let mut canvas = Canvas::new();
    canvas.set(3, 4, Cell { ch: blocks::SHADE_DARK, fg: red(), bg: blue() });
    assert_eq!(eyedropper(&canvas, 3, 4), Some((red(), blue(), blocks::SHADE_DARK)));
    assert_eq!(eyedropper(&canvas, 40, 4), None);
}

// --- compose_cell tests ---

fn empty_cell() -> Cell {
    Cell::default()
}

#[test]
fn compose_full_block_replaces_entirely() {
    let existing = Cell { ch: blocks::UPPER_HALF, fg: red(), bg: blue() };
    let result = compose_cell(existing, blocks::FULL, Some(color256_to_rgb(2)), None);
    assert_eq!(result, Cell { ch: blocks::FULL, fg: Some(color256_to_rgb(2)), bg: None });
}

#[test]
fn compose_empty_block_replaces_entirely() {
    let existing = Cell { ch: blocks::FULL, fg: red(), bg: None };
    let result = compose_cell(existing, ' ', Some(Rgb::white()), None);
    assert_eq!(result, Cell { ch: ' ', fg: Some(Rgb::white()), bg: None });
}

#[test]
fn compose_upper_half_on_empty() {
    let result = compose_cell(empty_cell(), blocks::UPPER_HALF, red(), None);
    assert_eq!(result.ch, blocks::UPPER_HALF);
    assert_eq!(result.fg, red());
    assert_eq!(result.bg, None);
}

#[test]
fn compose_lower_half_on_empty() {
    let result = compose_cell(empty_cell(), blocks::LOWER_HALF, red(), None);
    assert_eq!(result.ch, blocks::LOWER_HALF);
    assert_eq!(result.fg, red());
    assert_eq!(result.bg, None);
}

#[test]
fn compose_upper_red_then_lower_blue() {
    // Existing: UpperHalf red -- ignored, replace with LowerHalf blue
    let existing = Cell { ch: blocks::UPPER_HALF, fg: red(), bg: None };
    let result = compose_cell(existing, blocks::LOWER_HALF, blue(), None);
    assert_eq!(result.ch, blocks::LOWER_HALF);
    assert_eq!(result.fg, blue());
    assert_eq!(result.bg, None);
}

#[test]
fn compose_lower_blue_then_upper_red() {
    // Existing: LowerHalf blue -- ignored, replace with UpperHalf red
    let existing = Cell { ch: blocks::LOWER_HALF, fg: blue(), bg: None };
    let result = compose_cell(existing, blocks::UPPER_HALF, red(), None);
    assert_eq!(result.ch, blocks::UPPER_HALF);
    assert_eq!(result.fg, red());
    assert_eq!(result.bg, None);
}

#[test]
fn compose_lower_half_replaces_regardless_of_existing() {
    let existing = Cell { ch: blocks::UPPER_HALF, fg: red(), bg: None };
    let result = compose_cell(existing, blocks::LOWER_HALF, red(), None);
    // Replace: LowerHalf -- no collapse to Full
    assert_eq!(result.ch, blocks::LOWER_HALF);
    assert_eq!(result.fg, red());
    assert_eq!(result.bg, None);
}

#[test]
fn compose_left_half_on_empty() {
    let result = compose_cell(empty_cell(), blocks::LEFT_HALF, red(), None);
    assert_eq!(result.ch, blocks::LEFT_HALF);
    assert_eq!(result.fg, red());
    assert_eq!(result.bg, None);
}

#[test]
fn compose_right_half_on_empty() {
    let result = compose_cell(empty_cell(), blocks::RIGHT_HALF, red(), None);
    assert_eq!(result.ch, blocks::RIGHT_HALF);
    assert_eq!(result.fg, red());
    assert_eq!(result.bg, None);
}

#[test]
fn compose_left_then_right_horizontal() {
    // Existing: LeftHalf red -- ignored, replace with RightHalf blue
    let existing = Cell { ch: blocks::LEFT_HALF, fg: red(), bg: None };
    let result = compose_cell(existing, blocks::RIGHT_HALF, blue(), None);
    assert_eq!(result.ch, blocks::RIGHT_HALF);
    assert_eq!(result.fg, blue());
    assert_eq!(result.bg, None);
}

#[test]
fn compose_right_half_replaces_regardless_of_existing() {
    let existing = Cell { ch: blocks::LEFT_HALF, fg: red(), bg: None };
    let result = compose_cell(existing, blocks::RIGHT_HALF, red(), None);
    // Replace: RightHalf -- no collapse to Full
    assert_eq!(result.ch, blocks::RIGHT_HALF);
    assert_eq!(result.fg, red());
    assert_eq!(result.bg, None);
}

#[test]
fn compose_cross_axis_replaces_entirely() {
    // Existing: LeftHalf -- ignored, replace with UpperHalf blue
    let existing = Cell { ch: blocks::LEFT_HALF, fg: red(), bg: None };
    let result = compose_cell(existing, blocks::UPPER_HALF, blue(), None);
    assert_eq!(result.ch, blocks::UPPER_HALF);
    assert_eq!(result.fg, blue());
    assert_eq!(result.bg, None);
}

#[test]
fn compose_half_on_full_replaces_entirely() {
    let existing = Cell { ch: blocks::FULL, fg: red(), bg: None };
    let result = compose_cell(existing, blocks::UPPER_HALF, blue(), None);
    // Replace: UpperHalf -- no color bleed from existing
    assert_eq!(result.ch, blocks::UPPER_HALF);
    assert_eq!(result.fg, blue());
    assert_eq!(result.bg, None);
}

#[test]
fn compose_idempotent_same_half_same_color() {
    let existing = Cell { ch: blocks::UPPER_HALF, fg: red(), bg: None };
    let result = compose_cell(existing, blocks::UPPER_HALF, red(), None);
    assert_eq!(result, existing);
}

#[test]
fn compose_resolve_roundtrip() {
    // Composing an upper half with only a foreground and resolving yields
    // the same glyph and colors back; with both colors absent, resolution
    // collapses to the empty cell.
    let stamped = compose_cell(empty_cell(), blocks::UPPER_HALF, Some(Rgb::new(255, 0, 0)), None);
    let resolved = kaku::cell::resolve_half_block(&stamped).unwrap();
    assert_eq!(resolved.ch, blocks::UPPER_HALF);
    assert_eq!(resolved.fg, Some(Rgb::new(255, 0, 0)));
    assert_eq!(resolved.bg, None);

    let blank = compose_cell(empty_cell(), blocks::UPPER_HALF, None, None);
    let resolved = kaku::cell::resolve_half_block(&blank).unwrap();
    assert_eq!((resolved.ch, resolved.fg, resolved.bg), (' ', None, None));
}

#[test]
fn reconcile_rederives_old_from_live_grid() {
    // A mirrored mutation carries a stale `old` from its origin point; the
    // reconciliation re-reads the live grid, recomputes `new`, and drops
    // exact no-ops.
    let mut canvas = Canvas::new();
    let occupied = Cell { ch: blocks::SHADE_LIGHT, fg: blue(), bg: None };
    canvas.set(26, 10, occupied);
    let muts = pencil(&canvas, 5, 10, blocks::FULL, red(), None);
    let expanded = apply_symmetry(muts, SymmetryMode::Horizontal, canvas.width, canvas.height);
    assert_eq!(expanded.len(), 2);
    // The mirror copy still carries the origin's old value.
    assert_eq!(expanded[1].old, Cell::default());
    let fixed = reconcile_mutations(&canvas, &expanded);
    assert_eq!(fixed.len(), 2);
    assert_eq!(fixed[1].old, occupied);
    // A mirror landing on an identical cell is dropped.
    canvas.set(26, 10, Cell { ch: blocks::FULL, fg: red(), bg: None });
    let muts = pencil(&canvas, 5, 10, blocks::FULL, red(), None);
    let expanded = apply_symmetry(muts, SymmetryMode::Horizontal, canvas.width, canvas.height);
    let fixed = reconcile_mutations(&canvas, &expanded);
    assert_eq!(fixed.len(), 1);
    assert_eq!((fixed[0].x, fixed[0].y), (5, 10));
}
