use kaku::blocks;
use kaku::cell::{color256_to_rgb, Cell};
use kaku::history::CellMutation;
use kaku::symmetry::{apply_symmetry, SymmetryMode};

fn make_mutation(x: usize, y: usize) -> CellMutation {
    CellMutation {
        x,
        y,
        old: Cell::default(),
        new: Cell { ch: blocks::FULL, fg: Some(color256_to_rgb(1)), bg: None },
    }
}

#[test]
fn test_off_no_mirror() {
    let mutations = vec![make_mutation(5, 10)];
    let result = apply_symmetry(mutations, SymmetryMode::Off, 32, 32);
    assert_eq!(result.len(), 1);
}

#[test]
fn test_horizontal_mirror() {
    let mutations = vec![make_mutation(5, 10)];
    let result = apply_symmetry(mutations, SymmetryMode::Horizontal, 32, 32);
    assert_eq!(result.len(), 2);
    assert_eq!(result[0].x, 5);
    assert_eq!(result[1].x, 26); // 31 - 5
}

#[test]
fn test_vertical_mirror() {
    let mutations = vec![make_mutation(5, 10)];
    let result = apply_symmetry(mutations, SymmetryMode::Vertical, 32, 32);
    assert_eq!(result.len(), 2);
    assert_eq!(result[0].y, 10);
    assert_eq!(result[1].y, 21); // 31 - 10
}

#[test]
fn test_quad_mirror() {
    let mutations = vec![make_mutation(5, 10)];
    let result = apply_symmetry(mutations, SymmetryMode::Quad, 32, 32);
    assert_eq!(result.len(), 4);
    assert_eq!((result[0].x, result[0].y), (5, 10));
    assert_eq!((result[1].x, result[1].y), (26, 10));
    assert_eq!((result[2].x, result[2].y), (5, 21));
    assert_eq!((result[3].x, result[3].y), (26, 21));
}

#[test]
fn test_center_axis_no_duplicate() {
    // Point on the horizontal center axis (x=15, x mirrored = 16, not same)
    // Point exactly on center for odd: with 32 width, there's no exact center cell
    let mutations = vec![make_mutation(15, 10)];
    let result = apply_symmetry(mutations, SymmetryMode::Horizontal, 32, 32);
    assert_eq!(result.len(), 2);
    assert_eq!(result[1].x, 16); // 31 - 15
}

#[test]
fn axis_point_produces_no_duplicate() {
    // On an odd-sized grid a point exactly on the mirror axis expands to
    // itself alone.
    let mutations = vec![make_mutation(4, 4)];
    let result = apply_symmetry(mutations, SymmetryMode::Quad, 9, 9);
    assert_eq!(result.len(), 1);
    assert_eq!((result[0].x, result[0].y), (4, 4));
    // Off-axis in x only: the vertical mirror and diagonal still skip.
    let mutations = vec![make_mutation(1, 4)];
    let result = apply_symmetry(mutations, SymmetryMode::Quad, 9, 9);
    assert_eq!(result.len(), 2);
    assert_eq!((result[1].x, result[1].y), (7, 4));
}

#[test]
fn toggles_cycle_the_four_modes() {
    assert_eq!(SymmetryMode::Off.toggle_horizontal(), SymmetryMode::Horizontal);
    assert_eq!(SymmetryMode::Horizontal.toggle_horizontal(), SymmetryMode::Off);
    assert_eq!(SymmetryMode::Vertical.toggle_horizontal(), SymmetryMode::Quad);
    assert_eq!(SymmetryMode::Quad.toggle_horizontal(), SymmetryMode::Vertical);
    assert_eq!(SymmetryMode::Off.toggle_vertical(), SymmetryMode::Vertical);
    assert_eq!(SymmetryMode::Vertical.toggle_vertical(), SymmetryMode::Off);
    assert_eq!(SymmetryMode::Horizontal.toggle_vertical(), SymmetryMode::Quad);
    assert_eq!(SymmetryMode::Quad.toggle_vertical(), SymmetryMode::Horizontal);
    assert!(SymmetryMode::Quad.has_horizontal());
    assert!(SymmetryMode::Quad.has_vertical());
    assert!(!SymmetryMode::Vertical.has_horizontal());
    assert_eq!(SymmetryMode::Off.label(), "Off");
    assert_eq!(SymmetryMode::Quad.label(), "Quad");
}
