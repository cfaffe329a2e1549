use kaku::blocks;
use kaku::canvas::Canvas;
use kaku::cell::{Cell, Rgb};
use kaku::history::{CellMutation, History};

fn red_cell() -> Cell {
    Cell { ch: blocks::FULL, fg: Some(Rgb { r: 205, g: 0, b: 0 }), bg: None }
}

#[test]
fn test_undo_redo_single() {
    let mut canvas = Canvas::new();
    let mut history = History::new();

    let old = canvas.get(0, 0).unwrap();
    let new = red_cell();
    canvas.set(0, 0, new);
    history.push_mutation(CellMutation { x: 0, y: 0, old, new });

    assert_eq!(canvas.get(0, 0), Some(new));
    history.undo(&mut canvas);
    assert_eq!(canvas.get(0, 0), Some(old));
    history.redo(&mut canvas);
    assert_eq!(canvas.get(0, 0), Some(new));
}

#[test]
fn test_stroke_batching() {
    let mut canvas = Canvas::new();
    let mut history = History::new();

    history.begin_stroke();
    for x in 0..5 {
        let old = canvas.get(x, 0).unwrap();
        let new = red_cell();
        canvas.set(x, 0, new);
        history.push_mutation(CellMutation { x, y: 0, old, new });
    }
    history.end_stroke();

    // One undo should revert all 5 cells
    history.undo(&mut canvas);
    for x in 0..5 {
        assert_eq!(canvas.get(x, 0), Some(Cell::default()));
    }
}

#[test]
fn test_new_action_clears_redo() {
    let mut canvas = Canvas::new();
    let mut history = History::new();

    let old = canvas.get(0, 0).unwrap();
    let new = red_cell();
    canvas.set(0, 0, new);
    history.push_mutation(CellMutation { x: 0, y: 0, old, new });
    history.undo(&mut canvas);
    assert!(history.can_redo());

    // New action should clear redo
    let old2 = canvas.get(1, 1).unwrap();
    canvas.set(1, 1, new);
    history.push_mutation(CellMutation { x: 1, y: 1, old: old2, new });
    assert!(!history.can_redo());
}

#[test]
fn test_capacity_limit() {
    let mut canvas = Canvas::new();
    let mut history = History::new();

    for i in 0..300 {
        let x = i % 32;
        let old = canvas.get(x, 0).unwrap();
        let new = red_cell();
        canvas.set(x, 0, new);
        history.push_mutation(CellMutation { x, y: 0, old, new });
    }

    // Should have at most 256 actions
    let mut count = 0;
    while history.undo(&mut canvas) {
        count += 1;
    }
    assert!(count <= 256);
}

#[test]
fn test_undo_shade_placement() {
    let mut canvas = Canvas::new();
    let mut history = History::new();

    let old = canvas.get(4, 6).unwrap();
    let new = Cell { ch: blocks::SHADE_DARK, fg: Some(Rgb { r: 0, g: 205, b: 0 }), bg: None };
    canvas.set(4, 6, new);
    history.push_mutation(CellMutation { x: 4, y: 6, old, new });

    // Verify shade was placed
    assert_eq!(canvas.get(4, 6).unwrap().ch, blocks::SHADE_DARK);

    // Undo should revert to original empty cell
    assert!(history.undo(&mut canvas));
    let reverted = canvas.get(4, 6).unwrap();
    assert_eq!(reverted.ch, ' ');
    assert_eq!(reverted, Cell::default());

    // Redo should restore the shade
    assert!(history.redo(&mut canvas));
    assert_eq!(canvas.get(4, 6).unwrap().ch, blocks::SHADE_DARK);
}

#[test]
fn undo_redo_reproduces_exact_grid_state() {
    // Round trip through old -> new -> old -> new: undo then redo restores
    // the exact grid, cell for cell.
    let mut canvas = Canvas::new_with_size(8, 8);
    let mut history = History::new();
    history.begin_stroke();
    for (i, &(x, y)) in [(0usize, 0usize), (1, 0), (0, 1), (7, 7)].iter().enumerate() {
        let old = canvas.get(x, y).unwrap();
        let new = Cell {
            ch: blocks::FULL,
            fg: Some(Rgb::new(i as u8 * 40, 0, 200)),
            bg: None,
        };
        canvas.set(x, y, new);
        history.push_mutation(CellMutation { x, y, old, new });
    }
    history.end_stroke();
    let snapshot: Vec<Option<Cell>> =
        (0..64).map(|i| canvas.get(i % 8, i / 8)).collect();
    assert!(history.undo(&mut canvas));
    assert!(history.redo(&mut canvas));
    let after: Vec<Option<Cell>> = (0..64).map(|i| canvas.get(i % 8, i / 8)).collect();
    assert_eq!(snapshot, after);
}

#[test]
fn empty_stroke_commits_nothing() {
    let mut canvas = Canvas::new();
    let mut history = History::new();
    history.begin_stroke();
    history.end_stroke();
    assert!(!history.can_undo());
    assert!(!history.undo(&mut canvas));
    assert!(!history.redo(&mut canvas));
}

#[test]
fn stroke_state_is_tracked() {
    let mut history = History::new();
    assert!(!history.is_stroke_active());
    history.begin_stroke();
    assert!(history.is_stroke_active());
    history.end_stroke();
    assert!(!history.is_stroke_active());
}
