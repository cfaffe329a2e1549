use kaku::canvas::{Canvas, DEFAULT_HEIGHT, DEFAULT_WIDTH, MAX_DIMENSION, MIN_DIMENSION};
use kaku::cell::{color256_to_rgb, Cell, Rgb};

fn full_cell(fg_idx: u8, bg_idx: Option<u8>) -> Cell {
    Cell {
        ch: kaku::blocks::FULL,
        fg: Some(color256_to_rgb(fg_idx)),
        bg: bg_idx.map(color256_to_rgb),
    }
}

#[test]
fn test_new_canvas_is_empty() {
    let canvas = Canvas::new();
    assert_eq!(canvas.width, DEFAULT_WIDTH);
    assert_eq!(canvas.height, DEFAULT_HEIGHT);
    for y in 0..canvas.height {
        for x in 0..canvas.width {
            assert_eq!(canvas.get(x, y), Some(Cell::default()));
        }
    }
}

#[test]
fn test_new_with_size() {
    let canvas = Canvas::new_with_size(16, 64);
    assert_eq!(canvas.width, 16);
    assert_eq!(canvas.height, 64);
    assert_eq!(canvas.get(15, 63), Some(Cell::default()));
    assert_eq!(canvas.get(16, 0), None);
}

#[test]
fn test_clamp_dimensions() {
    let small = Canvas::new_with_size(2, 2);
    assert_eq!(small.width, MIN_DIMENSION);
    assert_eq!(small.height, MIN_DIMENSION);

    let big = Canvas::new_with_size(999, 999);
    assert_eq!(big.width, MAX_DIMENSION);
    assert_eq!(big.height, MAX_DIMENSION);
}

#[test]
fn test_get_set() {
    let mut canvas = Canvas::new();
    let cell = full_cell(1, Some(4));
    canvas.set(5, 10, cell);
    assert_eq!(canvas.get(5, 10), Some(cell));
}

#[test]
fn test_out_of_bounds_get() {
    let canvas = Canvas::new();
    assert_eq!(canvas.get(32, 0), None);
    assert_eq!(canvas.get(0, 32), None);
    assert_eq!(canvas.get(100, 100), None);
}

#[test]
fn test_out_of_bounds_set() {
    let mut canvas = Canvas::new();
    let cell = full_cell(1, None);
    canvas.set(32, 0, cell); // Should not panic
    canvas.set(0, 32, cell); // Should not panic
}

#[test]
fn test_clear() {
    let mut canvas = Canvas::new();
    let cell = full_cell(1, Some(4));
    canvas.set(0, 0, cell);
    canvas.set(31, 31, cell);
    canvas.clear();
    assert_eq!(canvas.get(0, 0), Some(Cell::default()));
    assert_eq!(canvas.get(31, 31), Some(Cell::default()));
}

#[test]
fn test_resize_grow() {
    let mut canvas = Canvas::new_with_size(16, 16);
    let cell = full_cell(1, None);
    canvas.set(5, 5, cell);
    canvas.resize(32, 32);
    assert_eq!(canvas.width, 32);
    assert_eq!(canvas.height, 32);
    assert_eq!(canvas.get(5, 5), Some(cell));
    assert_eq!(canvas.get(20, 20), Some(Cell::default()));
}

#[test]
fn test_resize_shrink() {
    let mut canvas = Canvas::new_with_size(32, 32);
    let cell = full_cell(1, None);
    canvas.set(5, 5, cell);
    canvas.set(20, 20, cell);
    canvas.resize(16, 16);
    assert_eq!(canvas.width, 16);
    assert_eq!(canvas.height, 16);
    assert_eq!(canvas.get(5, 5), Some(cell));
    assert_eq!(canvas.get(20, 20), None); // Now out of bounds
}

#[test]
fn out_of_bounds_set_alters_no_in_bounds_cell() {
    let mut canvas = Canvas::new_with_size(8, 8);
    let cell = Cell { ch: kaku::blocks::FULL, fg: Some(Rgb::new(1, 2, 3)), bg: None };
    canvas.set(3, 3, cell);
    canvas.set(8, 0, full_cell(2, None));
    canvas.set(0, 8, full_cell(2, None));
    canvas.set(usize::MAX, usize::MAX, full_cell(2, None));
    for y in 0..8 {
        for x in 0..8 {
            if (x, y) == (3, 3) {
                assert_eq!(canvas.get(x, y), Some(cell));
            } else {
                assert_eq!(canvas.get(x, y), Some(Cell::default()));
            }
        }
    }
}
