use kaku::input::CanvasArea;

fn area() -> CanvasArea {
    CanvasArea { left: 10, top: 5, width: 64, height: 32, viewport_w: 64, viewport_h: 32 }
}

#[test]
fn test_screen_to_canvas_zoom_1() {
    let a = area();
    assert_eq!(a.screen_to_canvas(10, 5, 1, 0, 0), Some((0, 0)));
    assert_eq!(a.screen_to_canvas(14, 8, 1, 0, 0), Some((4, 3)));
}

#[test]
fn test_screen_to_canvas_zoom_2() {
    let a = area();
    assert_eq!(a.screen_to_canvas(10, 5, 2, 0, 0), Some((0, 0)));
    assert_eq!(a.screen_to_canvas(14, 8, 2, 0, 0), Some((2, 3)));
}

#[test]
fn test_screen_to_canvas_zoom_4() {
    let a = area();
    assert_eq!(a.screen_to_canvas(10, 5, 4, 0, 0), Some((0, 0)));
    assert_eq!(a.screen_to_canvas(14, 9, 4, 0, 0), Some((1, 2)));
}

#[test]
fn test_screen_to_canvas_outside() {
    let a = area();
    assert_eq!(a.screen_to_canvas(5, 5, 1, 0, 0), None);
    assert_eq!(a.screen_to_canvas(10, 3, 1, 0, 0), None);
    assert_eq!(a.screen_to_canvas(80, 5, 1, 0, 0), None);
}

#[test]
fn test_screen_to_canvas_with_viewport_offset() {
    let a = area();
    // With viewport at (10, 5), the first screen cell maps to canvas (10, 5)
    assert_eq!(a.screen_to_canvas(10, 5, 1, 10, 5), Some((10, 5)));
    assert_eq!(a.screen_to_canvas(14, 8, 1, 10, 5), Some((14, 8)));
}
