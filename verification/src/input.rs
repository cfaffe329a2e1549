//! Mapping terminal screen coordinates into canvas cell coordinates.

use vstd::prelude::*;

verus! {

/// The canvas area's position in terminal coordinates, set by the renderer
/// each frame, with the viewport's size in canvas cells.
#[derive(Clone, Copy, PartialEq, Eq, Structural, Debug)]
pub struct CanvasArea {
    pub left: u16,
    pub top: u16,
    pub width: u16,
    pub height: u16,
    pub viewport_w: usize,
    pub viewport_h: usize,
}

/// The canvas cell a screen position maps to: nothing outside the drawn
/// area; inside it, the horizontal offset shrinks by the zoom factor, the
/// vertical offset halves only at the doubled zoom level, and the viewport
/// origin shifts both.
pub open spec fn spec_screen_to_canvas(
    area: CanvasArea,
    screen_x: int,
    screen_y: int,
    zoom: int,
    viewport_x: int,
    viewport_y: int,
) -> Option<(int, int)> {
    if screen_x < area.left || screen_y < area.top {
        None
    } else {
        let rel_x = screen_x - area.left;
        let rel_y = screen_y - area.top;
        if rel_x >= area.width || rel_y >= area.height {
            None
        } else {
            let canvas_x = rel_x / zoom + viewport_x;
            let canvas_y = (if zoom == 4 {
                rel_y / 2
            } else {
                rel_y
            }) + viewport_y;
            Some((canvas_x, canvas_y))
        }
    }
}

impl CanvasArea {
    /// Convert screen coordinates to canvas cell coordinates. Returns
    /// nothing when the position lies outside the canvas area.
    pub fn screen_to_canvas(
        &self,
        screen_x: u16,
        screen_y: u16,
        zoom: u8,
        viewport_x: usize,
        viewport_y: usize,
    ) -> (r: Option<(usize, usize)>)
        requires
            zoom >= 1,
            viewport_x <= usize::MAX - 65535,
            viewport_y <= usize::MAX - 65535,
        ensures
            r is Some <==> spec_screen_to_canvas(
                *self,
                screen_x as int,
                screen_y as int,
                zoom as int,
                viewport_x as int,
                viewport_y as int,
            ) is Some,
            r matches Some(p) ==> Some((p.0 as int, p.1 as int)) == spec_screen_to_canvas(
                *self,
                screen_x as int,
                screen_y as int,
                zoom as int,
                viewport_x as int,
                viewport_y as int,
            ),
    {
        if screen_x < self.left || screen_y < self.top {
            return None;
        }
        let rel_x = screen_x - self.left;
        let rel_y = screen_y - self.top;
        if rel_x >= self.width || rel_y >= self.height {
            return None;
        }
        let canvas_x = (rel_x / zoom as u16) as usize + viewport_x;
        let canvas_y = (if zoom == 4 {
            (rel_y / 2) as usize
        } else {
            rel_y as usize
        }) + viewport_y;
        Some((canvas_x, canvas_y))
    }
}

} // verus!
