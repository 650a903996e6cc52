//! Pictures and texts for every screen, as plain values.
//!
//! The field is drawn on a grid of pixels, each cell of the board as a picture of
//! eight by eight of them. Two pixels, one above the other, make up one cell of
//! the terminal. What overlaps is drawn from back to front: ground, tile, bomb,
//! enemy, player, blast.

use vstd::prelude::*;

use crate::types::Action;

pub mod field;
pub mod intro;
pub mod menu;
pub mod pixel_canvas;
pub mod screens;
pub mod sprites;
pub mod text;

verus! {

/// How large a pixel is drawn at first.
pub const DEFAULT_ZOOM: usize = 1;

/// The smallest size of a pixel.
pub const MIN_ZOOM: usize = 1;

/// The largest size of a pixel.
pub const MAX_ZOOM: usize = 3;

/// A colour of the terminal.
#[derive(Debug, Clone, Copy, PartialEq, Eq, Structural)]
pub enum Color {
    /// Whatever the terminal has by itself.
    Reset,
    Black,
    Red,
    Yellow,
    White,
    Gray,
    DarkGray,
    LightRed,
    LightGreen,
    LightYellow,
    LightCyan,
    /// Red, green and blue.
    Rgb(u8, u8, u8),
}

/// A part of the terminal: its top left cell and its size, in cells.
#[derive(Debug, Clone, Copy, PartialEq, Eq, Structural)]
pub struct Rect {
    pub x: u16,
    pub y: u16,
    pub width: u16,
    pub height: u16,
}

impl Rect {
    /// The part ends within the range of coordinates.
    pub open spec fn wf(self) -> bool {
        self.x + self.width <= u16::MAX && self.y + self.height <= u16::MAX
    }

    /// Whether all of the other part lies in this one.
    pub open spec fn covers(self, other: Rect) -> bool {
        &&& self.x <= other.x
        &&& self.y <= other.y
        &&& other.x + other.width <= self.x + self.width
        &&& other.y + other.height <= self.y + self.height
    }
}

/// The lesser of two numbers.
pub open spec fn lesser(a: int, b: int) -> int {
    if a < b {
        a
    } else {
        b
    }
}

/// A part of the given size in the middle of `area`, cut down to fit.
pub open spec fn centered(width: u16, height: u16, area: Rect) -> Rect {
    let w = lesser(width as int, area.width as int);
    let h = lesser(height as int, area.height as int);
    Rect {
        x: (area.x + (area.width - w) / 2) as u16,
        y: (area.y + (area.height - h) / 2) as u16,
        width: w as u16,
        height: h as u16,
    }
}

/// A part of the given size in the middle of `area`, cut down to fit.
pub fn centered_rect(width: u16, height: u16, area: Rect) -> (part: Rect)
    requires
        area.wf(),
    ensures
        part == centered(width, height, area),
        part.wf(),
        area.covers(part),
{
    let width = if width < area.width {
        width
    } else {
        area.width
    };
    let height = if height < area.height {
        height
    } else {
        area.height
    };
    let x = area.x + (area.width - width) / 2;
    let y = area.y + (area.height - height) / 2;
    Rect { x, y, width, height }
}

/// The top line of `area`.
pub open spec fn top_line(area: Rect) -> Rect {
    Rect { height: lesser(1, area.height as int) as u16, ..area }
}

/// What lies below the top line of `area`.
pub open spec fn below_top_line(area: Rect) -> Rect {
    Rect {
        y: (area.y + lesser(1, area.height as int)) as u16,
        height: (area.height - lesser(1, area.height as int)) as u16,
        ..area
    }
}

/// The top line of `area`, and what lies below it.
pub fn split_top_line(area: Rect) -> (parts: (Rect, Rect))
    requires
        area.wf(),
    ensures
        parts.0 == top_line(area),
        parts.1 == below_top_line(area),
        parts.0.wf(),
        parts.1.wf(),
{
    let line: u16 = if area.height < 1 {
        area.height
    } else {
        1
    };
    (
        Rect { x: area.x, y: area.y, width: area.width, height: line },
        Rect { x: area.x, y: area.y + line, width: area.width, height: area.height - line },
    )
}

/// The size of a pixel after an action: larger or smaller by one, within bounds.
pub open spec fn zoomed(zoom: int, action: Action) -> int {
    let wanted = match action {
        Action::ZoomIn => zoom + 1,
        Action::ZoomOut => zoom - 1,
        _ => zoom,
    };
    if wanted < MIN_ZOOM {
        MIN_ZOOM as int
    } else if wanted > MAX_ZOOM {
        MAX_ZOOM as int
    } else {
        wanted
    }
}

/// The size of a pixel after an action. Only the two actions for that change it.
pub fn apply_zoom(zoom: usize, action: Action) -> (after: usize)
    ensures
        after == zoomed(zoom as int, action),
        MIN_ZOOM <= after <= MAX_ZOOM,
{
    match action {
        Action::ZoomIn => {
            if zoom < MIN_ZOOM {
                MIN_ZOOM
            } else if zoom >= MAX_ZOOM {
                MAX_ZOOM
            } else {
                zoom + 1
            }
        },
        Action::ZoomOut => {
            if zoom <= MIN_ZOOM {
                MIN_ZOOM
            } else if zoom > MAX_ZOOM {
                MAX_ZOOM
            } else {
                zoom - 1
            }
        },
        _ => {
            if zoom < MIN_ZOOM {
                MIN_ZOOM
            } else if zoom > MAX_ZOOM {
                MAX_ZOOM
            } else {
                zoom
            }
        },
    }
}

/// Zooming in and out undo each other, away from the bounds.
pub proof fn lemma_zoom_in_and_out(zoom: int)
    requires
        MIN_ZOOM <= zoom <= MAX_ZOOM,
    ensures
        zoom < MAX_ZOOM ==> zoomed(zoomed(zoom, Action::ZoomIn), Action::ZoomOut) == zoom,
        zoom > MIN_ZOOM ==> zoomed(zoomed(zoom, Action::ZoomOut), Action::ZoomIn) == zoom,
{
}

/// A part in the middle is as large as asked for, or as there is room, and what is
/// left over lies evenly on both sides: any odd cell to the right and below.
pub proof fn lemma_in_the_middle(width: u16, height: u16, area: Rect)
    requires
        area.x + area.width <= u16::MAX,
        area.y + area.height <= u16::MAX,
    ensures
        ({
            let part = centered(width, height, area);
            let left = part.x - area.x;
            let right = area.x + area.width - part.x - part.width;
            let above = part.y - area.y;
            let below = area.y + area.height - part.y - part.height;
            &&& width <= area.width ==> part.width == width
            &&& width > area.width ==> part.width == area.width
            &&& height <= area.height ==> part.height == height
            &&& height > area.height ==> part.height == area.height
            &&& 0 <= left <= right <= left + 1
            &&& 0 <= above <= below <= above + 1
        }),
{
}

/// The top line is one cell high, where there is any, and the rest lies right below
/// it; together they make up the whole.
pub proof fn lemma_top_and_rest(area: Rect)
    requires
        area.x + area.width <= u16::MAX,
        area.y + area.height <= u16::MAX,
    ensures
        ({
            let line = top_line(area);
            let rest = below_top_line(area);
            &&& line.x == area.x && line.y == area.y && line.width == area.width
            &&& rest.x == area.x && rest.width == area.width
            &&& rest.y == line.y + line.height
            &&& line.height + rest.height == area.height
            &&& area.height > 0 ==> line.height == 1
        }),
{
}

/// The two keys for that make pixels larger and smaller by one, from one to three;
/// nothing else does.
pub proof fn lemma_zooming(zoom: int, action: Action)
    requires
        1 <= zoom <= 3,
    ensures
        1 <= zoomed(zoom, action) <= 3,
        action is ZoomIn && zoom < 3 ==> zoomed(zoom, action) == zoom + 1,
        action is ZoomIn && zoom == 3 ==> zoomed(zoom, action) == 3,
        action is ZoomOut && zoom > 1 ==> zoomed(zoom, action) == zoom - 1,
        action is ZoomOut && zoom == 1 ==> zoomed(zoom, action) == 1,
        !(action is ZoomIn) && !(action is ZoomOut) ==> zoomed(zoom, action) == zoom,
{
}

/// Sizes out of range come back into it.
pub proof fn lemma_zoom_in_range(zoom: int, action: Action)
    ensures
        zoom < 1 && !(action is ZoomIn) ==> zoomed(zoom, action) == 1,
        zoom > 3 && !(action is ZoomOut) ==> zoomed(zoom, action) == 3,
        1 <= zoomed(zoom, action) <= 3,
{
}

} // verus!
