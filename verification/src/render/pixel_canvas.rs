//! A grid of pixels, and how it becomes cells of a terminal.
//!
//! A cell of a terminal is about twice as high as it is wide, so it shows two
//! pixels, one above the other, by way of a letter that fills its upper half.

use vstd::prelude::*;

use crate::render::sprites::Sprite;
use crate::render::Color;

verus! {

/// A grid of pixels as a value.
pub struct CanvasView {
    pub width: nat,
    pub height: nat,
    /// Row by row from the top, each row from the left.
    pub pixels: Seq<Color>,
}

impl CanvasView {
    /// The grid has a pixel for every place.
    pub open spec fn complete(self) -> bool {
        self.pixels.len() == self.width * self.height
    }

    /// Whether there is such a place.
    pub open spec fn has(self, x: int, y: int) -> bool {
        0 <= x < self.width && 0 <= y < self.height
    }

    /// The colour in a place; outside the grid there is none.
    pub open spec fn color(self, x: int, y: int) -> Color {
        if self.has(x, y) {
            self.pixels[y * self.width + x]
        } else {
            Color::Reset
        }
    }
}

/// The two pixels in one cell of the terminal.
#[derive(Debug, Clone, Copy, PartialEq, Eq, Structural)]
pub struct HalfBlock {
    pub upper: Color,
    pub lower: Color,
}

/// The cell of the terminal in a row and a column, when every pixel is drawn
/// `scale` times as large. In the last row of an odd height the upper pixel
/// stands for both.
pub open spec fn half_block(canvas: CanvasView, scale: int, row: int, col: int) -> HalfBlock {
    let upper = canvas.color(col / scale, 2 * row / scale);
    HalfBlock {
        upper,
        lower: if 2 * row + 1 < canvas.height * scale {
            canvas.color(col / scale, (2 * row + 1) / scale)
        } else {
            upper
        },
    }
}

/// How large pixels are drawn: a scale of zero counts as one.
pub open spec fn pixel_size(scale: usize) -> int {
    if scale == 0 {
        1
    } else {
        scale as int
    }
}

/// The rows of the terminal that show the grid.
pub open spec fn rows_for(canvas: CanvasView, scale: int) -> int {
    (canvas.height * scale + 1) / 2
}

/// The columns of the terminal that show the grid.
pub open spec fn columns_for(canvas: CanvasView, scale: int) -> int {
    canvas.width * scale
}

/// The number of pixels before a row, and in all rows up to it.
proof fn lemma_row(width: nat, height: nat, x: int, y: int)
    requires
        0 <= x < width,
        0 <= y < height,
    ensures
        0 <= y * width + x < width * height,
{
    assert(0 <= y * width + x < width * height) by (nonlinear_arith)
        requires
            0 <= x < width,
            0 <= y < height,
    ;
}

/// Different places have different pixels.
proof fn lemma_places_differ(width: nat, x: int, y: int, other_x: int, other_y: int)
    requires
        0 <= x < width,
        0 <= other_x < width,
        y * width + x == other_y * width + other_x,
    ensures
        x == other_x,
        y == other_y,
{
    assert(y == other_y) by (nonlinear_arith)
        requires
            0 <= x < width,
            0 <= other_x < width,
            y * width + x == other_y * width + other_x,
    ;
}

/// A grid of pixels. The first place is at the top left.
#[derive(Debug, Clone)]
pub struct PixelCanvas {
    pub width: usize,
    pub height: usize,
    pub pixels: Vec<Color>,
}

impl View for PixelCanvas {
    type V = CanvasView;

    open spec fn view(&self) -> CanvasView {
        CanvasView {
            width: self.width as nat,
            height: self.height as nat,
            pixels: self.pixels@,
        }
    }
}

impl PixelCanvas {
    /// The grid has a pixel for every place.
    pub open spec fn wf(&self) -> bool {
        self@.complete()
    }

    /// A grid in one colour.
    pub fn new(width: usize, height: usize, background: Color) -> (canvas: PixelCanvas)
        requires
            width * height <= usize::MAX,
        ensures
            canvas.wf(),
            canvas.width == width,
            canvas.height == height,
            forall|x: int, y: int| canvas@.has(x, y) ==> #[trigger] canvas@.color(x, y) == background,
    {
        let n = width * height;
        let mut pixels: Vec<Color> = Vec::with_capacity(n);
        for i in 0..n
            invariant
                pixels@.len() == i,
                forall|j: int| 0 <= j < i ==> #[trigger] pixels@[j] == background,
        {
            pixels.push(background);
        }
        let canvas = PixelCanvas { width, height, pixels };
        assert forall|x: int, y: int| canvas@.has(x, y) implies #[trigger] canvas@.color(x, y)
            == background by {
            lemma_row(width as nat, height as nat, x, y);
        }
        canvas
    }

    /// The place of a pixel in the grid, if it is there.
    fn index(&self, x: usize, y: usize) -> (place: Option<usize>)
        requires
            self.wf(),
        ensures
            match place {
                Some(i) => self@.has(x as int, y as int) && i == y * self.width + x && i
                    < self.pixels@.len(),
                None => !self@.has(x as int, y as int),
            },
    {
        if x < self.width && y < self.height {
            proof {
                lemma_row(self.width as nat, self.height as nat, x as int, y as int);
                assert(y * self.width <= y * self.width + x);
            }
            let len = self.pixels.len();
            assert(y * self.width + x < len);
            Some(y * self.width + x)
        } else {
            None
        }
    }

    /// Paints a pixel. Does nothing outside the grid.
    pub fn set(&mut self, x: usize, y: usize, color: Color)
        requires
            old(self).wf(),
        ensures
            final(self).wf(),
            final(self).width == old(self).width,
            final(self).height == old(self).height,
            forall|u: int, v: int|
                #![trigger final(self)@.color(u, v)]
                final(self)@.has(u, v) ==> final(self)@.color(u, v) == if u == x && v == y {
                    color
                } else {
                    old(self)@.color(u, v)
                },
    {
        let ghost before = self@;
        if let Some(i) = self.index(x, y) {
            self.pixels.set(i, color);
            assert forall|u: int, v: int| before.has(u, v) implies #[trigger] self@.color(u, v)
                == if u == x && v == y {
                color
            } else {
                before.color(u, v)
            } by {
                lemma_row(before.width, before.height, u, v);
                if v * before.width + u == i {
                    lemma_places_differ(before.width, u, v, x as int, y as int);
                }
            }
        }
    }

    /// The colour in a place; outside the grid there is none.
    pub fn get(&self, x: usize, y: usize) -> (color: Color)
        requires
            self.wf(),
        ensures
            color == self@.color(x as int, y as int),
    {
        match self.index(x, y) {
            Some(i) => self.pixels[i],
            None => Color::Reset,
        }
    }

    /// Draws a picture with its top left pixel in the given place. Where the
    /// picture is transparent the grid keeps its colour, and what falls outside
    /// the grid is lost.
    pub fn blit_sprite(&mut self, origin_x: usize, origin_y: usize, sprite: &Sprite)
        requires
            old(self).wf(),
            sprite.wf(),
            origin_x + 8 <= usize::MAX,
            origin_y + 8 <= usize::MAX,
        ensures
            final(self).wf(),
            final(self).width == old(self).width,
            final(self).height == old(self).height,
            forall|u: int, v: int|
                #![trigger final(self)@.color(u, v)]
                final(self)@.has(u, v) ==> final(self)@.color(u, v) == match sprite.dot(
                    u - origin_x,
                    v - origin_y,
                ) {
                    Some(color) => color,
                    None => old(self)@.color(u, v),
                },
    {
        let ghost before = self@;
        for sy in 0..8usize
            invariant
                origin_x + 8 <= usize::MAX,
                origin_y + 8 <= usize::MAX,
                sprite.wf(),
                self.wf(),
                self@.width == before.width,
                self@.height == before.height,
                forall|u: int, v: int|
                    #![trigger self@.color(u, v)]
                    self@.has(u, v) ==> self@.color(u, v) == (if v - origin_y < sy {
                        match sprite.dot(u - origin_x, v - origin_y) {
                            Some(color) => color,
                            None => before.color(u, v),
                        }
                    } else {
                        before.color(u, v)
                    }),
        {
            for sx in 0..8usize
                invariant
                    sy < 8,
                    origin_x + 8 <= usize::MAX,
                    origin_y + 8 <= usize::MAX,
                    sprite.wf(),
                    self.wf(),
                    self@.width == before.width,
                    self@.height == before.height,
                    forall|u: int, v: int|
                        #![trigger self@.color(u, v)]
                        self@.has(u, v) ==> self@.color(u, v) == (if v - origin_y < sy || (v
                            - origin_y == sy && u - origin_x < sx) {
                            match sprite.dot(u - origin_x, v - origin_y) {
                                Some(color) => color,
                                None => before.color(u, v),
                            }
                        } else {
                            before.color(u, v)
                        }),
            {
                let ghost here = self@;
                assert(sprite.pixels@[sy as int]@.len() == 8);
                if let Some(color) = sprite.pixels[sy][sx] {
                    self.set(origin_x + sx, origin_y + sy, color);
                    assert forall|u: int, v: int| #[trigger] self@.has(u, v) implies self@.color(u, v) == (if v
                        - origin_y < sy || (v - origin_y == sy && u - origin_x < sx + 1) {
                        match sprite.dot(u - origin_x, v - origin_y) {
                            Some(color) => color,
                            None => before.color(u, v),
                        }
                    } else {
                        before.color(u, v)
                    }) by {
                        assert(here.has(u, v));
                        assert(here.color(u, v) == here.color(u, v));
                    }
                } else {
                    assert(sprite.dot(sx as int, sy as int) is None);
                }
            }
        }
    }

    /// The cells of the terminal that show the grid, row by row, when every pixel
    /// is drawn `scale` times as large. A scale of zero counts as one.
    pub fn to_lines(&self, scale: usize) -> (lines: Vec<Vec<HalfBlock>>)
        requires
            self.wf(),
            self.width * scale <= usize::MAX,
            self.height * scale < usize::MAX,
            self.height < usize::MAX,
        ensures
            ({
                let s = pixel_size(scale);
                &&& lines@.len() == rows_for(self@, s)
                &&& forall|row: int|
                    0 <= row < lines@.len() ==> (#[trigger] lines@[row])@.len() == columns_for(
                        self@,
                        s,
                    )
                &&& forall|row: int, col: int|
                    #![trigger lines@[row]@[col]]
                    0 <= row < lines@.len() && 0 <= col < columns_for(self@, s)
                        ==> lines@[row]@[col] == half_block(self@, s, row, col)
            }),
    {
        let s: usize = if scale == 0 {
            1
        } else {
            scale
        };
        assert(self.width * s <= usize::MAX && self.height * s < usize::MAX);
        let columns = self.width * s;
        let rows = self.height * s;
        let count = (rows + 1) / 2;
        let mut lines: Vec<Vec<HalfBlock>> = Vec::with_capacity(count);
        for row in 0..count
            invariant
                self.wf(),
                s > 0,
                columns == self.width * s,
                rows == self.height * s,
                rows < usize::MAX,
                count == (rows + 1) / 2,
                lines@.len() == row,
                forall|r: int| 0 <= r < row ==> (#[trigger] lines@[r])@.len() == columns,
                forall|r: int, c: int|
                    #![trigger lines@[r]@[c]]
                    0 <= r < row && 0 <= c < columns ==> lines@[r]@[c] == half_block(
                        self@,
                        s as int,
                        r,
                        c,
                    ),
        {
            let mut line: Vec<HalfBlock> = Vec::with_capacity(columns);
            for col in 0..columns
                invariant
                    self.wf(),
                    s > 0,
                    rows == self.height * s,
                    rows < usize::MAX,
                    count == (rows + 1) / 2,
                    row < count,
                    line@.len() == col,
                    forall|c: int|
                        0 <= c < col ==> #[trigger] line@[c] == half_block(
                            self@,
                            s as int,
                            row as int,
                            c,
                        ),
            {
                let x = col / s;
                let upper = self.get(x, 2 * row / s);
                let lower = if 2 * row + 1 < rows {
                    self.get(x, (2 * row + 1) / s)
                } else {
                    upper
                };
                line.push(HalfBlock { upper, lower });
            }
            lines.push(line);
        }
        lines
    }
}

/// Every pixel of the grid is drawn as a square of `scale` by `scale` half cells,
/// in its own place: none is lost, moved or mixed with another.
pub proof fn lemma_pixels_keep_their_place(
    canvas: CanvasView,
    scale: int,
    x: int,
    y: int,
    dx: int,
    dy: int,
)
    requires
        scale > 0,
        0 <= x < canvas.width,
        0 <= y < canvas.height,
        0 <= dx < scale,
        0 <= dy < scale,
    ensures
        ({
            let col = x * scale + dx;
            let line = y * scale + dy;
            let cell = half_block(canvas, scale, line / 2, col);
            let shown = canvas.pixels[y * canvas.width + x];
            &&& line % 2 == 0 ==> cell.upper == shown
            &&& line % 2 == 1 ==> cell.lower == shown
        }),
{
    let col = x * scale + dx;
    let line = y * scale + dy;
    vstd::arithmetic::div_mod::lemma_fundamental_div_mod_converse(col, scale, x, dx);
    vstd::arithmetic::div_mod::lemma_fundamental_div_mod_converse(line, scale, y, dy);
    assert(line < canvas.height * scale) by (nonlinear_arith)
        requires
            line == y * scale + dy,
            y < canvas.height,
            0 <= dy < scale,
    ;
    assert(line >= 0) by (nonlinear_arith)
        requires
            line == y * scale + dy,
            0 <= y,
            0 <= dy < scale,
    ;
}

/// In the last row of an odd height, the lower half is of the colour of the upper.
pub proof fn lemma_last_row_of_an_odd_height(canvas: CanvasView, scale: int, row: int, col: int)
    requires
        scale > 0,
        2 * row + 1 == canvas.height * scale,
    ensures
        half_block(canvas, scale, row, col).lower == half_block(canvas, scale, row, col).upper,
{
}

/// Colours are kept row by row; outside the grid there is none.
pub proof fn lemma_colors_in_the_grid(canvas: CanvasView, x: int, y: int)
    ensures
        0 <= x < canvas.width && 0 <= y < canvas.height ==> canvas.color(x, y)
            == canvas.pixels[y * canvas.width + x],
        !(0 <= x < canvas.width && 0 <= y < canvas.height) ==> canvas.color(x, y) is Reset,
{
}

/// There are just as many cells as it takes to show every pixel: each pixel takes
/// up `scale` columns and half as many rows, and an odd half row is filled up.
pub proof fn lemma_as_many_cells_as_needed(canvas: CanvasView, scale: usize)
    ensures
        ({
            let s = pixel_size(scale);
            &&& scale > 0 ==> s == scale
            &&& scale == 0 ==> s == 1
            &&& columns_for(canvas, s) == canvas.width * s
            &&& canvas.height * s <= 2 * rows_for(canvas, s) <= canvas.height * s + 1
        }),
{
}

} // verus!
