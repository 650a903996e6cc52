//! The picture shown once when the program starts.
//!
//! The picture is an ordinary image file. It is shrunk to fit the terminal, and
//! its white background is made to look like that of the terminal.

use vstd::prelude::*;

use crate::render::pixel_canvas::{CanvasView, PixelCanvas};
use crate::render::Color;

verus! {

/// The pixels along the longer side of the picture as it is shown.
pub const DISPLAY_SIZE: u32 = 96;

/// A pixel that has at least this much of each colour is background.
pub const WHITE_THRESHOLD: u8 = 235;

/// The longest that the shorter side of an image may be: `DISPLAY_SIZE` times as
/// much still fits 32 bits.
pub const MAX_SHORTER_SIDE: u32 = 44_739_242;

/// The size of the image in a file, if there is one.
pub uninterp spec fn decoded_size(file: Seq<u8>) -> Option<(u32, u32)>;

/// The image in a file scaled to the given size, three bytes to a pixel, if there
/// is one.
pub uninterp spec fn scaled_image(file: Seq<u8>, width: u32, height: u32) -> Option<Seq<u8>>;

/// Calls `image::load_from_memory` and asks the image for its size. The contract
/// names the result: what counts as an image file takes pages to say.
#[verifier::external_body]
fn image_size(file: &[u8]) -> (size: Option<(u32, u32)>)
    ensures
        size == decoded_size(file@),
{
    match image::load_from_memory(file) {
        Ok(picture) => Some((picture.width(), picture.height())),
        Err(_) => None,
    }
}

/// Calls `image::load_from_memory`, then `DynamicImage::resize_exact` with the
/// triangle filter, and `DynamicImage::to_rgb8`. The contract names the result,
/// and claims that there is one whenever the file holds an image, with three bytes
/// for each pixel of the size asked for. Scaling sets aside sixteen bytes for each
/// pixel of a picture as wide as the image and as high as asked for, and panics
/// where that is more than one allocation can hold; such images and sizes beyond
/// `DISPLAY_SIZE` are left out.
#[verifier::external_body]
fn scale_image(file: &[u8], width: u32, height: u32) -> (pixels: Option<Vec<u8>>)
    requires
        1 <= width <= DISPLAY_SIZE,
        1 <= height <= DISPLAY_SIZE,
        decoded_size(file@) matches Some((w, h)) ==> 16 * w * height <= isize::MAX,
    ensures
        match pixels {
            Some(bytes) => scaled_image(file@, width, height) == Some(bytes@) && bytes@.len() == 3
                * width * height,
            None => scaled_image(file@, width, height) is None,
        },
        pixels is Some <==> decoded_size(file@) is Some,
{
    match image::load_from_memory(file) {
        Ok(picture) => {
            let filter = image::imageops::FilterType::Triangle;
            Some(picture.resize_exact(width, height, filter).to_rgb8().into_raw())
        },
        Err(_) => None,
    }
}

/// The size at which an image is shown: as large as it can be without either side
/// exceeding `DISPLAY_SIZE`, in its own proportions, and at least one pixel.
pub open spec fn shown_size(width: u32, height: u32) -> (int, int) {
    if width >= height {
        (DISPLAY_SIZE as int, at_least_one(DISPLAY_SIZE * height / at_least_one(width as int)))
    } else {
        (at_least_one(DISPLAY_SIZE * width / at_least_one(height as int)), DISPLAY_SIZE as int)
    }
}

/// The number, or one if it is less.
pub open spec fn at_least_one(n: int) -> int {
    if n < 1 {
        1
    } else {
        n
    }
}

/// Whether an image of that size can be shown: its shorter side is no longer than
/// `MAX_SHORTER_SIDE`, and it is no wider than the machine can scale.
pub open spec fn showable(width: u32, height: u32) -> bool {
    &&& width <= MAX_SHORTER_SIDE || height <= MAX_SHORTER_SIDE
    &&& 16 * width * shown_size(width, height).1 <= isize::MAX
}

/// The colour in which a pixel of the image is shown.
pub open spec fn shown_color(r: u8, g: u8, b: u8) -> Color {
    if r >= WHITE_THRESHOLD && g >= WHITE_THRESHOLD && b >= WHITE_THRESHOLD {
        Color::Rgb(10, 14, 24)
    } else {
        Color::Rgb(r, g, b)
    }
}

/// Whether the grid shows the image with these bytes, three to a pixel.
pub open spec fn shows_image(canvas: CanvasView, bytes: Seq<u8>, width: int, height: int) -> bool {
    &&& canvas.complete()
    &&& canvas.width == width
    &&& canvas.height == height
    &&& forall|x: int, y: int|
        canvas.has(x, y) ==> #[trigger] canvas.color(x, y) == shown_color(
            bytes[3 * (y * width + x)],
            bytes[3 * (y * width + x) + 1],
            bytes[3 * (y * width + x) + 2],
        )
}

/// The size at which an image is shown.
pub fn display_size(width: u32, height: u32) -> (size: (u32, u32))
    ensures
        size.0 == shown_size(width, height).0,
        size.1 == shown_size(width, height).1,
        1 <= size.0 <= DISPLAY_SIZE,
        1 <= size.1 <= DISPLAY_SIZE,
{
    if width >= height {
        (DISPLAY_SIZE, share_of(height, width))
    } else {
        (share_of(width, height), DISPLAY_SIZE)
    }
}

/// The shorter side when the longer one is shown at `DISPLAY_SIZE`.
fn share_of(shorter: u32, longer: u32) -> (side: u32)
    requires
        shorter <= longer,
    ensures
        side == at_least_one(DISPLAY_SIZE * shorter / at_least_one(longer as int)),
        1 <= side <= DISPLAY_SIZE,
{
    let whole: u64 = if longer < 1 {
        1
    } else {
        longer as u64
    };
    assert(0 <= 96 * shorter / whole as int <= 96) by (nonlinear_arith)
        requires
            0 <= shorter <= whole,
            whole > 0,
    ;
    let side = (DISPLAY_SIZE as u64 * shorter as u64 / whole) as u32;
    if side < 1 {
        1
    } else {
        side
    }
}

/// The grid that shows the image with these bytes, three to a pixel.
pub fn canvas_of(bytes: &[u8], width: u32, height: u32) -> (canvas: PixelCanvas)
    requires
        width <= DISPLAY_SIZE,
        height <= DISPLAY_SIZE,
        bytes@.len() == 3 * width * height,
    ensures
        shows_image(canvas@, bytes@, width as int, height as int),
{
    assert(width * height <= 9_216) by (nonlinear_arith)
        requires
            width <= 96,
            height <= 96,
    ;
    let background = Color::Rgb(10, 14, 24);
    let columns = width as usize;
    let rows = height as usize;
    let mut canvas = PixelCanvas::new(columns, rows, background);
    for y in 0..rows
        invariant
            columns == width,
            rows == height,
            columns <= 96,
            rows <= 96,
            bytes@.len() == 3 * width * height,
            background == Color::Rgb(10, 14, 24),
            canvas.wf(),
            canvas.width == columns,
            canvas.height == rows,
            forall|u: int, v: int|
                #![trigger canvas@.color(u, v)]
                canvas@.has(u, v) ==> canvas@.color(u, v) == if v < y {
                    shown_color(
                        bytes@[3 * (v * width + u)],
                        bytes@[3 * (v * width + u) + 1],
                        bytes@[3 * (v * width + u) + 2],
                    )
                } else {
                    background
                },
    {
        for x in 0..columns
            invariant
                y < rows,
                columns == width,
                rows == height,
                columns <= 96,
                rows <= 96,
                bytes@.len() == 3 * width * height,
                background == Color::Rgb(10, 14, 24),
                canvas.wf(),
                canvas.width == columns,
                canvas.height == rows,
                forall|u: int, v: int|
                    #![trigger canvas@.color(u, v)]
                    canvas@.has(u, v) ==> canvas@.color(u, v) == if v < y || (v == y && u < x) {
                        shown_color(
                            bytes@[3 * (v * width + u)],
                            bytes@[3 * (v * width + u) + 1],
                            bytes@[3 * (v * width + u) + 2],
                        )
                    } else {
                        background
                    },
        {
            let ghost before = canvas@;
            assert(0 <= y * columns + x < width * height && 0 <= y * columns <= 9_216) by (nonlinear_arith)
                requires
                    0 <= x < columns,
                    0 <= y < rows,
                    columns == width,
                    rows == height,
                    columns <= 96,
                    rows <= 96,
            ;
            assert(3 * width * height == 3 * (width * height)) by (nonlinear_arith);
            let place = 3 * (y * columns + x);
            let (r, g, b) = (bytes[place], bytes[place + 1], bytes[place + 2]);
            if !(r >= WHITE_THRESHOLD && g >= WHITE_THRESHOLD && b >= WHITE_THRESHOLD) {
                canvas.set(x, y, Color::Rgb(r, g, b));
            }
            assert forall|u: int, v: int| #[trigger] canvas@.has(u, v) implies canvas@.color(u, v) == if v < y
                || (v == y && u < x + 1) {
                shown_color(
                    bytes@[3 * (v * width + u)],
                    bytes@[3 * (v * width + u) + 1],
                    bytes@[3 * (v * width + u) + 2],
                )
            } else {
                background
            } by {
                assert(before.has(u, v));
                assert(before.color(u, v) == before.color(u, v));
                assert(canvas@.color(u, v) == canvas@.color(u, v));
            }
        }
    }
    canvas
}

/// The grid that shows the image in a file. There is none if the file holds no
/// image, or one that cannot be shown for its size.
pub fn build_canvas(file: &[u8]) -> (canvas: Option<PixelCanvas>)
    ensures
        match decoded_size(file@) {
            Some((width, height)) if showable(width, height) => {
                let (w, h) = shown_size(width, height);
                &&& canvas is Some
                &&& scaled_image(file@, w as u32, h as u32) is Some
                &&& shows_image(
                    canvas->Some_0@,
                    scaled_image(file@, w as u32, h as u32)->Some_0,
                    w,
                    h,
                )
            },
            _ => canvas is None,
        },
{
    let (width, height) = match image_size(file) {
        Some(size) => size,
        None => {
            return None;
        },
    };
    if width > MAX_SHORTER_SIDE && height > MAX_SHORTER_SIDE {
        return None;
    }
    let (w, h) = display_size(width, height);
    assert(16 * width * h <= 6_597_069_766_656 && 16 * width * h == 16 * (width * h)) by (nonlinear_arith)
        requires
            0 <= width <= 4_294_967_295,
            0 <= h <= 96,
    ;
    if 16 * (width as u64 * h as u64) > isize::MAX as u64 {
        return None;
    }
    match scale_image(file, w, h) {
        Some(bytes) => Some(canvas_of(&bytes, w, h)),
        None => None,
    }
}

/// The longer side of every image is shown at `DISPLAY_SIZE`, and the other no
/// larger than that.
pub proof fn lemma_shown_size(width: u32, height: u32)
    ensures
        1 <= shown_size(width, height).0 <= DISPLAY_SIZE,
        1 <= shown_size(width, height).1 <= DISPLAY_SIZE,
        width >= height ==> shown_size(width, height).0 == DISPLAY_SIZE,
        height >= width ==> shown_size(width, height).1 == DISPLAY_SIZE || width == 0,
{
    let longer = at_least_one(if width >= height {
        width as int
    } else {
        height as int
    });
    let shorter = if width >= height {
        height as int
    } else {
        width as int
    };
    assert(0 <= 96 * shorter / longer <= 96) by (nonlinear_arith)
        requires
            0 <= shorter <= longer,
            longer > 0,
    ;
    if width == height && width > 0 {
        assert(96 * shorter / longer == 96) by (nonlinear_arith)
            requires
                shorter == longer,
                longer > 0,
        ;
    }
}

/// A pixel that is nearly white in all three colours becomes background; any other
/// keeps its colour.
pub proof fn lemma_shown_colors(r: u8, g: u8, b: u8)
    ensures
        r >= 235 && g >= 235 && b >= 235 ==> shown_color(r, g, b) == Color::Rgb(10, 14, 24),
        r < 235 || g < 235 || b < 235 ==> shown_color(r, g, b) == Color::Rgb(r, g, b),
{
}

/// Images are shown in their own proportions, as near as whole pixels allow, and
/// sideways just as upright.
pub proof fn lemma_proportions(width: u32, height: u32)
    requires
        0 < height <= width,
    ensures
        ({
            let (w, h) = shown_size(width, height);
            &&& w == 96
            &&& h * width <= 96 * height || h == 1
            &&& 96 * height < (h + 1) * width
        }),
        width != height ==> shown_size(height, width) == (
            shown_size(width, height).1,
            shown_size(width, height).0,
        ),
{
    let (w, h) = shown_size(width, height);
    let exact = 96 * height / width as int;
    assert(exact * width <= 96 * height < (exact + 1) * width) by (nonlinear_arith)
        requires
            exact == 96 * height / width as int,
            0 < width,
            0 < height,
    ;
    if exact < 1 {
        assert(96 * height < (h + 1) * width) by (nonlinear_arith)
            requires
                96 * height < (exact + 1) * width,
                exact < 1,
                h == 1,
                0 < width,
        ;
    }
}

/// The picture has the colours of the image, pixel by pixel, in the same order.
pub proof fn lemma_pixels_of_the_image(
    canvas: CanvasView,
    bytes: Seq<u8>,
    width: int,
    height: int,
    x: int,
    y: int,
)
    requires
        shows_image(canvas, bytes, width, height),
        0 <= x < width,
        0 <= y < height,
    ensures
        canvas.width == width && canvas.height == height,
        canvas.pixels.len() == width * height,
        ({
            let at = y * width + x;
            let (r, g, b) = (bytes[3 * at], bytes[3 * at + 1], bytes[3 * at + 2]);
            canvas.pixels[at] == if r >= 235 && g >= 235 && b >= 235 {
                Color::Rgb(10, 14, 24)
            } else {
                Color::Rgb(r, g, b)
            }
        }),
{
    assert(canvas.has(x, y));
    assert(canvas.color(x, y) == canvas.pixels[y * width + x]);
}

/// Ordinary images can be shown.
pub proof fn lemma_ordinary_images_are_showable(width: u32, height: u32)
    requires
        width <= 1_000_000,
        height <= 1_000_000,
    ensures
        showable(width, height),
{
    lemma_shown_size(width, height);
    let h = shown_size(width, height).1;
    assert(16 * width * h <= 1_536_000_000) by (nonlinear_arith)
        requires
            0 <= width <= 1_000_000,
            1 <= h <= 96,
    ;
}

} // verus!
