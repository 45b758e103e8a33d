//! An 8-bit grayscale image, held in an `image::GrayImage`, and the square
//! fills that the sprite and moon drawings are made of.
use vstd::prelude::*;
use vstd::arithmetic::div_mod::{lemma_fundamental_div_mod_converse, lemma_fundamental_div_mod};
use image::imageops::FilterType;
use image::{GrayImage, Luma};
use imageproc::drawing::draw_filled_rect_mut;
use imageproc::rect::Rect;

verus! {

/// A grayscale image. The pixels are kept in an `image::GrayImage`.
#[verifier::external_body]
pub struct GrayCanvas {
    img: GrayImage,
}

/// The pixel values of the image, `width * height` of them, row after row.
pub uninterp spec fn canvas_pixels(c: GrayCanvas) -> Seq<u8>;

/// The width and height the image was made with.
pub uninterp spec fn canvas_dims(c: GrayCanvas) -> (u32, u32);

pub open spec fn canvas_width(c: GrayCanvas) -> int {
    canvas_dims(c).0 as int
}

pub open spec fn canvas_height(c: GrayCanvas) -> int {
    canvas_dims(c).1 as int
}

/// `image::ImageBuffer::from_pixel`: a `width` by `height` image with every
/// pixel `value`. It panics when `width * height` does not fit in `usize`.
#[verifier::external_body]
fn image_from_pixel(width: u32, height: u32, value: u8) -> (c: GrayCanvas)
    requires
        width * height <= usize::MAX,
    ensures
        canvas_dims(c) == (width, height),
        canvas_pixels(c) == Seq::new((width * height) as nat, |i: int| value),
{
    GrayCanvas { img: GrayImage::from_pixel(width, height, Luma([value])) }
}

/// `image::ImageBuffer::from_raw`: an image over the given samples, `None`
/// when there are fewer than `width * height` of them; samples past those are
/// kept but are no pixel.
#[verifier::external_body]
fn image_from_raw(width: u32, height: u32, data: Vec<u8>) -> (r: Option<GrayCanvas>)
    ensures
        r is Some <==> width * height <= data@.len(),
        r matches Some(c) ==> canvas_dims(c) == (width, height) && canvas_pixels(c) == data@.take(
            width * height,
        ),
{
    match GrayImage::from_raw(width, height, data) {
        Some(img) => Some(GrayCanvas { img }),
        None => None,
    }
}

/// `image::ImageBuffer::into_raw`: the samples, the pixels first.
#[verifier::external_body]
fn image_into_raw(c: GrayCanvas) -> (data: Vec<u8>)
    ensures
        data@.len() >= canvas_pixels(c).len(),
        data@.take(canvas_pixels(c).len() as int) == canvas_pixels(c),
{
    c.img.into_raw()
}

/// `image::ImageBuffer::dimensions`: the width and height.
#[verifier::external_body]
fn image_dimensions(c: &GrayCanvas) -> (d: (u32, u32))
    ensures
        d == canvas_dims(*c),
        canvas_pixels(*c).len() == d.0 * d.1,
{
    c.img.dimensions()
}

/// `image::ImageBuffer::get_pixel`: the value at `(x, y)`; it panics off the image.
#[verifier::external_body]
fn image_get_pixel(c: &GrayCanvas, x: u32, y: u32) -> (v: u8)
    requires
        x < canvas_width(*c),
        y < canvas_height(*c),
    ensures
        v == canvas_pixels(*c)[y * canvas_width(*c) + x],
{
    c.img.get_pixel(x, y).0[0]
}

/// `image::ImageBuffer::put_pixel`: sets the value at `(x, y)`; it panics off the image.
#[verifier::external_body]
fn image_put_pixel(c: &mut GrayCanvas, x: u32, y: u32, v: u8)
    requires
        x < canvas_width(*old(c)),
        y < canvas_height(*old(c)),
    ensures
        canvas_dims(*final(c)) == canvas_dims(*old(c)),
        canvas_pixels(*final(c)) == canvas_pixels(*old(c)).update(
            y * canvas_width(*old(c)) + x,
            v,
        ),
{
    c.img.put_pixel(x, y, Luma([v]))
}

/// The pixels that `image::imageops::resize` with the Lanczos3 filter makes
/// of a `width` by `height` image with pixels `pixels` at the new size
/// `new_width` by `new_height`.
pub uninterp spec fn lanczos3_resized(
    pixels: Seq<u8>,
    width: u32,
    height: u32,
    new_width: u32,
    new_height: u32,
) -> Seq<u8>;

/// `image::imageops::resize` with `FilterType::Lanczos3`: a new image of the
/// given size, resampled from this one. It panics when one of the buffers it
/// allocates (the four-channel intermediate of the old width and the new
/// height, or the result) does not fit in `usize`.
#[verifier::external_body]
fn image_resize_lanczos3(c: &GrayCanvas, new_width: u32, new_height: u32) -> (r: GrayCanvas)
    requires
        canvas_width(*c) * new_height * 4 <= usize::MAX,
        new_width * new_height * 4 <= usize::MAX,
    ensures
        canvas_dims(r) == (new_width, new_height),
        canvas_pixels(r) == lanczos3_resized(
            canvas_pixels(*c),
            canvas_dims(*c).0,
            canvas_dims(*c).1,
            new_width,
            new_height,
        ),
{
    GrayCanvas { img: image::imageops::resize(&c.img, new_width, new_height, FilterType::Lanczos3) }
}

/// The pixels of a `w`-wide image after painting the rectangle with top-left
/// corner `(x0, y0)`, `width` by `height`, with `value`; the part of it off the
/// image is dropped.
pub open spec fn filled_rect(
    pixels: Seq<u8>,
    w: int,
    x0: int,
    y0: int,
    width: int,
    height: int,
    value: u8,
) -> Seq<u8> {
    Seq::new(
        pixels.len(),
        |i: int|
            if x0 <= i % w < x0 + width && y0 <= i / w < y0 + height {
                value
            } else {
                pixels[i]
            },
    )
}

/// A `u32` read as an `i32`, as `as` does: values past `i32::MAX` wrap to
/// negative ones.
pub open spec fn wrapping_i32(v: u32) -> int {
    if v <= i32::MAX {
        v as int
    } else {
        v - 0x1_0000_0000
    }
}

/// `imageproc::drawing::draw_filled_rect_mut` with the rectangle
/// `imageproc::rect::Rect::at(x, y).of_size(width, height)`: paints the part
/// of the rectangle that lies on the image with `value`. `of_size` panics on a
/// zero width or height (the image's own bounding rectangle too), and the
/// right and bottom edges are computed in `i32` as `x + width as i32 - 1`: a
/// width or height past `i32::MAX` wraps to a negative one, so that the
/// rectangle meets nothing and no pixel changes.
#[verifier::external_body]
pub(crate) fn image_fill_rect(c: &mut GrayCanvas, x: i32, y: i32, width: u32, height: u32, value: u8)
    requires
        1 <= width,
        1 <= height,
        i32::MIN + 1 <= x + wrapping_i32(width) <= i32::MAX,
        i32::MIN + 1 <= y + wrapping_i32(height) <= i32::MAX,
        1 <= canvas_width(*old(c)) <= i32::MAX,
        1 <= canvas_height(*old(c)) <= i32::MAX,
    ensures
        canvas_dims(*final(c)) == canvas_dims(*old(c)),
        canvas_pixels(*final(c)) == (if width <= i32::MAX && height <= i32::MAX {
            filled_rect(
                canvas_pixels(*old(c)),
                canvas_width(*old(c)),
                x as int,
                y as int,
                width as int,
                height as int,
                value,
            )
        } else {
            canvas_pixels(*old(c))
        }),
{
    draw_filled_rect_mut(&mut c.img, Rect::at(x, y).of_size(width, height), Luma([value]))
}

/// Index `i` of a `w`-wide image is pixel `(i % w, i / w)`.
pub proof fn lemma_coords(w: int, x: int, y: int)
    requires
        0 <= x < w,
        0 <= y,
    ensures
        (y * w + x) % w == x,
        (y * w + x) / w == y,
{
    lemma_fundamental_div_mod_converse(y * w + x, w, y, x);
}

/// Two indices of a `w`-wide image with the same coordinates are the same.
pub proof fn lemma_index_of_coords(w: int, i: int)
    requires
        0 < w,
        0 <= i,
    ensures
        i == (i / w) * w + i % w,
        0 <= i % w < w,
        0 <= i / w,
{
    lemma_fundamental_div_mod(i, w);
    assert((i / w) * w == w * (i / w)) by (nonlinear_arith);
    assert(0 <= i / w) by (nonlinear_arith)
        requires 0 < w, 0 <= i;
}

/// The pixels of a `w`-wide image after drawing a picture made of
/// `scale`-by-`scale` cells, cell `(0, 0)` with its top-left corner at
/// `(px, py)`: a pixel in cell `(gx, gy)` takes the color `colors(gx, gy)`,
/// or keeps its value where that is `None`. A scale below one draws nothing.
pub open spec fn painted(
    pixels: Seq<u8>,
    w: int,
    px: int,
    py: int,
    scale: int,
    colors: spec_fn(int, int) -> Option<u8>,
) -> Seq<u8> {
    Seq::new(
        pixels.len(),
        |i: int|
            if scale > 0 {
                match colors((i % w - px) / scale, (i / w - py) / scale) {
                    Some(c) => c,
                    None => pixels[i],
                }
            } else {
                pixels[i]
            },
    )
}

/// Cell `g` of a row of `scale`-wide cells starting at `p` holds the values
/// from `p + g * scale` on, up to the next cell.
pub proof fn lemma_cell_of(v: int, p: int, scale: int, g: int)
    requires
        scale > 0,
    ensures
        ((v - p) / scale == g) <==> (p + g * scale <= v < p + g * scale + scale),
{
    if p + g * scale <= v < p + g * scale + scale {
        lemma_fundamental_div_mod_converse(v - p, scale, g, v - p - g * scale);
    }
    if (v - p) / scale == g {
        lemma_fundamental_div_mod(v - p, scale);
        assert(scale * g == g * scale) by (nonlinear_arith);
        assert(0 <= (v - p) % scale < scale) by {
            vstd::arithmetic::div_mod::lemma_mod_bound(v - p, scale);
        }
    }
}

/// Filling the square of one more cell, whose color was not drawn yet, draws
/// that cell too.
pub proof fn lemma_paint_cell(
    pixels: Seq<u8>,
    w: int,
    px: int,
    py: int,
    scale: int,
    before: spec_fn(int, int) -> Option<u8>,
    after: spec_fn(int, int) -> Option<u8>,
    gx: int,
    gy: int,
    c: u8,
)
    requires
        scale > 0,
        after(gx, gy) == Some(c),
        forall|a: int, b: int| (a != gx || b != gy) ==> #[trigger] after(a, b) == before(a, b),
    ensures
        filled_rect(
            painted(pixels, w, px, py, scale, before),
            w,
            px + gx * scale,
            py + gy * scale,
            scale,
            scale,
            c,
        ) == painted(pixels, w, px, py, scale, after),
{
    let lhs = filled_rect(
        painted(pixels, w, px, py, scale, before),
        w,
        px + gx * scale,
        py + gy * scale,
        scale,
        scale,
        c,
    );
    let rhs = painted(pixels, w, px, py, scale, after);
    assert forall|i: int| 0 <= i < pixels.len() implies lhs[i] == rhs[i] by {
        lemma_cell_of(i % w, px, scale, gx);
        lemma_cell_of(i / w, py, scale, gy);
    }
    assert(lhs =~= rhs);
}

/// Drawing with colors that agree everywhere draws the same.
pub proof fn lemma_paint_same(
    pixels: Seq<u8>,
    w: int,
    px: int,
    py: int,
    scale: int,
    before: spec_fn(int, int) -> Option<u8>,
    after: spec_fn(int, int) -> Option<u8>,
)
    requires
        forall|a: int, b: int| #[trigger] after(a, b) == before(a, b),
    ensures
        painted(pixels, w, px, py, scale, before) == painted(pixels, w, px, py, scale, after),
{
    assert(painted(pixels, w, px, py, scale, before) =~= painted(
        pixels,
        w,
        px,
        py,
        scale,
        after,
    ));
}

/// With no colors at all, nothing is drawn.
pub proof fn lemma_paint_nothing(
    pixels: Seq<u8>,
    w: int,
    px: int,
    py: int,
    scale: int,
    colors: spec_fn(int, int) -> Option<u8>,
)
    requires
        forall|a: int, b: int| #[trigger] colors(a, b) == None::<u8>,
    ensures
        painted(pixels, w, px, py, scale, colors) == pixels,
{
    assert(painted(pixels, w, px, py, scale, colors) =~= pixels);
}

impl GrayCanvas {
    /// A `width` by `height` image with every pixel `value`.
    pub fn from_pixel(width: u32, height: u32, value: u8) -> (c: GrayCanvas)
        requires
            width * height <= usize::MAX,
        ensures
            canvas_dims(c) == (width, height),
            canvas_pixels(c) == Seq::new((width * height) as nat, |i: int| value),
    {
        image_from_pixel(width, height, value)
    }

    /// An image over `width * height` samples, row after row; `None` when
    /// there are fewer.
    pub fn from_raw(width: u32, height: u32, data: Vec<u8>) -> (r: Option<GrayCanvas>)
        ensures
            r is Some <==> width * height <= data@.len(),
            r matches Some(c) ==> canvas_dims(c) == (width, height) && canvas_pixels(c)
                == data@.take(width * height),
    {
        image_from_raw(width, height, data)
    }

    /// The samples, the pixels first.
    pub fn into_raw(self) -> (data: Vec<u8>)
        ensures
            data@.len() >= canvas_pixels(self).len(),
            data@.take(canvas_pixels(self).len() as int) == canvas_pixels(self),
    {
        image_into_raw(self)
    }

    /// This image resampled to `new_width` by `new_height` with the Lanczos3 filter.
    pub fn resize_lanczos3(&self, new_width: u32, new_height: u32) -> (r: GrayCanvas)
        requires
            canvas_width(*self) * new_height * 4 <= usize::MAX,
            new_width * new_height * 4 <= usize::MAX,
        ensures
            canvas_dims(r) == (new_width, new_height),
            canvas_pixels(r) == lanczos3_resized(
                canvas_pixels(*self),
                canvas_dims(*self).0,
                canvas_dims(*self).1,
                new_width,
                new_height,
            ),
    {
        image_resize_lanczos3(self, new_width, new_height)
    }

    /// The width and height.
    pub fn dimensions(&self) -> (d: (u32, u32))
        ensures
            d == canvas_dims(*self),
            canvas_pixels(*self).len() == d.0 * d.1,
    {
        image_dimensions(self)
    }

    /// The value at `(x, y)`.
    pub fn get_pixel(&self, x: u32, y: u32) -> (v: u8)
        requires
            x < canvas_width(*self),
            y < canvas_height(*self),
        ensures
            v == canvas_pixels(*self)[y * canvas_width(*self) + x],
    {
        image_get_pixel(self, x, y)
    }

    /// Sets the value at `(x, y)`.
    pub fn put_pixel(&mut self, x: u32, y: u32, v: u8)
        requires
            x < canvas_width(*old(self)),
            y < canvas_height(*old(self)),
        ensures
            canvas_dims(*final(self)) == canvas_dims(*old(self)),
            canvas_pixels(*final(self)) == canvas_pixels(*old(self)).update(
                y * canvas_width(*old(self)) + x,
                v,
            ),
    {
        image_put_pixel(self, x, y, v)
    }
}

/// Paints a `size` by `size` square with top-left corner `(x0, y0)` with
/// `value`, skipping the pixels that fall off the image.
pub fn fill_square(c: &mut GrayCanvas, x0: i32, y0: i32, size: i32, value: u8)
    requires
        size <= 0 || (x0 + size - 1 <= i32::MAX && y0 + size - 1 <= i32::MAX),
    ensures
        canvas_dims(*final(c)) == canvas_dims(*old(c)),
        canvas_pixels(*final(c)) == filled_rect(
            canvas_pixels(*old(c)),
            canvas_width(*old(c)),
            x0 as int,
            y0 as int,
            if size > 0 { size as int } else { 0 },
            if size > 0 { size as int } else { 0 },
            value,
        ),
{
    let (iw, ih) = c.dimensions();
    let ghost w = iw as int;
    let ghost start = canvas_pixels(*c);
    let ghost side: int = if size > 0 { size as int } else { 0 };
    let mut dy: i32 = 0;
    while dy < size
        invariant
            0 <= dy <= side,
            side == (if size > 0 { size as int } else { 0 }),
            size <= 0 || (x0 + size - 1 <= i32::MAX && y0 + size - 1 <= i32::MAX),
            canvas_dims(*c) == (iw, ih),
            w == iw,
            start.len() == iw * ih,
            canvas_pixels(*c) == filled_rect(start, w, x0 as int, y0 as int, side, dy as int, value),
        decreases size - dy,
    {
        let ghost row_start = canvas_pixels(*c);
        let mut dx: i32 = 0;
        while dx < size
            invariant
                0 <= dx <= side,
                0 <= dy < side,
                side == size,
                x0 + size - 1 <= i32::MAX && y0 + size - 1 <= i32::MAX,
                canvas_dims(*c) == (iw, ih),
                w == iw,
                row_start.len() == iw * ih,
                row_start == filled_rect(start, w, x0 as int, y0 as int, side, dy as int, value),
                canvas_pixels(*c) == filled_rect(
                    row_start,
                    w,
                    x0 as int,
                    y0 + dy,
                    dx as int,
                    1,
                    value,
                ),
            decreases size - dx,
        {
            let rx = x0 + dx;
            let ry = y0 + dy;
            let ghost before = canvas_pixels(*c);
            if rx >= 0 && ry >= 0 && (rx as u32) < iw && (ry as u32) < ih {
                c.put_pixel(rx as u32, ry as u32, value);
                proof {
                    let idx = ry * w + rx;
                    lemma_coords(w, rx as int, ry as int);
                    assert(0 <= idx < iw * ih) by (nonlinear_arith)
                        requires idx == ry * w + rx, 0 <= rx < w, 0 <= ry < ih, w == iw;
                    assert forall|i: int| 0 <= i < before.len() implies canvas_pixels(*c)[i]
                        == filled_rect(row_start, w, x0 as int, y0 + dy, dx + 1, 1, value)[i] by {
                        lemma_index_of_coords(w, i);
                        if i != idx {
                            assert(i % w != rx || i / w != ry);
                        }
                    }
                    assert(canvas_pixels(*c) =~= filled_rect(
                        row_start,
                        w,
                        x0 as int,
                        y0 + dy,
                        dx + 1,
                        1,
                        value,
                    ));
                }
            } else {
                proof {
                    assert forall|i: int| 0 <= i < before.len() implies before[i] == filled_rect(
                        row_start,
                        w,
                        x0 as int,
                        y0 + dy,
                        dx + 1,
                        1,
                        value,
                    )[i] by {
                        if w > 0 {
                            lemma_index_of_coords(w, i);
                            if i % w == rx && i / w == ry {
                                assert(i / w < ih) by (nonlinear_arith)
                                    requires 0 <= i < iw * ih, w == iw, 0 <= i % w, i == (i / w) * w + i % w;
                            }
                        }
                    }
                    assert(before =~= filled_rect(
                        row_start,
                        w,
                        x0 as int,
                        y0 + dy,
                        dx + 1,
                        1,
                        value,
                    ));
                }
            }
            dx = dx + 1;
        }
        proof {
            assert(canvas_pixels(*c) =~= filled_rect(
                start,
                w,
                x0 as int,
                y0 as int,
                side,
                dy + 1,
                value,
            ));
        }
        dy = dy + 1;
    }
    proof {
        if size <= 0 {
            assert(canvas_pixels(*c) =~= filled_rect(start, w, x0 as int, y0 as int, 0, 0, value));
        }
    }
}

} // verus!
