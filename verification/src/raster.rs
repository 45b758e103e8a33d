//! The server's side of the framebuffer: centering a picture on the panel
//! and packing a black-and-white picture into the panel's 1-bit format.
use vstd::prelude::*;
use crate::canvas::{GrayCanvas, lanczos3_resized, canvas_dims, canvas_pixels, canvas_width, canvas_height, lemma_coords, lemma_index_of_coords};
use crate::framebuffer::{FB_SIZE, ROW_BYTES, WIDTH, HEIGHT, black_at, byte_index, bit_mask, lemma_clear_bit, lemma_white_byte};

verus! {

/// The byte and the bit (0 the most significant) that pixel `i` of a
/// `w`-wide picture goes to.
pub open spec fn pack_pos(w: int, i: int) -> (int, int) {
    ((i / w) * ROW_BYTES + (i % w) / 8, (i % w) % 8)
}

/// Whether some black pixel among the first `limit` of a `w`-wide picture
/// goes to bit `k` of byte `b`.
pub open spec fn black_goes_to(w: int, black: Seq<bool>, limit: int, b: int, k: int) -> bool {
    exists|i: int| 0 <= i < limit && black[i] && #[trigger] pack_pos(w, i) == (b, k)
}

/// Whether every black pixel of a `w`-wide picture of `n` pixels goes to a
/// byte of the framebuffer.
pub open spec fn pack_fits(w: int, n: int, black: Seq<bool>) -> bool {
    forall|i: int| 0 <= i < n && black[i] ==> 0 <= #[trigger] pack_pos(w, i).0 < FB_SIZE
}

/// Whether bit `k` (0 the most significant) of byte `b` is cleared.
pub open spec fn bit_clear(b: u8, k: int) -> bool {
    b & (0x80u8 >> (k as u8)) == 0
}

/// Packs a `w` by `h` picture, given as which pixels are black (row after
/// row), into a framebuffer: white everywhere but at the bits of black
/// pixels, row `y` starting at byte `y * ROW_BYTES`, eight pixels a byte,
/// most significant bit first.
pub fn pack_1bpp(w: usize, h: usize, black: &Vec<bool>) -> (fb: Vec<u8>)
    requires
        black@.len() == w * h,
        pack_fits(w as int, (w * h) as int, black@),
    ensures
        fb@.len() == FB_SIZE,
        forall|b: int, k: int|
            0 <= b < FB_SIZE && 0 <= k < 8 ==> (#[trigger] bit_clear(fb@[b], k) <==> black_goes_to(
                w as int,
                black@,
                (w * h) as int,
                b,
                k,
            )),
{
    let n = black.len();
    let mut fb = vec![0xFFu8; FB_SIZE];
    assert forall|b: int, k: int| 0 <= b < FB_SIZE && 0 <= k < 8 implies (#[trigger] bit_clear(fb@[b], k)
        <==> black_goes_to(w as int, black@, 0, b, k)) by {
        lemma_white_byte(k as u8);
    }
    let mut y: usize = 0;
    while y < h
        invariant
            y <= h,
            n == w * h,
            black@.len() == w * h,
            pack_fits(w as int, (w * h) as int, black@),
            fb@.len() == FB_SIZE,
            forall|b: int, k: int|
                0 <= b < FB_SIZE && 0 <= k < 8 ==> (#[trigger] bit_clear(fb@[b], k)
                    <==> black_goes_to(w as int, black@, (y * w) as int, b, k)),
        decreases h - y,
    {
        assert((y + 1) * w <= w * h) by (nonlinear_arith)
            requires y < h;
        let mut x: usize = 0;
        while x < w
            invariant
                x <= w,
                y < h,
                (y + 1) * w <= w * h,
                n == w * h,
                black@.len() == w * h,
                pack_fits(w as int, (w * h) as int, black@),
                fb@.len() == FB_SIZE,
                forall|b: int, k: int|
                    0 <= b < FB_SIZE && 0 <= k < 8 ==> (#[trigger] bit_clear(fb@[b], k)
                        <==> black_goes_to(w as int, black@, (y * w + x) as int, b, k)),
            decreases w - x,
        {
            assert(y * w + x < w * h) by (nonlinear_arith)
                requires x < w, (y + 1) * w <= w * h;
            let i = y * w + x;
            let ghost old_fb = fb@;
            proof {
                lemma_coords(w as int, x as int, y as int);
                assert(y * w + x == (y as int) * (w as int) + (x as int));
            }
            if black[i] {
                assert(0 <= pack_pos(w as int, i as int).0 < FB_SIZE);
                assert((x >> 3) == x / 8) by (bit_vector);
                assert((x & 7) == x % 8) by (bit_vector);
                let idx = y * ROW_BYTES + (x >> 3);
                assert(pack_pos(w as int, i as int) == (idx as int, (x % 8) as int));
                let mask = 0x80u8 >> (x & 7);
                let byte = fb[idx];
                fb.set(idx, byte & !mask);
                proof {
                    let kx = (x % 8) as u8;
                    assert forall|b: int, k: int| 0 <= b < FB_SIZE && 0 <= k < 8 implies (#[trigger] bit_clear(fb@[b], k)
                        <==> black_goes_to(w as int, black@, i + 1, b, k)) by {
                        assert(bit_clear(old_fb[b], k) <==> black_goes_to(w as int, black@, i as int, b, k));
                        if b != idx {
                            assert(fb@[b] == old_fb[b]);
                        }
                        if black_goes_to(w as int, black@, i as int, b, k) {
                            let j = choose|j: int| 0 <= j < i && black@[j] && #[trigger] pack_pos(w as int, j) == (b, k);
                            assert(0 <= j < i + 1 && black@[j] && pack_pos(w as int, j) == (b, k));
                        }
                        if black_goes_to(w as int, black@, i + 1, b, k) && !black_goes_to(w as int, black@, i as int, b, k) {
                            let j = choose|j: int| 0 <= j < i + 1 && black@[j] && #[trigger] pack_pos(w as int, j) == (b, k);
                            if j < i {
                                assert(black_goes_to(w as int, black@, i as int, b, k));
                            }
                            assert(j == i);
                            assert(b == idx && k == x % 8);
                        }
                        if b == idx {
                            lemma_clear_bit(byte, kx, k as u8);
                            if k == x % 8 {
                                assert(pack_pos(w as int, i as int) == (b, k));
                                assert(black_goes_to(w as int, black@, i + 1, b, k));
                            }
                        }
                    }
                }
            } else {
                proof {
                    assert forall|b: int, k: int| 0 <= b < FB_SIZE && 0 <= k < 8 implies (#[trigger] bit_clear(fb@[b], k)
                        <==> black_goes_to(w as int, black@, i + 1, b, k)) by {
                        assert(bit_clear(fb@[b], k) <==> black_goes_to(w as int, black@, i as int, b, k));
                        if black_goes_to(w as int, black@, i as int, b, k) {
                            let j = choose|j: int| 0 <= j < i && black@[j] && #[trigger] pack_pos(w as int, j) == (b, k);
                            assert(0 <= j < i + 1 && black@[j] && pack_pos(w as int, j) == (b, k));
                        }
                        if black_goes_to(w as int, black@, i + 1, b, k) {
                            let j = choose|j: int| 0 <= j < i + 1 && black@[j] && #[trigger] pack_pos(w as int, j) == (b, k);
                            assert(j != i);
                            assert(0 <= j < i && black@[j] && pack_pos(w as int, j) == (b, k));
                        }
                    }
                }
            }
            x = x + 1;
        }
        assert(y * w + w == (y + 1) * w) by (nonlinear_arith);
        y = y + 1;
    }
    assert(h * w == w * h) by (nonlinear_arith);
    fb
}

/// A picture as wide as the panel, packed, reads back as the picture on the
/// panel: pixel `(x, y)` of the framebuffer is black exactly when pixel
/// `(x, y)` of the picture is, for a picture of at most the panel's size.
pub proof fn law_pack_reads_back(w: int, h: int, black: Seq<bool>, fb: Seq<u8>, x: int, y: int)
    requires
        0 < w <= WIDTH,
        0 < h <= HEIGHT,
        black.len() == w * h,
        fb.len() == FB_SIZE,
        forall|b: int, k: int|
            0 <= b < FB_SIZE && 0 <= k < 8 ==> (#[trigger] bit_clear(fb[b], k) <==> black_goes_to(
                w,
                black,
                w * h,
                b,
                k,
            )),
        0 <= x < w,
        0 <= y < h,
    ensures
        black_at(fb, x, y) == black[y * w + x],
{
    crate::framebuffer::lemma_layout(x, y);
    let b = byte_index(x, y);
    let k = x % 8;
    assert(bit_mask(x) == 0x80u8 >> (k as u8));
    lemma_coords(w, x, y);
    assert(0 <= y * w + x < w * h) by (nonlinear_arith)
        requires 0 <= x < w, 0 <= y < h;
    assert(pack_pos(w, y * w + x) == (b, k));
    assert(bit_clear(fb[b], k) == black_at(fb, x, y));
    if black[y * w + x] {
        assert(black_goes_to(w, black, w * h, b, k));
    }
    if black_goes_to(w, black, w * h, b, k) {
        let j = choose|j: int| 0 <= j < w * h && black[j] && #[trigger] pack_pos(w, j) == (b, k);
        lemma_index_of_coords(w, j);
        let xj = j % w;
        let yj = j / w;
        assert(yj < h) by (nonlinear_arith)
            requires j == yj * w + xj, 0 <= xj, j < w * h, w > 0;
        crate::framebuffer::lemma_layout(xj, yj);
        assert(byte_index(xj, yj) == b);
        assert(pack_pos(w, j) == (yj * ROW_BYTES + xj / 8, xj % 8));
        if xj != x || yj != y {
            crate::framebuffer::lemma_same_byte(x, y, xj, yj);
        }
        assert(j == y * w + x);
    }
}

/// The top-left corner of a `sw` by `sh` picture centered on the panel.
pub open spec fn center_offset(sw: int, sh: int) -> (int, int) {
    ((WIDTH - sw) / 2, (HEIGHT - sh) / 2)
}

/// A white panel-sized canvas with the first `upto` pixels (row after row)
/// of a `sw`-wide picture `src` copied to it at offset `(ox, oy)`.
pub open spec fn placed(src: Seq<u8>, sw: int, sh: int, ox: int, oy: int, upto: int) -> Seq<u8> {
    Seq::new(
        (WIDTH * HEIGHT) as nat,
        |i: int|
            {
                let x = i % (WIDTH as int);
                let y = i / (WIDTH as int);
                if ox <= x < ox + sw && oy <= y < oy + sh && (y - oy) * sw + (x - ox) < upto {
                    src[(y - oy) * sw + (x - ox)]
                } else {
                    255u8
                }
            },
    )
}

proof fn lemma_place_step(
    before: Seq<u8>,
    src: Seq<u8>,
    sw: int,
    sh: int,
    ox: int,
    oy: int,
    x: int,
    y: int,
)
    requires
        0 <= x < sw,
        0 <= y < sh,
        0 <= ox,
        0 <= oy,
        ox + sw <= WIDTH,
        oy + sh <= HEIGHT,
        before == placed(src, sw, sh, ox, oy, y * sw + x),
    ensures
        0 <= (oy + y) * (WIDTH as int) + (ox + x) < WIDTH * HEIGHT,
        before.update((oy + y) * (WIDTH as int) + (ox + x), src[y * sw + x]) == placed(
            src,
            sw,
            sh,
            ox,
            oy,
            y * sw + x + 1,
        ),
{
    let cx = ox + x;
    let cy = oy + y;
    let idx = cy * (WIDTH as int) + cx;
    lemma_coords(WIDTH as int, cx, cy);
    assert(0 <= idx < WIDTH * HEIGHT) by (nonlinear_arith)
        requires idx == cy * 800 + cx, 0 <= cx < 800, 0 <= cy < 480;
    let after = placed(src, sw, sh, ox, oy, y * sw + x + 1);
    let upd = before.update(idx, src[y * sw + x]);
    assert forall|i: int| 0 <= i < WIDTH * HEIGHT implies upd[i] == after[i] by {
        lemma_index_of_coords(WIDTH as int, i);
        let px = i % (WIDTH as int);
        let py = i / (WIDTH as int);
        if i == idx {
            assert(px == cx && py == cy);
        } else {
            assert(px != cx || py != cy);
            if ox <= px < ox + sw && oy <= py < oy + sh {
                let k = (py - oy) * sw + (px - ox);
                if k == y * sw + x {
                    lemma_coords(sw, px - ox, py - oy);
                    lemma_coords(sw, x, y);
                }
            }
        }
    }
    assert(upd =~= after);
}

/// Puts a picture no larger than the panel on a white panel-sized canvas,
/// centered (rounding the margins down).
pub fn place_centered(picture: &GrayCanvas) -> (c: GrayCanvas)
    requires
        canvas_width(*picture) <= WIDTH,
        canvas_height(*picture) <= HEIGHT,
    ensures
        canvas_dims(c) == (WIDTH, HEIGHT),
        canvas_pixels(c) == placed(
            canvas_pixels(*picture),
            canvas_width(*picture),
            canvas_height(*picture),
            center_offset(canvas_width(*picture), canvas_height(*picture)).0,
            center_offset(canvas_width(*picture), canvas_height(*picture)).1,
            canvas_width(*picture) * canvas_height(*picture),
        ),
{
    let (sw, sh) = picture.dimensions();
    let ox = (WIDTH - sw) / 2;
    let oy = (HEIGHT - sh) / 2;
    let mut canvas = GrayCanvas::from_pixel(WIDTH, HEIGHT, 255);
    let ghost src = canvas_pixels(*picture);
    proof {
        assert forall|i: int| 0 <= i < WIDTH * HEIGHT implies canvas_pixels(canvas)[i] == placed(
            src,
            sw as int,
            sh as int,
            ox as int,
            oy as int,
            0,
        )[i] by {
            lemma_index_of_coords(WIDTH as int, i);
            let x = i % (WIDTH as int);
            let y = i / (WIDTH as int);
            if ox <= x < ox + sw && oy <= y < oy + sh {
                assert(0 <= (y - oy) * (sw as int)) by (nonlinear_arith)
                    requires y >= oy, sw >= 0;
            }
        }
        assert(canvas_pixels(canvas) =~= placed(src, sw as int, sh as int, ox as int, oy as int, 0));
    }
    let mut y: u32 = 0;
    while y < sh
        invariant
            y <= sh,
            sw <= WIDTH,
            sh <= HEIGHT,
            ox == (WIDTH - sw) / 2,
            oy == (HEIGHT - sh) / 2,
            src == canvas_pixels(*picture),
            src.len() == sw * sh,
            canvas_dims(*picture) == (sw, sh),
            canvas_dims(canvas) == (WIDTH, HEIGHT),
            canvas_pixels(canvas) == placed(src, sw as int, sh as int, ox as int, oy as int, y * sw),
        decreases sh - y,
    {
        let mut x: u32 = 0;
        while x < sw
            invariant
                x <= sw,
                y < sh,
                sw <= WIDTH,
                sh <= HEIGHT,
                ox == (WIDTH - sw) / 2,
                oy == (HEIGHT - sh) / 2,
                src == canvas_pixels(*picture),
                src.len() == sw * sh,
                canvas_dims(*picture) == (sw, sh),
                canvas_dims(canvas) == (WIDTH, HEIGHT),
                canvas_pixels(canvas) == placed(src, sw as int, sh as int, ox as int, oy as int, y * sw + x),
            decreases sw - x,
        {
            let v = picture.get_pixel(x, y);
            proof {
                lemma_place_step(canvas_pixels(canvas), src, sw as int, sh as int, ox as int, oy as int, x as int, y as int);
            }
            canvas.put_pixel(ox + x, oy + y, v);
            x = x + 1;
        }
        assert((y as int) * (sw as int) + (sw as int) == ((y + 1) as int) * (sw as int)) by (nonlinear_arith);
        y = y + 1;
    }
    assert((sh as int) * (sw as int) == (sw as int) * (sh as int)) by (nonlinear_arith);
    canvas
}

/// Shrinks a picture to `sw` by `sh` (the size that fits the panel) with the
/// Lanczos3 filter and centers the result on a white panel-sized canvas.
pub fn fit_to_panel(picture: &GrayCanvas, sw: u32, sh: u32) -> (c: GrayCanvas)
    requires
        sw <= WIDTH,
        sh <= HEIGHT,
        canvas_width(*picture) * sh * 4 <= usize::MAX,
    ensures
        canvas_dims(c) == (WIDTH, HEIGHT),
        canvas_pixels(c) == placed(
            lanczos3_resized(
                canvas_pixels(*picture),
                canvas_dims(*picture).0,
                canvas_dims(*picture).1,
                sw,
                sh,
            ),
            sw as int,
            sh as int,
            center_offset(sw as int, sh as int).0,
            center_offset(sw as int, sh as int).1,
            sw * sh,
        ),
{
    assert(sw * sh * 4 <= WIDTH * HEIGHT * 4) by (nonlinear_arith)
        requires sw <= WIDTH, sh <= HEIGHT;
    let resized = picture.resize_lanczos3(sw, sh);
    place_centered(&resized)
}

} // verus!
