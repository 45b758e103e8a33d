//! The panel's 1-bit framebuffer: 800x480 pixels, packed eight to a byte,
//! most significant bit first, rows one after another. A cleared bit is a
//! black pixel, a set bit a white one.
use vstd::prelude::*;

verus! {

/// Panel width in pixels.
pub const WIDTH: u32 = 800;

/// Panel height in pixels.
pub const HEIGHT: u32 = 480;

/// Bytes per framebuffer row (`WIDTH / 8`).
pub const ROW_BYTES: usize = 100;

/// Bytes in a whole framebuffer (`ROW_BYTES * HEIGHT`).
pub const FB_SIZE: usize = 48000;

/// Index of the byte that holds pixel `(x, y)`.
pub open spec fn byte_index(x: int, y: int) -> int {
    y * ROW_BYTES + x / 8
}

/// The bit of its byte that stands for a pixel in column `x`.
pub open spec fn bit_mask(x: int) -> u8 {
    0x80u8 >> ((x % 8) as u8)
}

/// Whether pixel `(x, y)` of the packed bytes is black.
pub open spec fn black_at(bytes: Seq<u8>, x: int, y: int) -> bool {
    bytes[byte_index(x, y)] & bit_mask(x) == 0
}

/// Whether `(x, y)` is a pixel of the panel.
pub open spec fn on_panel(x: int, y: int) -> bool {
    0 <= x < WIDTH && 0 <= y < HEIGHT
}

pub proof fn lemma_layout(x: int, y: int)
    requires
        on_panel(x, y),
    ensures
        0 <= byte_index(x, y) < FB_SIZE,
        byte_index(x, y) / (ROW_BYTES as int) == y,
        (byte_index(x, y) % (ROW_BYTES as int)) * 8 + x % 8 == x,
{
    assert(0 <= byte_index(x, y) < FB_SIZE) by (nonlinear_arith)
        requires 0 <= x < 800, 0 <= y < 480, byte_index(x, y) == y * 100 + x / 8;
    assert(byte_index(x, y) / 100 == y && (byte_index(x, y) % 100) * 8 + x % 8 == x)
        by (nonlinear_arith)
        requires 0 <= x < 800, 0 <= y < 480, byte_index(x, y) == y * 100 + x / 8;
}

/// Two distinct panel pixels that share a byte use different bits of it.
pub proof fn lemma_same_byte(x1: int, y1: int, x2: int, y2: int)
    requires
        on_panel(x1, y1),
        on_panel(x2, y2),
        byte_index(x1, y1) == byte_index(x2, y2),
        x1 != x2 || y1 != y2,
    ensures
        y1 == y2,
        x1 / 8 == x2 / 8,
        x1 % 8 != x2 % 8,
{
    lemma_layout(x1, y1);
    lemma_layout(x2, y2);
}

pub proof fn lemma_clear_bit(b: u8, i: u8, j: u8)
    requires
        i < 8,
        j < 8,
    ensures
        (b & !(0x80u8 >> i)) & (0x80u8 >> i) == 0,
        i != j ==> (((b & !(0x80u8 >> i)) & (0x80u8 >> j) == 0) <==> (b & (0x80u8 >> j) == 0)),
{
    assert((b & !(0x80u8 >> i)) & (0x80u8 >> i) == 0) by (bit_vector)
        requires i < 8;
    assert(i != j ==> (((b & !(0x80u8 >> i)) & (0x80u8 >> j) == 0) <==> (b & (0x80u8 >> j) == 0)))
        by (bit_vector)
        requires i < 8, j < 8;
}

pub proof fn lemma_set_bit(b: u8, i: u8, j: u8)
    requires
        i < 8,
        j < 8,
    ensures
        (b | (0x80u8 >> i)) & (0x80u8 >> i) != 0,
        i != j ==> (((b | (0x80u8 >> i)) & (0x80u8 >> j) == 0) <==> (b & (0x80u8 >> j) == 0)),
{
    assert((b | (0x80u8 >> i)) & (0x80u8 >> i) != 0) by (bit_vector)
        requires i < 8;
    assert(i != j ==> (((b | (0x80u8 >> i)) & (0x80u8 >> j) == 0) <==> (b & (0x80u8 >> j) == 0)))
        by (bit_vector)
        requires i < 8, j < 8;
}

pub proof fn lemma_white_byte(i: u8)
    requires
        i < 8,
    ensures
        0xFFu8 & (0x80u8 >> i) != 0,
        0u8 & (0x80u8 >> i) == 0,
{
    assert(0xFFu8 & (0x80u8 >> i) != 0) by (bit_vector)
        requires i < 8;
    assert(0u8 & (0x80u8 >> i) == 0) by (bit_vector);
}

/// The bytes after setting pixel `(x, y)` black or white; a pixel off the
/// panel leaves them as they are.
pub open spec fn with_pixel(bytes: Seq<u8>, x: int, y: int, black: bool) -> Seq<u8> {
    if on_panel(x, y) {
        let i = byte_index(x, y);
        bytes.update(i, if black { bytes[i] & !bit_mask(x) } else { bytes[i] | bit_mask(x) })
    } else {
        bytes
    }
}

/// The bytes of one panel image.
pub struct Framebuffer {
    bytes: Vec<u8>,
}

impl View for Framebuffer {
    type V = Seq<u8>;

    closed spec fn view(&self) -> Seq<u8> {
        self.bytes@
    }
}

impl Framebuffer {
    /// A framebuffer always holds exactly `FB_SIZE` bytes.
    pub open spec fn wf(&self) -> bool {
        self@.len() == FB_SIZE
    }

    /// Whether pixel `(x, y)` is black.
    pub open spec fn black(&self, x: int, y: int) -> bool {
        black_at(self@, x, y)
    }

    /// A zeroed framebuffer, as the firmware's static buffer starts out: every pixel black.
    pub fn new() -> (fb: Framebuffer)
        ensures
            fb.wf(),
            fb@ == Seq::new(FB_SIZE as nat, |i: int| 0u8),
            forall|x: int, y: int| on_panel(x, y) ==> fb.black(x, y),
    {
        let fb = Framebuffer { bytes: vec![0u8; FB_SIZE] };
        assert forall|x: int, y: int| on_panel(x, y) implies fb.black(x, y) by {
            lemma_layout(x, y);
            lemma_white_byte((x % 8) as u8);
        }
        fb
    }

    /// A framebuffer over the given bytes; `None` unless there are exactly `FB_SIZE` of them.
    pub fn from_bytes(bytes: Vec<u8>) -> (r: Option<Framebuffer>)
        ensures
            r is Some <==> bytes@.len() == FB_SIZE,
            r matches Some(fb) ==> fb.wf() && fb@ == bytes@,
    {
        if bytes.len() == FB_SIZE {
            Some(Framebuffer { bytes })
        } else {
            None
        }
    }

    /// The packed bytes, in the order the panel takes them.
    pub fn bytes(&self) -> (b: &Vec<u8>)
        requires
            self.wf(),
        ensures
            b@ == self@,
            b@.len() == FB_SIZE,
    {
        &self.bytes
    }

    /// Paints the whole framebuffer white.
    pub fn clear_white(&mut self)
        requires
            old(self).wf(),
        ensures
            final(self).wf(),
            final(self)@ == Seq::new(FB_SIZE as nat, |i: int| 0xFFu8),
            forall|x: int, y: int| on_panel(x, y) ==> !final(self).black(x, y),
    {
        let mut i: usize = 0;
        while i < self.bytes.len()
            invariant
                self.bytes@.len() == FB_SIZE,
                i <= FB_SIZE,
                forall|k: int| 0 <= k < i ==> self.bytes@[k] == 0xFFu8,
            decreases FB_SIZE - i,
        {
            self.bytes.set(i, 0xFF);
            i = i + 1;
        }
        assert(self@ =~= Seq::new(FB_SIZE as nat, |i: int| 0xFFu8));
        assert forall|x: int, y: int| on_panel(x, y) implies !self.black(x, y) by {
            lemma_layout(x, y);
            lemma_white_byte((x % 8) as u8);
        }
    }

    /// Whether pixel `(x, y)` is black; off the panel, `false`.
    pub fn is_black(&self, x: u32, y: u32) -> (b: bool)
        requires
            self.wf(),
        ensures
            b == (on_panel(x as int, y as int) && self.black(x as int, y as int)),
    {
        if x >= WIDTH || y >= HEIGHT {
            return false;
        }
        proof {
            lemma_layout(x as int, y as int);
        }
        assert((x as usize >> 3) == x / 8) by (bit_vector);
        let idx = y as usize * ROW_BYTES + (x as usize >> 3);
        assert((x & 7) == x % 8) by (bit_vector);
        let mask = 0x80u8 >> (x & 7);
        self.bytes[idx] & mask == 0
    }

    /// Sets pixel `(x, y)` black or white; a pixel off the panel is ignored.
    pub fn set_pixel(&mut self, x: u32, y: u32, black: bool)
        requires
            old(self).wf(),
        ensures
            final(self).wf(),
            final(self)@ == with_pixel(old(self)@, x as int, y as int, black),
    {
        if x >= WIDTH || y >= HEIGHT {
            return;
        }
        proof {
            lemma_layout(x as int, y as int);
        }
        assert((x as usize >> 3) == x / 8) by (bit_vector);
        let idx = y as usize * ROW_BYTES + (x as usize >> 3);
        assert((x & 7) == x % 8) by (bit_vector);
        let mask = 0x80u8 >> (x & 7);
        let old_byte = self.bytes[idx];
        if black {
            self.bytes.set(idx, old_byte & !mask);
        } else {
            self.bytes.set(idx, old_byte | mask);
        }
    }

    /// Draws one pixel at signed coordinates: `on` is black. A pixel with a
    /// negative coordinate, or off the panel, is ignored.
    pub fn draw_point(&mut self, x: i32, y: i32, on: bool)
        requires
            old(self).wf(),
        ensures
            final(self).wf(),
            final(self)@ == with_pixel(old(self)@, x as int, y as int, on),
    {
        if x >= 0 && y >= 0 {
            self.set_pixel(x as u32, y as u32, on);
        }
    }
}

/// The panel's bit order: pixel `(x, y)` is held in byte `y * 100 + x / 8`,
/// the leftmost of eight pixels in the byte's most significant bit; its
/// value there is `byte / [128, 64, 32, 16, 8, 4, 2, 1][x % 8] % 2`, and the
/// pixel is black exactly when that bit is 0.
pub proof fn law_pixel_bit(bytes: Seq<u8>, x: int, y: int)
    requires
        bytes.len() == FB_SIZE,
        on_panel(x, y),
    ensures
        byte_index(x, y) == y * 100 + x / 8,
        black_at(bytes, x, y) <==> (bytes[y * 100 + x / 8] as int / seq![128int, 64, 32, 16, 8, 4, 2, 1][x % 8])
            % 2 == 0,
{
    let b = bytes[y * 100 + x / 8];
    let i = (x % 8) as u8;
    assert(b & (0x80u8 >> i) == 0 <==> (b / (0x80u8 >> i)) % 2 == 0) by (bit_vector)
        requires i < 8;
    assert(0x80u8 >> 0u8 == 128u8) by (bit_vector);
    assert(0x80u8 >> 1u8 == 64u8) by (bit_vector);
    assert(0x80u8 >> 2u8 == 32u8) by (bit_vector);
    assert(0x80u8 >> 3u8 == 16u8) by (bit_vector);
    assert(0x80u8 >> 4u8 == 8u8) by (bit_vector);
    assert(0x80u8 >> 5u8 == 4u8) by (bit_vector);
    assert(0x80u8 >> 6u8 == 2u8) by (bit_vector);
    assert(0x80u8 >> 7u8 == 1u8) by (bit_vector);
    assert((0x80u8 >> i) as int == seq![128int, 64, 32, 16, 8, 4, 2, 1][x % 8]);
}

/// Reading a pixel gives back what was last written to it.
pub proof fn law_read_after_write(bytes: Seq<u8>, x: int, y: int, black: bool)
    requires
        bytes.len() == FB_SIZE,
        on_panel(x, y),
    ensures
        black_at(with_pixel(bytes, x, y, black), x, y) == black,
{
    lemma_layout(x, y);
    let i = (x % 8) as u8;
    if black {
        lemma_clear_bit(bytes[byte_index(x, y)], i, i);
    } else {
        lemma_set_bit(bytes[byte_index(x, y)], i, i);
    }
}

/// Writing a pixel leaves every other pixel of the panel as it was.
pub proof fn law_write_keeps_others(
    bytes: Seq<u8>,
    x: int,
    y: int,
    black: bool,
    x2: int,
    y2: int,
)
    requires
        bytes.len() == FB_SIZE,
        on_panel(x2, y2),
        x != x2 || y != y2,
    ensures
        black_at(with_pixel(bytes, x, y, black), x2, y2) == black_at(bytes, x2, y2),
{
    lemma_layout(x2, y2);
    if on_panel(x, y) {
        lemma_layout(x, y);
        if byte_index(x, y) == byte_index(x2, y2) {
            lemma_same_byte(x, y, x2, y2);
            let i = (x % 8) as u8;
            let j = (x2 % 8) as u8;
            if black {
                lemma_clear_bit(bytes[byte_index(x, y)], i, j);
            } else {
                lemma_set_bit(bytes[byte_index(x, y)], i, j);
            }
        }
    }
}

/// Writing a pixel twice keeps only the second write.
pub proof fn law_last_write_wins(bytes: Seq<u8>, x: int, y: int, first: bool, second: bool)
    requires
        bytes.len() == FB_SIZE,
    ensures
        with_pixel(with_pixel(bytes, x, y, first), x, y, second) == with_pixel(bytes, x, y, second),
{
    if on_panel(x, y) {
        lemma_layout(x, y);
        let i = byte_index(x, y);
        let b = bytes[i];
        let m = bit_mask(x);
        let s = (x % 8) as u8;
        assert(((b & !m) & !m) == (b & !m) && ((b | m) & !m) == (b & !m) && ((b & !m) | m) == (b
            | m) && ((b | m) | m) == (b | m)) by (bit_vector)
            requires m == 0x80u8 >> s, s < 8;
        assert(with_pixel(with_pixel(bytes, x, y, first), x, y, second) =~= with_pixel(
            bytes,
            x,
            y,
            second,
        ));
    }
}

/// Writes to two different pixels can be done in either order.
pub proof fn law_writes_commute(
    bytes: Seq<u8>,
    x1: int,
    y1: int,
    b1: bool,
    x2: int,
    y2: int,
    b2: bool,
)
    requires
        bytes.len() == FB_SIZE,
        x1 != x2 || y1 != y2,
    ensures
        with_pixel(with_pixel(bytes, x1, y1, b1), x2, y2, b2) == with_pixel(
            with_pixel(bytes, x2, y2, b2),
            x1,
            y1,
            b1,
        ),
{
    if on_panel(x1, y1) && on_panel(x2, y2) {
        lemma_layout(x1, y1);
        lemma_layout(x2, y2);
        let i1 = byte_index(x1, y1);
        let i2 = byte_index(x2, y2);
        if i1 == i2 {
            lemma_same_byte(x1, y1, x2, y2);
            let b = bytes[i1];
            let s1 = (x1 % 8) as u8;
            let s2 = (x2 % 8) as u8;
            let m1 = bit_mask(x1);
            let m2 = bit_mask(x2);
            assert(((b & !m1) & !m2) == ((b & !m2) & !m1) && ((b | m1) & !m2) == ((b & !m2) | m1)
                && ((b & !m1) | m2) == ((b | m2) & !m1) && ((b | m1) | m2) == ((b | m2) | m1))
                by (bit_vector)
                requires m1 == 0x80u8 >> s1, m2 == 0x80u8 >> s2, s1 < 8, s2 < 8, s1 != s2;
        }
        assert(with_pixel(with_pixel(bytes, x1, y1, b1), x2, y2, b2) =~= with_pixel(
            with_pixel(bytes, x2, y2, b2),
            x1,
            y1,
            b1,
        ));
    }
}

} // verus!
