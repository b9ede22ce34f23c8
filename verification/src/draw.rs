//! Drawing into the shadow frame buffer: glyphs, strings, hexadecimal
//! numbers, rectangles and clears.
use vstd::prelude::*;
use crate::font::{
    glyph_pixel, glyph_fits, glyph_location, glyph_start, font_info, font_header_readable, row_bit,
    row_bit_set, lemma_pixel_index, lemma_index_in_rows,
};

verus! {

/// The shadow copy of the frame buffer.
pub struct DoubleBuffer {
    pub vram_shadow: Vec<u32>,
    pub width: u32,
    pub height: u32,
    pub scanline: u32,
}

/// Whether pixel index `i` lies in the visible `w` by `h` area of a buffer with rows of `scan` pixels.
pub open spec fn on_screen(w: u32, h: u32, scan: u32, i: int) -> bool {
    scan > 0 && i % (scan as int) < w && i / (scan as int) < h
}

/// Whether the glyph of `c` drawn at (`x`, `y`) sets pixel index `i`.
pub open spec fn covers_char(w: u32, h: u32, scan: u32, font: Seq<u8>, c: u8, x: int, y: int, i: int) -> bool {
    on_screen(w, h, scan, i) && glyph_pixel(font, c, i % (scan as int) - x, i / (scan as int) - y)
}

/// `buf` with the pixels chosen by `f` set to `color`.
pub open spec fn repaint(buf: Seq<u32>, f: spec_fn(int) -> bool, color: u32) -> Seq<u32> {
    Seq::new(buf.len(), |i: int| if f(i) { color } else { buf[i] })
}

/// The buffer after drawing the glyph of `c` at (`x`, `y`).
pub open spec fn char_drawn(buf: Seq<u32>, w: u32, h: u32, scan: u32, font: Seq<u8>, x: int, y: int, c: u8, color: u32) -> Seq<u32> {
    repaint(buf, |i: int| covers_char(w, h, scan, font, c, x, y, i), color)
}

/// The buffer after drawing the bytes of `s` left to right, eight pixels apart, from (`x`, `y`).
pub open spec fn string_drawn(buf: Seq<u32>, w: u32, h: u32, scan: u32, font: Seq<u8>, x: int, y: int, s: Seq<u8>, color: u32) -> Seq<u32>
    decreases s.len(),
{
    if s.len() == 0 {
        buf
    } else {
        char_drawn(
            string_drawn(buf, w, h, scan, font, x, y, s.drop_last(), color),
            w, h, scan, font, x + 8 * (s.len() - 1), y, s.last(), color,
        )
    }
}

/// Whether every glyph of `s` drawn from (`x`, `y`) has 32-bit pixel coordinates.
pub open spec fn text_fits(font: Seq<u8>, s: Seq<u8>, x: int, y: u32) -> bool {
    forall|k: int| 0 <= k < s.len() ==> #[trigger] glyph_fits(font, s[k], (x + 8 * k) as u32, y) && x + 8 * k <= u32::MAX
}

/// Whether the rectangle at (`x`, `y`) of `rw` by `rh` pixels covers pixel index `i`.
pub open spec fn covers_rect(w: u32, h: u32, scan: u32, x: int, y: int, rw: int, rh: int, i: int) -> bool {
    &&& on_screen(w, h, scan, i)
    &&& x <= i % (scan as int) < x + rw
    &&& y <= i / (scan as int) < y + rh
}

impl DoubleBuffer {
    /// Whether the buffer holds at least `scanline * height` pixels and
    /// every visible pixel's index lies in it.
    pub open spec fn geometry_ok(&self) -> bool {
        &&& self.vram_shadow@.len() >= self.scanline * self.height
        &&& (self.height == 0 || self.width <= self.scanline)
    }

    /// A black shadow buffer for a frame buffer of the given geometry.
    pub fn new(pixels_per_scan_line: u32, horizontal_resolution: u32, vertical_resolution: u32) -> (db: Self)
        requires
            pixels_per_scan_line * vertical_resolution <= u32::MAX,
        ensures
            db.width == horizontal_resolution,
            db.height == vertical_resolution,
            db.scanline == pixels_per_scan_line,
            db.vram_shadow@.len() == pixels_per_scan_line * vertical_resolution,
            forall|i: int| 0 <= i < db.vram_shadow@.len() ==> db.vram_shadow@[i] == 0,
    {
        let size = (pixels_per_scan_line * vertical_resolution) as usize;
        let mut v: Vec<u32> = Vec::new();
        let mut i: usize = 0;
        while i < size
            invariant
                i <= size,
                v@.len() == i,
                forall|k: int| 0 <= k < i ==> v@[k] == 0,
            decreases size - i,
        {
            v.push(0);
            i = i + 1;
        }
        DoubleBuffer {
            vram_shadow: v,
            width: horizontal_resolution,
            height: vertical_resolution,
            scanline: pixels_per_scan_line,
        }
    }

    /// Sets the visible pixel (`px`, `py`), if it is visible.
    fn plot(&mut self, px: u32, py: u32, color: u32)
        requires
            old(self).geometry_ok(),
        ensures
            final(self).geometry_ok(),
            final(self).width == old(self).width,
            final(self).height == old(self).height,
            final(self).scanline == old(self).scanline,
            final(self).vram_shadow@ == if px < old(self).width && py < old(self).height {
                old(self).vram_shadow@.update(old(self).scanline * py + px, color)
            } else {
                old(self).vram_shadow@
            },
            px < old(self).width && py < old(self).height ==> on_screen(old(self).width, old(self).height, old(self).scanline, old(self).scanline * py + px)
                && (old(self).scanline * py + px) % (old(self).scanline as int) == px
                && (old(self).scanline * py + px) / (old(self).scanline as int) == py,
    {
        if px < self.width && py < self.height {
            proof {
                lemma_index_in_rows(self.scanline as int, px as int, py as int, self.height as int);
                lemma_pixel_index(self.scanline as int, px as int, py as int, self.scanline * py + px);
            }
            let _n = self.vram_shadow.len();
            assert((py as usize) * (self.scanline as usize) == self.scanline * py) by (nonlinear_arith);
            let index = py as usize * self.scanline as usize + px as usize;
            self.vram_shadow.set(index, color);
        }
    }
}

proof fn lemma_plot_repaint(
    buf: Seq<u32>,
    w: u32, h: u32, scan: u32,
    px: int, py: int,
    old_cov: spec_fn(int) -> bool,
    new_cov: spec_fn(int) -> bool,
    color: u32,
)
    requires
        scan > 0,
        buf.len() >= scan * h,
        h == 0 || w <= scan,
        0 <= px,
        0 <= py,
        forall|i: int| 0 <= i < buf.len() ==> #[trigger] new_cov(i) == (old_cov(i) || (on_screen(w, h, scan, i) && i % (scan as int) == px && i / (scan as int) == py)),
    ensures
        (if px < w && py < h { repaint(buf, old_cov, color).update(scan * py + px, color) } else { repaint(buf, old_cov, color) })
            =~= repaint(buf, new_cov, color),
{
    if px < w && py < h {
        lemma_index_in_rows(scan as int, px, py, h as int);
    }
    assert forall|i: int| 0 <= i < buf.len() implies
        (if px < w && py < h { repaint(buf, old_cov, color).update(scan * py + px, color) } else { repaint(buf, old_cov, color) })[i]
            == repaint(buf, new_cov, color)[i] by {
        assert(new_cov(i) == (old_cov(i) || (on_screen(w, h, scan, i) && i % (scan as int) == px && i / (scan as int) == py)));
        if px < w && py < h {
            lemma_index_in_rows(scan as int, px, py, h as int);
            lemma_pixel_index(scan as int, px, py, i);
            lemma_pixel_index(scan as int, px, py, scan * py + px);
        } else {
            assert(!(on_screen(w, h, scan, i) && i % (scan as int) == px && i / (scan as int) == py));
        }
    }
}

/// Draws the glyph of `c` at (`x`, `y`) into the visible area; nothing when
/// the font has no header or the glyph lies past its end.
pub fn draw_char_db(db: &mut DoubleBuffer, font: &[u8], x: u32, y: u32, c: u8, color: u32)
    requires
        old(db).geometry_ok(),
        font_header_readable(font@),
        glyph_fits(font@, c, x, y),
    ensures
        final(db).geometry_ok(),
        final(db).width == old(db).width,
        final(db).height == old(db).height,
        final(db).scanline == old(db).scanline,
        final(db).vram_shadow@ == char_drawn(old(db).vram_shadow@, old(db).width, old(db).height, old(db).scanline, font@, x as int, y as int, c, color),
{
    let ghost buf0 = db.vram_shadow@;
    let ghost w = db.width;
    let ghost h = db.height;
    let ghost scan = db.scanline;
    let (offset, height) = match glyph_location(font, c) {
        Some(l) => l,
        None => {
            assert(char_drawn(buf0, w, h, scan, font@, x as int, y as int, c, color) =~= buf0);
            return;
        },
    };
    let _n = font.len();
    if db.scanline == 0 || db.height == 0 {
        assert(char_drawn(buf0, w, h, scan, font@, x as int, y as int, c, color) =~= buf0);
        return;
    }
    let mut dy: usize = 0;
    while dy < height
        invariant
            dy <= height,
            db.geometry_ok(),
            db.width == w,
            db.height == h,
            db.scanline == scan,
            scan > 0,
            h > 0,
            buf0.len() >= scan * h,
            glyph_start(font@, c) == Some(offset as int),
            font_info(font@).unwrap().2 == height,
            offset + height <= font@.len(),
            font@.len() <= usize::MAX,
            glyph_fits(font@, c, x, y),
            db.vram_shadow@ == repaint(buf0, |i: int| covers_char(w, h, scan, font@, c, x as int, y as int, i) && i / (scan as int) - y < dy, color),
        decreases height - dy,
    {
        let row = font[offset + dy];
        let mut dx: u32 = 0;
        while dx < 8
            invariant
                dx <= 8,
                dy < height,
                db.geometry_ok(),
                db.width == w,
                db.height == h,
                db.scanline == scan,
                scan > 0,
                h > 0,
                buf0.len() >= scan * h,
                glyph_start(font@, c) == Some(offset as int),
                font_info(font@).unwrap().2 == height,
                offset + height <= font@.len(),
                row == font@[offset + dy],
                glyph_fits(font@, c, x, y),
                db.vram_shadow@ == repaint(buf0, |i: int| covers_char(w, h, scan, font@, c, x as int, y as int, i)
                    && (i / (scan as int) - y < dy || (i / (scan as int) - y == dy && i % (scan as int) - x < dx)), color),
            decreases 8 - dx,
        {
            let ghost old_cov = |i: int| covers_char(w, h, scan, font@, c, x as int, y as int, i)
                && (i / (scan as int) - y < dy || (i / (scan as int) - y == dy && i % (scan as int) - x < dx));
            let ghost new_cov = |i: int| covers_char(w, h, scan, font@, c, x as int, y as int, i)
                && (i / (scan as int) - y < dy || (i / (scan as int) - y == dy && i % (scan as int) - x < dx + 1));
            if row_bit_set(row, dx) {
                assert(glyph_pixel(font@, c, dx as int, dy as int));
                let px = x + dx;
                let py = y + dy as u32;
                proof {
                    lemma_plot_repaint(buf0, w, h, scan, px as int, py as int, old_cov, new_cov, color);
                }
                db.plot(px, py, color);
            } else {
                assert forall|i: int| 0 <= i < buf0.len() implies #[trigger] new_cov(i) == old_cov(i) by {
                    if i / (scan as int) - y == dy && i % (scan as int) - x == dx {
                        assert(!glyph_pixel(font@, c, dx as int, dy as int));
                    }
                }
                assert(repaint(buf0, old_cov, color) =~= repaint(buf0, new_cov, color));
            }
            dx = dx + 1;
        }
        assert(repaint(buf0, |i: int| covers_char(w, h, scan, font@, c, x as int, y as int, i)
            && (i / (scan as int) - y < dy || (i / (scan as int) - y == dy && i % (scan as int) - x < 8)), color)
            =~= repaint(buf0, |i: int| covers_char(w, h, scan, font@, c, x as int, y as int, i) && i / (scan as int) - y < dy + 1, color));
        dy = dy + 1;
    }
    assert(db.vram_shadow@ =~= char_drawn(buf0, w, h, scan, font@, x as int, y as int, c, color));
}

/// Whether some element of `v` is `i`.
pub open spec fn lists(v: Seq<u32>, i: int) -> bool {
    exists|k: int| 0 <= k < v.len() && v[k] == i
}

/// The frame-buffer indices that drawing the glyph of `c` at (`x`, `y`)
/// writes on a `w` by `h` screen with rows of `scan` pixels, in drawing
/// order: exactly the visible pixels the glyph sets.
pub fn glyph_indices(font: &[u8], w: u32, h: u32, scan: u32, x: u32, y: u32, c: u8) -> (v: Vec<u32>)
    requires
        font_header_readable(font@),
        glyph_fits(font@, c, x, y),
        scan * h <= u32::MAX,
        h == 0 || w <= scan,
    ensures
        forall|k: int| 0 <= k < v@.len() ==> v@[k] < scan * h
            && covers_char(w, h, scan, font@, c, x as int, y as int, #[trigger] v@[k] as int),
        forall|i: int| 0 <= i < scan * h && covers_char(w, h, scan, font@, c, x as int, y as int, i) ==> lists(v@, i),
{
    let mut v: Vec<u32> = Vec::new();
    let (offset, height) = match glyph_location(font, c) {
        Some(l) => l,
        None => return v,
    };
    let _n = font.len();
    if scan == 0 || h == 0 {
        return v;
    }
    let mut dy: usize = 0;
    while dy < height
        invariant
            dy <= height,
            scan > 0,
            h > 0,
            scan * h <= u32::MAX,
            w <= scan,
            glyph_start(font@, c) == Some(offset as int),
            font_info(font@).unwrap().2 == height,
            offset + height <= font@.len(),
            font@.len() <= usize::MAX,
            glyph_fits(font@, c, x, y),
            forall|k: int| 0 <= k < v@.len() ==> v@[k] < scan * h
                && covers_char(w, h, scan, font@, c, x as int, y as int, #[trigger] v@[k] as int),
            forall|i: int| 0 <= i < scan * h && covers_char(w, h, scan, font@, c, x as int, y as int, i)
                && i / (scan as int) - y < dy ==> lists(v@, i),
        decreases height - dy,
    {
        let row = font[offset + dy];
        let mut dx: u32 = 0;
        while dx < 8
            invariant
                dx <= 8,
                dy < height,
                scan > 0,
                h > 0,
                scan * h <= u32::MAX,
                w <= scan,
                glyph_start(font@, c) == Some(offset as int),
                font_info(font@).unwrap().2 == height,
                offset + height <= font@.len(),
                font@.len() <= usize::MAX,
                row == font@[offset + dy],
                glyph_fits(font@, c, x, y),
                forall|k: int| 0 <= k < v@.len() ==> v@[k] < scan * h
                    && covers_char(w, h, scan, font@, c, x as int, y as int, #[trigger] v@[k] as int),
                forall|i: int| 0 <= i < scan * h && covers_char(w, h, scan, font@, c, x as int, y as int, i)
                    && (i / (scan as int) - y < dy || (i / (scan as int) - y == dy && i % (scan as int) - x < dx))
                    ==> lists(v@, i),
            decreases 8 - dx,
        {
            let ghost v0 = v@;
            if row_bit_set(row, dx) {
                assert(glyph_pixel(font@, c, dx as int, dy as int));
                let px = x + dx;
                let py = y + dy as u32;
                if px < w && py < h {
                    proof {
                        lemma_index_in_rows(scan as int, px as int, py as int, h as int);
                        lemma_pixel_index(scan as int, px as int, py as int, scan * py + px);
                    }
                    let idx = scan * py + px;
                    v.push(idx);
                    proof {
                        assert(covers_char(w, h, scan, font@, c, x as int, y as int, idx as int));
                        assert forall|i: int| 0 <= i < scan * h && covers_char(w, h, scan, font@, c, x as int, y as int, i)
                            && (i / (scan as int) - y < dy || (i / (scan as int) - y == dy && i % (scan as int) - x < dx + 1))
                            implies lists(v@, i) by {
                            if i == idx {
                                assert(v@[v0.len() as int] == i);
                            } else {
                                lemma_pixel_index(scan as int, px as int, py as int, i);
                                assert(lists(v0, i));
                                let k = choose|k: int| 0 <= k < v0.len() && v0[k] == i;
                                assert(v@[k] == i);
                            }
                        }
                    }
                } else {
                    assert forall|i: int| 0 <= i < scan * h && covers_char(w, h, scan, font@, c, x as int, y as int, i)
                        && (i / (scan as int) - y < dy || (i / (scan as int) - y == dy && i % (scan as int) - x < dx + 1))
                        implies lists(v@, i) by {
                        if i / (scan as int) - y == dy && i % (scan as int) - x == dx {
                            assert(!on_screen(w, h, scan, i));
                        }
                    }
                }
            } else {
                assert forall|i: int| 0 <= i < scan * h && covers_char(w, h, scan, font@, c, x as int, y as int, i)
                    && (i / (scan as int) - y < dy || (i / (scan as int) - y == dy && i % (scan as int) - x < dx + 1))
                    implies lists(v@, i) by {
                    if i / (scan as int) - y == dy && i % (scan as int) - x == dx {
                        assert(!glyph_pixel(font@, c, dx as int, dy as int));
                    }
                }
            }
            dx = dx + 1;
        }
        dy = dy + 1;
    }
    v
}

/// The decimal digits of `v`, least significant first, none for zero.
pub open spec fn lsd_dec(v: nat) -> Seq<u8>
    decreases v,
{
    if v == 0 {
        Seq::empty()
    } else {
        seq![(0x30 + v % 10) as u8] + lsd_dec(v / 10)
    }
}

/// `v` in decimal, most significant digit first, "0" for zero.
pub open spec fn dec_text(v: nat) -> Seq<u8> {
    if v == 0 { seq![0x30u8] } else { lsd_dec(v).reverse() }
}

/// The characters `draw_u64` puts on the screen: `val` in decimal.
pub fn decimal_digits(val: u64) -> (t: Vec<u8>)
    ensures
        t@ == dec_text(val as nat),
{
    if val == 0 {
        let mut z: Vec<u8> = Vec::new();
        z.push(0x30u8);
        assert(z@ =~= dec_text(0));
        return z;
    }
    let mut digits: Vec<u8> = Vec::new();
    let mut v = val;
    while v > 0
        invariant
            digits@ + lsd_dec(v as nat) == lsd_dec(val as nat),
        decreases v,
    {
        digits.push((0x30 + v % 10) as u8);
        assert(digits@ + lsd_dec((v / 10) as nat) =~= lsd_dec(val as nat));
        v = v / 10;
    }
    assert(digits@ =~= lsd_dec(val as nat));
    let n = digits.len();
    let mut t: Vec<u8> = Vec::new();
    let mut j: usize = 0;
    while j < n
        invariant
            j <= n,
            n == digits@.len(),
            t@ == digits@.reverse().subrange(0, j as int),
        decreases n - j,
    {
        t.push(digits[n - 1 - j]);
        assert(t@ =~= digits@.reverse().subrange(0, j + 1));
        j = j + 1;
    }
    assert(t@ =~= digits@.reverse());
    t
}

/// Draws the bytes of `s` left to right from (`x`, `y`), eight pixels apart.
pub fn draw_string_db(db: &mut DoubleBuffer, font: &[u8], x: u32, y: u32, s: &[u8], color: u32)
    requires
        old(db).geometry_ok(),
        font_header_readable(font@),
        x + 8 * s@.len() <= u32::MAX,
        text_fits(font@, s@, x as int, y),
    ensures
        final(db).geometry_ok(),
        final(db).width == old(db).width,
        final(db).height == old(db).height,
        final(db).scanline == old(db).scanline,
        final(db).vram_shadow@ == string_drawn(old(db).vram_shadow@, old(db).width, old(db).height, old(db).scanline, font@, x as int, y as int, s@, color),
{
    let ghost buf0 = db.vram_shadow@;
    let mut cx = x;
    let mut k: usize = 0;
    while k < s.len()
        invariant
            k <= s@.len(),
            cx == x + 8 * k,
            x + 8 * s@.len() <= u32::MAX,
            db.geometry_ok(),
            db.width == old(db).width,
            db.height == old(db).height,
            db.scanline == old(db).scanline,
            buf0 == old(db).vram_shadow@,
            font_header_readable(font@),
            text_fits(font@, s@, x as int, y),
            db.vram_shadow@ == string_drawn(buf0, db.width, db.height, db.scanline, font@, x as int, y as int, s@.subrange(0, k as int), color),
        decreases s@.len() - k,
    {
        assert(glyph_fits(font@, s@[k as int], (x + 8 * k) as u32, y));
        draw_char_db(db, font, cx, y, s[k], color);
        assert(s@.subrange(0, k + 1).drop_last() =~= s@.subrange(0, k as int));
        cx = cx + 8;
        k = k + 1;
    }
    assert(s@.subrange(0, s@.len() as int) =~= s@);
}

/// Fills the whole shadow buffer with `color`.
pub fn clear_screen_db(db: &mut DoubleBuffer, color: u32)
    ensures
        final(db).width == old(db).width,
        final(db).height == old(db).height,
        final(db).scanline == old(db).scanline,
        final(db).vram_shadow@ == Seq::new(old(db).vram_shadow@.len(), |i: int| color),
{
    let mut i: usize = 0;
    while i < db.vram_shadow.len()
        invariant
            i <= db.vram_shadow@.len(),
            db.vram_shadow@.len() == old(db).vram_shadow@.len(),
            db.width == old(db).width,
            db.height == old(db).height,
            db.scanline == old(db).scanline,
            forall|k: int| 0 <= k < i ==> db.vram_shadow@[k] == color,
        decreases db.vram_shadow@.len() - i,
    {
        db.vram_shadow.set(i, color);
        i = i + 1;
    }
    assert(db.vram_shadow@ =~= Seq::new(old(db).vram_shadow@.len(), |i: int| color));
}

/// Whether drawing a `rw` by `rh` rectangle at (`x`, `y`) keeps pixel coordinates in 32 bits.
/// The buffer with the visible part of the rectangle at (`x`, `y`) of
/// `rw` by `rh` pixels set to `color`: what both `fill_rect_db` and
/// `draw_rect_db` leave, so the two draw the same pixels.
pub open spec fn rect_filled(buf: Seq<u32>, w: u32, h: u32, scan: u32, x: int, y: int, rw: int, rh: int, color: u32) -> Seq<u32> {
    repaint(buf, |i: int| covers_rect(w, h, scan, x, y, rw, rh, i), color)
}

pub open spec fn rect_fits(x: u32, y: u32, rw: u32, rh: u32) -> bool {
    rw == 0 || rh == 0 || (x + rw - 1 <= u32::MAX && y + rh - 1 <= u32::MAX)
}

/// Fills the visible part of the rectangle at (`x`, `y`) of `width` by `height` pixels.
pub fn fill_rect_db(db: &mut DoubleBuffer, x: u32, y: u32, width: u32, height: u32, color: u32)
    requires
        old(db).geometry_ok(),
        rect_fits(x, y, width, height),
    ensures
        final(db).geometry_ok(),
        final(db).width == old(db).width,
        final(db).height == old(db).height,
        final(db).scanline == old(db).scanline,
        final(db).vram_shadow@ == rect_filled(old(db).vram_shadow@, old(db).width, old(db).height, old(db).scanline,
            x as int, y as int, width as int, height as int, color),
{
    let ghost buf0 = db.vram_shadow@;
    let ghost w = db.width;
    let ghost h = db.height;
    let ghost scan = db.scanline;
    if db.scanline == 0 || db.height == 0 || width == 0 {
        assert(repaint(buf0, |i: int| covers_rect(w, h, scan, x as int, y as int, width as int, height as int, i), color) =~= buf0);
        return;
    }
    let mut dy: u32 = 0;
    while dy < height
        invariant
            dy <= height,
            width > 0,
            rect_fits(x, y, width, height),
            db.geometry_ok(),
            db.width == w,
            db.height == h,
            db.scanline == scan,
            scan > 0,
            h > 0,
            buf0.len() >= scan * h,
            db.vram_shadow@ == repaint(buf0, |i: int| covers_rect(w, h, scan, x as int, y as int, width as int, dy as int, i), color),
        decreases height - dy,
    {
        let mut dx: u32 = 0;
        while dx < width
            invariant
                dx <= width,
                dy < height,
                rect_fits(x, y, width, height),
                db.geometry_ok(),
                db.width == w,
                db.height == h,
                db.scanline == scan,
                scan > 0,
                h > 0,
                buf0.len() >= scan * h,
                db.vram_shadow@ == repaint(buf0, |i: int| covers_rect(w, h, scan, x as int, y as int, width as int, dy as int, i)
                    || (on_screen(w, h, scan, i) && i / (scan as int) == y + dy && x <= i % (scan as int) < x + dx), color),
            decreases width - dx,
        {
            let ghost old_cov = |i: int| covers_rect(w, h, scan, x as int, y as int, width as int, dy as int, i)
                || (on_screen(w, h, scan, i) && i / (scan as int) == y + dy && x <= i % (scan as int) < x + dx);
            let ghost new_cov = |i: int| covers_rect(w, h, scan, x as int, y as int, width as int, dy as int, i)
                || (on_screen(w, h, scan, i) && i / (scan as int) == y + dy && x <= i % (scan as int) < x + dx + 1);
            let px = x + dx;
            let py = y + dy;
            proof {
                lemma_plot_repaint(buf0, w, h, scan, px as int, py as int, old_cov, new_cov, color);
            }
            db.plot(px, py, color);
            dx = dx + 1;
        }
        assert(repaint(buf0, |i: int| covers_rect(w, h, scan, x as int, y as int, width as int, dy as int, i)
            || (on_screen(w, h, scan, i) && i / (scan as int) == y + dy && x <= i % (scan as int) < x + width), color)
            =~= repaint(buf0, |i: int| covers_rect(w, h, scan, x as int, y as int, width as int, dy + 1, i), color));
        dy = dy + 1;
    }
}

/// Fills the visible part of the rectangle at (`x`, `y`) of `width` by `height` pixels.
pub fn draw_rect_db(db: &mut DoubleBuffer, x: u32, y: u32, width: u32, height: u32, color: u32)
    requires
        old(db).geometry_ok(),
        rect_fits(x, y, width, height),
    ensures
        final(db).geometry_ok(),
        final(db).width == old(db).width,
        final(db).height == old(db).height,
        final(db).scanline == old(db).scanline,
        final(db).vram_shadow@ == rect_filled(old(db).vram_shadow@, old(db).width, old(db).height, old(db).scanline,
            x as int, y as int, width as int, height as int, color),
{
    fill_rect_db(db, x, y, width, height, color);
}

/// The ASCII hexadecimal digit of `n < 16`, upper case.
pub open spec fn hex_digit(n: nat) -> u8 {
    if n < 10 { (0x30 + n) as u8 } else { (0x41 + n - 10) as u8 }
}

pub fn hex_digit_of(n: u64) -> (c: u8)
    requires
        n < 16,
    ensures
        c == hex_digit(n as nat),
{
    if n < 10 { (0x30 + n) as u8 } else { (0x41 + n - 10) as u8 }
}

/// The buffer after the digits of `temp` are drawn from position `i` down
/// to position 0, least significant digit at position `i`, eight pixels per position.
pub open spec fn hex_steps(buf: Seq<u32>, w: u32, h: u32, scan: u32, font: Seq<u8>, x: int, y: int, temp: nat, i: int, color: u32) -> Seq<u32>
    decreases i + 1,
{
    if i < 0 {
        buf
    } else {
        hex_steps(
            char_drawn(buf, w, h, scan, font, x + 8 * i, y, hex_digit(temp % 16), color),
            w, h, scan, font, x, y, temp / 16, i - 1, color,
        )
    }
}

/// Whether the digits `hex_steps` draws have 32-bit pixel coordinates.
pub open spec fn hex_fits(font: Seq<u8>, x: int, y: u32, temp: nat, i: int) -> bool
    decreases i + 1,
{
    if i < 0 {
        true
    } else {
        glyph_fits(font, hex_digit(temp % 16), (x + 8 * i) as u32, y) && hex_fits(font, x, y, temp / 16, i - 1)
    }
}

/// Draws `value` as sixteen hexadecimal digits, most significant at (`x`, `y`).
pub fn draw_hex_db(db: &mut DoubleBuffer, font: &[u8], x: u32, y: u32, value: u64, color: u32)
    requires
        old(db).geometry_ok(),
        font_header_readable(font@),
        x + 8 * 15 <= u32::MAX,
        hex_fits(font@, x as int, y, value as nat, 15),
    ensures
        final(db).geometry_ok(),
        final(db).width == old(db).width,
        final(db).height == old(db).height,
        final(db).scanline == old(db).scanline,
        final(db).vram_shadow@ == hex_steps(old(db).vram_shadow@, old(db).width, old(db).height, old(db).scanline, font@, x as int, y as int, value as nat, 15, color),
{
    let ghost target = hex_steps(db.vram_shadow@, db.width, db.height, db.scanline, font@, x as int, y as int, value as nat, 15, color);
    let mut temp = value;
    let mut i: u32 = 16;
    while i > 0
        invariant
            i <= 16,
            x + 8 * 15 <= u32::MAX,
            db.geometry_ok(),
            db.width == old(db).width,
            db.height == old(db).height,
            db.scanline == old(db).scanline,
            font_header_readable(font@),
            hex_fits(font@, x as int, y, temp as nat, i - 1),
            hex_steps(db.vram_shadow@, db.width, db.height, db.scanline, font@, x as int, y as int, temp as nat, i - 1, color) == target,
        decreases i,
    {
        let k = i - 1;
        let nibble = temp & 0xF;
        assert(nibble == temp % 16) by (bit_vector)
            requires
                nibble == temp & 0xF,
        ;
        let c = hex_digit_of(nibble);
        draw_char_db(db, font, x + k * 8, y, c, color);
        let next = temp >> 4;
        assert(next == temp / 16) by (bit_vector)
            requires
                next == temp >> 4,
        ;
        temp = next;
        i = k;
    }
}

/// The hexadecimal digits of `v`, least significant first, without leading zeros.
pub open spec fn lsd_hex(v: nat) -> Seq<u8>
    decreases v,
{
    if v == 0 {
        Seq::empty()
    } else {
        seq![hex_digit(v % 16)] + lsd_hex(v / 16)
    }
}

/// `v` in hexadecimal, most significant digit first, "0" for zero.
pub open spec fn hex_text(v: nat) -> Seq<u8> {
    if v == 0 { seq![0x30u8] } else { lsd_hex(v).reverse() }
}

/// Draws `val` in hexadecimal without leading zeros at (`x`, `y`).
pub fn draw_u64_db(db: &mut DoubleBuffer, font: &[u8], x: u32, y: u32, val: u64, color: u32)
    requires
        old(db).geometry_ok(),
        font_header_readable(font@),
        x + 8 * hex_text(val as nat).len() <= u32::MAX,
        text_fits(font@, hex_text(val as nat), x as int, y),
    ensures
        final(db).geometry_ok(),
        final(db).width == old(db).width,
        final(db).height == old(db).height,
        final(db).scanline == old(db).scanline,
        final(db).vram_shadow@ == string_drawn(old(db).vram_shadow@, old(db).width, old(db).height, old(db).scanline, font@, x as int, y as int, hex_text(val as nat), color),
{
    if val == 0 {
        let zero = [0x30u8];
        assert(zero@ =~= hex_text(0));
        draw_string_db(db, font, x, y, zero.as_slice(), color);
        return;
    }
    let mut digits: Vec<u8> = Vec::new();
    let mut v = val;
    while v > 0
        invariant
            digits@ + lsd_hex(v as nat) == lsd_hex(val as nat),
        decreases v,
    {
        let m = v % 16;
        digits.push(hex_digit_of(m));
        assert(digits@ + lsd_hex((v / 16) as nat) =~= lsd_hex(val as nat));
        v = v / 16;
    }
    assert(digits@ =~= lsd_hex(val as nat));
    let ghost text = hex_text(val as nat);
    let ghost buf0 = db.vram_shadow@;
    let n = digits.len();
    let mut j: usize = 0;
    while j < n
        invariant
            j <= n,
            n == digits@.len(),
            text == digits@.reverse(),
            x + 8 * n <= u32::MAX,
            text_fits(font@, text, x as int, y),
            db.geometry_ok(),
            db.width == old(db).width,
            db.height == old(db).height,
            db.scanline == old(db).scanline,
            buf0 == old(db).vram_shadow@,
            font_header_readable(font@),
            db.vram_shadow@ == string_drawn(buf0, db.width, db.height, db.scanline, font@, x as int, y as int, text.subrange(0, j as int), color),
        decreases n - j,
    {
        let one = [digits[n - 1 - j]];
        assert(one@[0] == text[j as int]);
        assert(glyph_fits(font@, text[j as int], (x + 8 * j) as u32, y));
        assert(text_fits(font@, one@, (x + j * 8) as int, y)) by {
            assert forall|k: int| 0 <= k < one@.len() implies #[trigger] glyph_fits(font@, one@[k], (x + j * 8 + 8 * k) as u32, y)
                && x + j * 8 + 8 * k <= u32::MAX by {
                assert(k == 0);
            }
        }
        let ghost before = db.vram_shadow@;
        draw_string_db(db, font, x + (j as u32) * 8, y, one.as_slice(), color);
        assert(one@.drop_last() =~= Seq::<u8>::empty());
        assert(string_drawn(before, db.width, db.height, db.scanline, font@, (x + j * 8) as int, y as int, one@.drop_last(), color) == before);
        assert(db.vram_shadow@ == char_drawn(before, db.width, db.height, db.scanline, font@, x + 8 * j, y as int, text[j as int], color));
        assert(text.subrange(0, j + 1).drop_last() =~= text.subrange(0, j as int));
        j = j + 1;
    }
    assert(text.subrange(0, n as int) =~= text);
}

/// The three characters a hex dump shows for a byte: two digits and a space.
pub open spec fn dump_text(b: u8) -> Seq<u8> {
    seq![hex_digit(b as nat / 16), hex_digit(b as nat % 16), 0x20u8]
}

/// The buffer after the first `n` bytes of `data` are dumped, sixteen per row, rows twelve pixels apart.
pub open spec fn dump_drawn(buf: Seq<u32>, w: u32, h: u32, scan: u32, font: Seq<u8>, x: int, y: int, data: Seq<u8>, n: int, color: u32) -> Seq<u32>
    decreases n,
{
    if n <= 0 {
        buf
    } else {
        string_drawn(
            dump_drawn(buf, w, h, scan, font, x, y, data, n - 1, color),
            w, h, scan, font, x + ((n - 1) % 16) * 24, y + ((n - 1) / 16) * 12, dump_text(data[n - 1]), color,
        )
    }
}

/// How many bytes a hex dump of `data` shows: at most 128.
pub open spec fn dump_count(data: Seq<u8>) -> int {
    if data.len() < 128 { data.len() as int } else { 128 }
}

/// Whether every character of the dump has 32-bit pixel coordinates.
pub open spec fn dump_fits(font: Seq<u8>, data: Seq<u8>, x: u32, y: u32) -> bool {
    forall|i: int| 0 <= i < dump_count(data) ==> {
        &&& x + (i % 16) * 24 + 24 <= u32::MAX
        &&& y + (i / 16) * 12 <= u32::MAX
        &&& #[trigger] text_fits(font, dump_text(data[i]), x + (i % 16) * 24, (y + (i / 16) * 12) as u32)
    }
}

/// Dumps up to the first 128 bytes of `data` in hexadecimal, sixteen per row.
pub fn draw_hex_dump(db: &mut DoubleBuffer, font: &[u8], x: u32, y: u32, data: &[u8], color: u32)
    requires
        old(db).geometry_ok(),
        font_header_readable(font@),
        dump_fits(font@, data@, x, y),
    ensures
        final(db).geometry_ok(),
        final(db).width == old(db).width,
        final(db).height == old(db).height,
        final(db).scanline == old(db).scanline,
        final(db).vram_shadow@ == dump_drawn(old(db).vram_shadow@, old(db).width, old(db).height, old(db).scanline, font@, x as int, y as int, data@, dump_count(data@), color),
{
    let n: usize = if data.len() < 128 { data.len() } else { 128 };
    let mut i: usize = 0;
    while i < n
        invariant
            i <= n,
            n == dump_count(data@),
            n <= data@.len(),
            dump_fits(font@, data@, x, y),
            db.geometry_ok(),
            db.width == old(db).width,
            db.height == old(db).height,
            db.scanline == old(db).scanline,
            font_header_readable(font@),
            db.vram_shadow@ == dump_drawn(old(db).vram_shadow@, db.width, db.height, db.scanline, font@, x as int, y as int, data@, i as int, color),
        decreases n - i,
    {
        let val = data[i];
        let text = [hex_digit_of((val / 16) as u64), hex_digit_of((val % 16) as u64), 0x20u8];
        assert(text@ =~= dump_text(val));
        assert(text_fits(font@, dump_text(data@[i as int]), x + (i % 16) * 24, (y + (i / 16) * 12) as u32));
        let dx = ((i % 16) * 24) as u32;
        let dy = ((i / 16) * 12) as u32;
        draw_string_db(db, font, x + dx, y + dy, text.as_slice(), color);
        i = i + 1;
    }
}

/// A line-by-line text console on the shadow buffer, wrapping back to row 220 past row 440.
pub struct Console {
    pub current_y: u32,
    pub line_height: u32,
}

impl Console {
    pub fn new() -> (c: Self)
        ensures
            c.current_y == 220,
            c.line_height == 20,
    {
        Console { current_y: 220, line_height: 20 }
    }

    /// Writes `text` at column 10 of the current line and moves down a line;
    /// past row 440 it goes back to row 220 and blanks rows 220 to 479 of the first 800 columns.
    pub fn write_line(&mut self, db: &mut DoubleBuffer, font: &[u8], text: &[u8], color: u32)
        requires
            old(db).geometry_ok(),
            font_header_readable(font@),
            10 + 8 * text@.len() <= u32::MAX,
            text_fits(font@, text@, 10, old(self).current_y),
            old(self).current_y + old(self).line_height <= u32::MAX,
        ensures
            final(db).geometry_ok(),
            final(db).width == old(db).width,
            final(db).height == old(db).height,
            final(db).scanline == old(db).scanline,
            final(self).line_height == old(self).line_height,
            final(self).current_y <= 440,
            ({
                let drawn = string_drawn(old(db).vram_shadow@, old(db).width, old(db).height, old(db).scanline, font@, 10, old(self).current_y as int, text@, color);
                let next = old(self).current_y + old(self).line_height;
                if next > 440 {
                    &&& final(self).current_y == 220
                    &&& final(db).vram_shadow@ == repaint(drawn, |i: int| covers_rect(old(db).width, old(db).height, old(db).scanline, 0, 220, 800, 260, i), 0)
                } else {
                    &&& final(self).current_y == next
                    &&& final(db).vram_shadow@ == drawn
                }
            }),
    {
        draw_string_db(db, font, 10, self.current_y, text, color);
        self.current_y = self.current_y + self.line_height;
        if self.current_y > 440 {
            self.current_y = 220;
            fill_rect_db(db, 0, 220, 800, 260, 0x000000);
        }
    }
}

/// The `i + 1` hexadecimal digits of `temp`'s low nibbles, most significant
/// first: `hex_text16(v, 15)` is `v` as sixteen digits with leading zeros.
pub open spec fn hex_text16(temp: nat, i: int) -> Seq<u8>
    decreases i + 1,
{
    if i < 0 {
        Seq::empty()
    } else {
        hex_text16(temp / 16, i - 1).push(hex_digit(temp % 16))
    }
}

/// Whether drawing `s` from (`x`, `y`) sets pixel index `p`.
pub open spec fn string_covers(w: u32, h: u32, scan: u32, font: Seq<u8>, x: int, y: int, s: Seq<u8>, p: int) -> bool
    decreases s.len(),
{
    if s.len() == 0 {
        false
    } else {
        string_covers(w, h, scan, font, x, y, s.drop_last(), p)
            || covers_char(w, h, scan, font, s.last(), x + 8 * (s.len() - 1), y, p)
    }
}

/// Whether the digits `hex_steps` draws from position `i` down set pixel index `p`.
pub open spec fn hex_covers(w: u32, h: u32, scan: u32, font: Seq<u8>, x: int, y: int, temp: nat, i: int, p: int) -> bool
    decreases i + 1,
{
    if i < 0 {
        false
    } else {
        covers_char(w, h, scan, font, hex_digit(temp % 16), x + 8 * i, y, p)
            || hex_covers(w, h, scan, font, x, y, temp / 16, i - 1, p)
    }
}

proof fn lemma_repaint_twice(buf: Seq<u32>, f: spec_fn(int) -> bool, g: spec_fn(int) -> bool, color: u32)
    ensures
        repaint(repaint(buf, f, color), g, color) == repaint(buf, |p: int| f(p) || g(p), color),
{
    assert(repaint(repaint(buf, f, color), g, color) =~= repaint(buf, |p: int| f(p) || g(p), color));
}

proof fn lemma_string_drawn_covers(buf: Seq<u32>, w: u32, h: u32, scan: u32, font: Seq<u8>, x: int, y: int, s: Seq<u8>, color: u32)
    ensures
        string_drawn(buf, w, h, scan, font, x, y, s, color)
            == repaint(buf, |p: int| string_covers(w, h, scan, font, x, y, s, p), color),
    decreases s.len(),
{
    if s.len() == 0 {
        assert(repaint(buf, |p: int| string_covers(w, h, scan, font, x, y, s, p), color) =~= buf);
    } else {
        lemma_string_drawn_covers(buf, w, h, scan, font, x, y, s.drop_last(), color);
        lemma_repaint_twice(buf, |p: int| string_covers(w, h, scan, font, x, y, s.drop_last(), p),
            |p: int| covers_char(w, h, scan, font, s.last(), x + 8 * (s.len() - 1), y, p), color);
        assert(repaint(buf, |p: int| string_covers(w, h, scan, font, x, y, s.drop_last(), p)
            || covers_char(w, h, scan, font, s.last(), x + 8 * (s.len() - 1), y, p), color)
            =~= repaint(buf, |p: int| string_covers(w, h, scan, font, x, y, s, p), color));
    }
}

proof fn lemma_hex_steps_covers(buf: Seq<u32>, w: u32, h: u32, scan: u32, font: Seq<u8>, x: int, y: int, temp: nat, i: int, color: u32)
    ensures
        hex_steps(buf, w, h, scan, font, x, y, temp, i, color)
            == repaint(buf, |p: int| hex_covers(w, h, scan, font, x, y, temp, i, p), color),
    decreases i + 1,
{
    if i < 0 {
        assert(repaint(buf, |p: int| hex_covers(w, h, scan, font, x, y, temp, i, p), color) =~= buf);
    } else {
        let b2 = char_drawn(buf, w, h, scan, font, x + 8 * i, y, hex_digit(temp % 16), color);
        lemma_hex_steps_covers(b2, w, h, scan, font, x, y, temp / 16, i - 1, color);
        lemma_repaint_twice(buf, |p: int| covers_char(w, h, scan, font, hex_digit(temp % 16), x + 8 * i, y, p),
            |p: int| hex_covers(w, h, scan, font, x, y, temp / 16, i - 1, p), color);
        assert(repaint(buf, |p: int| covers_char(w, h, scan, font, hex_digit(temp % 16), x + 8 * i, y, p)
            || hex_covers(w, h, scan, font, x, y, temp / 16, i - 1, p), color)
            =~= repaint(buf, |p: int| hex_covers(w, h, scan, font, x, y, temp, i, p), color));
    }
}

proof fn lemma_hex_covers_text(w: u32, h: u32, scan: u32, font: Seq<u8>, x: int, y: int, temp: nat, i: int, p: int)
    ensures
        hex_text16(temp, i).len() == if i < 0 { 0 } else { i + 1 },
        hex_covers(w, h, scan, font, x, y, temp, i, p) == string_covers(w, h, scan, font, x, y, hex_text16(temp, i), p),
    decreases i + 1,
{
    if i >= 0 {
        lemma_hex_covers_text(w, h, scan, font, x, y, temp / 16, i - 1, p);
        let t = hex_text16(temp, i);
        assert(t.drop_last() =~= hex_text16(temp / 16, i - 1));
    }
}

/// Sixteen hexadecimal digits are drawn as a string: what `draw_hex_db`
/// leaves (digits drawn from the right) is what drawing the sixteen digits
/// of `value`, most significant first, left to right from (`x`, `y`) leaves.
pub proof fn law_hex_is_its_digit_string(buf: Seq<u32>, w: u32, h: u32, scan: u32, font: Seq<u8>, x: int, y: int, value: nat, color: u32)
    ensures
        hex_text16(value, 15).len() == 16,
        hex_steps(buf, w, h, scan, font, x, y, value, 15, color)
            == string_drawn(buf, w, h, scan, font, x, y, hex_text16(value, 15), color),
{
    lemma_hex_steps_covers(buf, w, h, scan, font, x, y, value, 15, color);
    lemma_string_drawn_covers(buf, w, h, scan, font, x, y, hex_text16(value, 15), color);
    lemma_hex_covers_text(w, h, scan, font, x, y, value, 15, 0);
    assert forall|p: int| #[trigger] hex_covers(w, h, scan, font, x, y, value, 15, p)
        == string_covers(w, h, scan, font, x, y, hex_text16(value, 15), p) by {
        lemma_hex_covers_text(w, h, scan, font, x, y, value, 15, p);
    }
    assert(repaint(buf, |p: int| hex_covers(w, h, scan, font, x, y, value, 15, p), color)
        =~= repaint(buf, |p: int| string_covers(w, h, scan, font, x, y, hex_text16(value, 15), p), color));
}

} // verus!
