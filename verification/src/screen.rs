//! The boot screen: a fixed 1920x1080 back buffer addressed through the
//! frame buffer's stride, with pixel, rectangle, glyph and string drawing, and
//! the scrolling debug log.
use vstd::prelude::*;
use crate::font::{glyph_pixel, glyph_fits, glyph_location, glyph_start, font_info, font_header_readable, row_bit_set};
use crate::draw::repaint;

verus! {

pub const BACK_BUFFER_PIXELS: usize = 1920 * 1080;

/// The back buffer and the geometry of the frame buffer it is shown on.
pub struct BackBuffer {
    pub pixels: Vec<u32>,
    pub stride: u32,
    pub width: u32,
    pub height: u32,
}

/// Whether some pixel chosen by `pts` that is visible in a `w` by `h` screen has index `i`.
pub open spec fn hit_by(stride: u32, w: u32, h: u32, pts: spec_fn(int, int) -> bool, i: int) -> bool {
    exists|px: int, py: int| #[trigger] pts(px, py) && 0 <= px < w && 0 <= py < h && py * stride + px == i
}

/// Whether every visible pixel's index has 32 bits.
pub open spec fn screen_indices_fit(stride: u32, w: u32, h: u32) -> bool {
    w == 0 || h == 0 || (h - 1) * stride + (w - 1) <= u32::MAX
}

proof fn lemma_hit_extend(
    stride: u32, w: u32, h: u32,
    old_pts: spec_fn(int, int) -> bool,
    new_pts: spec_fn(int, int) -> bool,
    px: int, py: int, i: int,
)
    requires
        forall|qx: int, qy: int| #[trigger] new_pts(qx, qy) == (old_pts(qx, qy) || (qx == px && qy == py)),
    ensures
        hit_by(stride, w, h, new_pts, i) == (hit_by(stride, w, h, old_pts, i)
            || (0 <= px < w && 0 <= py < h && py * stride + px == i)),
{
    if hit_by(stride, w, h, new_pts, i) {
        let (qx, qy) = choose|qx: int, qy: int| #[trigger] new_pts(qx, qy) && 0 <= qx < w && 0 <= qy < h && qy * stride + qx == i;
        if !(qx == px && qy == py) {
            assert(old_pts(qx, qy));
        }
    }
    if hit_by(stride, w, h, old_pts, i) {
        let (qx, qy) = choose|qx: int, qy: int| #[trigger] old_pts(qx, qy) && 0 <= qx < w && 0 <= qy < h && qy * stride + qx == i;
        assert(new_pts(qx, qy));
    }
    if 0 <= px < w && 0 <= py < h && py * stride + px == i {
        assert(new_pts(px, py));
    }
}

proof fn lemma_hit_same(
    stride: u32, w: u32, h: u32,
    a: spec_fn(int, int) -> bool,
    b: spec_fn(int, int) -> bool,
    i: int,
)
    requires
        forall|qx: int, qy: int| 0 <= qx < w && 0 <= qy < h ==> #[trigger] a(qx, qy) == b(qx, qy),
    ensures
        hit_by(stride, w, h, a, i) == hit_by(stride, w, h, b, i),
{
    if hit_by(stride, w, h, a, i) {
        let (qx, qy) = choose|qx: int, qy: int| #[trigger] a(qx, qy) && 0 <= qx < w && 0 <= qy < h && qy * stride + qx == i;
        assert(b(qx, qy));
    }
    if hit_by(stride, w, h, b, i) {
        let (qx, qy) = choose|qx: int, qy: int| #[trigger] b(qx, qy) && 0 <= qx < w && 0 <= qy < h && qy * stride + qx == i;
        assert(a(qx, qy));
    }
}

/// The glyph of `c` at (`x`, `y`) as a set of pixels.
pub open spec fn glyph_points(font: Seq<u8>, c: u8, x: int, y: int) -> spec_fn(int, int) -> bool {
    |px: int, py: int| glyph_pixel(font, c, px - x, py - y)
}

/// The rectangle at (`x`, `y`) of `rw` by `rh` pixels as a set of pixels.
pub open spec fn rect_points(x: int, y: int, rw: int, rh: int) -> spec_fn(int, int) -> bool {
    |px: int, py: int| x <= px < x + rw && y <= py < y + rh
}

/// The buffer after the glyph of `c` is drawn at (`x`, `y`).
pub open spec fn screen_char_drawn(buf: Seq<u32>, stride: u32, w: u32, h: u32, font: Seq<u8>, x: int, y: int, c: u8, color: u32) -> Seq<u32> {
    repaint(buf, |i: int| hit_by(stride, w, h, glyph_points(font, c, x, y), i), color)
}

/// The buffer after `s` is drawn from (`x`, `y`), newlines skipped without advancing.
pub open spec fn screen_string_drawn(buf: Seq<u32>, stride: u32, w: u32, h: u32, font: Seq<u8>, x: int, y: int, s: Seq<u8>, color: u32) -> Seq<u32>
    decreases s.len(),
{
    if s.len() == 0 {
        buf
    } else if s[0] == 0x0a {
        screen_string_drawn(buf, stride, w, h, font, x, y, s.drop_first(), color)
    } else {
        screen_string_drawn(screen_char_drawn(buf, stride, w, h, font, x, y, s[0], color), stride, w, h, font, x + 8, y, s.drop_first(), color)
    }
}

/// How many bytes of `s` are not newlines.
pub open spec fn printable_count(s: Seq<u8>) -> nat
    decreases s.len(),
{
    if s.len() == 0 {
        0
    } else {
        printable_count(s.drop_first()) + if s[0] == 0x0a { 0nat } else { 1nat }
    }
}

/// Whether each glyph of `s`, placed as `draw_string` places it, has 32-bit coordinates.
pub open spec fn screen_text_fits(font: Seq<u8>, s: Seq<u8>, x: int, y: u32) -> bool
    decreases s.len(),
{
    if s.len() == 0 {
        true
    } else if s[0] == 0x0a {
        screen_text_fits(font, s.drop_first(), x, y)
    } else {
        x <= u32::MAX && glyph_fits(font, s[0], x as u32, y) && screen_text_fits(font, s.drop_first(), x + 8, y)
    }
}

impl BackBuffer {
    /// A black back buffer of 1920x1080 pixels, not yet tied to a frame buffer.
    pub fn new() -> (bb: Self)
        ensures
            bb.pixels@.len() == BACK_BUFFER_PIXELS,
            bb.stride == 0 && bb.width == 0 && bb.height == 0,
    {
        let mut v: Vec<u32> = Vec::new();
        let mut i: usize = 0;
        while i < BACK_BUFFER_PIXELS
            invariant
                i <= BACK_BUFFER_PIXELS,
                v@.len() == i,
            decreases BACK_BUFFER_PIXELS - i,
        {
            v.push(0);
            i = i + 1;
        }
        BackBuffer { pixels: v, stride: 0, width: 0, height: 0 }
    }

    /// Records the geometry of the frame buffer the back buffer is shown on.
    pub fn set_framebuffer(&mut self, stride: u32, width: u32, height: u32)
        ensures
            final(self).pixels == old(self).pixels,
            final(self).stride == stride,
            final(self).width == width,
            final(self).height == height,
    {
        self.stride = stride;
        self.width = width;
        self.height = height;
    }

    /// Sets pixel (`x`, `y`) when it is on screen and its index is within the back buffer.
    pub fn put_pixel(&mut self, x: u32, y: u32, color: u32)
        requires
            screen_indices_fit(old(self).stride, old(self).width, old(self).height),
        ensures
            final(self).stride == old(self).stride,
            final(self).width == old(self).width,
            final(self).height == old(self).height,
            final(self).pixels@ == if x < old(self).width && y < old(self).height && y * old(self).stride + x < old(self).pixels@.len() {
                old(self).pixels@.update(y * old(self).stride + x, color)
            } else {
                old(self).pixels@
            },
    {
        if x < self.width && y < self.height {
            assert(y * self.stride + x <= (self.height - 1) * self.stride + (self.width - 1)) by (nonlinear_arith)
                requires
                    x < self.width,
                    y < self.height,
            ;
            let idx = (y * self.stride + x) as usize;
            if idx < self.pixels.len() {
                self.pixels.set(idx, color);
            }
        }
    }

    /// Writes one pixel of the back buffer.
    pub fn backbuffer_write(&mut self, x: u32, y: u32, color: u32)
        requires
            screen_indices_fit(old(self).stride, old(self).width, old(self).height),
        ensures
            final(self).stride == old(self).stride,
            final(self).width == old(self).width,
            final(self).height == old(self).height,
            final(self).pixels@ == if x < old(self).width && y < old(self).height && y * old(self).stride + x < old(self).pixels@.len() {
                old(self).pixels@.update(y * old(self).stride + x, color)
            } else {
                old(self).pixels@
            },
    {
        self.put_pixel(x, y, color);
    }

    /// Fills the first `stride * height` pixels of the back buffer (at most all of it).
    pub fn fill_screen(&mut self, color: u32)
        requires
            old(self).stride * old(self).height <= u32::MAX,
        ensures
            final(self).stride == old(self).stride,
            final(self).width == old(self).width,
            final(self).height == old(self).height,
            final(self).pixels@ == Seq::new(old(self).pixels@.len(), |i: int|
                if i < old(self).stride * old(self).height { color } else { old(self).pixels@[i] }),
    {
        let size = (self.stride * self.height) as usize;
        let n = if size < self.pixels.len() { size } else { self.pixels.len() };
        let mut i: usize = 0;
        while i < n
            invariant
                i <= n,
                n <= self.pixels@.len(),
                n == if size < self.pixels@.len() { size as int } else { self.pixels@.len() as int },
                size == old(self).stride * old(self).height,
                self.pixels@.len() == old(self).pixels@.len(),
                self.stride == old(self).stride,
                self.width == old(self).width,
                self.height == old(self).height,
                forall|k: int| 0 <= k < self.pixels@.len() ==> self.pixels@[k] == if k < i { color } else { old(self).pixels@[k] },
            decreases n - i,
        {
            self.pixels.set(i, color);
            i = i + 1;
        }
        assert(self.pixels@ =~= Seq::new(old(self).pixels@.len(), |i: int|
            if i < old(self).stride * old(self).height { color } else { old(self).pixels@[i] }));
    }
}

/// Fills the rectangle at (`x`, `y`) of `w` by `h` pixels, pixel by pixel.
pub fn fill_rect(bb: &mut BackBuffer, x: u32, y: u32, w: u32, h: u32, color: u32)
    requires
        screen_indices_fit(old(bb).stride, old(bb).width, old(bb).height),
        w == 0 || h == 0 || (x + w - 1 <= u32::MAX && y + h - 1 <= u32::MAX),
    ensures
        final(bb).stride == old(bb).stride,
        final(bb).width == old(bb).width,
        final(bb).height == old(bb).height,
        final(bb).pixels@ == repaint(old(bb).pixels@,
            |i: int| hit_by(old(bb).stride, old(bb).width, old(bb).height, rect_points(x as int, y as int, w as int, h as int), i), color),
{
    let ghost buf0 = bb.pixels@;
    let ghost st = bb.stride;
    let ghost sw = bb.width;
    let ghost sh = bb.height;
    if w == 0 {
        assert forall|i: int| 0 <= i < buf0.len() implies !hit_by(st, sw, sh, rect_points(x as int, y as int, w as int, h as int), i) by {
            if hit_by(st, sw, sh, rect_points(x as int, y as int, w as int, h as int), i) {
                let (qx, qy) = choose|qx: int, qy: int| #[trigger] rect_points(x as int, y as int, w as int, h as int)(qx, qy)
                    && 0 <= qx < sw && 0 <= qy < sh && qy * st + qx == i;
            }
        }
        assert(bb.pixels@ =~= repaint(buf0, |i: int| hit_by(st, sw, sh, rect_points(x as int, y as int, w as int, h as int), i), color));
        return;
    }
    let mut dy: u32 = 0;
    while dy < h
        invariant
            dy <= h,
            w > 0,
            w == 0 || h == 0 || (x + w - 1 <= u32::MAX && y + h - 1 <= u32::MAX),
            bb.stride == st && bb.width == sw && bb.height == sh,
            screen_indices_fit(st, sw, sh),
            bb.pixels@ == repaint(buf0, |i: int| hit_by(st, sw, sh, rect_points(x as int, y as int, w as int, dy as int), i), color),
        decreases h - dy,
    {
        let ghost rows_a = rect_points(x as int, y as int, w as int, dy as int);
        let ghost rows_b = |px: int, py: int| rect_points(x as int, y as int, w as int, dy as int)(px, py) || (py == y + dy && x <= px < x + 0);
        assert forall|i: int| 0 <= i < buf0.len() implies hit_by(st, sw, sh, rows_a, i) == #[trigger] hit_by(st, sw, sh, rows_b, i) by {
            lemma_hit_same(st, sw, sh, rows_a, rows_b, i);
        }
        assert(bb.pixels@ =~= repaint(buf0, |i: int| hit_by(st, sw, sh, rows_b, i), color));
        let mut dx: u32 = 0;
        while dx < w
            invariant
                dx <= w,
                dy < h,
                w == 0 || h == 0 || (x + w - 1 <= u32::MAX && y + h - 1 <= u32::MAX),
                bb.stride == st && bb.width == sw && bb.height == sh,
                screen_indices_fit(st, sw, sh),
                bb.pixels@ == repaint(buf0, |i: int| hit_by(st, sw, sh,
                    |px: int, py: int| rect_points(x as int, y as int, w as int, dy as int)(px, py) || (py == y + dy && x <= px < x + dx), i), color),
            decreases w - dx,
        {
            let ghost old_pts = |px: int, py: int| rect_points(x as int, y as int, w as int, dy as int)(px, py) || (py == y + dy && x <= px < x + dx);
            let ghost new_pts = |px: int, py: int| rect_points(x as int, y as int, w as int, dy as int)(px, py) || (py == y + dy && x <= px < x + dx + 1);
            let px = x + dx;
            let py = y + dy;
            let ghost before = bb.pixels@;
            bb.put_pixel(px, py, color);
            assert forall|i: int| 0 <= i < buf0.len() implies bb.pixels@[i] == repaint(buf0, |i: int| hit_by(st, sw, sh, new_pts, i), color)[i] by {
                lemma_hit_extend(st, sw, sh, old_pts, new_pts, px as int, py as int, i);
            }
            assert(bb.pixels@ =~= repaint(buf0, |i: int| hit_by(st, sw, sh, new_pts, i), color));
            dx = dx + 1;
        }
        let ghost full_row = |px: int, py: int| rect_points(x as int, y as int, w as int, dy as int)(px, py) || (py == y + dy && x <= px < x + w);
        let ghost next_rows = rect_points(x as int, y as int, w as int, dy + 1);
        assert forall|i: int| 0 <= i < buf0.len() implies hit_by(st, sw, sh, full_row, i) == #[trigger] hit_by(st, sw, sh, next_rows, i) by {
            lemma_hit_same(st, sw, sh, full_row, next_rows, i);
        }
        assert(bb.pixels@ =~= repaint(buf0, |i: int| hit_by(st, sw, sh, rect_points(x as int, y as int, w as int, dy + 1), i), color));
        dy = dy + 1;
    }
}

/// Draws the glyph of `c` at (`x`, `y`) pixel by pixel; nothing when the
/// font has no header or the glyph lies past its end.
pub fn draw_char(bb: &mut BackBuffer, font: &[u8], x: u32, y: u32, c: u8, color: u32)
    requires
        screen_indices_fit(old(bb).stride, old(bb).width, old(bb).height),
        font_header_readable(font@),
        glyph_fits(font@, c, x, y),
    ensures
        final(bb).stride == old(bb).stride,
        final(bb).width == old(bb).width,
        final(bb).height == old(bb).height,
        final(bb).pixels@ == screen_char_drawn(old(bb).pixels@, old(bb).stride, old(bb).width, old(bb).height, font@, x as int, y as int, c, color),
{
    let ghost buf0 = bb.pixels@;
    let ghost st = bb.stride;
    let ghost sw = bb.width;
    let ghost sh = bb.height;
    let ghost pts = glyph_points(font@, c, x as int, y as int);
    let _n = font.len();
    let (offset, height) = match glyph_location(font, c) {
        Some(l) => l,
        None => {
            assert forall|i: int| 0 <= i < buf0.len() implies !hit_by(st, sw, sh, pts, i) by {
                if hit_by(st, sw, sh, pts, i) {
                    let (qx, qy) = choose|qx: int, qy: int| #[trigger] pts(qx, qy) && 0 <= qx < sw && 0 <= qy < sh && qy * st + qx == i;
                    assert(glyph_pixel(font@, c, qx - x, qy - y));
                }
            }
            assert(bb.pixels@ =~= screen_char_drawn(buf0, st, sw, sh, font@, x as int, y as int, c, color));
            return;
        },
    };
    let mut dy: usize = 0;
    while dy < height
        invariant
            dy <= height,
            bb.stride == st && bb.width == sw && bb.height == sh,
            screen_indices_fit(st, sw, sh),
            glyph_start(font@, c) == Some(offset as int),
            font_info(font@).unwrap().2 == height,
            offset + height <= font@.len(),
            font@.len() <= usize::MAX,
            glyph_fits(font@, c, x, y),
            pts == glyph_points(font@, c, x as int, y as int),
            bb.pixels@ == repaint(buf0, |i: int| hit_by(st, sw, sh, |px: int, py: int| pts(px, py) && py - y < dy, i), color),
        decreases height - dy,
    {
        let row = font[offset + dy];
        let ghost rows_a = |px: int, py: int| pts(px, py) && py - y < dy;
        let ghost rows_b = |px: int, py: int| pts(px, py) && (py - y < dy || (py - y == dy && px - x < 0));
        assert forall|i: int| 0 <= i < buf0.len() implies hit_by(st, sw, sh, rows_a, i) == #[trigger] hit_by(st, sw, sh, rows_b, i) by {
            lemma_hit_same(st, sw, sh, rows_a, rows_b, i);
        }
        assert(bb.pixels@ =~= repaint(buf0, |i: int| hit_by(st, sw, sh, rows_b, i), color));
        let mut dx: u32 = 0;
        while dx < 8
            invariant
                dx <= 8,
                dy < height,
                bb.stride == st && bb.width == sw && bb.height == sh,
                screen_indices_fit(st, sw, sh),
                glyph_start(font@, c) == Some(offset as int),
                font_info(font@).unwrap().2 == height,
                offset + height <= font@.len(),
                row == font@[offset + dy],
                glyph_fits(font@, c, x, y),
                pts == glyph_points(font@, c, x as int, y as int),
                bb.pixels@ == repaint(buf0, |i: int| hit_by(st, sw, sh,
                    |px: int, py: int| pts(px, py) && (py - y < dy || (py - y == dy && px - x < dx)), i), color),
            decreases 8 - dx,
        {
            let ghost old_pts = |px: int, py: int| pts(px, py) && (py - y < dy || (py - y == dy && px - x < dx));
            let ghost new_pts = |px: int, py: int| pts(px, py) && (py - y < dy || (py - y == dy && px - x < dx + 1));
            if row_bit_set(row, dx) {
                assert(glyph_pixel(font@, c, dx as int, dy as int));
                let px = x + dx;
                let py = y + dy as u32;
                bb.put_pixel(px, py, color);
                assert forall|qx: int, qy: int| #[trigger] new_pts(qx, qy) == (old_pts(qx, qy) || (qx == px && qy == py)) by {
                    if qx == px && qy == py {
                        assert(pts(qx, qy));
                    }
                }
                assert forall|i: int| 0 <= i < buf0.len() implies bb.pixels@[i] == repaint(buf0, |i: int| hit_by(st, sw, sh, new_pts, i), color)[i] by {
                    lemma_hit_extend(st, sw, sh, old_pts, new_pts, px as int, py as int, i);
                }
            } else {
                assert forall|i: int| 0 <= i < buf0.len() implies hit_by(st, sw, sh, old_pts, i) == #[trigger] hit_by(st, sw, sh, new_pts, i) by {
                    assert forall|qx: int, qy: int| 0 <= qx < sw && 0 <= qy < sh implies #[trigger] old_pts(qx, qy) == new_pts(qx, qy) by {
                        if qy - y == dy && qx - x == dx {
                            assert(!glyph_pixel(font@, c, dx as int, dy as int));
                        }
                    }
                    lemma_hit_same(st, sw, sh, old_pts, new_pts, i);
                }
            }
            assert(bb.pixels@ =~= repaint(buf0, |i: int| hit_by(st, sw, sh, new_pts, i), color));
            dx = dx + 1;
        }
        let ghost full_row = |px: int, py: int| pts(px, py) && (py - y < dy || (py - y == dy && px - x < 8));
        let ghost next_rows = |px: int, py: int| pts(px, py) && py - y < dy + 1;
        assert forall|i: int| 0 <= i < buf0.len() implies hit_by(st, sw, sh, full_row, i) == #[trigger] hit_by(st, sw, sh, next_rows, i) by {
            lemma_hit_same(st, sw, sh, full_row, next_rows, i);
        }
        assert(bb.pixels@ =~= repaint(buf0, |i: int| hit_by(st, sw, sh, |px: int, py: int| pts(px, py) && py - y < dy + 1, i), color));
        dy = dy + 1;
    }
    let ghost all_rows = |px: int, py: int| pts(px, py) && py - y < height;
    assert forall|i: int| 0 <= i < buf0.len() implies hit_by(st, sw, sh, all_rows, i) == #[trigger] hit_by(st, sw, sh, pts, i) by {
        lemma_hit_same(st, sw, sh, all_rows, pts, i);
    }
    assert(bb.pixels@ =~= screen_char_drawn(buf0, st, sw, sh, font@, x as int, y as int, c, color));
}

/// Draws `s` from (`x`, `y`), eight pixels per character, skipping newlines without advancing.
pub fn draw_string(bb: &mut BackBuffer, font: &[u8], x: u32, y: u32, s: &[u8], color: u32)
    requires
        screen_indices_fit(old(bb).stride, old(bb).width, old(bb).height),
        font_header_readable(font@),
        x + 8 * printable_count(s@) <= u32::MAX,
        screen_text_fits(font@, s@, x as int, y),
    ensures
        final(bb).stride == old(bb).stride,
        final(bb).width == old(bb).width,
        final(bb).height == old(bb).height,
        final(bb).pixels@ == screen_string_drawn(old(bb).pixels@, old(bb).stride, old(bb).width, old(bb).height, font@, x as int, y as int, s@, color),
{
    let ghost target = screen_string_drawn(bb.pixels@, bb.stride, bb.width, bb.height, font@, x as int, y as int, s@, color);
    let mut cx = x;
    let mut k: usize = 0;
    assert(s@.subrange(0, s@.len() as int) =~= s@);
    while k < s.len()
        invariant
            k <= s@.len(),
            bb.stride == old(bb).stride && bb.width == old(bb).width && bb.height == old(bb).height,
            screen_indices_fit(bb.stride, bb.width, bb.height),
            font_header_readable(font@),
            cx + 8 * printable_count(s@.subrange(k as int, s@.len() as int)) <= u32::MAX,
            screen_text_fits(font@, s@.subrange(k as int, s@.len() as int), cx as int, y),
            screen_string_drawn(bb.pixels@, bb.stride, bb.width, bb.height, font@, cx as int, y as int, s@.subrange(k as int, s@.len() as int), color) == target,
        decreases s@.len() - k,
    {
        let ghost rest = s@.subrange(k as int, s@.len() as int);
        assert(rest.drop_first() =~= s@.subrange(k + 1, s@.len() as int));
        let c = s[k];
        if c != 0x0a {
            draw_char(bb, font, cx, y, c, color);
            cx = cx + 8;
        }
        k = k + 1;
    }
}

/// The scrolling debug log: where the next line goes and how many lines are shown.
pub struct DebugConsole {
    pub x: u32,
    pub y: u32,
    pub line_count: u32,
}

/// How many lines the log shows before it clears its area.
pub const MAX_DEBUG_LINES: u32 = 15;

impl DebugConsole {
    pub fn new() -> (d: Self)
        ensures
            d.x == 400 && d.y == 20 && d.line_count == 0,
    {
        DebugConsole { x: 400, y: 20, line_count: 0 }
    }

    /// Logs `s` in yellow. After fifteen lines the log area (rows 550 to
    /// 749) is cleared and logging starts again at row 560.
    pub fn debug_print(&mut self, bb: &mut BackBuffer, font: &[u8], s: &[u8])
        requires
            screen_indices_fit(old(bb).stride, old(bb).width, old(bb).height),
            font_header_readable(font@),
            old(self).x + 8 * printable_count(s@) <= u32::MAX,
            old(self).line_count < u32::MAX,
            ({
                let y = if old(self).line_count >= MAX_DEBUG_LINES { 560 } else { old(self).y };
                &&& y + 12 <= u32::MAX
                &&& screen_text_fits(font@, s@, old(self).x as int, y as u32)
            }),
        ensures
            final(bb).stride == old(bb).stride,
            final(bb).width == old(bb).width,
            final(bb).height == old(bb).height,
            final(self).x == old(self).x,
            ({
                let cleared = old(self).line_count >= MAX_DEBUG_LINES;
                let y = if cleared { 560 } else { old(self).y };
                let base = if cleared {
                    repaint(old(bb).pixels@, |i: int| hit_by(old(bb).stride, old(bb).width, old(bb).height,
                        rect_points(0, 550, old(bb).width as int, 200), i), 0x00336699)
                } else {
                    old(bb).pixels@
                };
                &&& final(bb).pixels@ == screen_string_drawn(base, old(bb).stride, old(bb).width, old(bb).height, font@, old(self).x as int, y as int, s@, 0x00FFFF00)
                &&& final(self).y == y + 12
                &&& final(self).line_count == (if cleared { 0 } else { old(self).line_count }) + 1
            }),
    {
        if self.line_count >= MAX_DEBUG_LINES {
            let w = bb.width;
            fill_rect(bb, 0, 550, w, 200, 0x00336699);
            self.y = 560;
            self.line_count = 0;
        }
        draw_string(bb, font, self.x, self.y, s, 0x00FFFF00);
        self.y = self.y + 12;
        self.line_count = self.line_count + 1;
    }

    /// Moves the log to column 10, row 600.
    pub fn debug_clear(&mut self)
        ensures
            final(self).y == 600,
            final(self).x == 10,
            final(self).line_count == old(self).line_count,
    {
        self.y = 600;
        self.x = 10;
    }
}

/// `s` with its newline bytes removed.
pub open spec fn without_newlines(s: Seq<u8>) -> Seq<u8>
    decreases s.len(),
{
    if s.len() == 0 {
        s
    } else if s[0] == 0x0a {
        without_newlines(s.drop_first())
    } else {
        seq![s[0]] + without_newlines(s.drop_first())
    }
}

/// Newlines are skipped without moving the pen: drawing `s` leaves the back
/// buffer as drawing `s` without its newlines does, and that string has
/// `printable_count(s)` bytes, none of them a newline.
pub proof fn law_newlines_are_skipped(buf: Seq<u32>, stride: u32, w: u32, h: u32, font: Seq<u8>, x: int, y: int, s: Seq<u8>, color: u32)
    ensures
        screen_string_drawn(buf, stride, w, h, font, x, y, s, color)
            == screen_string_drawn(buf, stride, w, h, font, x, y, without_newlines(s), color),
        without_newlines(s).len() == printable_count(s),
        forall|k: int| 0 <= k < without_newlines(s).len() ==> without_newlines(s)[k] != 0x0a,
    decreases s.len(),
{
    if s.len() > 0 {
        let rest = s.drop_first();
        if s[0] == 0x0a {
            law_newlines_are_skipped(buf, stride, w, h, font, x, y, rest, color);
        } else {
            let b2 = screen_char_drawn(buf, stride, w, h, font, x, y, s[0], color);
            law_newlines_are_skipped(b2, stride, w, h, font, x + 8, y, rest, color);
            let t = without_newlines(s);
            assert(t[0] == s[0]);
            assert(t.drop_first() =~= without_newlines(rest));
            assert forall|k: int| 0 <= k < t.len() implies t[k] != 0x0a by {
                if k > 0 {
                    assert(t[k] == without_newlines(rest)[k - 1]);
                }
            }
        }
    }
}

} // verus!
