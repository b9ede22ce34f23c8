//! PSF bitmap fonts: the header of PSF1 and PSF2 files and the bits of a glyph.
use vstd::prelude::*;
use crate::bytes::{le32, read_le32};
use vstd::arithmetic::div_mod::{lemma_fundamental_div_mod, lemma_fundamental_div_mod_converse};

verus! {

/// Header size, glyph size and glyph height of a PSF2 or PSF1 font.
pub open spec fn font_info(font: Seq<u8>) -> Option<(nat, nat, nat)> {
    if font.len() < 4 {
        None
    } else if font[0] == 0x72 && font[1] == 0xb5 && font[2] == 0x4a && font[3] == 0x86 {
        Some((le32(font, 12), le32(font, 24), le32(font, 20)))
    } else if font[0] == 0x36 && font[1] == 0x04 {
        Some((4, font[3] as nat, font[3] as nat))
    } else {
        None
    }
}

/// Whether the font's header can be read: a PSF2 header is 28 bytes long at least.
pub open spec fn font_header_readable(font: Seq<u8>) -> bool {
    font.len() >= 4 && font[0] == 0x72 && font[1] == 0xb5 && font[2] == 0x4a && font[3] == 0x86 ==> font.len() >= 28
}

/// Reads the font header.
pub fn get_font_info(font: &[u8]) -> (r: Option<(usize, usize, usize)>)
    requires
        font_header_readable(font@),
    ensures
        r is None <==> font_info(font@) is None,
        r matches Some((h, g, ht)) ==> font_info(font@) == Some((h as nat, g as nat, ht as nat)),
{
    if font.len() < 4 {
        return None;
    }
    if font[0] == 0x72 && font[1] == 0xb5 && font[2] == 0x4a && font[3] == 0x86 {
        let h_size = read_le32(font, 12) as usize;
        let g_size = read_le32(font, 24) as usize;
        let h = read_le32(font, 20) as usize;
        Some((h_size, g_size, h))
    } else if font[0] == 0x36 && font[1] == 0x04 {
        let h = font[3] as usize;
        Some((4, h, h))
    } else {
        None
    }
}

/// Where the glyph of `c` starts, when the font has a header and the whole glyph lies in the file.
pub open spec fn glyph_start(font: Seq<u8>, c: u8) -> Option<int> {
    match font_info(font) {
        Some((h, g, ht)) => if h + c * g + ht <= font.len() { Some(h + c * g) } else { None },
        None => None,
    }
}

/// Column `dx` (0 is leftmost) of a glyph row.
pub open spec fn row_bit(row: u8, dx: int) -> bool {
    (row >> ((7 - dx) as u8)) & 1u8 == 1u8
}

/// Whether pixel (`dx`, `dy`) of the glyph of `c` is set.
pub open spec fn glyph_pixel(font: Seq<u8>, c: u8, dx: int, dy: int) -> bool {
    match (glyph_start(font, c), font_info(font)) {
        (Some(off), Some((h, g, ht))) => 0 <= dx < 8 && 0 <= dy < ht && row_bit(font[off + dy], dx),
        _ => false,
    }
}

/// Whether every set pixel of the glyph of `c`, drawn at (`x`, `y`), has 32-bit coordinates.
pub open spec fn glyph_fits(font: Seq<u8>, c: u8, x: u32, y: u32) -> bool {
    forall|dx: int, dy: int| #[trigger] glyph_pixel(font, c, dx, dy) ==> x + dx <= u32::MAX && y + dy <= u32::MAX
}

/// The offset and height of the glyph of `c`, when it lies in the font.
pub fn glyph_location(font: &[u8], c: u8) -> (r: Option<(usize, usize)>)
    requires
        font_header_readable(font@),
    ensures
        r is None <==> glyph_start(font@, c) is None,
        r matches Some((off, ht)) ==> glyph_start(font@, c) == Some(off as int)
            && font_info(font@).unwrap().2 == ht && off + ht <= font@.len(),
{
    let (h, g, ht) = match get_font_info(font) {
        Some(i) => i,
        None => return None,
    };
    assert((c as u64) * (g as u64) <= 255 * 0xFFFF_FFFF) by (nonlinear_arith)
        requires
            g <= 0xFFFF_FFFF,
    ;
    let off = h as u64 + (c as u64) * (g as u64);
    if off + ht as u64 > font.len() as u64 {
        return None;
    }
    Some((off as usize, ht))
}

/// The glyph bit test the renderers use: `(row << dx) & 0x80` in eight bits.
pub fn row_bit_set(row: u8, dx: u32) -> (r: bool)
    requires
        dx < 8,
    ensures
        r == row_bit(row, dx as int),
{
    let shifted = row << dx;
    let r = shifted & 0x80 != 0;
    let k = (7 - dx) as u8;
    assert(r == ((row >> k) & 1u8 == 1u8)) by (bit_vector)
        requires
            r == ((row << dx) & 0x80 != 0),
            dx < 8,
            k == 7 - dx,
    ;
    r
}

/// A pixel index and the column and row it stands for determine each other.
pub proof fn lemma_pixel_index(scan: int, px: int, py: int, i: int)
    requires
        scan > 0,
        0 <= px < scan,
        0 <= py,
        0 <= i,
    ensures
        (i % scan == px && i / scan == py) <==> i == scan * py + px,
{
    lemma_fundamental_div_mod(i, scan);
    if i == scan * py + px {
        assert(i == py * scan + px) by (nonlinear_arith)
            requires
                i == scan * py + px,
        ;
        lemma_fundamental_div_mod_converse(i, scan, py, px);
    }
}

/// A pixel in the first `h` rows has an index below `scan * h`.
pub proof fn lemma_index_in_rows(scan: int, px: int, py: int, h: int)
    requires
        0 <= px < scan,
        0 <= py < h,
    ensures
        scan * py + px < scan * h,
{
    assert(scan * py + px < scan * h) by (nonlinear_arith)
        requires
            0 <= px < scan,
            0 <= py < h,
    ;
}

} // verus!
