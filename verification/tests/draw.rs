use forward_os::draw::{
    clear_screen_db, decimal_digits, draw_char_db, draw_hex_db, draw_hex_dump, draw_rect_db, draw_string_db,
    draw_u64_db, fill_rect_db, glyph_indices, hex_digit_of, Console, DoubleBuffer,
};
use forward_os::font::{get_font_info, glyph_location, row_bit_set};
use forward_os::screen::{draw_char, draw_string, fill_rect, BackBuffer, DebugConsole};

/// A PSF1 font of 16-row glyphs whose first row is the character code and
/// whose other rows are blank.
fn font() -> Vec<u8> {
    let mut f = vec![0x36, 0x04, 0, 16];
    for c in 0..256usize {
        let mut g = [0u8; 16];
        g[0] = c as u8;
        f.extend_from_slice(&g);
    }
    f
}

fn lit(db: &DoubleBuffer) -> Vec<usize> {
    db.vram_shadow.iter().enumerate().filter(|(_, &p)| p != 0).map(|(i, _)| i).collect()
}

#[test]
fn font_headers() {
    assert_eq!(get_font_info(&font()), Some((4, 16, 16)));
    let mut psf2 = vec![0x72, 0xb5, 0x4a, 0x86, 0, 0, 0, 0, 32, 0, 0, 0, 32, 0, 0, 0, 0, 1, 0, 0, 8, 0, 0, 0, 16, 0, 0, 0];
    psf2.resize(64, 0);
    // Header size from bytes 12..16, glyph size from 24..28, height from 20..24.
    assert_eq!(get_font_info(&psf2), Some((32, 16, 8)));
    assert_eq!(get_font_info(&[1, 2, 3]), None);
    assert_eq!(get_font_info(&[0, 0, 0, 0]), None);
    assert_eq!(glyph_location(&font(), b'A'), Some((4 + 0x41 * 16, 16)));
    assert_eq!(glyph_location(&font()[..100], b'A'), None);
    assert!(row_bit_set(0x81, 0) && row_bit_set(0x81, 7) && !row_bit_set(0x81, 3));
}

#[test]
fn char_pixels_and_clipping() {
    let f = font();
    let mut db = DoubleBuffer::new(16, 16, 16);
    draw_char_db(&mut db, &f, 0, 0, b'A', 7);
    assert_eq!(lit(&db), vec![1, 7]);
    let mut db = DoubleBuffer::new(16, 16, 16);
    draw_char_db(&mut db, &f, 10, 2, b'A', 7);
    // Column 17 is off the screen.
    assert_eq!(lit(&db), vec![2 * 16 + 11]);
}

#[test]
fn glyph_indices_match_the_shadow_drawing() {
    let f = font();
    assert_eq!(glyph_indices(&f, 16, 16, 16, 0, 0, b'A'), vec![1, 7]);
    // Column 17 is off the screen; rows are 20 pixels apart.
    assert_eq!(glyph_indices(&f, 16, 16, 20, 10, 2, b'A'), vec![2 * 20 + 11]);
    let mut db = DoubleBuffer::new(16, 16, 16);
    draw_char_db(&mut db, &f, 3, 5, b'Q', 1);
    let idx: Vec<usize> = glyph_indices(&f, 16, 16, 16, 3, 5, b'Q').into_iter().map(|i| i as usize).collect();
    assert_eq!(lit(&db), idx);
    assert!(glyph_indices(&f, 16, 0, 16, 0, 0, b'A').is_empty());
}

#[test]
fn decimal_digits_of_numbers() {
    assert_eq!(decimal_digits(0), b"0".to_vec());
    assert_eq!(decimal_digits(7), b"7".to_vec());
    assert_eq!(decimal_digits(1204), b"1204".to_vec());
    assert_eq!(decimal_digits(u64::MAX), b"18446744073709551615".to_vec());
}

#[test]
fn longer_shadow_buffers_are_drawn_alike() {
    let f = font();
    let mut db = DoubleBuffer { vram_shadow: vec![0; 16 * 16 + 5], width: 16, height: 16, scanline: 16 };
    draw_char_db(&mut db, &f, 0, 0, b'A', 7);
    fill_rect_db(&mut db, 14, 15, 10, 10, 9);
    assert_eq!(lit(&db), vec![1, 7, 15 * 16 + 14, 15 * 16 + 15]);
    assert_eq!(db.vram_shadow.len(), 16 * 16 + 5);
}

#[test]
fn string_advances_eight_pixels() {
    let f = font();
    let mut db = DoubleBuffer::new(32, 32, 4);
    draw_string_db(&mut db, &f, 0, 0, b"AB", 3);
    assert_eq!(lit(&db), vec![1, 7, 9, 14]);
}

#[test]
fn rectangles_and_clear() {
    let mut db = DoubleBuffer::new(16, 16, 16);
    fill_rect_db(&mut db, 2, 3, 4, 2, 9);
    assert_eq!(lit(&db), vec![50, 51, 52, 53, 66, 67, 68, 69]);
    let mut db = DoubleBuffer::new(16, 16, 16);
    draw_rect_db(&mut db, 14, 14, 5, 5, 9);
    assert_eq!(lit(&db), vec![238, 239, 254, 255]);
    clear_screen_db(&mut db, 5);
    assert!(db.vram_shadow.iter().all(|&p| p == 5));
    // The outline call paints the same pixels as the fill.
    let mut a = DoubleBuffer::new(16, 16, 16);
    let mut b = DoubleBuffer::new(16, 16, 16);
    draw_rect_db(&mut a, 3, 4, 6, 5, 2);
    fill_rect_db(&mut b, 3, 4, 6, 5, 2);
    assert_eq!(a.vram_shadow, b.vram_shadow);
}

#[test]
fn hex_and_number_text() {
    let f = font();
    assert_eq!(hex_digit_of(10), b'A');
    assert_eq!(hex_digit_of(9), b'9');
    let mut db = DoubleBuffer::new(128, 128, 1);
    draw_hex_db(&mut db, &f, 0, 0, 0x1234, 1);
    // Sixteen digits: twelve '0' (bits 2, 3), then '1' (2, 3, 7), '2' (2, 3, 6), '3', '4'.
    let px = lit(&db);
    assert!(px.contains(&(12 * 8 + 7)));
    assert!(!px.contains(&(11 * 8 + 7)));
    assert!(px.contains(&(13 * 8 + 6)));
    let mut db = DoubleBuffer::new(32, 32, 1);
    draw_u64_db(&mut db, &f, 0, 0, 0x1A, 1);
    assert_eq!(lit(&db), vec![2, 3, 7, 9, 15]);
    let mut db = DoubleBuffer::new(32, 32, 1);
    draw_u64_db(&mut db, &f, 0, 0, 0, 1);
    assert_eq!(lit(&db), vec![2, 3]);
}

#[test]
fn hex_is_drawn_as_its_sixteen_digit_string() {
    let f = font();
    let v = 0x0123_4567_89AB_CDEFu64;
    let mut a = DoubleBuffer::new(256, 256, 2);
    let mut b = DoubleBuffer::new(256, 256, 2);
    draw_hex_db(&mut a, &f, 3, 0, v, 7);
    draw_string_db(&mut b, &f, 3, 0, format!("{:016X}", v).as_bytes(), 7);
    assert_eq!(a.vram_shadow, b.vram_shadow);
    let mut c = DoubleBuffer::new(64, 64, 2);
    let mut d = DoubleBuffer::new(64, 64, 2);
    draw_u64_db(&mut c, &f, 0, 0, 0xBEEF, 7);
    draw_string_db(&mut d, &f, 0, 0, format!("{:X}", 0xBEEF).as_bytes(), 7);
    assert_eq!(c.vram_shadow, d.vram_shadow);
}

#[test]
fn hex_dump_rows() {
    let f = font();
    let mut db = DoubleBuffer::new(24, 24, 1);
    draw_hex_dump(&mut db, &f, 0, 0, &[0xAB], 1);
    // 'A' = 0x41: bits 1, 7; 'B' = 0x42: bits 1, 6 (at x 8); ' ' = 0x20: bit 2 (at x 16).
    assert_eq!(lit(&db), vec![1, 7, 9, 14, 18]);
}

#[test]
fn console_wraps_after_row_440() {
    let f = font();
    let mut db = DoubleBuffer::new(800, 800, 500);
    let mut c = Console::new();
    assert_eq!(c.current_y, 220);
    for _ in 0..11 {
        c.write_line(&mut db, &f, b"x", 1);
    }
    assert_eq!(c.current_y, 440);
    c.write_line(&mut db, &f, b"x", 1);
    assert_eq!(c.current_y, 220);
    // The log area was cleared.
    assert!(db.vram_shadow[220 * 800..480 * 800].iter().all(|&p| p == 0));
}

#[test]
fn back_buffer_drawing() {
    let f = font();
    let mut bb = BackBuffer::new();
    assert_eq!(bb.pixels.len(), 1920 * 1080);
    bb.set_framebuffer(32, 20, 10);
    bb.put_pixel(3, 2, 5);
    assert_eq!(bb.pixels[2 * 32 + 3], 5);
    bb.put_pixel(20, 0, 5);
    assert_eq!(bb.pixels[20], 0);
    bb.backbuffer_write(0, 9, 6);
    assert_eq!(bb.pixels[9 * 32], 6);
    fill_rect(&mut bb, 18, 0, 4, 1, 8);
    assert_eq!(&bb.pixels[18..22], &[8, 8, 0, 0]);
    bb.fill_screen(1);
    assert!(bb.pixels[..320].iter().all(|&p| p == 1));
    assert_eq!(bb.pixels[320], 0);
    let mut bb = BackBuffer::new();
    bb.set_framebuffer(32, 32, 8);
    draw_char(&mut bb, &f, 0, 0, b'A', 2);
    assert_eq!(bb.pixels[1], 2);
    draw_string(&mut bb, &f, 0, 4, b"A\nB", 3);
    // The newline is skipped: 'B' is drawn right after 'A'.
    assert_eq!(bb.pixels[4 * 32 + 9], 3);
    assert_eq!(bb.pixels[4 * 32 + 14], 3);
    let mut with = BackBuffer::new();
    with.set_framebuffer(64, 64, 8);
    let mut without = BackBuffer::new();
    without.set_framebuffer(64, 64, 8);
    draw_string(&mut with, &f, 2, 1, b"\nQ\nR\n\nS", 4);
    draw_string(&mut without, &f, 2, 1, b"QRS", 4);
    assert!(with.pixels == without.pixels);
}

#[test]
fn debug_log_clears_after_fifteen_lines() {
    let f = font();
    let mut bb = BackBuffer::new();
    bb.set_framebuffer(1024, 1024, 768);
    let mut d = DebugConsole::new();
    for _ in 0..15 {
        d.debug_print(&mut bb, &f, b"line");
    }
    assert_eq!(d.y, 20 + 15 * 12);
    assert_eq!(d.line_count, 15);
    d.debug_print(&mut bb, &f, b"line");
    assert_eq!(d.y, 572);
    assert_eq!(d.line_count, 1);
    assert_eq!(bb.pixels[550 * 1024], 0x00336699);
    d.debug_clear();
    assert_eq!((d.x, d.y), (10, 600));
}
