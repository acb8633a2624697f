use fbconsole::display::Display;
use fbconsole::grid::Cell;

const WHITE: u32 = 0xFFFFFFFF;
const FG: u32 = 0xFFC0C0C0;
const BG: u32 = 0xFF000000;

/// A font covering the ASCII range: the glyph for 'A' has row 2 set to
/// 0b1000_0001 (leftmost and rightmost pixel) and row 5 fully set; 'B' has
/// row 1 fully set; 'X' has the leftmost pixel of row 0.
fn small_font() -> Vec<u8> {
    let mut font = vec![0u8; 128 * 16];
    font[65 * 16 + 2] = 0b1000_0001;
    font[65 * 16 + 5] = 0xFF;
    font[66 * 16 + 1] = 0xFF;
    font[88 * 16] = 0x80;
    font
}

fn pixel(d: &Display, x: usize, y: usize) -> u32 {
    d.data[y * d.width + x]
}

#[test]
fn new_display_is_zeroed() {
    let d = Display::new(64, 32, small_font());
    assert_eq!(d.data.len(), 64 * 32);
    assert!(d.data.iter().all(|&p| p == 0));
}

#[test]
fn rect_fills_exact_region() {
    let mut d = Display::new(64, 32, small_font());
    d.rect(4, 2, 3, 2, WHITE);
    for y in 0..32 {
        for x in 0..64 {
            let expected = if (4..7).contains(&x) && (2..4).contains(&y) { WHITE } else { 0 };
            assert_eq!(pixel(&d, x, y), expected, "pixel ({}, {})", x, y);
        }
    }
}

#[test]
fn rect_at_right_edge_writes_one_pixel() {
    let mut d = Display::new(640, 480, small_font());
    d.rect(639, 0, 100, 1, WHITE);
    let painted: usize = d.data.iter().filter(|&&p| p == WHITE).count();
    assert_eq!(painted, 1);
    assert_eq!(pixel(&d, 639, 0), WHITE);
}

#[test]
fn rect_with_zero_extent_paints_nothing() {
    let mut d = Display::new(64, 32, small_font());
    d.rect(10, 10, 0, 0, WHITE);
    d.rect(10, 10, 5, 0, WHITE);
    assert!(d.data.iter().all(|&p| p == 0));
}

#[test]
fn rect_far_outside_stays_in_bounds() {
    let mut d = Display::new(64, 32, small_font());
    d.rect(1000, 1000, usize::MAX, usize::MAX, WHITE);
    // the clipping arithmetic pins the write to the bottom-right pixel
    assert_eq!(pixel(&d, 63, 31), WHITE);
    let painted: usize = d.data.iter().filter(|&&p| p == WHITE).count();
    assert_eq!(painted, 1);
}

#[test]
fn char_paints_only_set_bits() {
    let mut d = Display::new(64, 32, small_font());
    d.char(8, 16, 'A', WHITE);
    for y in 0..32 {
        for x in 0..64 {
            let inside = (8..16).contains(&x) && (16..32).contains(&y);
            let expected = if inside && (y - 16 == 2 && (x == 8 || x == 15)) {
                WHITE
            } else if inside && y - 16 == 5 {
                WHITE
            } else {
                0
            };
            assert_eq!(pixel(&d, x, y), expected, "pixel ({}, {})", x, y);
        }
    }
}

#[test]
fn char_beyond_font_table_is_a_no_op() {
    let mut d = Display::new(64, 32, small_font());
    d.char(0, 0, '\u{0100}', WHITE);
    assert!(d.data.iter().all(|&p| p == 0));
}

#[test]
fn char_that_does_not_fit_is_a_no_op() {
    let mut d = Display::new(64, 32, small_font());
    d.char(60, 0, 'A', WHITE);
    d.char(0, 20, 'A', WHITE);
    assert!(d.data.iter().all(|&p| p == 0));
}

#[test]
fn first_write_paints_grid_and_inverted_cursor() {
    // 640x480 pixels make an 80x30 cell grid.
    let mut d = Display::new(640, 480, small_font());
    d.write(b"A");
    // cell (0, 0): glyph 'A' in the default foreground over the default
    // background; the cursor has advanced past it.
    assert_eq!(pixel(&d, 0, 2), FG);
    assert_eq!(pixel(&d, 7, 2), FG);
    assert_eq!(pixel(&d, 1, 2), BG);
    assert_eq!(pixel(&d, 0, 5), FG);
    assert_eq!(pixel(&d, 0, 0), BG);
    // cell (1, 0) holds the visible cursor: inverse video paints the whole
    // block in the cell's foreground color.
    for gy in 0..16 {
        for gx in 0..8 {
            assert_eq!(pixel(&d, 8 + gx, gy), FG, "cursor pixel ({}, {})", gx, gy);
        }
    }
    // an untouched cell renders as plain background.
    assert_eq!(pixel(&d, 100, 100), BG);
}

#[test]
fn write_consumes_redraw_and_changed_flags() {
    let mut d = Display::new(640, 480, small_font());
    d.write(b"A");
    assert!(!d.grid.redraw);
    assert!(d.grid.changed.iter().all(|&c| !c));
    d.write(b"B\nC");
    assert!(!d.grid.redraw);
    assert!(d.grid.changed.iter().all(|&c| !c));
}

#[test]
fn one_cell_display_takes_writes() {
    // the smallest display: one 8x16 character cell
    let mut d = Display::new(8, 16, small_font());
    d.write(b"A");
    d.write(b"BCD\n\n\n");
    d.write(b"\x1b[2JE");
    assert_eq!(d.data.len(), 8 * 16);
}

#[test]
fn write_without_pending_redraw_leaves_every_byte() {
    let mut d = Display::new(640, 480, small_font());
    d.write(b"A");
    let before = d.data.clone();
    d.write(b"");
    assert_eq!(d.data, before);
}

#[test]
fn write_repaints_only_changed_rows() {
    let mut d = Display::new(640, 480, small_font());
    d.write(b"A");
    // mark everything below the first cell row with a color the renderer
    // never uses; a correct dirty-row pass must not touch it.
    d.rect(0, 16, 640, 464, 0xFF123456);
    d.write(b"B");
    // row 0 of cells was repainted from the grid
    assert_eq!(pixel(&d, 0, 0), BG);
    // all lower rows kept the marker color
    assert_eq!(pixel(&d, 0, 16), 0xFF123456);
    assert_eq!(pixel(&d, 320, 240), 0xFF123456);
    assert_eq!(pixel(&d, 639, 479), 0xFF123456);
}

#[test]
fn render_consumes_changed_flags_and_redraw() {
    let mut d = Display::new(64, 32, small_font());
    d.render(false, 0, 0);
    assert!(!d.grid.redraw);
    assert!(d.grid.changed.iter().all(|&c| !c));
    // without a pending redraw a second pass moves nothing
    let before = d.data.clone();
    d.render(false, 0, 0);
    assert_eq!(d.data, before);
}

#[test]
fn render_draws_underline_with_swapped_foreground_on_cursor_cell() {
    let mut d = Display::new(64, 32, small_font());
    d.render(false, 0, 0);
    // cell (1, 0) of the 8x2 grid: underlined, with its own colors
    d.grid.cells[1] = Cell { c: ' ', fg: 0xFF111111, bg: 0xFF222222, underlined: true };
    d.grid.changed[0] = true;
    d.grid.redraw = true;
    d.render(true, 1, 0);
    // the visible cursor swaps the colors: background takes the cell's
    // foreground, and the underline strip takes the swapped foreground
    assert_eq!(pixel(&d, 8, 0), 0xFF111111);
    assert_eq!(pixel(&d, 8, 14), 0xFF222222);
    assert_eq!(pixel(&d, 8, 15), 0xFF111111);
    // row 1 of cells was not marked changed and keeps its pixels
    assert_eq!(pixel(&d, 8, 16), BG);
}

#[test]
fn writing_past_the_last_row_scrolls_the_grid() {
    let mut d = Display::new(640, 480, small_font());
    d.write(b"A");
    // 30 newlines move the pending cursor past the 30-row grid; the next
    // printable character forces a one-row scroll before it is placed.
    let mut bytes = Vec::new();
    for _ in 0..30 {
        bytes.push(b'\n');
    }
    bytes.push(b'B');
    d.write(&bytes);
    // the 'A' of row 0 scrolled away: its glyph pixels are background again
    assert_eq!(pixel(&d, 0, 2), BG);
    assert_eq!(pixel(&d, 0, 5), BG);
    // 'B' stands on the last row
    assert_eq!(pixel(&d, 0, 29 * 16 + 1), FG);
    assert_eq!(pixel(&d, 7, 29 * 16 + 1), FG);
}

#[test]
fn ansi_color_sequence_reaches_the_glyph() {
    let mut d = Display::new(640, 480, small_font());
    d.write(b"\x1b[31mX");
    // ANSI color 1 is the dark-red palette entry
    assert_eq!(pixel(&d, 0, 0), 0xFF800000);
}

#[test]
fn unsupported_codepoint_through_write_leaves_background_only() {
    let mut d = Display::new(640, 480, small_font());
    // U+0100 is past the small font table: the cell gets its background
    // fill and no glyph pixels.
    d.write("\u{0100}".as_bytes());
    for gy in 0..16 {
        for gx in 0..8 {
            let p = pixel(&d, gx, gy);
            assert!(p == BG || p == FG, "unexpected color {:#x}", p);
        }
    }
    // no pixel of the glyph cell was painted with a glyph: every pixel of
    // cell (0,0) is the plain background (the cursor moved to cell (1,0)).
    for gy in 0..16 {
        for gx in 0..8 {
            assert_eq!(pixel(&d, gx, gy), BG);
        }
    }
}
