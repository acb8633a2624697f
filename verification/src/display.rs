//! The rendering surface: a row-major 32-bit pixel buffer together with the
//! terminal state machine and the character grid, plus the two pixel
//! primitives (clipped rectangle fill and glyph blit) and the dirty-row
//! render loop.

use vstd::prelude::*;
use vstd::math::min;
use crate::coords::{lemma_rc_bound, lemma_rc_inj, lemma_rc_decomp, lemma_block_div, lemma_div_mul_le};
use crate::grid::{
    CharGrid, Cell, GridView, TermEvent, cell_at, events_applied, lemma_events_applied_push,
    DEFAULT_FG, DEFAULT_BG,
};
use crate::term::{con_rows, console_new, console_feed, console_cursor};

verus! {

/// The color of pixel `(px, py)` in a row-major pixel sequence of width `w`.
pub open spec fn pix(d: Seq<u32>, w: int, px: int, py: int) -> u32 {
    d[py * w + px]
}

/// The pixels that a `rect(x, y, w, h)` call on a `wd` by `ht` buffer
/// paints: rows `[min(ht-1, y), min(ht, y+h))` of the columns
/// `[min(wd-1, x), min(wd, x+w))`, exactly as the clipping arithmetic of the
/// fill primitive has it.
pub open spec fn rect_covers(
    wd: int,
    ht: int,
    x: int,
    y: int,
    w: int,
    h: int,
    px: int,
    py: int,
) -> bool {
    &&& min(ht - 1, y) <= py < min(ht, y + h)
    &&& min(wd - 1, x) <= px < min(wd, x + w)
}

/// Every pixel that `rect` covers lies inside the buffer: this is the
/// clipping guarantee, stated on its own.
pub proof fn lemma_rect_covers_in_bounds(
    wd: int,
    ht: int,
    x: int,
    y: int,
    w: int,
    h: int,
    px: int,
    py: int,
)
    requires
        0 < wd,
        0 < ht,
        0 <= x,
        0 <= y,
        rect_covers(wd, ht, x, y, w, h, px, py),
    ensures
        0 <= px < wd,
        0 <= py < ht,
{
}

/// A glyph with at least one set bit, drawn where its cell fits and its
/// codepoint lies inside the font table, covers at least one pixel of the
/// buffer: together with the glyph-draw contract, such a draw paints at
/// least one pixel with the requested color.
pub proof fn lemma_char_paints_some_pixel(
    font: Seq<u8>,
    wd: int,
    ht: int,
    x: int,
    y: int,
    c: char,
    gx: int,
    gy: int,
)
    requires
        0 <= x,
        0 <= y,
        x + 8 <= wd,
        y + 16 <= ht,
        glyph_in_font(font, c),
        0 <= gx < 8,
        0 <= gy < 16,
        glyph_bit(font, c, gx, gy),
    ensures
        char_covers(font, wd, ht, x, y, c, x + gx, y + gy),
        0 <= x + gx < wd,
        0 <= y + gy < ht,
{
}

/// The glyph for `c` lies inside the font table.
pub open spec fn glyph_in_font(font: Seq<u8>, c: char) -> bool {
    16 * (c as int) + 16 <= font.len()
}

/// Bit `(7 - gx)` of row `gy` of the glyph for `c` is set: the glyph paints
/// the pixel at column `gx` of that row.
pub open spec fn glyph_bit(font: Seq<u8>, c: char, gx: int, gy: int) -> bool {
    (font[16 * (c as int) + gy] >> ((7 - gx) as u8)) & 1 == 1
}

/// The pixels that a `char(x, y, c)` call paints: nothing unless the whole
/// 8 by 16 cell fits in the buffer and the glyph lies inside the font
/// table; otherwise exactly the set bits of the glyph.
pub open spec fn char_covers(
    font: Seq<u8>,
    wd: int,
    ht: int,
    x: int,
    y: int,
    c: char,
    px: int,
    py: int,
) -> bool {
    &&& x + 8 <= wd
    &&& y + 16 <= ht
    &&& glyph_in_font(font, c)
    &&& x <= px < x + 8
    &&& y <= py < y + 16
    &&& glyph_bit(font, c, px - x, py - y)
}

/// The rendering surface: pixel dimensions, the owned pixel buffer, the
/// compiled-in glyph table, the character grid with its dirty-row flags,
/// and the owned terminal state machine.
pub struct Display {
    pub width: usize,
    pub height: usize,
    pub data: Vec<u32>,
    pub font: Vec<u8>,
    pub grid: CharGrid,
    pub console: ransid::Console,
}

impl Display {
    /// One pixel per coordinate, a character grid of `width / 8` by
    /// `height / 16` cells — at least one cell each way, so the terminal
    /// state machine always has a row to print on — and a state machine
    /// built with exactly that many rows.
    pub open spec fn wf(self) -> bool {
        &&& 8 <= self.width
        &&& 16 <= self.height
        &&& self.width * self.height <= usize::MAX
        &&& self.data@.len() == self.width * self.height
        &&& self.grid@.w == self.width as int / 8
        &&& self.grid@.h == self.height as int / 16
        &&& self.grid.wf()
        &&& con_rows(self.console) == self.grid@.h
    }

    /// A fresh display over a zeroed pixel buffer, with a fresh state
    /// machine and a grid that asks for a full first paint.  A display is
    /// at least one character cell (8 by 16 pixels) in each direction.
    pub fn new(width: usize, height: usize, font: Vec<u8>) -> (d: Display)
        requires
            8 <= width,
            16 <= height,
            width * height <= usize::MAX,
        ensures
            d.wf(),
            d.width == width,
            d.height == height,
            d.font@ == font@,
            forall|i: int| 0 <= i < width * height ==> d.data@[i] == 0,
            d.grid@.redraw,
            forall|r: int| 0 <= r < d.grid@.h ==> d.grid@.changed[r],
            forall|i: int|
                0 <= i < d.grid@.cells.len() ==> d.grid@.cells[i] == (Cell {
                    c: ' ',
                    fg: DEFAULT_FG,
                    bg: DEFAULT_BG,
                    underlined: false,
                }),
    {
        let size: usize = width * height;
        let mut data: Vec<u32> = Vec::new();
        while data.len() < size
            invariant
                data@.len() <= size,
                forall|i: int| 0 <= i < data@.len() ==> data@[i] == 0,
            decreases size - data@.len(),
        {
            data.push(0);
        }
        let gw: usize = width / 8;
        let gh: usize = height / 16;
        proof {
            lemma_div_mul_le(width as int, 8);
            lemma_div_mul_le(height as int, 16);
            vstd::arithmetic::mul::lemma_mul_upper_bound(
                width as int / 8,
                width as int,
                height as int / 16,
                height as int,
            );
        }
        let grid = CharGrid::new(gw, gh);
        let console = console_new(gw, gh);
        Display { width, height, data, font, grid, console }
    }

    /// Draw a rectangle: fill the clipped region with `color`.  Every pixel
    /// of the buffer either takes `color` (exactly the covered ones) or
    /// keeps its value, so the fill never strays outside the clip region.
    pub fn rect(&mut self, x: usize, y: usize, w: usize, h: usize, color: u32)
        requires
            old(self).wf(),
        ensures
            final(self).wf(),
            final(self).width == old(self).width,
            final(self).height == old(self).height,
            final(self).font@ == old(self).font@,
            final(self).grid == old(self).grid,
            final(self).console == old(self).console,
            forall|px: int, py: int|
                0 <= px < old(self).width && 0 <= py < old(self).height ==> #[trigger] pix(
                    final(self).data@,
                    old(self).width as int,
                    px,
                    py,
                ) == if rect_covers(
                    old(self).width as int,
                    old(self).height as int,
                    x as int,
                    y as int,
                    w as int,
                    h as int,
                    px,
                    py,
                ) {
                    color
                } else {
                    pix(old(self).data@, old(self).width as int, px, py)
                },
    {
        let wd = self.width;
        let ht = self.height;
        let start_y: usize = if y < ht {
            y
        } else {
            ht - 1
        };
        let end_y: usize = if y >= ht || h >= ht - y {
            ht
        } else {
            y + h
        };
        let start_x: usize = if x < wd {
            x
        } else {
            wd - 1
        };
        let end_x: usize = if x >= wd || w >= wd - x {
            wd
        } else {
            x + w
        };
        let mut py0: usize = start_y;
        while py0 < end_y
            invariant
                self.wf(),
                self.width == old(self).width,
                self.height == old(self).height,
                self.font@ == old(self).font@,
                self.grid == old(self).grid,
                self.console == old(self).console,
                wd == self.width,
                ht == self.height,
                start_y == min(ht as int - 1, y as int),
                end_y == min(ht as int, y as int + h as int),
                start_x == min(wd as int - 1, x as int),
                end_x == min(wd as int, x as int + w as int),
                start_y <= py0,
                py0 <= end_y || py0 == start_y,
                forall|px: int, qy: int|
                    0 <= px < self.width && 0 <= qy < self.height ==> #[trigger] pix(
                        self.data@,
                        self.width as int,
                        px,
                        qy,
                    ) == if start_y <= qy < py0 && start_x <= px < end_x {
                        color
                    } else {
                        pix(old(self).data@, self.width as int, px, qy)
                    },
            decreases end_y - py0,
        {
            let mut px0: usize = start_x;
            while px0 < end_x
                invariant
                    self.wf(),
                    self.width == old(self).width,
                    self.height == old(self).height,
                    self.font@ == old(self).font@,
                    self.grid == old(self).grid,
                self.console == old(self).console,
                    wd == self.width,
                    ht == self.height,
                    start_x <= px0 <= end_x,
                    start_y <= py0 < end_y <= ht,
                    start_x < wd,
                    end_x <= wd,
                    forall|px: int, qy: int|
                        0 <= px < self.width && 0 <= qy < self.height ==> #[trigger] pix(
                            self.data@,
                            self.width as int,
                            px,
                            qy,
                        ) == if (start_y <= qy < py0 && start_x <= px < end_x) || (qy == py0
                            && start_x <= px < px0) {
                            color
                        } else {
                            pix(old(self).data@, self.width as int, px, qy)
                        },
                decreases end_x - px0,
            {
                proof {
                    lemma_rc_bound(self.width as int, self.height as int, px0 as int, py0 as int);
                }
                let ghost pre = self.data@;
                let i: usize = py0 * self.width + px0;
                self.data[i] = color;
                proof {
                    assert forall|px: int, qy: int|
                        0 <= px < self.width && 0 <= qy < self.height && !(px == px0 as int && qy
                            == py0 as int) implies #[trigger] pix(
                        self.data@,
                        self.width as int,
                        px,
                        qy,
                    ) == pix(pre, self.width as int, px, qy) by {
                        lemma_rc_bound(self.width as int, self.height as int, px, qy);
                        if qy * self.width as int + px == py0 as int * self.width as int
                            + px0 as int {
                            lemma_rc_inj(self.width as int, px, qy, px0 as int, py0 as int);
                        }
                    }
                    assert(pix(self.data@, self.width as int, px0 as int, py0 as int) == color);
                }
                px0 += 1;
            }
            py0 += 1;
        }
    }

    /// Draw a character: paint `color` on exactly the set bits of the glyph,
    /// leaving every other pixel untouched; a cell that does not fit or a
    /// codepoint past the font table is a silent no-op.
    pub fn char(&mut self, x: usize, y: usize, character: char, color: u32)
        requires
            old(self).wf(),
        ensures
            final(self).wf(),
            final(self).width == old(self).width,
            final(self).height == old(self).height,
            final(self).font@ == old(self).font@,
            final(self).grid == old(self).grid,
            final(self).console == old(self).console,
            forall|px: int, py: int|
                0 <= px < old(self).width && 0 <= py < old(self).height ==> #[trigger] pix(
                    final(self).data@,
                    old(self).width as int,
                    px,
                    py,
                ) == if char_covers(
                    old(self).font@,
                    old(self).width as int,
                    old(self).height as int,
                    x as int,
                    y as int,
                    character,
                    px,
                    py,
                ) {
                    color
                } else {
                    pix(old(self).data@, old(self).width as int, px, py)
                },
    {
        if self.width >= 8 && x <= self.width - 8 && self.height >= 16 && y <= self.height - 16 {
            let font_i: usize = 16 * (character as usize);
            if font_i + 16 <= self.font.len() {
                let mut row: usize = 0;
                while row < 16
                    invariant
                        self.wf(),
                        self.width == old(self).width,
                        self.height == old(self).height,
                        self.font@ == old(self).font@,
                        self.grid == old(self).grid,
                        self.console == old(self).console,
                self.console == old(self).console,
                        x as int + 8 <= self.width,
                        y as int + 16 <= self.height,
                        font_i == 16 * (character as int),
                        glyph_in_font(self.font@, character),
                        row <= 16,
                        forall|px: int, qy: int|
                            0 <= px < self.width && 0 <= qy < self.height ==> #[trigger] pix(
                                self.data@,
                                self.width as int,
                                px,
                                qy,
                            ) == if x <= px < x + 8 && y <= qy < y + row && glyph_bit(
                                self.font@,
                                character,
                                px - x,
                                qy - y,
                            ) {
                                color
                            } else {
                                pix(old(self).data@, self.width as int, px, qy)
                            },
                    decreases 16 - row,
                {
                    let row_data: u8 = self.font[font_i + row];
                    let mut col: usize = 0;
                    while col < 8
                        invariant
                            self.wf(),
                            self.width == old(self).width,
                            self.height == old(self).height,
                            self.font@ == old(self).font@,
                            self.grid == old(self).grid,
                        self.console == old(self).console,
                self.console == old(self).console,
                            x as int + 8 <= self.width,
                            y as int + 16 <= self.height,
                            font_i == 16 * (character as int),
                            glyph_in_font(self.font@, character),
                            row < 16,
                            col <= 8,
                            row_data == self.font@[font_i + row],
                            forall|px: int, qy: int|
                                0 <= px < self.width && 0 <= qy < self.height ==> #[trigger] pix(
                                    self.data@,
                                    self.width as int,
                                    px,
                                    qy,
                                ) == if (x <= px < x + 8 && y <= qy < y + row && glyph_bit(
                                    self.font@,
                                    character,
                                    px - x,
                                    qy - y,
                                )) || (qy == y + row && x <= px < x + col && glyph_bit(
                                    self.font@,
                                    character,
                                    px - x,
                                    qy - y,
                                )) {
                                    color
                                } else {
                                    pix(old(self).data@, self.width as int, px, qy)
                                },
                        decreases 8 - col,
                    {
                        let sh: u8 = (7 - col) as u8;
                        if (row_data >> sh) & 1 == 1 {
                            proof {
                                lemma_rc_bound(
                                    self.width as int,
                                    self.height as int,
                                    x as int + col as int,
                                    y as int + row as int,
                                );
                            }
                            let ghost pre = self.data@;
                            let i: usize = (y + row) * self.width + (x + col);
                            self.data[i] = color;
                            proof {
                                assert forall|px: int, qy: int|
                                    0 <= px < self.width && 0 <= qy < self.height && !(px == x as int
                                        + col as int && qy == y as int
                                        + row as int) implies #[trigger] pix(
                                    self.data@,
                                    self.width as int,
                                    px,
                                    qy,
                                ) == pix(pre, self.width as int, px, qy) by {
                                    lemma_rc_bound(self.width as int, self.height as int, px, qy);
                                    if qy * self.width as int + px == (y as int + row as int)
                                        * self.width as int + (x as int + col as int) {
                                        lemma_rc_inj(
                                            self.width as int,
                                            px,
                                            qy,
                                            x as int + col as int,
                                            y as int + row as int,
                                        );
                                    }
                                }
                                assert(glyph_bit(self.font@, character, col as int, row as int));
                                assert(pix(
                                    self.data@,
                                    self.width as int,
                                    x as int + col as int,
                                    y as int + row as int,
                                ) == color);
                            }
                        } else {
                            proof {
                                assert(!glyph_bit(self.font@, character, col as int, row as int));
                            }
                        }
                        col += 1;
                    }
                    row += 1;
                }
            }
        }
    }
}

/// The color a rendered cell gives to its in-cell pixel `(gx, gy)`: the
/// background everywhere, the foreground on the set glyph bits of a
/// non-space character, and the foreground on the whole row 14 strip of an
/// underlined cell; a visible cursor on the cell swaps the two colors first.
pub open spec fn cell_pix(font: Seq<u8>, cell: Cell, inv: bool, gx: int, gy: int) -> u32 {
    let bgc = if inv { cell.fg } else { cell.bg };
    let fgc = if inv { cell.bg } else { cell.fg };
    if cell.underlined && gy == 14 {
        fgc
    } else if cell.c != ' ' && glyph_in_font(font, cell.c) && glyph_bit(font, cell.c, gx, gy) {
        fgc
    } else {
        bgc
    }
}

/// A space cell never contributes glyph pixels to a render pass, whatever
/// the font holds: its rendered colors are the (possibly cursor-swapped)
/// background everywhere but the underline strip.
pub proof fn lemma_space_cell_paints_no_glyph(
    font: Seq<u8>,
    cell: Cell,
    inv: bool,
    gx: int,
    gy: int,
)
    requires
        cell.c == ' ',
    ensures
        cell_pix(font, cell, inv, gx, gy) == if cell.underlined && gy == 14 {
            if inv {
                cell.bg
            } else {
                cell.fg
            }
        } else {
            if inv {
                cell.fg
            } else {
                cell.bg
            }
        },
{
}

/// The color of pixel `(px, py)` after a render pass: pixels of a changed
/// grid row take their cell's rendered color, every other pixel keeps
/// `old_color`.
pub open spec fn render_pix(
    font: Seq<u8>,
    g: GridView,
    cv: bool,
    cx: int,
    cy: int,
    old_color: u32,
    px: int,
    py: int,
) -> u32 {
    let col = px / 8;
    let row = py / 16;
    if row < g.h && col < g.w && g.changed[row] {
        cell_pix(
            font,
            cell_at(g.cells, g.w, col, row),
            cv && cx == col && cy == row,
            px % 8,
            py % 16,
        )
    } else {
        old_color
    }
}

/// One render pass over grid `g` and pixels `d0`: with a pending redraw the
/// flags are consumed and every pixel follows `render_pix`; without one,
/// nothing moves.
pub open spec fn render_applied(
    font: Seq<u8>,
    g: GridView,
    d0: Seq<u32>,
    w: int,
    h: int,
    g1: GridView,
    d1: Seq<u32>,
    cv: bool,
    cx: int,
    cy: int,
) -> bool {
    if g.redraw {
        &&& !g1.redraw
        &&& g1.w == g.w
        &&& g1.h == g.h
        &&& g1.cells == g.cells
        &&& g1.changed.len() == g.changed.len()
        &&& forall|r: int| 0 <= r < g1.h ==> !g1.changed[r]
        &&& d1.len() == d0.len()
        &&& forall|px: int, py: int|
            0 <= px < w && 0 <= py < h ==> #[trigger] pix(d1, w, px, py) == render_pix(
                font,
                g,
                cv,
                cx,
                cy,
                pix(d0, w, px, py),
                px,
                py,
            )
    } else {
        &&& g1 == g
        &&& d1 == d0
    }
}

/// The whole effect of one `write` call: some reported event sequence taken
/// into the grid, then one render pass with some cursor state.
pub open spec fn write_applied(
    pre: Display,
    post: Display,
    evs: Seq<TermEvent>,
    gm: GridView,
    cv: bool,
    cx: int,
    cy: int,
) -> bool {
    &&& events_applied(pre.grid@, gm, evs)
    &&& render_applied(
        pre.font@,
        gm,
        pre.data@,
        pre.width as int,
        pre.height as int,
        post.grid@,
        post.data@,
        cv,
        cx,
        cy,
    )
}

impl Display {
    /// Paint one cell of the grid: background fill, then the glyph of a
    /// non-space character, then the underline strip, with the colors
    /// swapped when the cell holds the visible cursor.
    fn render_cell(&mut self, col: usize, row: usize, cell: Cell, inv: bool)
        requires
            old(self).wf(),
            col < old(self).grid@.w,
            row < old(self).grid@.h,
        ensures
            final(self).wf(),
            final(self).width == old(self).width,
            final(self).height == old(self).height,
            final(self).font@ == old(self).font@,
            final(self).grid == old(self).grid,
            final(self).console == old(self).console,
            forall|px: int, py: int|
                0 <= px < old(self).width && 0 <= py < old(self).height ==> #[trigger] pix(
                    final(self).data@,
                    old(self).width as int,
                    px,
                    py,
                ) == if col * 8 <= px < col * 8 + 8 && row * 16 <= py < row * 16 + 16 {
                    cell_pix(old(self).font@, cell, inv, px - col * 8, py - row * 16)
                } else {
                    pix(old(self).data@, old(self).width as int, px, py)
                },
    {
        proof {
            lemma_div_mul_le(self.width as int, 8);
            lemma_div_mul_le(self.height as int, 16);
            let wq = (self.width as int) / 8;
            let hq = (self.height as int) / 16;
            assert(col as int * 8 + 8 <= self.width as int) by (nonlinear_arith)
                requires
                    (col as int) < wq,
                    wq * 8 <= self.width as int,
                    0 <= col as int,
            ;
            assert(row as int * 16 + 16 <= self.height as int) by (nonlinear_arith)
                requires
                    (row as int) < hq,
                    hq * 16 <= self.height as int,
                    0 <= row as int,
            ;
        }
        let x: usize = col * 8;
        let y: usize = row * 16;
        let bgc: u32 = if inv { cell.fg } else { cell.bg };
        let fgc: u32 = if inv { cell.bg } else { cell.fg };
        let ghost d0 = self.data@;
        self.rect(x, y, 8, 16, bgc);
        let ghost d1 = self.data@;
        if cell.c != ' ' {
            self.char(x, y, cell.c, fgc);
        }
        let ghost d2 = self.data@;
        if cell.underlined {
            self.rect(x, y + 14, 8, 1, fgc);
        }
        proof {
            let wd = self.width as int;
            let ht = self.height as int;
            assert forall|px: int, py: int| 0 <= px < wd && 0 <= py < ht implies #[trigger] pix(
                self.data@,
                wd,
                px,
                py,
            ) == if x <= px < x + 8 && y <= py < y + 16 {
                cell_pix(old(self).font@, cell, inv, px - x, py - y)
            } else {
                pix(d0, wd, px, py)
            } by {
                assert(pix(d1, wd, px, py) == if x <= px < x + 8 && y <= py < y + 16 {
                    bgc
                } else {
                    pix(d0, wd, px, py)
                });
                assert(pix(d2, wd, px, py) == if cell.c != ' ' && char_covers(
                    old(self).font@,
                    wd,
                    ht,
                    x as int,
                    y as int,
                    cell.c,
                    px,
                    py,
                ) {
                    fgc
                } else {
                    pix(d1, wd, px, py)
                });
                assert(pix(self.data@, wd, px, py) == if cell.underlined && x <= px < x + 8 && py
                    == y + 14 {
                    fgc
                } else {
                    pix(d2, wd, px, py)
                });
            }
        }
    }

    /// The dirty-row render pass.  Without a pending redraw this is free:
    /// not one pixel nor one flag moves.  With one, every changed row is
    /// repainted from its cells and consumed, and every other pixel of the
    /// buffer keeps its value.
    pub fn render(&mut self, cursor_visible: bool, cursor_x: usize, cursor_y: usize)
        requires
            old(self).wf(),
        ensures
            final(self).wf(),
            final(self).width == old(self).width,
            final(self).height == old(self).height,
            final(self).font@ == old(self).font@,
            final(self).grid@.w == old(self).grid@.w,
            final(self).grid@.h == old(self).grid@.h,
            final(self).grid@.cells == old(self).grid@.cells,
            final(self).console == old(self).console,
            !old(self).grid@.redraw ==> final(self).grid == old(self).grid && final(self).data@
                == old(self).data@,
            old(self).grid@.redraw ==> {
                &&& !final(self).grid@.redraw
                &&& forall|r: int| 0 <= r < final(self).grid@.h ==> !final(self).grid@.changed[r]
                &&& forall|px: int, py: int|
                    0 <= px < old(self).width && 0 <= py < old(self).height ==> #[trigger] pix(
                        final(self).data@,
                        old(self).width as int,
                        px,
                        py,
                    ) == render_pix(
                        old(self).font@,
                        old(self).grid@,
                        cursor_visible,
                        cursor_x as int,
                        cursor_y as int,
                        pix(old(self).data@, old(self).width as int, px, py),
                        px,
                        py,
                    )
            },
    {
        if !self.grid.redraw {
            return ;
        }
        let gw: usize = self.grid.w;
        let gh: usize = self.grid.h;
        let ghost g0 = old(self).grid@;
        let mut row: usize = 0;
        while row < gh
            invariant
                self.wf(),
                self.width == old(self).width,
                self.height == old(self).height,
                self.font@ == old(self).font@,
                self.grid@.w == g0.w,
                self.grid@.h == g0.h,
                self.grid@.cells == g0.cells,
                self.console == old(self).console,
                self.grid@.redraw,
                g0 == old(self).grid@,
                gw == g0.w,
                gh == g0.h,
                row <= gh,
                forall|r: int|
                    0 <= r < gh ==> #[trigger] self.grid@.changed[r] == if r < row {
                        false
                    } else {
                        g0.changed[r]
                    },
                forall|px: int, py: int|
                    0 <= px < self.width && 0 <= py < self.height ==> #[trigger] pix(
                        self.data@,
                        self.width as int,
                        px,
                        py,
                    ) == if py / 16 < row {
                        render_pix(
                            old(self).font@,
                            g0,
                            cursor_visible,
                            cursor_x as int,
                            cursor_y as int,
                            pix(old(self).data@, self.width as int, px, py),
                            px,
                            py,
                        )
                    } else {
                        pix(old(self).data@, self.width as int, px, py)
                    },
            decreases gh - row,
        {
            if self.grid.changed[row] {
                self.grid.changed[row] = false;
                let mut col: usize = 0;
                while col < gw
                    invariant
                        self.wf(),
                        self.width == old(self).width,
                        self.height == old(self).height,
                        self.font@ == old(self).font@,
                        self.grid@.w == g0.w,
                        self.grid@.h == g0.h,
                        self.grid@.cells == g0.cells,
                        self.console == old(self).console,
                self.console == old(self).console,
                        self.grid@.redraw,
                        g0 == old(self).grid@,
                        gw == g0.w,
                        gh == g0.h,
                        row < gh,
                        col <= gw,
                        g0.changed[row as int],
                        forall|r: int|
                            0 <= r < gh ==> #[trigger] self.grid@.changed[r] == if r <= row {
                                false
                            } else {
                                g0.changed[r]
                            },
                        forall|px: int, py: int|
                            0 <= px < self.width && 0 <= py < self.height ==> #[trigger] pix(
                                self.data@,
                                self.width as int,
                                px,
                                py,
                            ) == if py / 16 < row || (py / 16 == row && px / 8 < col) {
                                render_pix(
                                    old(self).font@,
                                    g0,
                                    cursor_visible,
                                    cursor_x as int,
                                    cursor_y as int,
                                    pix(old(self).data@, self.width as int, px, py),
                                    px,
                                    py,
                                )
                            } else {
                                pix(old(self).data@, self.width as int, px, py)
                            },
                    decreases gw - col,
                {
                    proof {
                        lemma_rc_bound(g0.w, g0.h, col as int, row as int);
                    }
                    let idx: usize = row * gw + col;
                    let cell: Cell = self.grid.cells[idx];
                    let inv: bool = cursor_visible && cursor_x == col && cursor_y == row;
                    let ghost dpre = self.data@;
                    self.render_cell(col, row, cell, inv);
                    proof {
                        let wd = self.width as int;
                        assert forall|px: int, py: int|
                            0 <= px < wd && 0 <= py < self.height implies #[trigger] pix(
                            self.data@,
                            wd,
                            px,
                            py,
                        ) == if py / 16 < row || (py / 16 == row && px / 8 < col + 1) {
                            render_pix(
                                old(self).font@,
                                g0,
                                cursor_visible,
                                cursor_x as int,
                                cursor_y as int,
                                pix(old(self).data@, wd, px, py),
                                px,
                                py,
                            )
                        } else {
                            pix(old(self).data@, wd, px, py)
                        } by {
                            lemma_rc_decomp(8, px);
                            lemma_rc_decomp(16, py);
                            if col as int * 8 <= px < col as int * 8 + 8 && row as int * 16 <= py
                                < row as int * 16 + 16 {
                                lemma_block_div(8, col as int, px);
                                lemma_block_div(16, row as int, py);
                                assert(pix(self.data@, wd, px, py) == cell_pix(
                                    old(self).font@,
                                    cell,
                                    inv,
                                    px - col as int * 8,
                                    py - row as int * 16,
                                ));
                            } else {
                                assert(pix(self.data@, wd, px, py) == pix(dpre, wd, px, py));
                            }
                        }
                    }
                    col += 1;
                }
                proof {
                    assert forall|px: int, py: int|
                        0 <= px < self.width && 0 <= py < self.height implies #[trigger] pix(
                        self.data@,
                        self.width as int,
                        px,
                        py,
                    ) == if py / 16 < row + 1 {
                        render_pix(
                            old(self).font@,
                            g0,
                            cursor_visible,
                            cursor_x as int,
                            cursor_y as int,
                            pix(old(self).data@, self.width as int, px, py),
                            px,
                            py,
                        )
                    } else {
                        pix(old(self).data@, self.width as int, px, py)
                    } by {
                        lemma_rc_decomp(8, px);
                        lemma_rc_decomp(16, py);
                    }
                }
            } else {
                proof {
                    assert forall|px: int, py: int|
                        0 <= px < self.width && 0 <= py < self.height implies #[trigger] pix(
                        self.data@,
                        self.width as int,
                        px,
                        py,
                    ) == if py / 16 < row + 1 {
                        render_pix(
                            old(self).font@,
                            g0,
                            cursor_visible,
                            cursor_x as int,
                            cursor_y as int,
                            pix(old(self).data@, self.width as int, px, py),
                            px,
                            py,
                        )
                    } else {
                        pix(old(self).data@, self.width as int, px, py)
                    } by {
                        lemma_rc_decomp(16, py);
                    }
                }
            }
            row += 1;
        }
        self.grid.redraw = false;
    }

    /// Feed bytes to the terminal state machine, apply every screen update
    /// it reports to the character grid, and run the dirty-row render pass
    /// with the machine's cursor state.  Whatever the machine reported, the
    /// call returns with the redraw flag consumed and every per-row changed
    /// flag cleared, and the final grid and pixels are exactly some reported
    /// event sequence taken into the grid followed by one render pass.
    pub fn write(&mut self, bytes: &[u8])
        requires
            old(self).wf(),
        ensures
            final(self).wf(),
            final(self).width == old(self).width,
            final(self).height == old(self).height,
            final(self).font@ == old(self).font@,
            !final(self).grid@.redraw,
            forall|r: int| 0 <= r < final(self).grid@.h ==> !final(self).grid@.changed[r],
            exists|evs: Seq<TermEvent>, gm: GridView, cv: bool, cx: int, cy: int|
                write_applied(*old(self), *final(self), evs, gm, cv, cx, cy),
    {
        proof {
            // at least 16 pixel rows give the machine at least one cell row
            vstd::arithmetic::div_mod::lemma_div_is_ordered(16, self.height as int, 16);
        }
        let events = console_feed(&mut self.console, bytes);
        let mut i: usize = 0;
        while i < events.len()
            invariant
                self.wf(),
                self.width == old(self).width,
                self.height == old(self).height,
                self.font@ == old(self).font@,
                self.data@ == old(self).data@,
                i <= events@.len(),
                events_applied(old(self).grid@, self.grid@, events@.take(i as int)),
            decreases events@.len() - i,
        {
            let ghost gpre = self.grid@;
            self.grid.apply(&events[i]);
            proof {
                lemma_events_applied_push(
                    old(self).grid@,
                    gpre,
                    self.grid@,
                    events@.take(i as int),
                    events@[i as int],
                );
                assert(events@.take(i as int).push(events@[i as int]) =~= events@.take(
                    i as int + 1,
                ));
            }
            i += 1;
        }
        let ghost gm = self.grid@;
        proof {
            assert(events@.take(events@.len() as int) =~= events@);
        }
        let (cv, cx, cy) = console_cursor(&self.console);
        self.render(cv, cx, cy);
        proof {
            assert(write_applied(*old(self), *self, events@, gm, cv, cx as int, cy as int));
        }
    }
}

} // verus!
