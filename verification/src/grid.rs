//! The logical character grid behind the renderer: one cell per character,
//! a per-row changed flag, and a single redraw flag, all mutated only by
//! screen-update events reported by the terminal state machine.

use vstd::prelude::*;
use crate::coords::{lemma_rc_bound, lemma_rc_inj};

verus! {

/// Foreground color of a freshly created cell (the terminal state machine's
/// default light-grey palette entry).
pub const DEFAULT_FG: u32 = 0xFFC0C0C0;

/// Background color of a freshly created cell (opaque black).
pub const DEFAULT_BG: u32 = 0xFF000000;

/// One character cell: codepoint, foreground, background, underline flag.
#[derive(Copy, Clone, PartialEq, Eq, Structural, Debug)]
pub struct Cell {
    pub c: char,
    pub fg: u32,
    pub bg: u32,
    pub underlined: bool,
}

/// A screen update reported by the terminal state machine.
pub enum TermEvent {
    /// One character was printed at cell `(x, y)` in the given foreground.
    Glyph { x: usize, y: usize, c: char, bold: bool, underlined: bool, color: u32 },
    /// A cell-aligned rectangle was erased to the given background.
    Fill { x: usize, y: usize, w: usize, h: usize, color: u32 },
    /// The whole grid moved up by `rows` rows; freed rows take the color.
    Scroll { rows: usize, color: u32 },
    /// Bytes the machine answers back to its feeder; no screen change.
    Input { data: Vec<u8> },
    /// A screen-buffer switch request; no cell of this grid changes.
    Buffer { alternate: bool, clear: bool },
    /// A window-title request; no cell of this grid changes.
    Title { title: String },
}

/// The mathematical state of a grid.
pub ghost struct GridView {
    pub w: int,
    pub h: int,
    pub cells: Seq<Cell>,
    pub changed: Seq<bool>,
    pub redraw: bool,
}

/// The cell at column `cx` of row `cy` of a row-major cell sequence.
pub open spec fn cell_at(cells: Seq<Cell>, w: int, cx: int, cy: int) -> Cell {
    cells[cy * w + cx]
}

impl GridView {
    /// Row-major layout: one cell per coordinate, one flag per row.  A
    /// changed row is only ever marked together with the redraw flag, so a
    /// grid with no pending redraw has no changed row either.
    pub open spec fn wf(self) -> bool {
        &&& 0 <= self.w
        &&& 0 <= self.h
        &&& self.w * self.h <= usize::MAX
        &&& self.cells.len() == self.w * self.h
        &&& self.changed.len() == self.h
        &&& !self.redraw ==> forall|r: int| 0 <= r < self.h ==> !self.changed[r]
    }
}

/// A cell freshly erased to `color`, keeping the old foreground.
pub open spec fn fill_cell(old_cell: Cell, color: u32) -> Cell {
    Cell { c: ' ', fg: old_cell.fg, bg: color, underlined: false }
}

/// A cell of a row freed by scrolling.
pub open spec fn blank_cell(color: u32) -> Cell {
    Cell { c: ' ', fg: color, bg: color, underlined: false }
}

/// The cell after a character was printed over it: the background stays.
pub open spec fn glyph_cell(old_cell: Cell, c: char, underlined: bool, color: u32) -> Cell {
    Cell { c, fg: color, bg: old_cell.bg, underlined }
}

/// `g1` is `g0` after a `Glyph` event: the one in-range cell takes the
/// character, its row is marked changed, and an out-of-range report is a
/// no-op.
pub open spec fn glyph_applied(
    g0: GridView,
    g1: GridView,
    x: int,
    y: int,
    c: char,
    underlined: bool,
    color: u32,
) -> bool {
    if 0 <= x < g0.w && 0 <= y < g0.h {
        &&& g1.w == g0.w
        &&& g1.h == g0.h
        &&& g1.cells == g0.cells.update(
            y * g0.w + x,
            glyph_cell(g0.cells[y * g0.w + x], c, underlined, color),
        )
        &&& g1.changed == g0.changed.update(y, true)
        &&& g1.redraw
    } else {
        g1 == g0
    }
}

/// `g1` is `g0` after a `Fill` event: every cell of the clipped rectangle is
/// erased to the color, exactly the covered rows are newly marked changed,
/// and a rectangle that covers no cell is a no-op.
pub open spec fn fill_applied(
    g0: GridView,
    g1: GridView,
    x: int,
    y: int,
    fw: int,
    fh: int,
    color: u32,
) -> bool {
    if 0 <= x < g0.w && 0 <= y < g0.h && fw > 0 && fh > 0 {
        &&& g1.w == g0.w
        &&& g1.h == g0.h
        &&& g1.cells.len() == g0.cells.len()
        &&& g1.changed.len() == g0.changed.len()
        &&& forall|cx: int, cy: int|
            0 <= cx < g0.w && 0 <= cy < g0.h ==> #[trigger] cell_at(g1.cells, g1.w, cx, cy)
                == if x <= cx < x + fw && y <= cy < y + fh {
                fill_cell(cell_at(g0.cells, g0.w, cx, cy), color)
            } else {
                cell_at(g0.cells, g0.w, cx, cy)
            }
        &&& forall|r: int|
            0 <= r < g0.h ==> #[trigger] g1.changed[r] == (g0.changed[r] || (y <= r < y + fh))
        &&& g1.redraw
    } else {
        g1 == g0
    }
}

/// `g1` is `g0` after a `Scroll` event: row `r` takes what row `r + rows`
/// held, rows past the end are blanked, and every row is marked changed.
pub open spec fn scroll_applied(g0: GridView, g1: GridView, rows: int, color: u32) -> bool {
    if g0.h > 0 {
        &&& g1.w == g0.w
        &&& g1.h == g0.h
        &&& g1.cells.len() == g0.cells.len()
        &&& g1.changed.len() == g0.changed.len()
        &&& forall|cx: int, cy: int|
            0 <= cx < g0.w && 0 <= cy < g0.h ==> #[trigger] cell_at(g1.cells, g1.w, cx, cy)
                == if cy + rows < g0.h {
                cell_at(g0.cells, g0.w, cx, cy + rows)
            } else {
                blank_cell(color)
            }
        &&& forall|r: int| 0 <= r < g0.h ==> #[trigger] g1.changed[r]
        &&& g1.redraw
    } else {
        g1 == g0
    }
}

/// `g1` is `g0` after the event: the three painting events act as their
/// relations say; the machine's answer bytes, buffer switches and title
/// requests leave the grid as it was.
pub open spec fn event_applied(g0: GridView, g1: GridView, e: TermEvent) -> bool {
    match e {
        TermEvent::Glyph { x, y, c, bold: _, underlined, color } => glyph_applied(
            g0,
            g1,
            x as int,
            y as int,
            c,
            underlined,
            color,
        ),
        TermEvent::Fill { x, y, w, h, color } => fill_applied(
            g0,
            g1,
            x as int,
            y as int,
            w as int,
            h as int,
            color,
        ),
        TermEvent::Scroll { rows, color } => scroll_applied(g0, g1, rows as int, color),
        TermEvent::Input { .. } => g1 == g0,
        TermEvent::Buffer { .. } => g1 == g0,
        TermEvent::Title { .. } => g1 == g0,
    }
}

/// `g1` is `g0` after every event of the sequence, applied in order.
pub open spec fn events_applied(g0: GridView, g1: GridView, evs: Seq<TermEvent>) -> bool
    decreases evs.len(),
{
    if evs.len() == 0 {
        g1 == g0
    } else {
        exists|gm: GridView|
            #[trigger] event_applied(g0, gm, evs[0]) && events_applied(gm, g1, evs.drop_first())
    }
}

/// Applying one more event extends an applied sequence.
pub proof fn lemma_events_applied_push(
    g0: GridView,
    g1: GridView,
    g2: GridView,
    evs: Seq<TermEvent>,
    e: TermEvent,
)
    requires
        events_applied(g0, g1, evs),
        event_applied(g1, g2, e),
    ensures
        events_applied(g0, g2, evs.push(e)),
    decreases evs.len(),
{
    let s = evs.push(e);
    if evs.len() == 0 {
        assert(s[0] == e);
        assert(s.drop_first() =~= Seq::<TermEvent>::empty());
        assert(event_applied(g0, g2, s[0]) && events_applied(g2, g2, s.drop_first()));
    } else {
        let gm = choose|gm: GridView|
            #[trigger] event_applied(g0, gm, evs[0]) && events_applied(gm, g1, evs.drop_first());
        lemma_events_applied_push(gm, g1, g2, evs.drop_first(), e);
        assert(s.drop_first() =~= evs.drop_first().push(e));
        assert(s[0] == evs[0]);
        assert(event_applied(g0, gm, s[0]) && events_applied(gm, g2, s.drop_first()));
    }
}

/// The character grid with its dirty-row bookkeeping.
pub struct CharGrid {
    pub w: usize,
    pub h: usize,
    pub cells: Vec<Cell>,
    pub changed: Vec<bool>,
    pub redraw: bool,
}

impl View for CharGrid {
    type V = GridView;

    open spec fn view(&self) -> GridView {
        GridView {
            w: self.w as int,
            h: self.h as int,
            cells: self.cells@,
            changed: self.changed@,
            redraw: self.redraw,
        }
    }
}

impl CharGrid {
    /// The grid holds one cell per coordinate and one flag per row.
    pub open spec fn wf(self) -> bool {
        self@.wf()
    }

    /// A fresh grid: every cell blank in the default palette, every row
    /// marked changed and a pending redraw, so that the first render paints
    /// the whole surface.
    pub fn new(w: usize, h: usize) -> (g: CharGrid)
        requires
            w * h <= usize::MAX,
        ensures
            g.wf(),
            g@.w == w,
            g@.h == h,
            g@.redraw,
            forall|i: int|
                0 <= i < w * h ==> g@.cells[i] == (Cell {
                    c: ' ',
                    fg: DEFAULT_FG,
                    bg: DEFAULT_BG,
                    underlined: false,
                }),
            forall|r: int| 0 <= r < h ==> g@.changed[r],
    {
        let size: usize = w * h;
        let mut cells: Vec<Cell> = Vec::new();
        while cells.len() < size
            invariant
                cells@.len() <= size,
                forall|i: int|
                    0 <= i < cells@.len() ==> cells@[i] == (Cell {
                        c: ' ',
                        fg: DEFAULT_FG,
                        bg: DEFAULT_BG,
                        underlined: false,
                    }),
            decreases size - cells@.len(),
        {
            cells.push(Cell { c: ' ', fg: DEFAULT_FG, bg: DEFAULT_BG, underlined: false });
        }
        let mut changed: Vec<bool> = Vec::new();
        while changed.len() < h
            invariant
                changed@.len() <= h,
                forall|r: int| 0 <= r < changed@.len() ==> changed@[r],
            decreases h - changed@.len(),
        {
            changed.push(true);
        }
        CharGrid { w, h, cells, changed, redraw: true }
    }

    /// Apply one reported screen update to the grid.
    pub fn apply(&mut self, e: &TermEvent)
        requires
            old(self).wf(),
        ensures
            final(self).wf(),
            event_applied(old(self)@, final(self)@, *e),
    {
        match e {
            TermEvent::Glyph { x, y, c, bold: _, underlined, color } => {
                self.apply_glyph(*x, *y, *c, *underlined, *color);
            },
            TermEvent::Fill { x, y, w, h, color } => {
                self.apply_fill(*x, *y, *w, *h, *color);
            },
            TermEvent::Scroll { rows, color } => {
                self.apply_scroll(*rows, *color);
            },
            TermEvent::Input { .. } => {},
            TermEvent::Buffer { .. } => {},
            TermEvent::Title { .. } => {},
        }
    }

    fn apply_glyph(&mut self, x: usize, y: usize, c: char, underlined: bool, color: u32)
        requires
            old(self).wf(),
        ensures
            final(self).wf(),
            glyph_applied(old(self)@, final(self)@, x as int, y as int, c, underlined, color),
    {
        if x < self.w && y < self.h {
            proof {
                lemma_rc_bound(self.w as int, self.h as int, x as int, y as int);
            }
            let i: usize = y * self.w + x;
            let old_cell = self.cells[i];
            self.cells[i] = Cell { c, fg: color, bg: old_cell.bg, underlined };
            self.changed[y] = true;
            self.redraw = true;
        }
    }

    fn apply_fill(&mut self, x: usize, y: usize, fw: usize, fh: usize, color: u32)
        requires
            old(self).wf(),
        ensures
            final(self).wf(),
            fill_applied(
                old(self)@,
                final(self)@,
                x as int,
                y as int,
                fw as int,
                fh as int,
                color,
            ),
    {
        if x < self.w && y < self.h && fw > 0 && fh > 0 {
            self.redraw = true;
            let y_end: usize = if fh >= self.h - y {
                self.h
            } else {
                y + fh
            };
            let x_end: usize = if fw >= self.w - x {
                self.w
            } else {
                x + fw
            };
            let mut cy: usize = y;
            while cy < y_end
                invariant
                    self.wf(),
                    self.w == old(self).w,
                    self.h == old(self).h,
                    x < self.w,
                    y <= cy <= y_end <= self.h,
                    y_end == vstd::math::min(y as int + fh as int, self.h as int),
                    x_end == vstd::math::min(x as int + fw as int, self.w as int),
                    self@.redraw,
                    forall|px: int, qy: int|
                        0 <= px < self@.w && 0 <= qy < self@.h ==> #[trigger] cell_at(
                            self@.cells,
                            self@.w,
                            px,
                            qy,
                        ) == if x <= px < x + fw && y <= qy < cy {
                            fill_cell(cell_at(old(self)@.cells, self@.w, px, qy), color)
                        } else {
                            cell_at(old(self)@.cells, self@.w, px, qy)
                        },
                    forall|r: int|
                        0 <= r < self@.h ==> #[trigger] self@.changed[r] == (old(
                            self,
                        )@.changed[r] || (y <= r < cy)),
                decreases y_end - cy,
            {
                let mut cx: usize = x;
                while cx < x_end
                    invariant
                        self.wf(),
                        self.w == old(self).w,
                        self.h == old(self).h,
                        x <= cx <= x_end,
                        y <= cy < y_end <= self.h,
                        x < self.w,
                        y_end == vstd::math::min(y as int + fh as int, self.h as int),
                        x_end == vstd::math::min(x as int + fw as int, self.w as int),
                        self@.redraw,
                        forall|r: int|
                            0 <= r < self@.h ==> #[trigger] self@.changed[r] == (old(
                                self,
                            )@.changed[r] || (y <= r < cy)),
                        forall|px: int, qy: int|
                            0 <= px < self@.w && 0 <= qy < self@.h ==> #[trigger] cell_at(
                                self@.cells,
                                self@.w,
                                px,
                                qy,
                            ) == if (x <= px < x + fw && y <= qy < cy) || (qy == cy && x <= px
                                < cx) {
                                fill_cell(cell_at(old(self)@.cells, self@.w, px, qy), color)
                            } else {
                                cell_at(old(self)@.cells, self@.w, px, qy)
                            },
                    decreases x_end - cx,
                {
                    proof {
                        lemma_rc_bound(self.w as int, self.h as int, cx as int, cy as int);
                    }
                    let ghost pre = self@.cells;
                    let i: usize = cy * self.w + cx;
                    let old_cell = self.cells[i];
                    self.cells[i] = Cell { c: ' ', fg: old_cell.fg, bg: color, underlined: false };
                    proof {
                        assert forall|px: int, qy: int|
                            0 <= px < self@.w && 0 <= qy < self@.h && !(px == cx as int && qy
                                == cy as int) implies #[trigger] cell_at(self@.cells, self@.w, px, qy)
                            == cell_at(pre, self@.w, px, qy) by {
                            lemma_rc_bound(self@.w, self@.h, px, qy);
                            if qy * self@.w + px == cy as int * self@.w + cx as int {
                                lemma_rc_inj(self@.w, px, qy, cx as int, cy as int);
                            }
                        }
                        assert(cell_at(self@.cells, self@.w, cx as int, cy as int) == fill_cell(
                            cell_at(pre, self@.w, cx as int, cy as int),
                            color,
                        ));
                    }
                    cx += 1;
                }
                proof {
                    assert forall|px: int, qy: int|
                        0 <= px < self@.w && 0 <= qy < self@.h implies #[trigger] cell_at(
                        self@.cells,
                        self@.w,
                        px,
                        qy,
                    ) == if x <= px < x + fw && y <= qy < cy + 1 {
                        fill_cell(cell_at(old(self)@.cells, self@.w, px, qy), color)
                    } else {
                        cell_at(old(self)@.cells, self@.w, px, qy)
                    } by {
                    }
                }
                self.changed[cy] = true;
                cy += 1;
            }
        }
    }

    fn apply_scroll(&mut self, rows: usize, color: u32)
        requires
            old(self).wf(),
        ensures
            final(self).wf(),
            scroll_applied(old(self)@, final(self)@, rows as int, color),
    {
        if self.h == 0 {
            return ;
        }
        self.redraw = true;
        let mut cy: usize = 0;
        while cy < self.h
            invariant
                self.wf(),
                self.w == old(self).w,
                self.h == old(self).h,
                0 < self.h,
                cy <= self.h,
                self@.redraw,
                forall|px: int, qy: int|
                    0 <= px < self@.w && 0 <= qy < self@.h ==> #[trigger] cell_at(
                        self@.cells,
                        self@.w,
                        px,
                        qy,
                    ) == if qy < cy {
                        (if qy + rows < self@.h {
                            cell_at(old(self)@.cells, self@.w, px, qy + rows)
                        } else {
                            blank_cell(color)
                        })
                    } else {
                        cell_at(old(self)@.cells, self@.w, px, qy)
                    },
                forall|r: int|
                    0 <= r < self@.h ==> #[trigger] self@.changed[r] == if r < cy {
                        true
                    } else {
                        old(self)@.changed[r]
                    },
            decreases self.h - cy,
        {
            let mut cx: usize = 0;
            while cx < self.w
                invariant
                    self.wf(),
                    self.w == old(self).w,
                    self.h == old(self).h,
                    cy < self.h,
                    cx <= self.w,
                    self@.redraw,
                    forall|r: int|
                        0 <= r < self@.h ==> #[trigger] self@.changed[r] == if r < cy {
                            true
                        } else {
                            old(self)@.changed[r]
                        },
                    forall|px: int, qy: int|
                        0 <= px < self@.w && 0 <= qy < self@.h ==> #[trigger] cell_at(
                            self@.cells,
                            self@.w,
                            px,
                            qy,
                        ) == if qy < cy || (qy == cy && px < cx) {
                            (if qy + rows < self@.h {
                                cell_at(old(self)@.cells, self@.w, px, qy + rows)
                            } else {
                                blank_cell(color)
                            })
                        } else {
                            cell_at(old(self)@.cells, self@.w, px, qy)
                        },
                decreases self.w - cx,
            {
                proof {
                    lemma_rc_bound(self.w as int, self.h as int, cx as int, cy as int);
                }
                let ghost pre = self@.cells;
                let i: usize = cy * self.w + cx;
                let new_cell: Cell = if rows < self.h - cy {
                    proof {
                        lemma_rc_bound(self.w as int, self.h as int, cx as int, cy as int + rows as int);
                        assert(cell_at(self@.cells, self@.w, cx as int, cy as int + rows as int)
                            == cell_at(old(self)@.cells, self@.w, cx as int, cy as int + rows as int));
                    }
                    let src: usize = (cy + rows) * self.w + cx;
                    self.cells[src]
                } else {
                    Cell { c: ' ', fg: color, bg: color, underlined: false }
                };
                self.cells[i] = new_cell;
                proof {
                    assert forall|px: int, qy: int|
                        0 <= px < self@.w && 0 <= qy < self@.h && !(px == cx as int && qy
                            == cy as int) implies #[trigger] cell_at(self@.cells, self@.w, px, qy)
                        == cell_at(pre, self@.w, px, qy) by {
                        lemma_rc_bound(self@.w, self@.h, px, qy);
                        if qy * self@.w + px == cy as int * self@.w + cx as int {
                            lemma_rc_inj(self@.w, px, qy, cx as int, cy as int);
                        }
                    }
                    assert(cell_at(self@.cells, self@.w, cx as int, cy as int) == new_cell);
                }
                cx += 1;
            }
            self.changed[cy] = true;
            cy += 1;
        }
    }
}

} // verus!
