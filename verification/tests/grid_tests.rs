use fbconsole::grid::{CharGrid, TermEvent, DEFAULT_BG, DEFAULT_FG};

fn cleared(w: usize, h: usize) -> CharGrid {
    let mut g = CharGrid::new(w, h);
    g.redraw = false;
    for r in 0..h {
        g.changed[r] = false;
    }
    g
}

#[test]
fn new_grid_asks_for_a_full_paint() {
    let g = CharGrid::new(4, 3);
    assert!(g.redraw);
    assert_eq!(g.changed, vec![true; 3]);
    assert_eq!(g.cells.len(), 12);
    for cell in &g.cells {
        assert_eq!(cell.c, ' ');
        assert_eq!(cell.fg, DEFAULT_FG);
        assert_eq!(cell.bg, DEFAULT_BG);
        assert!(!cell.underlined);
    }
}

#[test]
fn glyph_event_sets_cell_and_marks_row() {
    let mut g = cleared(4, 3);
    g.apply(&TermEvent::Glyph { x: 2, y: 1, c: 'Q', bold: false, underlined: true, color: 7 });
    let cell = g.cells[1 * 4 + 2];
    assert_eq!(cell.c, 'Q');
    assert_eq!(cell.fg, 7);
    assert_eq!(cell.bg, DEFAULT_BG);
    assert!(cell.underlined);
    assert_eq!(g.changed, vec![false, true, false]);
    assert!(g.redraw);
}

#[test]
fn glyph_event_out_of_range_is_a_no_op() {
    let mut g = cleared(4, 3);
    g.apply(&TermEvent::Glyph { x: 4, y: 0, c: 'Q', bold: false, underlined: false, color: 7 });
    g.apply(&TermEvent::Glyph { x: 0, y: 3, c: 'Q', bold: false, underlined: false, color: 7 });
    assert_eq!(g.changed, vec![false, false, false]);
    assert!(!g.redraw);
}

#[test]
fn fill_event_erases_clipped_rectangle() {
    let mut g = cleared(4, 3);
    g.apply(&TermEvent::Glyph { x: 1, y: 1, c: 'Q', bold: false, underlined: false, color: 7 });
    g.apply(&TermEvent::Fill { x: 1, y: 1, w: 100, h: 1, color: 9 });
    let cell = g.cells[1 * 4 + 1];
    assert_eq!(cell.c, ' ');
    assert_eq!(cell.bg, 9);
    assert_eq!(cell.fg, 7); // foreground of the erased cell is kept
    assert_eq!(g.cells[1 * 4 + 3].bg, 9); // clipped at the right edge
    assert_eq!(g.cells[0].bg, DEFAULT_BG); // row 0 untouched
    assert_eq!(g.changed, vec![false, true, false]);
}

#[test]
fn scroll_event_shifts_rows_and_blanks_the_tail() {
    let mut g = cleared(2, 3);
    g.apply(&TermEvent::Glyph { x: 0, y: 1, c: 'X', bold: false, underlined: false, color: 5 });
    g.apply(&TermEvent::Scroll { rows: 1, color: 3 });
    assert_eq!(g.cells[0].c, 'X'); // row 1 moved up to row 0
    assert_eq!(g.cells[0].fg, 5);
    for i in 4..6 {
        // the freed bottom row is blank in the scroll color
        assert_eq!(g.cells[i].c, ' ');
        assert_eq!(g.cells[i].bg, 3);
    }
    assert_eq!(g.changed, vec![true, true, true]);
    assert!(g.redraw);
}

#[test]
fn input_buffer_and_title_events_change_nothing() {
    let mut g = cleared(2, 2);
    g.apply(&TermEvent::Input { data: vec![1, 2, 3] });
    g.apply(&TermEvent::Buffer { alternate: true, clear: true });
    g.apply(&TermEvent::Title { title: String::from("name") });
    assert_eq!(g.changed, vec![false, false]);
    assert!(!g.redraw);
    for cell in &g.cells {
        assert_eq!(cell.c, ' ');
    }
}
