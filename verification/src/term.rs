//! The trusted boundary to the ANSI terminal state machine of the `ransid`
//! crate.  The machine parses the byte stream fed to it and reports screen
//! updates through a callback; everything it reports is carried across this
//! boundary as plain `TermEvent` values, and what the library then does with
//! them is verified for every possible report.

use vstd::prelude::*;
use crate::grid::TermEvent;

verus! {

#[verifier::external_type_specification]
#[verifier::external_body]
pub struct ExConsole(ransid::Console);

/// The number of cell rows the terminal state machine was built with.  The
/// machine never changes it after construction: `ransid` assigns its `h`
/// field only in `Console::new`.
pub uninterp spec fn con_rows(con: ransid::Console) -> int;

/// Relies on `ransid::Console::new`: builds the terminal state machine for a
/// `w` by `h` cell grid.
#[verifier::external_body]
pub(crate) fn console_new(w: usize, h: usize) -> (con: ransid::Console)
    ensures
        con_rows(con) == h,
{
    ransid::Console::new(w, h)
}

/// Relies on `ransid::Console::write`: parses the bytes as UTF-8 text and
/// ANSI control sequences, advances the machine's own cursor and mode state,
/// and reports each resulting screen update to the callback.  The callback
/// only moves every event's fields, one variant at a time, into a
/// `TermEvent` that it collects; no value is promised of the result, and the
/// library's handling of the events is verified for every outcome.
///
/// A machine built with no cell row is excluded: on such a console the
/// machine's own cursor arithmetic (`fix_cursor`, `self.y -= rows`)
/// underflows on the first printable byte.
#[verifier::external_body]
pub(crate) fn console_feed(con: &mut ransid::Console, bytes: &[u8]) -> (events: Vec<TermEvent>)
    requires
        con_rows(*old(con)) >= 1,
    ensures
        con_rows(*final(con)) == con_rows(*old(con)),
{
    let mut events: Vec<TermEvent> = Vec::new();
    con.write(bytes, |ev| events.push(match ev {
        ransid::Event::Char { x, y, c, bold, underlined, color } =>
            TermEvent::Glyph { x, y, c, bold, underlined, color: color.data },
        ransid::Event::Rect { x, y, w, h, color } =>
            TermEvent::Fill { x, y, w, h, color: color.data },
        ransid::Event::Scroll { rows, color } =>
            TermEvent::Scroll { rows, color: color.data },
        ransid::Event::Input { data } => TermEvent::Input { data: data.to_vec() },
        ransid::Event::ScreenBuffer { alternate, clear } =>
            TermEvent::Buffer { alternate, clear },
        ransid::Event::Title { title } => TermEvent::Title { title },
    }));
    events
}

/// Relies on the public cursor state of `ransid::Console`: whether the
/// cursor is shown, and the cell coordinates the machine will print at next.
#[verifier::external_body]
pub(crate) fn console_cursor(con: &ransid::Console) -> (r: (bool, usize, usize)) {
    (con.cursor, con.x, con.y)
}

} // verus!
