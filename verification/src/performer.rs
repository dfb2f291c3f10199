use vstd::prelude::*;

use crate::cursor::{last_index, min_nat, sub_floor, Cursor, CursorView};
use crate::screen::{
    cleared, put_cell, reflow_fits, resized, resized_rows, scrolled, Screen, ScreenView,
};

verus! {

/// The mathematical state of a performer: its screen, its cursor, whether
/// the last character was written into the last column (so that the next
/// printed character first moves to a new line), and its OSC buffer.
pub struct TermView {
    pub screen: ScreenView,
    pub cursor: CursorView,
    pub wrap_pending: bool,
    pub osc_buffer: Seq<u8>,
}

impl TermView {
    /// The cursor lies in its area, the screen holds every cell the cursor
    /// can reach, and a line that scrolls in is wide enough for every column
    /// the cursor can reach.
    pub open spec fn wf(self) -> bool {
        &&& self.cursor.in_bounds()
        &&& last_index(self.cursor.rows) < self.screen.lines.len()
        &&& last_index(self.cursor.cols) < self.screen.cols
        &&& forall|i: int|
            0 <= i < self.screen.lines.len() ==> last_index(self.cursor.cols) < (
            #[trigger] self.screen.lines[i]).len()
    }
}

/// A line feed is possible: on the last row there is a line to scroll away.
pub open spec fn line_feed_ok(t: TermView) -> bool {
    t.cursor.row == last_index(t.cursor.rows) ==> t.screen.lines.len() > 0
}

/// The state after a line feed: on the last row the screen scrolls up,
/// otherwise the cursor moves one row down; either way it goes to column 0.
pub open spec fn line_fed(t: TermView) -> TermView {
    if t.cursor.row == last_index(t.cursor.rows) {
        TermView {
            screen: ScreenView { lines: scrolled(t.screen.lines, t.screen.cols), ..t.screen },
            cursor: CursorView { col: 0, ..t.cursor },
            wrap_pending: false,
            ..t
        }
    } else {
        TermView {
            cursor: CursorView {
                row: min_nat(t.cursor.row + 1, last_index(t.cursor.rows)),
                col: 0,
                ..t.cursor
            },
            wrap_pending: false,
            ..t
        }
    }
}

/// The state after clearing: every cell blank and the cursor at the origin.
pub open spec fn cleared_all(t: TermView) -> TermView {
    TermView {
        screen: ScreenView { lines: cleared(t.screen.lines), ..t.screen },
        cursor: CursorView { row: 0, col: 0, ..t.cursor },
        wrap_pending: false,
        ..t
    }
}

/// A wrap is pending and the cursor still stands in the last column.
pub open spec fn wraps_first(t: TermView) -> bool {
    t.wrap_pending && t.cursor.col == last_index(t.cursor.cols)
}

/// The state in which a printed character is written: after the line feed
/// that a pending wrap calls for, if any.
pub open spec fn before_write(t: TermView) -> TermView {
    if wraps_first(t) {
        line_fed(t)
    } else {
        t
    }
}

/// Printing is possible: with no columns, a line feed is possible; else the
/// pending line feed (if any) is possible and the cell under the cursor exists.
pub open spec fn print_ok(t: TermView) -> bool {
    if t.cursor.cols == 0 {
        line_feed_ok(t)
    } else {
        let t1 = before_write(t);
        &&& wraps_first(t) ==> line_feed_ok(t)
        &&& t1.cursor.row < t1.screen.lines.len()
        &&& t1.cursor.col < t1.screen.lines[t1.cursor.row as int].len()
    }
}

/// The state after printing `c`. With no columns there is no cell to write
/// and the cursor moves to a new line. Otherwise a wrap still pending in the
/// last column first feeds a line; `c` goes into the cell under the cursor;
/// then the cursor moves one column right, or, in the last column, stays and
/// leaves a wrap pending.
pub open spec fn printed(t: TermView, c: char) -> TermView {
    if t.cursor.cols == 0 {
        line_fed(t)
    } else {
        let t1 = before_write(t);
        let s2 = ScreenView {
            lines: put_cell(t1.screen.lines, t1.cursor.row as int, t1.cursor.col as int, c),
            ..t1.screen
        };
        if t1.cursor.col == last_index(t1.cursor.cols) {
            TermView { screen: s2, wrap_pending: true, ..t1 }
        } else {
            TermView {
                screen: s2,
                cursor: CursorView { col: t1.cursor.col + 1, ..t1.cursor },
                wrap_pending: false,
                ..t1
            }
        }
    }
}

/// The state after the control byte `byte`: line feed, carriage return and
/// form feed (clear) act; every other byte is ignored.
pub open spec fn executed(t: TermView, byte: u8) -> TermView {
    if byte == 0x0a {
        line_fed(t)
    } else if byte == 0x0d {
        TermView { cursor: CursorView { col: 0, ..t.cursor }, wrap_pending: false, ..t }
    } else if byte == 0x0c {
        cleared_all(t)
    } else {
        t
    }
}

/// The first value of the `k`-th parameter, or `default` where there is none.
pub open spec fn param_or(params: Seq<Seq<u16>>, k: int, default: u16) -> u16 {
    if 0 <= k < params.len() && params[k].len() > 0 {
        params[k][0]
    } else {
        default
    }
}

/// A count parameter of a cursor movement: 0 counts as 1.
pub open spec fn count_of(n: u16) -> nat {
    if n == 0 {
        1
    } else {
        n as nat
    }
}

/// The state after the control sequence `CSI params action`.
/// `H`/`f` move to (row, column), both 1-based and defaulting to 1;
/// `A`/`B` move up/down by a count (default 1), stopping at the edge;
/// `J` with parameter 2 clears the screen and homes the cursor.
pub open spec fn csi_dispatched(t: TermView, params: Seq<Seq<u16>>, action: char) -> TermView {
    if action == 'H' || action == 'f' {
        let r = sub_floor(param_or(params, 0, 1) as nat, 1);
        let c = sub_floor(param_or(params, 1, 1) as nat, 1);
        TermView {
            cursor: CursorView {
                row: min_nat(r, last_index(t.cursor.rows)),
                col: min_nat(c, last_index(t.cursor.cols)),
                ..t.cursor
            },
            wrap_pending: false,
            ..t
        }
    } else if action == 'A' {
        TermView {
            cursor: CursorView {
                row: sub_floor(t.cursor.row, count_of(param_or(params, 0, 1))),
                ..t.cursor
            },
            wrap_pending: false,
            ..t
        }
    } else if action == 'B' {
        TermView {
            cursor: CursorView {
                row: min_nat(
                    t.cursor.row + count_of(param_or(params, 0, 1)),
                    last_index(t.cursor.rows),
                ),
                ..t.cursor
            },
            wrap_pending: false,
            ..t
        }
    } else if action == 'J' && param_or(params, 0, 0) == 2 {
        cleared_all(t)
    } else {
        t
    }
}

/// Applies printed characters and control functions to a screen and a
/// cursor.
pub struct TerminalPerformer {
    pub screen: Screen,
    pub curs: Cursor,
    pub osc_buffer: Vec<u8>,
    pub wrap_pending: bool,
}

impl View for TerminalPerformer {
    type V = TermView;

    open spec fn view(&self) -> TermView {
        TermView {
            screen: self.screen@,
            cursor: self.curs@,
            wrap_pending: self.wrap_pending,
            osc_buffer: self.osc_buffer@,
        }
    }
}

/// The first value of the `k`-th parameter, or `default`.
fn first_param_or(params: &Vec<Vec<u16>>, k: usize, default: u16) -> (v: u16)
    ensures
        v == param_or(params.deep_view(), k as int, default),
{
    if k < params.len() && params[k].len() > 0 {
        params[k][0]
    } else {
        default
    }
}

impl TerminalPerformer {
    /// A performer over `screen` and `curs`, with no wrap pending. A screen
    /// of `rows` lines of `cols` characters, with a cursor on an area of the
    /// same nonzero size, gives a well-formed performer.
    pub fn new(screen: Screen, curs: Cursor) -> (p: Self)
        ensures
            p@ == (TermView {
                screen: screen@,
                cursor: curs@,
                wrap_pending: false,
                osc_buffer: Seq::<u8>::empty(),
            }),
            screen@.well_sized() && curs@.in_bounds() && curs@.rows == screen@.rows
                && curs@.cols == screen@.cols && screen@.rows > 0 && screen@.cols > 0 ==> p@.wf(),
    {
        TerminalPerformer { screen, curs, osc_buffer: Vec::new(), wrap_pending: false }
    }

    /// Blanks the screen and moves the cursor to the origin.
    pub fn clear(&mut self)
        ensures
            final(self)@ == cleared_all(old(self)@),
            old(self)@.wf() ==> final(self)@.wf(),
    {
        self.screen.clear();
        self.curs.reset();
        self.wrap_pending = false;
    }

    /// Moves to the start of the next line, scrolling on the last row.
    pub fn line_feed(&mut self)
        requires
            line_feed_ok(old(self)@),
        ensures
            final(self)@ == line_fed(old(self)@),
            old(self)@.wf() ==> final(self)@.wf(),
    {
        if self.curs.last_row_avail() {
            self.screen.scroll_up();
        } else {
            self.curs.advance_n_rows(1);
        }
        self.curs.reset_col();
        self.wrap_pending = false;
    }

    /// Writes `c` at the cursor and moves the cursor on (see `printed`).
    pub fn put_char(&mut self, c: char)
        requires
            print_ok(old(self)@),
        ensures
            final(self)@ == printed(old(self)@, c),
            old(self)@.wf() ==> final(self)@.wf(),
    {
        let (_, cols) = self.curs.available();
        if cols == 0 {
            self.line_feed();
            return ;
        }
        if self.wrap_pending && self.curs.last_col_avail() {
            self.line_feed();
        }
        let pos = self.curs.get_position();
        self.screen.char_in_grid(c, pos);
        if self.curs.last_col_avail() {
            self.wrap_pending = true;
        } else {
            self.curs.advance_n_cols(1);
            self.wrap_pending = false;
        }
    }

    /// Changes the size of the screen and of the cursor's area to
    /// `rows` x `cols` (see `Screen::resize`), pulling the cursor inside.
    pub fn resize(&mut self, rows: usize, cols: usize)
        requires
            rows < old(self)@.screen.rows ==> old(self)@.screen.rows - rows
                <= old(self)@.screen.lines.len(),
            cols < old(self)@.screen.cols ==> reflow_fits(
                resized_rows(
                    old(self)@.screen.lines,
                    old(self)@.screen.rows,
                    old(self)@.screen.cols,
                    rows as nat,
                    cols as nat,
                ),
                cols as nat,
                seq![],
            ),
        ensures
            final(self)@ == (TermView {
                screen: ScreenView {
                    rows: rows as nat,
                    cols: cols as nat,
                    lines: resized(
                        old(self)@.screen.lines,
                        old(self)@.screen.rows,
                        old(self)@.screen.cols,
                        rows as nat,
                        cols as nat,
                    ),
                },
                cursor: CursorView {
                    row: min_nat(old(self)@.cursor.row, last_index(rows as nat)),
                    col: min_nat(old(self)@.cursor.col, last_index(cols as nat)),
                    rows: rows as nat,
                    cols: cols as nat,
                },
                wrap_pending: false,
                ..old(self)@
            }),
    {
        self.screen.resize(rows, cols);
        self.curs.clamp(rows, cols);
        self.wrap_pending = false;
    }

    /// Prints the character `c` (see `printed`).
    pub fn print(&mut self, c: char)
        requires
            print_ok(old(self)@),
        ensures
            final(self)@ == printed(old(self)@, c),
            old(self)@.wf() ==> final(self)@.wf(),
    {
        self.put_char(c);
    }

    /// Executes the C0 control byte `byte` (see `executed`).
    pub fn execute(&mut self, byte: u8)
        requires
            byte == 0x0a ==> line_feed_ok(old(self)@),
        ensures
            final(self)@ == executed(old(self)@, byte),
            old(self)@.wf() ==> final(self)@.wf(),
    {
        if byte == 0x0a {
            self.line_feed();
        } else if byte == 0x0d {
            self.curs.reset_col();
            self.wrap_pending = false;
        } else if byte == 0x0c {
            self.clear();
        }
    }

    /// Performs the control sequence `CSI params action` (see
    /// `csi_dispatched`); each entry of `params` is one parameter with its
    /// sub-parameters. Intermediate bytes and the overflow flag are not read.
    pub fn csi_dispatch(
        &mut self,
        params: &Vec<Vec<u16>>,
        _intermediates: &[u8],
        _ignore: bool,
        action: char,
    )
        ensures
            final(self)@ == csi_dispatched(old(self)@, params.deep_view(), action),
            old(self)@.wf() ==> final(self)@.wf(),
    {
        if action == 'H' || action == 'f' {
            let row = first_param_or(params, 0, 1) as usize;
            let col = first_param_or(params, 1, 1) as usize;
            self.curs.set_position(row.saturating_sub(1), col.saturating_sub(1));
            self.wrap_pending = false;
        } else if action == 'A' {
            let n = first_param_or(params, 0, 1) as usize;
            let n = if n == 0 {
                1
            } else {
                n
            };
            self.curs.recede_n_rows(n);
            self.wrap_pending = false;
        } else if action == 'B' {
            let n = first_param_or(params, 0, 1) as usize;
            let n = if n == 0 {
                1
            } else {
                n
            };
            self.curs.advance_n_rows(n);
            self.wrap_pending = false;
        } else if action == 'J' {
            let ps = first_param_or(params, 0, 0);
            if ps == 2 {
                self.clear();
            }
        }
    }
}

/// A well-formed performer can always print and feed a line, and stays
/// well-formed: every call on it meets its `requires`.
pub proof fn lemma_wf_permits_every_call(t: TermView)
    requires
        t.wf(),
    ensures
        line_feed_ok(t),
        print_ok(t),
        line_fed(t).wf(),
{
    if t.cursor.cols != 0 && wraps_first(t) {
        let t1 = line_fed(t);
        assert(t1.wf());
    }
}

/// A printed character lands in the cell under the cursor, after the line
/// feed that a wrap still pending in the last column calls for; no line
/// changes length.
pub proof fn lemma_printed_char_lands_under_cursor(t: TermView, c: char)
    requires
        print_ok(t),
        t.cursor.cols > 0,
    ensures
        ({
            let t1 = before_write(t);
            let after = printed(t, c);
            &&& after.screen.lines[t1.cursor.row as int][t1.cursor.col as int] == c
            &&& after.screen.lines.len() == t1.screen.lines.len()
            &&& forall|i: int|
                0 <= i < after.screen.lines.len() ==> (#[trigger] after.screen.lines[i]).len()
                    == t1.screen.lines[i].len()
        }),
{
}

/// Away from the last column, a printed character lands under the cursor,
/// whatever wrap was pending, and the cursor moves one column right; no
/// other cell changes.
pub proof fn lemma_print_away_from_last_column(t: TermView, c: char)
    requires
        print_ok(t),
        t.cursor.cols > 0,
        t.cursor.col < last_index(t.cursor.cols),
    ensures
        ({
            let after = printed(t, c);
            &&& after.screen.lines == put_cell(
                t.screen.lines,
                t.cursor.row as int,
                t.cursor.col as int,
                c,
            )
            &&& after.cursor == CursorView { col: t.cursor.col + 1, ..t.cursor }
            &&& !after.wrap_pending
        }),
{
}

/// After a character is written into the last column, the next printed
/// character goes to column 0 of the next row (or of the last row, after a
/// scroll, when the cursor is on the last row).
pub proof fn lemma_wrap_continues_on_next_line(t: TermView, c: char, d: char)
    requires
        t.wf(),
        t.cursor.cols > 0,
        t.cursor.col == last_index(t.cursor.cols),
        !t.wrap_pending,
    ensures
        printed(t, c).wrap_pending,
        ({
            let row = min_nat(t.cursor.row + 1, last_index(t.cursor.rows));
            let after = printed(printed(t, c), d);
            &&& after.screen.lines[row as int][0] == d
            &&& after.cursor.row == row
        }),
{
}

/// Clearing twice is the same as clearing once.
pub proof fn lemma_clear_idempotent(t: TermView)
    ensures
        cleared_all(cleared_all(t)) == cleared_all(t),
{
    let g = t.screen.lines;
    assert(cleared(cleared(g)) =~= cleared(g));
}

} // verus!

verus! {

/// A line feed moves the cursor to column 0 and drops any pending wrap.
/// Off the last row it moves the cursor down one row and leaves every cell
/// as it was. On the last row the cursor keeps its row and the screen
/// scrolls: every line takes the place of the one above it, the top line is
/// gone, and a line of `cols` spaces comes in at the bottom. The sizes of
/// the screen and of the cursor's area do not change.
pub proof fn lemma_line_feed_moves_down_or_scrolls(t: TermView)
    requires
        t.wf(),
    ensures
        ({
            let f = line_fed(t);
            let n = t.screen.lines.len();
            &&& f.cursor.col == 0
            &&& !f.wrap_pending
            &&& f.cursor.rows == t.cursor.rows
            &&& f.cursor.cols == t.cursor.cols
            &&& f.screen.rows == t.screen.rows
            &&& f.screen.cols == t.screen.cols
            &&& f.osc_buffer == t.osc_buffer
            &&& t.cursor.row + 1 < t.cursor.rows ==> {
                &&& f.cursor.row == t.cursor.row + 1
                &&& f.screen.lines == t.screen.lines
            }
            &&& t.cursor.row + 1 >= t.cursor.rows ==> {
                &&& f.cursor.row == t.cursor.row
                &&& f.screen.lines.len() == n
                &&& forall|i: int| 0 <= i < n - 1 ==> f.screen.lines[i] == t.screen.lines[i + 1]
                &&& f.screen.lines[n - 1] == Seq::new(t.screen.cols, |_j: int| ' ')
            }
        }),
{
    let f = line_fed(t);
    let n = t.screen.lines.len();
    if t.cursor.row + 1 >= t.cursor.rows {
        assert forall|i: int| 0 <= i < n - 1 implies f.screen.lines[i] == t.screen.lines[i + 1] by {}
        assert(f.screen.lines[n - 1] =~= Seq::new(t.screen.cols, |_j: int| ' '));
    }
}

/// The control bytes: a line feed byte performs a line feed; a carriage
/// return moves the cursor to column 0 of its row and drops any pending
/// wrap, touching no cell; a form feed blanks every cell (each line keeping
/// its length) and moves the cursor to the origin; any other byte changes
/// nothing.
pub proof fn lemma_control_bytes(t: TermView, byte: u8)
    ensures
        executed(t, 0x0a) == line_fed(t),
        ({
            let r = executed(t, 0x0d);
            &&& r.screen == t.screen
            &&& r.cursor == CursorView { col: 0, ..t.cursor }
            &&& !r.wrap_pending
            &&& r.osc_buffer == t.osc_buffer
        }),
        ({
            let f = executed(t, 0x0c);
            &&& f.screen.lines.len() == t.screen.lines.len()
            &&& forall|i: int|
                0 <= i < t.screen.lines.len() ==> (#[trigger] f.screen.lines[i]).len()
                    == t.screen.lines[i].len()
            &&& forall|i: int, j: int|
                0 <= i < t.screen.lines.len() && 0 <= j < t.screen.lines[i].len()
                    ==> f.screen.lines[i][j] == ' '
            &&& f.cursor == CursorView { row: 0, col: 0, ..t.cursor }
            &&& f.screen.rows == t.screen.rows && f.screen.cols == t.screen.cols
        }),
        byte != 0x0a && byte != 0x0d && byte != 0x0c ==> executed(t, byte) == t,
{
}

/// Printing after a wrap left pending in the last column: on a row above
/// the last, the character goes into column 0 of the next row and no other
/// cell changes; on the last row of a screen exactly as tall as the cursor's
/// area, the screen first scrolls (every line moves up one, the top line is
/// gone) and the character goes into column 0 of a fresh blank bottom line.
/// Either way the cursor then stands just right of the character (or stays
/// in column 0 with a wrap pending again, on a one-column area).
pub proof fn lemma_print_after_pending_wrap(t: TermView, c: char)
    requires
        t.wf(),
        t.wrap_pending,
        t.cursor.cols > 0,
        t.cursor.col + 1 == t.cursor.cols,
    ensures
        ({
            let a = printed(t, c);
            let n = t.screen.lines.len();
            let row = t.cursor.row as int;
            &&& a.cursor.col == (if t.cursor.cols == 1 {
                0nat
            } else {
                1nat
            })
            &&& a.wrap_pending == (t.cursor.cols == 1)
            &&& a.cursor.rows == t.cursor.rows && a.cursor.cols == t.cursor.cols
            &&& a.screen.rows == t.screen.rows && a.screen.cols == t.screen.cols
            &&& t.cursor.row + 1 < t.cursor.rows ==> {
                &&& a.cursor.row == t.cursor.row + 1
                &&& a.screen.lines == t.screen.lines.update(
                    row + 1,
                    t.screen.lines[row + 1].update(0, c),
                )
            }
            &&& (t.cursor.row + 1 == t.cursor.rows && n == t.cursor.rows) ==> {
                &&& a.cursor.row == t.cursor.row
                &&& a.screen.lines.len() == n
                &&& forall|i: int| 0 <= i < n - 1 ==> a.screen.lines[i] == t.screen.lines[i + 1]
                &&& a.screen.lines[n - 1] == Seq::new(t.screen.cols, |_j: int| ' ').update(0, c)
            }
        }),
{
    let a = printed(t, c);
    let n = t.screen.lines.len();
    if t.cursor.row + 1 == t.cursor.rows && n == t.cursor.rows {
        assert forall|i: int| 0 <= i < n - 1 implies a.screen.lines[i] == t.screen.lines[i + 1] by {}
        assert(a.screen.lines[n - 1] =~= Seq::new(t.screen.cols, |_j: int| ' ').update(0, c));
    }
}

/// Printing with no wrap to perform (none pending, or the cursor moved off
/// the last column since): the character goes into the cell under the
/// cursor and no other cell changes; then the cursor moves one column
/// right, or, in the last column, stays and leaves a wrap pending.
pub proof fn lemma_print_without_wrap(t: TermView, c: char)
    requires
        print_ok(t),
        t.cursor.cols > 0,
        t.cursor.col < t.cursor.cols,
        !(t.wrap_pending && t.cursor.col + 1 == t.cursor.cols),
    ensures
        ({
            let a = printed(t, c);
            let row = t.cursor.row as int;
            let col = t.cursor.col as int;
            &&& a.screen.lines == t.screen.lines.update(row, t.screen.lines[row].update(col, c))
            &&& a.screen.rows == t.screen.rows && a.screen.cols == t.screen.cols
            &&& a.cursor.row == t.cursor.row
            &&& a.cursor.rows == t.cursor.rows && a.cursor.cols == t.cursor.cols
            &&& t.cursor.col + 1 < t.cursor.cols ==> a.cursor.col == t.cursor.col + 1
                && !a.wrap_pending
            &&& t.cursor.col + 1 == t.cursor.cols ==> a.cursor.col == t.cursor.col
                && a.wrap_pending
            &&& a.osc_buffer == t.osc_buffer
        }),
{
}

/// Cursor movement by control sequences. `CSI n A` and `CSI n B` move the
/// cursor up or down by `n` rows (a missing or zero `n` counting as 1),
/// stopping at the first or last row, and never change the column or any
/// cell. `CSI r ; c H` (or `f`) moves to 1-based row `r` and column `c`
/// (missing or zero counting as 1), clamped to the area, touching no cell.
/// Each drops a pending wrap.
pub proof fn lemma_csi_cursor_moves(t: TermView, params: Seq<Seq<u16>>)
    ensures
        ({
            let p0 = if params.len() > 0 && params[0].len() > 0 {
                params[0][0] as int
            } else {
                1
            };
            let p1 = if params.len() > 1 && params[1].len() > 0 {
                params[1][0] as int
            } else {
                1
            };
            let count = if p0 == 0 {
                1
            } else {
                p0
            };
            let last_row = if t.cursor.rows == 0 {
                0
            } else {
                t.cursor.rows - 1
            };
            let last_col = if t.cursor.cols == 0 {
                0
            } else {
                t.cursor.cols - 1
            };
            let up = csi_dispatched(t, params, 'A');
            let down = csi_dispatched(t, params, 'B');
            let home = csi_dispatched(t, params, 'H');
            let home_f = csi_dispatched(t, params, 'f');
            let r = if p0 == 0 {
                0
            } else {
                p0 - 1
            };
            let c = if p1 == 0 {
                0
            } else {
                p1 - 1
            };
            &&& up.screen == t.screen && down.screen == t.screen && home.screen == t.screen
            &&& up.cursor.col == t.cursor.col && down.cursor.col == t.cursor.col
            &&& up.cursor.rows == t.cursor.rows && up.cursor.cols == t.cursor.cols
            &&& down.cursor.rows == t.cursor.rows && down.cursor.cols == t.cursor.cols
            &&& up.cursor.row == (if t.cursor.row >= count {
                t.cursor.row - count
            } else {
                0
            })
            &&& down.cursor.row == (if t.cursor.row + count <= last_row {
                t.cursor.row + count
            } else {
                last_row
            })
            &&& home.cursor.row == (if r <= last_row {
                r
            } else {
                last_row
            })
            &&& home.cursor.col == (if c <= last_col {
                c
            } else {
                last_col
            })
            &&& home.cursor.rows == t.cursor.rows && home.cursor.cols == t.cursor.cols
            &&& home_f == home
            &&& !up.wrap_pending && !down.wrap_pending && !home.wrap_pending
        }),
{
}

/// `CSI 2 J` blanks every cell (each line keeping its length) and moves the
/// cursor to the origin; `J` with another parameter, and any action other
/// than `H`, `f`, `A`, `B` and `J`, changes nothing.
pub proof fn lemma_csi_erase_display(t: TermView, params: Seq<Seq<u16>>, action: char)
    ensures
        ({
            let e = csi_dispatched(t, params, 'J');
            let p0 = if params.len() > 0 && params[0].len() > 0 {
                params[0][0] as int
            } else {
                0
            };
            &&& p0 == 2 ==> {
                &&& e.screen.lines.len() == t.screen.lines.len()
                &&& forall|i: int|
                    0 <= i < t.screen.lines.len() ==> (#[trigger] e.screen.lines[i]).len()
                        == t.screen.lines[i].len()
                &&& forall|i: int, j: int|
                    0 <= i < t.screen.lines.len() && 0 <= j < t.screen.lines[i].len()
                        ==> e.screen.lines[i][j] == ' '
                &&& e.cursor == CursorView { row: 0, col: 0, ..t.cursor }
                &&& !e.wrap_pending
            }
            &&& p0 != 2 ==> e == t
        }),
        action != 'H' && action != 'f' && action != 'A' && action != 'B' && action != 'J'
            ==> csi_dispatched(t, params, action) == t,
{
}

} // verus!

verus! {

/// On an area with no columns there is no cell to write: printing only
/// feeds a line.
pub proof fn lemma_print_without_columns_feeds_line(t: TermView, c: char)
    requires
        t.cursor.cols == 0,
    ensures
        printed(t, c) == line_fed(t),
{
}

} // verus!
