use vstd::prelude::*;

verus! {

/// The index of the last row (or column) of an area `n` wide: `n - 1`,
/// and 0 for an empty area (`usize::saturating_sub(n, 1)`).
pub open spec fn last_index(n: nat) -> nat {
    if n == 0 {
        0
    } else {
        (n - 1) as nat
    }
}

pub open spec fn min_nat(a: nat, b: nat) -> nat {
    if a <= b {
        a
    } else {
        b
    }
}

/// `a - b`, stopping at 0.
pub open spec fn sub_floor(a: nat, b: nat) -> nat {
    if a >= b {
        (a - b) as nat
    } else {
        0
    }
}

/// The mathematical state of a cursor: its position and the size of the
/// area it moves in.
pub struct CursorView {
    pub row: nat,
    pub col: nat,
    pub rows: nat,
    pub cols: nat,
}

impl CursorView {
    /// The position lies inside the available area (row and column 0 when
    /// the area is empty in that direction).
    pub open spec fn in_bounds(self) -> bool {
        &&& self.row <= last_index(self.rows)
        &&& self.col <= last_index(self.cols)
    }

    /// `n` columns to the right, stopping at the last column.
    pub open spec fn moved_right(self, n: nat) -> CursorView {
        CursorView { col: min_nat(self.col + n, last_index(self.cols)), ..self }
    }

    /// `n` rows down, stopping at the last row.
    pub open spec fn moved_down(self, n: nat) -> CursorView {
        CursorView { row: min_nat(self.row + n, last_index(self.rows)), ..self }
    }

    /// `n` columns to the left, stopping at column 0.
    pub open spec fn moved_left(self, n: nat) -> CursorView {
        CursorView { col: sub_floor(self.col, n), ..self }
    }

    /// `n` rows up, stopping at row 0.
    pub open spec fn moved_up(self, n: nat) -> CursorView {
        CursorView { row: sub_floor(self.row, n), ..self }
    }

    /// At column `col`, or at the last column if `col` lies beyond it.
    pub open spec fn at_col(self, col: nat) -> CursorView {
        CursorView { col: min_nat(col, last_index(self.cols)), ..self }
    }

    /// At row `row`, or at the last row if `row` lies beyond it.
    pub open spec fn at_row(self, row: nat) -> CursorView {
        CursorView { row: min_nat(row, last_index(self.rows)), ..self }
    }

    /// In an area of `rows` x `cols`, the position pulled inside it.
    pub open spec fn clamped_to(self, rows: nat, cols: nat) -> CursorView {
        CursorView {
            row: min_nat(self.row, last_index(rows)),
            col: min_nat(self.col, last_index(cols)),
            rows,
            cols,
        }
    }
}

/// A cursor position within an area of `available_rows` x `available_cols`.
#[derive(Clone, Copy, Debug, PartialEq, Eq)]
pub struct Cursor {
    row: usize,
    col: usize,
    available_rows: usize,
    available_cols: usize,
}

impl View for Cursor {
    type V = CursorView;

    closed spec fn view(&self) -> CursorView {
        CursorView {
            row: self.row as nat,
            col: self.col as nat,
            rows: self.available_rows as nat,
            cols: self.available_cols as nat,
        }
    }
}

impl Cursor {
    #[verifier::type_invariant]
    spec fn well_placed(self) -> bool {
        self@.in_bounds()
    }

    /// A cursor at the origin of a `rows` x `cols` area.
    pub fn new(rows: usize, cols: usize) -> (c: Self)
        ensures
            c@ == (CursorView { row: 0, col: 0, rows: rows as nat, cols: cols as nat }),
    {
        Cursor { row: 0, col: 0, available_rows: rows, available_cols: cols }
    }

    /// Moves right by `n` columns, stopping at the last column.
    pub fn advance_n_cols(&mut self, n: usize)
        ensures
            final(self)@ == old(self)@.moved_right(n as nat),
            final(self)@.in_bounds(),
    {
        proof {
            use_type_invariant(&*self);
        }
        self.col = self.col.saturating_add(n).min(self.available_cols.saturating_sub(1));
    }

    /// Moves down by `n` rows, stopping at the last row.
    pub fn advance_n_rows(&mut self, n: usize)
        ensures
            final(self)@ == old(self)@.moved_down(n as nat),
            final(self)@.in_bounds(),
    {
        proof {
            use_type_invariant(&*self);
        }
        self.row = self.row.saturating_add(n).min(self.available_rows.saturating_sub(1));
    }

    /// Moves left by `n` columns, stopping at column 0.
    pub fn recede_n_cols(&mut self, n: usize)
        ensures
            final(self)@ == old(self)@.moved_left(n as nat),
            final(self)@.in_bounds(),
    {
        proof {
            use_type_invariant(&*self);
        }
        self.col = self.col.saturating_sub(n);
    }

    /// Moves up by `n` rows, stopping at row 0.
    pub fn recede_n_rows(&mut self, n: usize)
        ensures
            final(self)@ == old(self)@.moved_up(n as nat),
            final(self)@.in_bounds(),
    {
        proof {
            use_type_invariant(&*self);
        }
        self.row = self.row.saturating_sub(n);
    }

    /// Moves to column 0 of the current row.
    pub fn reset_col(&mut self)
        ensures
            final(self)@ == (CursorView { col: 0, ..old(self)@ }),
            final(self)@.in_bounds(),
    {
        proof {
            use_type_invariant(&*self);
        }
        self.col = 0;
    }

    /// Moves to row 0, keeping the column.
    pub fn reset_row(&mut self)
        ensures
            final(self)@ == (CursorView { row: 0, ..old(self)@ }),
            final(self)@.in_bounds(),
    {
        proof {
            use_type_invariant(&*self);
        }
        self.row = 0;
    }

    /// Moves to the origin.
    pub fn reset(&mut self)
        ensures
            final(self)@ == (CursorView { row: 0, col: 0, ..old(self)@ }),
            final(self)@.in_bounds(),
    {
        self.reset_col();
        self.reset_row();
    }

    /// Whether the cursor stands on the last available row.
    pub fn last_row_avail(&self) -> (b: bool)
        ensures
            b == (self@.row == last_index(self@.rows)),
    {
        self.row == self.available_rows.saturating_sub(1)
    }

    /// Whether the cursor stands on the last available column.
    pub fn last_col_avail(&self) -> (b: bool)
        ensures
            b == (self@.col == last_index(self@.cols)),
    {
        self.col == self.available_cols.saturating_sub(1)
    }

    /// The position as `(row, col)`.
    pub fn get_position(&self) -> (p: (usize, usize))
        ensures
            p.0 == self@.row,
            p.1 == self@.col,
            self@.in_bounds(),
    {
        proof {
            use_type_invariant(self);
        }
        (self.row, self.col)
    }

    /// The size of the available area as `(rows, cols)`.
    pub(crate) fn available(&self) -> (r: (usize, usize))
        ensures
            r.0 == self@.rows,
            r.1 == self@.cols,
    {
        (self.available_rows, self.available_cols)
    }

    /// Changes the available area to `new_rows_avail` x `new_cols_avail`,
    /// pulling the position inside it.
    pub fn clamp(&mut self, new_rows_avail: usize, new_cols_avail: usize)
        ensures
            final(self)@ == old(self)@.clamped_to(new_rows_avail as nat, new_cols_avail as nat),
            final(self)@.in_bounds(),
    {
        proof {
            use_type_invariant(&*self);
        }
        self.row = self.row.min(new_rows_avail.saturating_sub(1));
        self.col = self.col.min(new_cols_avail.saturating_sub(1));
        self.available_rows = new_rows_avail;
        self.available_cols = new_cols_avail;
    }

    /// Moves to column `col`, or to the last column if `col` lies beyond it.
    pub fn set_col(&mut self, col: usize)
        ensures
            final(self)@ == old(self)@.at_col(col as nat),
            final(self)@.in_bounds(),
    {
        proof {
            use_type_invariant(&*self);
        }
        self.col = col.min(self.available_cols.saturating_sub(1));
    }

    /// Moves to row `row`, or to the last row if `row` lies beyond it.
    pub fn set_row(&mut self, row: usize)
        ensures
            final(self)@ == old(self)@.at_row(row as nat),
            final(self)@.in_bounds(),
    {
        proof {
            use_type_invariant(&*self);
        }
        self.row = row.min(self.available_rows.saturating_sub(1));
    }

    /// Moves to `(row, col)`, each clamped to the last row or column.
    pub fn set_position(&mut self, row: usize, col: usize)
        ensures
            final(self)@ == old(self)@.at_row(row as nat).at_col(col as nat),
            final(self)@.in_bounds(),
    {
        self.set_row(row);
        self.set_col(col);
    }
}

impl Default for Cursor {
    /// A cursor at the origin of an empty area.
    fn default() -> (c: Self)
        ensures
            c@ == (CursorView { row: 0, col: 0, rows: 0, cols: 0 }),
    {
        Cursor { row: 0, col: 0, available_rows: 0, available_cols: 0 }
    }
}

} // verus!

verus! {

/// A cursor's position and the size of its area each fit in a `usize`.
pub proof fn lemma_view_fits_usize(c: Cursor)
    ensures
        c@.row <= usize::MAX,
        c@.col <= usize::MAX,
        c@.rows <= usize::MAX,
        c@.cols <= usize::MAX,
{
}

/// Moving to a position inside the area and reading the position back gives
/// that position.
pub proof fn lemma_set_position_round_trip(v: CursorView, row: nat, col: nat)
    requires
        row < v.rows,
        col < v.cols,
    ensures
        min_nat(row, last_index(v.rows)) == row,
        min_nat(col, last_index(v.cols)) == col,
{
}

/// Advancing by `n` columns and then receding by `n` columns returns to the
/// starting column when the advance did not hit the last column; likewise
/// for rows.
pub proof fn lemma_recede_undoes_advance(v: CursorView, n: nat)
    ensures
        v.col + n <= last_index(v.cols) ==> sub_floor(
            min_nat(v.col + n, last_index(v.cols)),
            n,
        ) == v.col,
        v.row + n <= last_index(v.rows) ==> sub_floor(
            min_nat(v.row + n, last_index(v.rows)),
            n,
        ) == v.row,
{
}

/// Clamping to an area, then clamping again to the same area, changes
/// nothing more.
pub proof fn lemma_clamp_idempotent(v: CursorView, rows: nat, cols: nat)
    ensures
        ({
            let once = CursorView {
                row: min_nat(v.row, last_index(rows)),
                col: min_nat(v.col, last_index(cols)),
                rows,
                cols,
            };
            CursorView {
                row: min_nat(once.row, last_index(rows)),
                col: min_nat(once.col, last_index(cols)),
                rows,
                cols,
            } == once
        }),
{
}

} // verus!

verus! {

/// What the cursor moves do, in plain arithmetic. Moving right (down) by `n`
/// adds `n` to the column (row) when the result stays inside the area and
/// otherwise stops at the last column (row); moving left (up) subtracts `n`
/// and stops at 0; moving to a column (row) goes there, or to the last one
/// when it lies beyond; clamping to a new area pulls the position inside
/// it. No move changes the other coordinate or the area.
pub proof fn lemma_cursor_moves_in_plain_arithmetic(
    v: CursorView,
    n: nat,
    row: nat,
    col: nat,
    rows: nat,
    cols: nat,
)
    ensures
        ({
            let lr = if v.rows == 0 {
                0
            } else {
                v.rows - 1
            };
            let lc = if v.cols == 0 {
                0
            } else {
                v.cols - 1
            };
            &&& v.moved_right(n) == CursorView {
                col: (if v.col + n <= lc {
                    v.col + n as int
                } else {
                    lc
                }) as nat,
                ..v
            }
            &&& v.moved_down(n) == CursorView {
                row: (if v.row + n <= lr {
                    v.row + n as int
                } else {
                    lr
                }) as nat,
                ..v
            }
            &&& v.moved_left(n) == CursorView {
                col: (if v.col >= n {
                    v.col - n
                } else {
                    0
                }) as nat,
                ..v
            }
            &&& v.moved_up(n) == CursorView {
                row: (if v.row >= n {
                    v.row - n
                } else {
                    0
                }) as nat,
                ..v
            }
            &&& v.at_col(col) == CursorView {
                col: (if col <= lc {
                    col as int
                } else {
                    lc
                }) as nat,
                ..v
            }
            &&& v.at_row(row) == CursorView {
                row: (if row <= lr {
                    row as int
                } else {
                    lr
                }) as nat,
                ..v
            }
            &&& v.clamped_to(rows, cols).rows == rows
            &&& v.clamped_to(rows, cols).cols == cols
            &&& v.clamped_to(rows, cols).row == (if v.row + 1 <= rows || v.row == 0 {
                v.row
            } else if rows == 0 {
                0
            } else {
                (rows - 1) as nat
            })
            &&& v.clamped_to(rows, cols).col == (if v.col + 1 <= cols || v.col == 0 {
                v.col
            } else if cols == 0 {
                0
            } else {
                (cols - 1) as nat
            })
        }),
{
}

} // verus!
