use vstd::prelude::*;

verus! {

/// One character cell of the screen.
#[derive(Clone, Debug, PartialEq, Eq, Structural)]
pub struct Cell {
    pub ch: char,
}

impl Default for Cell {
    /// A blank cell (a space).
    fn default() -> (c: Self)
        ensures
            c.ch == ' ',
    {
        Cell { ch: ' ' }
    }
}

/// The characters of a row of cells.
pub open spec fn chars_of(row: Seq<Cell>) -> Seq<char> {
    row.map_values(|c: Cell| c.ch)
}

/// The characters of a grid of cells, row by row.
pub open spec fn grid_chars(g: Seq<Vec<Cell>>) -> Seq<Seq<char>> {
    g.map_values(|row: Vec<Cell>| chars_of(row@))
}

/// A line of `n` spaces.
pub open spec fn blank_line(n: nat) -> Seq<char> {
    Seq::new(n, |_j: int| ' ')
}

/// `rows` lines of `cols` spaces each.
pub open spec fn blank_grid(rows: nat, cols: nat) -> Seq<Seq<char>> {
    Seq::new(rows, |_i: int| blank_line(cols))
}

/// Every line of `g` is `w` characters long.
pub open spec fn has_width(g: Seq<Seq<char>>, w: nat) -> bool {
    forall|i: int| 0 <= i < g.len() ==> (#[trigger] g[i]).len() == w
}

/// `g` with the character at `(row, col)` replaced by `c`.
pub open spec fn put_cell(g: Seq<Seq<char>>, row: int, col: int, c: char) -> Seq<Seq<char>> {
    g.update(row, g[row].update(col, c))
}

/// `g` with its first line dropped and a blank line of `cols` added below.
pub open spec fn scrolled(g: Seq<Seq<char>>, cols: nat) -> Seq<Seq<char>> {
    g.drop_first().push(blank_line(cols))
}

/// `g` with every character replaced by a space, each line keeping its length.
pub open spec fn cleared(g: Seq<Seq<char>>) -> Seq<Seq<char>> {
    Seq::new(g.len(), |i: int| blank_line(g[i].len()))
}

/// The lines after the row step of a resize from `rows` to `new_rows` rows.
/// Growing sets the number of lines to `new_cols` (filling with blank lines
/// `cols` wide); shrinking drops the top `rows - new_rows` lines.
pub open spec fn resized_rows(
    g: Seq<Seq<char>>,
    rows: nat,
    cols: nat,
    new_rows: nat,
    new_cols: nat,
) -> Seq<Seq<char>> {
    if new_rows > rows {
        if new_cols <= g.len() {
            g.take(new_cols as int)
        } else {
            g + Seq::new((new_cols - g.len()) as nat, |_i: int| blank_line(cols))
        }
    } else if new_rows < rows {
        g.skip(rows - new_rows)
    } else {
        g
    }
}

/// Every line of `g` followed by `extra` spaces.
pub open spec fn widened(g: Seq<Seq<char>>, extra: nat) -> Seq<Seq<char>> {
    g.map_values(|line: Seq<char>| line + blank_line(extra))
}

/// Rewraps `g` to width `w`: each line is the text carried over from the
/// line above followed by its own text, cut at `w`; what lies beyond `w` is
/// carried into the next line, and what is left after the last line is lost.
pub open spec fn reflowed(g: Seq<Seq<char>>, w: nat, carry: Seq<char>) -> Seq<Seq<char>>
    decreases g.len(),
{
    if g.len() == 0 {
        seq![]
    } else {
        let line = carry + g[0];
        seq![line.take(w as int)] + reflowed(g.drop_first(), w, line.skip(w as int))
    }
}

/// Rewrapping `g` to width `w` never cuts a line shorter than `w`: each line
/// with its carried text is at least `w` long.
pub open spec fn reflow_fits(g: Seq<Seq<char>>, w: nat, carry: Seq<char>) -> bool
    decreases g.len(),
{
    g.len() == 0 || ((carry + g[0]).len() >= w && reflow_fits(
        g.drop_first(),
        w,
        (carry + g[0]).skip(w as int),
    ))
}

/// The lines after a resize from `rows` x `cols` to `new_rows` x `new_cols`:
/// the row step, then each line is padded (wider) or rewrapped (narrower).
pub open spec fn resized(
    g: Seq<Seq<char>>,
    rows: nat,
    cols: nat,
    new_rows: nat,
    new_cols: nat,
) -> Seq<Seq<char>> {
    let g1 = resized_rows(g, rows, cols, new_rows, new_cols);
    if new_cols > cols {
        widened(g1, (new_cols - cols) as nat)
    } else if new_cols < cols {
        reflowed(g1, new_cols, seq![])
    } else {
        g1
    }
}

/// Every line of `g` is at least `w` characters long.
pub open spec fn min_width(g: Seq<Seq<char>>, w: nat) -> bool {
    forall|i: int| 0 <= i < g.len() ==> (#[trigger] g[i]).len() >= w
}

/// A grid of character cells. `rows` and `cols` record the size it was
/// made or last resized with.
#[derive(Clone, Debug)]
pub struct Screen {
    pub rows: usize,
    pub cols: usize,
    pub grid: Vec<Vec<Cell>>,
}

/// The mathematical state of a screen: its recorded size and its lines.
pub struct ScreenView {
    pub rows: nat,
    pub cols: nat,
    pub lines: Seq<Seq<char>>,
}

impl ScreenView {
    /// Every line is `cols` characters long.
    pub open spec fn uniform(self) -> bool {
        has_width(self.lines, self.cols)
    }

    /// There are `rows` lines of `cols` characters each.
    pub open spec fn well_sized(self) -> bool {
        self.lines.len() == self.rows && self.uniform()
    }
}

impl View for Screen {
    type V = ScreenView;

    open spec fn view(&self) -> ScreenView {
        ScreenView { rows: self.rows as nat, cols: self.cols as nat, lines: grid_chars(self.grid@) }
    }
}

/// A row of `cols` blank cells.
fn blank_row(cols: usize) -> (row: Vec<Cell>)
    ensures
        chars_of(row@) == blank_line(cols as nat),
{
    let mut row: Vec<Cell> = Vec::new();
    let mut j: usize = 0;
    while j < cols
        invariant
            j <= cols,
            row@.len() == j,
            forall|k: int| 0 <= k < j ==> (#[trigger] row@[k]).ch == ' ',
        decreases cols - j,
    {
        row.push(Cell::default());
        j += 1;
    }
    assert(chars_of(row@) =~= blank_line(cols as nat));
    row
}

/// Blanks every cell of `row`, keeping its length.
fn blank_out(row: &mut Vec<Cell>)
    ensures
        final(row)@.len() == old(row)@.len(),
        chars_of(final(row)@) == blank_line(old(row)@.len()),
{
    let n = row.len();
    let mut j: usize = 0;
    while j < n
        invariant
            row@.len() == n,
            j <= n,
            forall|k: int| 0 <= k < j ==> (#[trigger] row@[k]).ch == ' ',
        decreases n - j,
    {
        row[j] = Cell::default();
        j += 1;
    }
    assert(chars_of(row@) =~= blank_line(n as nat));
}

proof fn lemma_chars_of_add(a: Seq<Cell>, b: Seq<Cell>)
    ensures
        chars_of(a + b) == chars_of(a) + chars_of(b),
{
    assert(chars_of(a + b) =~= chars_of(a) + chars_of(b));
}

proof fn lemma_chars_of_subrange(a: Seq<Cell>, lo: int, hi: int)
    requires
        0 <= lo <= hi <= a.len(),
    ensures
        chars_of(a.subrange(lo, hi)) == chars_of(a).subrange(lo, hi),
{
    assert(chars_of(a.subrange(lo, hi)) =~= chars_of(a).subrange(lo, hi));
}

/// Sets the number of rows of `grid` to `n`: cuts it, or adds rows of
/// `cols` blank cells below.
fn set_row_count(grid: &mut Vec<Vec<Cell>>, n: usize, cols: usize)
    ensures
        grid_chars(final(grid)@) == (if n <= old(grid)@.len() {
            grid_chars(old(grid)@).take(n as int)
        } else {
            grid_chars(old(grid)@) + Seq::new(
                (n - old(grid)@.len()) as nat,
                |_i: int| blank_line(cols as nat),
            )
        }),
{
    let ghost g0 = grid_chars(grid@);
    if n <= grid.len() {
        grid.truncate(n);
        assert(grid_chars(grid@) =~= g0.take(n as int));
    } else {
        let ghost m = grid@.len();
        while grid.len() < n
            invariant
                m <= grid@.len() <= n,
                m == g0.len(),
                grid_chars(grid@) == g0 + Seq::new(
                    (grid@.len() - m) as nat,
                    |_i: int| blank_line(cols as nat),
                ),
            decreases n - grid@.len(),
        {
            let ghost prev = grid@;
            let row = blank_row(cols);
            grid.push(row);
            assert(grid@ == prev.push(row));
            assert(grid_chars(prev).len() == prev.len());
            assert forall|k: int| 0 <= k < grid@.len() implies #[trigger] grid_chars(grid@)[k] == (g0
                + Seq::new((grid@.len() - m) as nat, |_i: int| blank_line(cols as nat)))[k] by {
                if k < prev.len() {
                    assert(grid_chars(prev)[k] == (g0 + Seq::new(
                        (prev.len() - m) as nat,
                        |_i: int| blank_line(cols as nat),
                    ))[k]);
                }
            }
            assert(grid_chars(grid@) =~= g0 + Seq::new(
                (grid@.len() - m) as nat,
                |_i: int| blank_line(cols as nat),
            ));
        }
    }
}

/// Removes the top `k` rows of `grid`.
fn drop_top_rows(grid: &mut Vec<Vec<Cell>>, k: usize)
    requires
        k <= old(grid)@.len(),
    ensures
        grid_chars(final(grid)@) == grid_chars(old(grid)@).skip(k as int),
{
    let ghost g0 = grid@;
    let tail = grid.split_off(k);
    *grid = tail;
    assert(grid_chars(grid@) =~= grid_chars(g0).skip(k as int));
}

/// Appends `extra` blank cells to `row`.
fn pad_row(row: &mut Vec<Cell>, extra: usize)
    ensures
        chars_of(final(row)@) == chars_of(old(row)@) + blank_line(extra as nat),
{
    let ghost r0 = chars_of(row@);
    let ghost m = row@.len();
    let mut j: usize = 0;
    while j < extra
        invariant
            j <= extra,
            row@.len() == m + j,
            r0.len() == m,
            chars_of(row@) == r0 + blank_line(j as nat),
        decreases extra - j,
    {
        let ghost prev = row@;
        let cell = Cell::default();
        row.push(cell);
        assert(row@ == prev.push(cell));
        j += 1;
        assert(chars_of(prev).len() == m + j - 1);
        assert forall|k: int| 0 <= k < m + j implies #[trigger] chars_of(row@)[k] == (r0
            + blank_line(j as nat))[k] by {
            if k < m + j - 1 {
                assert(chars_of(prev)[k] == (r0 + blank_line((j - 1) as nat))[k]);
            }
        }
        assert(chars_of(row@) =~= r0 + blank_line(j as nat));
    }
}

/// Appends `extra` blank cells to every row of `grid`.
fn widen_rows(grid: &mut Vec<Vec<Cell>>, extra: usize)
    ensures
        grid_chars(final(grid)@) == widened(grid_chars(old(grid)@), extra as nat),
{
    let ghost g0 = grid@;
    let n = grid.len();
    let mut i: usize = 0;
    while i < n
        invariant
            grid@.len() == n,
            n == g0.len(),
            i <= n,
            forall|k: int|
                0 <= k < i ==> (#[trigger] grid_chars(grid@)[k]) == chars_of(g0[k]@) + blank_line(
                    extra as nat,
                ),
            forall|k: int| i <= k < n ==> (#[trigger] grid@[k]) == g0[k],
        decreases n - i,
    {
        let ghost prev = grid@;
        pad_row(&mut grid[i], extra);
        assert forall|k: int| 0 <= k < n && k != i implies #[trigger] grid@[k] == prev[k] by {}
        assert forall|k: int| 0 <= k <= i implies #[trigger] grid_chars(grid@)[k] == chars_of(
            g0[k]@,
        ) + blank_line(extra as nat) by {
            if k < i {
                assert(grid_chars(prev)[k] == chars_of(g0[k]@) + blank_line(extra as nat));
            }
        }
        i += 1;
    }
    assert(grid_chars(grid@) =~= widened(grid_chars(g0), extra as nat));
}

/// One step of `reflowed`: the first line and what is carried past it.
proof fn lemma_reflowed_step(g: Seq<Seq<char>>, w: nat, carry: Seq<char>, i: int)
    requires
        0 <= i < g.len(),
    ensures
        reflowed(g.skip(i), w, carry) == seq![(carry + g[i]).take(w as int)] + reflowed(
            g.skip(i + 1),
            w,
            (carry + g[i]).skip(w as int),
        ),
{
    assert(g.skip(i)[0] == g[i]);
    assert(g.skip(i).drop_first() =~= g.skip(i + 1));
}

/// Rewraps every row of `grid` to `w` cells, carrying what lies beyond `w`
/// into the front of the next row.
fn reflow_rows(grid: &mut Vec<Vec<Cell>>, w: usize)
    requires
        reflow_fits(grid_chars(old(grid)@), w as nat, seq![]),
    ensures
        grid_chars(final(grid)@) == reflowed(grid_chars(old(grid)@), w as nat, seq![]),
{
    let ghost g0 = grid_chars(grid@);
    let ghost v0 = grid@;
    let n = grid.len();
    let mut carry: Vec<Cell> = Vec::new();
    let mut i: usize = 0;
    assert(g0.skip(0) =~= g0);
    assert(chars_of(carry@) =~= seq![]);
    assert(chars_of(carry@) == Seq::<char>::empty());
    while i < n
        invariant
            grid@.len() == n,
            n == g0.len(),
            g0 == grid_chars(v0),
            reflow_fits(g0.skip(i as int), w as nat, chars_of(carry@)),
            i <= n,
            forall|k: int| i <= k < n ==> (#[trigger] grid@[k]) == v0[k],
            grid_chars(grid@).take(i as int) + reflowed(g0.skip(i as int), w as nat, chars_of(carry@))
                == reflowed(g0, w as nat, seq![]),
        decreases n - i,
    {
        let ghost prev = grid@;
        let ghost cc = carry@;
        let ghost c0 = chars_of(cc);
        let mut row: Vec<Cell> = Vec::new();
        std::mem::swap(&mut row, &mut grid[i]);
        assert(row@ == v0[i as int]@);
        assert(g0[i as int] == chars_of(row@));
        let ghost r0 = row@;
        let mut line = carry;
        line.append(&mut row);
        let ghost full = line@;
        let ghost x = (c0 + g0[i as int]).take(w as int);
        let ghost rest = (c0 + g0[i as int]).skip(w as int);
        proof {
            lemma_chars_of_add(cc, r0);
            assert(full == cc + r0);
            assert(chars_of(full) == c0 + g0[i as int]);
            assert(g0.skip(i as int)[0] == g0[i as int]);
            assert(g0.skip(i as int).drop_first() =~= g0.skip(i + 1));
            assert(full.len() == chars_of(full).len());
        }
        carry = line.split_off(w);
        proof {
            lemma_chars_of_subrange(full, 0, w as int);
            lemma_chars_of_subrange(full, w as int, full.len() as int);
            assert(chars_of(line@) =~= x);
            assert(chars_of(carry@) =~= rest);
        }
        grid[i] = line;
        proof {
            lemma_reflowed_step(g0, w as nat, c0, i as int);
            assert forall|k: int| 0 <= k < n && k != i implies #[trigger] grid@[k] == prev[k] by {}
            assert(grid_chars(grid@).take(i + 1) =~= grid_chars(prev).take(i as int) + seq![x]);
            assert(grid_chars(prev).take(i as int) + seq![x] + reflowed(
                g0.skip(i + 1),
                w as nat,
                rest,
            ) =~= grid_chars(prev).take(i as int) + (seq![x] + reflowed(
                g0.skip(i + 1),
                w as nat,
                rest,
            )));
        }
        i += 1;
    }
    assert(grid_chars(grid@).take(n as int) =~= grid_chars(grid@));
    assert(g0.skip(n as int) =~= seq![]);
    assert(reflowed(g0.skip(n as int), w as nat, chars_of(carry@)) == Seq::<Seq<char>>::empty());
    assert(grid_chars(grid@) + Seq::<Seq<char>>::empty() =~= grid_chars(grid@));
}

/// The characters of `row` as a `String`.
fn line_of(row: &Vec<Cell>) -> (s: String)
    ensures
        s@ == chars_of(row@),
{
    let mut s = String::new();
    let n = row.len();
    let mut j: usize = 0;
    while j < n
        invariant
            n == row@.len(),
            j <= n,
            s@ == chars_of(row@).take(j as int),
        decreases n - j,
    {
        push_char(&mut s, row[j].ch);
        j += 1;
        assert(s@ =~= chars_of(row@).take(j as int));
    }
    assert(chars_of(row@).take(n as int) =~= chars_of(row@));
    s
}

/// `String::push`, which appends `c` to the end of `s`.
#[verifier::external_body]
pub(crate) fn push_char(s: &mut String, c: char)
    ensures
        final(s)@ == old(s)@.push(c),
{
    s.push(c)
}

impl Screen {
    /// A screen of `rows` blank lines, each `cols` wide.
    pub fn new(rows: usize, cols: usize) -> (s: Self)
        ensures
            s@ == (ScreenView {
                rows: rows as nat,
                cols: cols as nat,
                lines: blank_grid(rows as nat, cols as nat),
            }),
            s@.well_sized(),
    {
        let mut grid: Vec<Vec<Cell>> = Vec::new();
        let mut i: usize = 0;
        while i < rows
            invariant
                i <= rows,
                grid_chars(grid@) == blank_grid(i as nat, cols as nat),
            decreases rows - i,
        {
            let ghost prev = grid@;
            let row = blank_row(cols);
            grid.push(row);
            i += 1;
            assert(grid_chars(prev).len() == blank_grid((i - 1) as nat, cols as nat).len());
            assert(grid@.len() == i);
            assert forall|k: int| 0 <= k < i implies #[trigger] grid_chars(grid@)[k] == blank_line(
                cols as nat,
            ) by {
                if k < i - 1 {
                    assert(grid_chars(prev)[k] == blank_grid((i - 1) as nat, cols as nat)[k]);
                }
            }
            assert(grid_chars(grid@) =~= blank_grid(i as nat, cols as nat));
        }
        Screen { rows, cols, grid }
    }

    /// Blanks every cell; the number and length of the lines stay.
    pub fn clear(&mut self)
        ensures
            final(self)@ == (ScreenView { lines: cleared(old(self)@.lines), ..old(self)@ }),
            old(self)@.well_sized() ==> final(self)@.well_sized(),
    {
        let ghost g0 = self.grid@;
        let n = self.grid.len();
        let mut i: usize = 0;
        while i < n
            invariant
                self.grid@.len() == n,
                n == g0.len(),
                i <= n,
                self.rows == old(self).rows,
                self.cols == old(self).cols,
                forall|k: int|
                    0 <= k < i ==> (#[trigger] grid_chars(self.grid@)[k]) == blank_line(
                        g0[k]@.len(),
                    ),
                forall|k: int| i <= k < n ==> (#[trigger] self.grid@[k]) == g0[k],
            decreases n - i,
        {
            let ghost prev = self.grid@;
            blank_out(&mut self.grid[i]);
            assert(self.grid@.len() == n);
            assert forall|k: int| 0 <= k < n && k != i implies #[trigger] self.grid@[k] == prev[k] by {}
            assert forall|k: int| 0 <= k <= i implies #[trigger] grid_chars(self.grid@)[k] == blank_line(
                g0[k]@.len(),
            ) by {
                if k < i {
                    assert(grid_chars(prev)[k] == blank_line(g0[k]@.len()));
                }
            }
            i += 1;
        }
        assert(grid_chars(self.grid@) =~= cleared(grid_chars(g0)));
        proof {
            lemma_clear_keeps_widths(grid_chars(g0));
        }
    }

    /// Drops the top line and adds a blank line, `cols` wide, at the bottom.
    pub fn scroll_up(&mut self)
        requires
            old(self)@.lines.len() > 0,
        ensures
            final(self)@ == (ScreenView {
                lines: scrolled(old(self)@.lines, old(self)@.cols),
                ..old(self)@
            }),
            old(self)@.well_sized() ==> final(self)@.well_sized(),
    {
        let ghost g0 = self.grid@;
        self.grid.remove(0);
        let row = blank_row(self.cols);
        self.grid.push(row);
        assert(grid_chars(self.grid@) =~= scrolled(grid_chars(g0), self.cols as nat));
        proof {
            lemma_scroll_keeps_shape(old(self)@);
        }
    }

    /// Writes `c` into the cell at `(row, col)` = `pos`.
    pub fn char_in_grid(&mut self, c: char, pos: (usize, usize))
        requires
            pos.0 < old(self)@.lines.len(),
            pos.1 < old(self)@.lines[pos.0 as int].len(),
        ensures
            final(self)@ == (ScreenView {
                lines: put_cell(old(self)@.lines, pos.0 as int, pos.1 as int, c),
                ..old(self)@
            }),
            old(self)@.well_sized() ==> final(self)@.well_sized(),
    {
        let ghost g0 = self.grid@;
        self.grid[pos.0][pos.1].ch = c;
        assert(self.grid@.len() == g0.len());
        assert forall|k: int| 0 <= k < g0.len() && k != pos.0 implies #[trigger] self.grid@[k] == g0[k] by {}
        assert(self.grid@[pos.0 as int]@ == g0[pos.0 as int]@.update(pos.1 as int, Cell { ch: c }));
        assert(chars_of(self.grid@[pos.0 as int]@) =~= chars_of(g0[pos.0 as int]@).update(pos.1 as int, c));
        assert(grid_chars(self.grid@) =~= put_cell(grid_chars(g0), pos.0 as int, pos.1 as int, c));
        assert forall|i: int| 0 <= i < self@.lines.len() implies (#[trigger] self@.lines[i]).len()
            == old(self)@.lines[i].len() by {}
    }

    /// Resizes to `new_rows` x `new_cols`.
    ///
    /// Rows: growing sets the number of lines to `new_cols`, adding blank
    /// lines of the old width; shrinking drops the top `rows - new_rows`
    /// lines. Columns: widening pads every line with spaces; narrowing
    /// rewraps the lines, carrying the cut-off text into the front of the
    /// next line (what is cut from the last line is lost).
    pub fn resize(&mut self, new_rows: usize, new_cols: usize)
        requires
            new_rows < old(self)@.rows ==> old(self)@.rows - new_rows <= old(self)@.lines.len(),
            new_cols < old(self)@.cols ==> reflow_fits(
                resized_rows(
                    old(self)@.lines,
                    old(self)@.rows,
                    old(self)@.cols,
                    new_rows as nat,
                    new_cols as nat,
                ),
                new_cols as nat,
                seq![],
            ),
        ensures
            final(self)@ == (ScreenView {
                rows: new_rows as nat,
                cols: new_cols as nat,
                lines: resized(
                    old(self)@.lines,
                    old(self)@.rows,
                    old(self)@.cols,
                    new_rows as nat,
                    new_cols as nat,
                ),
            }),
            old(self)@.uniform() ==> final(self)@.uniform(),
            old(self)@.well_sized() && (new_rows <= old(self)@.rows || new_rows == new_cols)
                ==> final(self)@.well_sized(),
    {
        proof {
            if old(self)@.uniform() {
                lemma_resize_keeps_uniform(old(self)@, new_rows as nat, new_cols as nat);
            }
            lemma_resize_line_count(old(self)@, new_rows as nat, new_cols as nat);
        }
        if new_rows > self.rows {
            set_row_count(&mut self.grid, new_cols, self.cols);
        } else if new_rows < self.rows {
            drop_top_rows(&mut self.grid, self.rows - new_rows);
        }
        self.rows = new_rows;

        if new_cols > self.cols {
            widen_rows(&mut self.grid, new_cols - self.cols);
        } else if new_cols < self.cols {
            reflow_rows(&mut self.grid, new_cols);
        }
        self.cols = new_cols;
    }

    /// Each line as a `String`, top to bottom.
    pub fn to_lines(&self) -> (lines: Vec<String>)
        ensures
            lines@.map_values(|l: String| l@) == self@.lines,
    {
        let mut lines: Vec<String> = Vec::new();
        let n = self.grid.len();
        let mut i: usize = 0;
        while i < n
            invariant
                n == self.grid@.len(),
                i <= n,
                lines@.map_values(|l: String| l@) == grid_chars(self.grid@).take(i as int),
            decreases n - i,
        {
            let ghost prev = lines@;
            let line = line_of(&self.grid[i]);
            lines.push(line);
            assert(lines@ == prev.push(line));
            assert(prev.map_values(|l: String| l@).len() == i);
            i += 1;
            assert(lines@.map_values(|l: String| l@) =~= grid_chars(self.grid@).take(i as int));
        }
        assert(grid_chars(self.grid@).take(n as int) =~= grid_chars(self.grid@));
        lines
    }
}

} // verus!

verus! {

/// Clearing keeps every line's length.
proof fn lemma_clear_keeps_widths(g: Seq<Seq<char>>)
    ensures
        cleared(g).len() == g.len(),
        forall|i: int| 0 <= i < g.len() ==> (#[trigger] cleared(g)[i]).len() == g[i].len(),
{
}

/// The number of lines after a resize: `new_cols` when the rows grow, the
/// old count less the dropped lines when they shrink, the old count otherwise.
pub proof fn lemma_resize_line_count(v: ScreenView, new_rows: nat, new_cols: nat)
    requires
        new_rows < v.rows ==> v.rows - new_rows <= v.lines.len(),
        new_cols < v.cols ==> reflow_fits(
            resized_rows(v.lines, v.rows, v.cols, new_rows, new_cols),
            new_cols,
            seq![],
        ),
    ensures
        resized(v.lines, v.rows, v.cols, new_rows, new_cols).len() == (if new_rows > v.rows {
            new_cols as int
        } else if new_rows < v.rows {
            v.lines.len() - (v.rows - new_rows)
        } else {
            v.lines.len() as int
        }),
{
    let g1 = resized_rows(v.lines, v.rows, v.cols, new_rows, new_cols);
    if new_cols < v.cols {
        lemma_reflowed_width(g1, new_cols, seq![]);
    }
}

/// Resizing to the current size changes nothing.
pub proof fn lemma_resize_to_same_size(v: ScreenView)
    ensures
        resized(v.lines, v.rows, v.cols, v.rows, v.cols) == v.lines,
{
}

/// `g` scrolled up `n` times, each new line `cols` blanks.
pub open spec fn scrolled_times(g: Seq<Seq<char>>, cols: nat, n: nat) -> Seq<Seq<char>>
    decreases n,
{
    if n == 0 {
        g
    } else {
        scrolled(scrolled_times(g, cols, (n - 1) as nat), cols)
    }
}

proof fn lemma_scrolled_times_shape(g: Seq<Seq<char>>, cols: nat, n: nat)
    requires
        n <= g.len(),
    ensures
        scrolled_times(g, cols, n) == g.skip(n as int) + blank_grid(n, cols),
    decreases n,
{
    if n == 0 {
        assert(g.skip(0) + blank_grid(0, cols) =~= g);
    } else {
        lemma_scrolled_times_shape(g, cols, (n - 1) as nat);
        let prev = g.skip(n - 1) + blank_grid((n - 1) as nat, cols);
        assert(prev.drop_first().push(blank_line(cols)) =~= g.skip(n as int) + blank_grid(n, cols));
    }
}

/// Scrolling a screen of `rows` lines up `rows` times leaves it blank:
/// `rows` blank lines of `cols` characters.
pub proof fn lemma_scrolling_rows_times_blanks(v: ScreenView)
    requires
        v.lines.len() == v.rows,
    ensures
        scrolled_times(v.lines, v.cols, v.rows) == blank_grid(v.rows, v.cols),
{
    lemma_scrolled_times_shape(v.lines, v.cols, v.rows);
    assert(v.lines.skip(v.rows as int) + blank_grid(v.rows, v.cols) =~= blank_grid(v.rows, v.cols));
}

/// A narrow rewrap fills every line to exactly the new width.
proof fn lemma_reflowed_width(g: Seq<Seq<char>>, w: nat, carry: Seq<char>)
    requires
        reflow_fits(g, w, carry),
    ensures
        reflowed(g, w, carry).len() == g.len(),
        has_width(reflowed(g, w, carry), w),
    decreases g.len(),
{
    if g.len() > 0 {
        let line = carry + g[0];
        lemma_reflowed_width(g.drop_first(), w, line.skip(w as int));
        let r = reflowed(g, w, carry);
        let rest = reflowed(g.drop_first(), w, line.skip(w as int));
        assert(r == seq![line.take(w as int)] + rest);
        assert forall|i: int| 0 <= i < r.len() implies (#[trigger] r[i]).len() == w by {
            if i > 0 {
                assert(r[i] == rest[i - 1]);
            }
        }
    }
}

/// Rewrapping to a narrower width keeps the text in reading order: the new
/// lines, read one after another, are a prefix of the carried text followed
/// by the old lines read one after another.
pub proof fn lemma_reflow_keeps_text_order(g: Seq<Seq<char>>, w: nat, carry: Seq<char>)
    requires
        reflow_fits(g, w, carry),
    ensures
        reflowed(g, w, carry).flatten().is_prefix_of(carry + g.flatten()),
    decreases g.len(),
{
    if g.len() == 0 {
        assert(reflowed(g, w, carry).flatten() =~= Seq::<char>::empty());
    } else {
        let line = carry + g[0];
        let x = line.take(w as int);
        let y = line.skip(w as int);
        let rest = reflowed(g.drop_first(), w, y);
        lemma_reflow_keeps_text_order(g.drop_first(), w, y);
        let r = reflowed(g, w, carry);
        assert(r == seq![x] + rest);
        assert(r.first() == x);
        assert(r.drop_first() =~= rest);
        assert(r.flatten() == x + rest.flatten());
        assert(g.flatten() == g[0] + g.drop_first().flatten());
        assert(carry + g.flatten() =~= x + (y + g.drop_first().flatten()));
        let big = y + g.drop_first().flatten();
        assert(rest.flatten().is_prefix_of(big));
        assert((x + rest.flatten()) =~= (x + big).subrange(0, (x + rest.flatten()).len() as int));
    }
}

/// The row step of a resize keeps every line `cols` wide.
proof fn lemma_resized_rows_width(g: Seq<Seq<char>>, rows: nat, cols: nat, new_rows: nat, new_cols: nat)
    requires
        has_width(g, cols),
        new_rows < rows ==> rows - new_rows <= g.len(),
    ensures
        has_width(resized_rows(g, rows, cols, new_rows, new_cols), cols),
{
    let g1 = resized_rows(g, rows, cols, new_rows, new_cols);
    if new_rows > rows && new_cols > g.len() {
        assert forall|i: int| 0 <= i < g1.len() implies (#[trigger] g1[i]).len() == cols by {
            if i >= g.len() {
                assert(g1[i] == blank_line(cols));
            } else {
                assert(g1[i] == g[i]);
            }
        }
    } else if new_rows > rows {
        assert forall|i: int| 0 <= i < g1.len() implies (#[trigger] g1[i]).len() == cols by {
            assert(g1[i] == g[i]);
        }
    } else if new_rows < rows {
        assert forall|i: int| 0 <= i < g1.len() implies (#[trigger] g1[i]).len() == cols by {
            assert(g1[i] == g[i + (rows - new_rows)]);
        }
    }
}

/// A resize of a screen whose lines are all `cols` wide leaves every line
/// exactly `new_cols` wide.
pub proof fn lemma_resize_keeps_uniform(v: ScreenView, new_rows: nat, new_cols: nat)
    requires
        v.uniform(),
        new_rows < v.rows ==> v.rows - new_rows <= v.lines.len(),
        new_cols < v.cols ==> reflow_fits(
            resized_rows(v.lines, v.rows, v.cols, new_rows, new_cols),
            new_cols,
            seq![],
        ),
    ensures
        has_width(resized(v.lines, v.rows, v.cols, new_rows, new_cols), new_cols),
{
    let g1 = resized_rows(v.lines, v.rows, v.cols, new_rows, new_cols);
    lemma_resized_rows_width(v.lines, v.rows, v.cols, new_rows, new_cols);
    if new_cols > v.cols {
        let g2 = widened(g1, (new_cols - v.cols) as nat);
        assert forall|i: int| 0 <= i < g2.len() implies (#[trigger] g2[i]).len() == new_cols by {
            assert(g2[i] == g1[i] + blank_line((new_cols - v.cols) as nat));
        }
    } else if new_cols < v.cols {
        lemma_reflowed_width(g1, new_cols, seq![]);
    }
}

/// Widening keeps the row count and every line's text: each new line starts
/// with the old line and continues with spaces.
pub proof fn lemma_widen_keeps_text(v: ScreenView, new_cols: nat, i: int)
    requires
        v.uniform(),
        new_cols > v.cols,
        0 <= i < v.lines.len(),
    ensures
        resized(v.lines, v.rows, v.cols, v.rows, new_cols).len() == v.lines.len(),
        resized(v.lines, v.rows, v.cols, v.rows, new_cols)[i] == v.lines[i] + blank_line(
            (new_cols - v.cols) as nat,
        ),
        v.lines[i].is_prefix_of(resized(v.lines, v.rows, v.cols, v.rows, new_cols)[i]),
{
    let l = resized(v.lines, v.rows, v.cols, v.rows, new_cols)[i];
    assert(v.lines[i] =~= l.subrange(0, v.lines[i].len() as int));
}

/// Narrowing a uniform screen without changing its row count keeps the text
/// in reading order (what the last line cannot hold is lost).
pub proof fn lemma_narrow_keeps_text_order(v: ScreenView, new_cols: nat)
    requires
        v.uniform(),
        new_cols < v.cols,
    ensures
        resized(v.lines, v.rows, v.cols, v.rows, new_cols).flatten().is_prefix_of(
            v.lines.flatten(),
        ),
{
    lemma_uniform_fits(v.lines, v.cols, new_cols, seq![]);
    lemma_reflow_keeps_text_order(v.lines, new_cols, seq![]);
    assert(Seq::<char>::empty() + v.lines.flatten() =~= v.lines.flatten());
}

/// Lines all wider than `w` always fit a rewrap to `w`.
pub proof fn lemma_uniform_fits(g: Seq<Seq<char>>, cols: nat, w: nat, carry: Seq<char>)
    requires
        has_width(g, cols),
        w <= cols,
    ensures
        reflow_fits(g, w, carry),
    decreases g.len(),
{
    if g.len() > 0 {
        let line = carry + g[0];
        assert(g[0].len() == cols);
        assert forall|i: int| 0 <= i < g.drop_first().len() implies (#[trigger] g.drop_first()[i]).len()
            == cols by {
            assert(g.drop_first()[i] == g[i + 1]);
        }
        lemma_uniform_fits(g.drop_first(), cols, w, line.skip(w as int));
    }
}

/// Scrolling keeps the number of lines and, on a uniform screen, the width of
/// every line.
pub proof fn lemma_scroll_keeps_shape(v: ScreenView)
    requires
        v.lines.len() > 0,
    ensures
        scrolled(v.lines, v.cols).len() == v.lines.len(),
        v.uniform() ==> has_width(scrolled(v.lines, v.cols), v.cols),
{
    let s = scrolled(v.lines, v.cols);
    if v.uniform() {
        assert forall|i: int| 0 <= i < s.len() implies (#[trigger] s[i]).len() == v.cols by {
            if i < v.lines.len() - 1 {
                assert(s[i] == v.lines[i + 1]);
            }
        }
    }
}

/// Clearing keeps the number of lines and the width of every line, and
/// leaves only spaces.
pub proof fn lemma_clear_blanks(g: Seq<Seq<char>>, i: int, j: int)
    requires
        0 <= i < g.len(),
        0 <= j < g[i].len(),
    ensures
        cleared(g).len() == g.len(),
        cleared(g)[i].len() == g[i].len(),
        cleared(g)[i][j] == ' ',
{
}

} // verus!

verus! {

proof fn lemma_row_step_as_written(v: ScreenView, new_rows: nat, new_cols: nat)
    requires
        new_rows < v.rows ==> v.rows - new_rows <= v.lines.len(),
    ensures
        ({
            let stepped = if new_rows > v.rows {
            if new_cols <= v.lines.len() {
                v.lines.subrange(0, new_cols as int)
            } else {
                v.lines + Seq::new(
                    (new_cols - v.lines.len()) as nat,
                    |_i: int| Seq::new(v.cols, |_j: int| ' '),
                )
            }
        } else if new_rows < v.rows {
            v.lines.subrange(v.rows - new_rows, v.lines.len() as int)
        } else {
            v.lines
        };
            stepped == resized_rows(v.lines, v.rows, v.cols, new_rows, new_cols)
        }),
{
    let a = if new_rows > v.rows {
        if new_cols <= v.lines.len() {
            v.lines.subrange(0, new_cols as int)
        } else {
            v.lines + Seq::new(
                (new_cols - v.lines.len()) as nat,
                |_i: int| Seq::new(v.cols, |_j: int| ' '),
            )
        }
    } else if new_rows < v.rows {
        v.lines.subrange(v.rows - new_rows, v.lines.len() as int)
    } else {
        v.lines
    };
    let b = resized_rows(v.lines, v.rows, v.cols, new_rows, new_cols);
    if new_rows > v.rows && new_cols > v.lines.len() {
        assert forall|i: int| 0 <= i < a.len() implies a[i] == b[i] by {
            if i >= v.lines.len() {
                assert(a[i] =~= b[i]);
            }
        }
    }
    assert(a =~= b);
}

/// Narrowing rewraps the text, whatever the row step did: on a screen whose
/// lines are all `cols` wide, narrowing to `new_cols` gives as many lines as
/// the row step leaves, each exactly `new_cols` wide, and read one after
/// another they are a prefix of the row-stepped lines read one after
/// another. (These three facts fix every line of the result.)
pub proof fn lemma_narrowing_rewraps_text(v: ScreenView, new_rows: nat, new_cols: nat)
    requires
        v.uniform(),
        new_cols < v.cols,
        new_rows < v.rows ==> v.rows - new_rows <= v.lines.len(),
    ensures
        ({
            let stepped = if new_rows > v.rows {
                if new_cols <= v.lines.len() {
                    v.lines.subrange(0, new_cols as int)
                } else {
                    v.lines + Seq::new(
                        (new_cols - v.lines.len()) as nat,
                        |_i: int| Seq::new(v.cols, |_j: int| ' '),
                    )
                }
            } else if new_rows < v.rows {
                v.lines.subrange(v.rows - new_rows, v.lines.len() as int)
            } else {
                v.lines
            };
            let r = resized(v.lines, v.rows, v.cols, new_rows, new_cols);
            &&& r.len() == stepped.len()
            &&& forall|i: int| 0 <= i < r.len() ==> (#[trigger] r[i]).len() == new_cols
            &&& r.flatten().is_prefix_of(stepped.flatten())
        }),
{
    let g1 = resized_rows(v.lines, v.rows, v.cols, new_rows, new_cols);
    lemma_row_step_as_written(v, new_rows, new_cols);
    lemma_resized_rows_width(v.lines, v.rows, v.cols, new_rows, new_cols);
    lemma_uniform_fits(g1, v.cols, new_cols, seq![]);
    lemma_reflowed_width(g1, new_cols, seq![]);
    lemma_reflow_keeps_text_order(g1, new_cols, seq![]);
    assert(Seq::<char>::empty() + g1.flatten() =~= g1.flatten());
}

/// Widening pads, whatever the row step did: every line the row step leaves
/// is kept and followed by `new_cols - cols` spaces.
pub proof fn lemma_widening_pads_lines(v: ScreenView, new_rows: nat, new_cols: nat)
    requires
        new_cols > v.cols,
        new_rows < v.rows ==> v.rows - new_rows <= v.lines.len(),
    ensures
        ({
            let stepped = if new_rows > v.rows {
                if new_cols <= v.lines.len() {
                    v.lines.subrange(0, new_cols as int)
                } else {
                    v.lines + Seq::new(
                        (new_cols - v.lines.len()) as nat,
                        |_i: int| Seq::new(v.cols, |_j: int| ' '),
                    )
                }
            } else if new_rows < v.rows {
                v.lines.subrange(v.rows - new_rows, v.lines.len() as int)
            } else {
                v.lines
            };
            let r = resized(v.lines, v.rows, v.cols, new_rows, new_cols);
            &&& r.len() == stepped.len()
            &&& forall|i: int|
                0 <= i < r.len() ==> #[trigger] r[i] == stepped[i] + Seq::new(
                    (new_cols - v.cols) as nat,
                    |_j: int| ' ',
                )
        }),
{
    lemma_row_step_as_written(v, new_rows, new_cols);
    let stepped = if new_rows > v.rows {
        if new_cols <= v.lines.len() {
            v.lines.subrange(0, new_cols as int)
        } else {
            v.lines + Seq::new(
                (new_cols - v.lines.len()) as nat,
                |_i: int| Seq::new(v.cols, |_j: int| ' '),
            )
        }
    } else if new_rows < v.rows {
        v.lines.subrange(v.rows - new_rows, v.lines.len() as int)
    } else {
        v.lines
    };
    let r = resized(v.lines, v.rows, v.cols, new_rows, new_cols);
    assert forall|i: int| 0 <= i < r.len() implies #[trigger] r[i] == stepped[i] + Seq::new(
        (new_cols - v.cols) as nat,
        |_j: int| ' ',
    ) by {
        assert(r[i] =~= stepped[i] + Seq::new((new_cols - v.cols) as nat, |_j: int| ' '));
    }
}

/// Keeping the width keeps exactly the lines the row step leaves.
pub proof fn lemma_same_width_keeps_lines(v: ScreenView, new_rows: nat)
    requires
        new_rows < v.rows ==> v.rows - new_rows <= v.lines.len(),
    ensures
        resized(v.lines, v.rows, v.cols, new_rows, v.cols) == (if new_rows > v.rows {
            if v.cols <= v.lines.len() {
                v.lines.subrange(0, v.cols as int)
            } else {
                v.lines + Seq::new(
                    (v.cols - v.lines.len()) as nat,
                    |_i: int| Seq::new(v.cols, |_j: int| ' '),
                )
            }
        } else if new_rows < v.rows {
            v.lines.subrange(v.rows - new_rows, v.lines.len() as int)
        } else {
            v.lines
        }),
{
    lemma_row_step_as_written(v, new_rows, v.cols);
}

/// Writing a character changes that one cell and nothing else; every line
/// keeps its length.
pub proof fn lemma_write_changes_one_cell(g: Seq<Seq<char>>, row: int, col: int, c: char)
    requires
        0 <= row < g.len(),
        0 <= col < g[row].len(),
    ensures
        put_cell(g, row, col, c).len() == g.len(),
        forall|i: int|
            0 <= i < g.len() ==> (#[trigger] put_cell(g, row, col, c)[i]).len() == g[i].len(),
        forall|i: int, j: int|
            0 <= i < g.len() && 0 <= j < g[i].len() ==> put_cell(g, row, col, c)[i][j] == (if i
                == row && j == col {
                c
            } else {
                g[i][j]
            }),
{
}

/// Scrolling moves every line up one place, drops the top line and adds a
/// line of `cols` spaces at the bottom.
pub proof fn lemma_scroll_moves_lines_up(g: Seq<Seq<char>>, cols: nat)
    requires
        g.len() > 0,
    ensures
        scrolled(g, cols).len() == g.len(),
        forall|i: int| 0 <= i < g.len() - 1 ==> #[trigger] scrolled(g, cols)[i] == g[i + 1],
        scrolled(g, cols)[g.len() - 1] == Seq::new(cols, |_j: int| ' '),
{
    assert(scrolled(g, cols)[g.len() - 1] =~= Seq::new(cols, |_j: int| ' '));
}

/// A new screen of `rows` x `cols` has `rows` lines of `cols` spaces.
pub proof fn lemma_new_screen_is_blank(rows: nat, cols: nat)
    ensures
        blank_grid(rows, cols).len() == rows,
        forall|i: int| 0 <= i < rows ==> (#[trigger] blank_grid(rows, cols)[i]).len() == cols,
        forall|i: int, j: int|
            0 <= i < rows && 0 <= j < cols ==> blank_grid(rows, cols)[i][j] == ' ',
{
}

} // verus!
