use vstd::prelude::*;

verus! {

/// One character cell of the screen: the glyph and its colours.
#[derive(Clone, Copy, Debug)]
pub struct Cell {
    pub ch: char,
    pub fg: u8,
    pub bg: u8,
    pub bold: bool,
}

impl Cell {
    /// The empty cell: NUL glyph, colour 0 on colour 0, not bold.
    pub open spec fn blank() -> Cell {
        Cell { ch: '\0', fg: 0, bg: 0, bold: false }
    }
}

impl Default for Cell {
    fn default() -> (c: Cell)
        ensures
            c == Cell::blank(),
    {
        Cell { ch: '\0', fg: 0, bg: 0, bold: false }
    }
}

/// Where the escape-sequence parser stands.
#[derive(Clone, Copy, Debug)]
pub enum EscapeState {
    Normal,
    Esc,
    Csi,
}

/// The drawing attributes that new characters get.
#[derive(Clone, Copy, Debug)]
pub struct Pen {
    pub fg: u8,
    pub bg: u8,
    pub bold: bool,
}

impl Pen {
    /// The pen after a reset: colour 7 on colour 0, not bold.
    pub open spec fn reset() -> Pen {
        Pen { fg: 7, bg: 0, bold: false }
    }

    /// The effect of one SGR (`ESC [ ... m`) parameter.
    pub open spec fn sgr_one(self, p: u16) -> Pen {
        if p == 0 {
            Pen::reset()
        } else if p == 1 {
            Pen { bold: true, ..self }
        } else if p == 22 {
            Pen { bold: false, ..self }
        } else if 30 <= p <= 37 {
            Pen { fg: (p - 30) as u8, ..self }
        } else if 40 <= p <= 47 {
            Pen { bg: (p - 40) as u8, ..self }
        } else if 90 <= p <= 97 {
            Pen { fg: (p - 90 + 8) as u8, ..self }
        } else if 100 <= p <= 107 {
            Pen { bg: (p - 100 + 8) as u8, ..self }
        } else if p == 39 {
            Pen { fg: 7, ..self }
        } else if p == 49 {
            Pen { bg: 0, ..self }
        } else {
            self
        }
    }

    /// The effect of a list of SGR parameters, applied from first to last.
    pub open spec fn sgr_all(self, ps: Seq<u16>) -> Pen
        decreases ps.len(),
    {
        if ps.len() == 0 {
            self
        } else {
            self.sgr_all(ps.drop_last()).sgr_one(ps.last())
        }
    }

    /// The effect of a whole `ESC [ ... m` sequence: no parameter at all resets the pen.
    pub open spec fn sgr(self, ps: Seq<u16>) -> Pen {
        if ps.len() == 0 {
            Pen::reset()
        } else {
            self.sgr_all(ps)
        }
    }
}

/// `n - 1`, or 0 when `n` is 0: the last valid index of a dimension.
pub open spec fn last_index(n: nat) -> nat {
    if n == 0 {
        0
    } else {
        (n - 1) as nat
    }
}

/// The smaller of two numbers.
pub open spec fn min_nat(a: nat, b: nat) -> nat {
    if a <= b {
        a
    } else {
        b
    }
}

/// A row of `cols` blank cells.
pub open spec fn blank_row(cols: nat) -> Seq<Cell> {
    Seq::new(cols, |c: int| Cell::blank())
}

/// A grid of `rows` blank rows of `cols` cells.
pub open spec fn blank_grid(rows: nat, cols: nat) -> Seq<Seq<Cell>> {
    Seq::new(rows, |r: int| blank_row(cols))
}

/// The line with every cell from column `from` on made blank.
pub open spec fn erase_from(line: Seq<Cell>, from: nat) -> Seq<Cell> {
    Seq::new(line.len(), |c: int| if c < from { line[c] } else { Cell::blank() })
}

/// A byte that the parser collects as part of a CSI parameter list: a digit or `;`.
pub open spec fn is_param_byte(b: u8) -> bool {
    (0x30 <= b <= 0x39) || b == 0x3b
}

/// A byte that ends a CSI sequence.
pub open spec fn is_final_byte(b: u8) -> bool {
    !is_param_byte(b) && b != 0x3f && b != 0x3e && b != 0x21
}

/// Bytes in normal mode that neither move the cursor nor print.
pub open spec fn is_ignored_control(b: u8) -> bool {
    b <= 0x07 || (0x0e <= b <= 0x1a) || (0x1c <= b <= 0x1f)
}

/// The decimal value of a string of digits.
pub open spec fn digits_value(d: Seq<u8>) -> nat
    decreases d.len(),
{
    if d.len() == 0 {
        0
    } else {
        digits_value(d.drop_last()) * 10 + (d.last() - 0x30) as nat
    }
}

/// The `;`-separated fields of a parameter buffer (a buffer without `;` is one field).
pub open spec fn split_fields(buf: Seq<u8>) -> Seq<Seq<u8>>
    decreases buf.len(),
{
    if buf.len() == 0 {
        seq![Seq::<u8>::empty()]
    } else {
        let prev = split_fields(buf.drop_last());
        if buf.last() == 0x3b {
            prev.push(Seq::<u8>::empty())
        } else {
            prev.update(prev.len() - 1, prev.last().push(buf.last()))
        }
    }
}

/// The numeric parameters of the fields: each nonempty field whose value fits in
/// a `u16`, in order; empty and too large fields are left out.
pub open spec fn params_of(fields: Seq<Seq<u8>>) -> Seq<u16>
    decreases fields.len(),
{
    if fields.len() == 0 {
        seq![]
    } else {
        let prev = params_of(fields.drop_last());
        let f = fields.last();
        if f.len() > 0 && digits_value(f) <= 65535 {
            prev.push(digits_value(f) as u16)
        } else {
            prev
        }
    }
}

/// The parameters that a CSI parameter buffer stands for.
pub open spec fn csi_params(buf: Seq<u8>) -> Seq<u16> {
    params_of(split_fields(buf))
}

/// Parameter `idx` (or `default` when absent), and at least 1.
pub open spec fn arg(ps: Seq<u16>, idx: nat, default: u16) -> nat {
    let v = if idx < ps.len() {
        ps[idx as int]
    } else {
        default
    };
    if v < 1 {
        1
    } else {
        v as nat
    }
}

/// The first parameter, or 0 when there is none.
pub open spec fn first_or_zero(ps: Seq<u16>) -> u16 {
    if ps.len() > 0 {
        ps[0]
    } else {
        0
    }
}

/// What a screen is: its size, its cells row by row, the cursor, the pen,
/// and the state of the escape-sequence parser.
pub struct ScreenModel {
    pub rows: nat,
    pub cols: nat,
    pub grid: Seq<Seq<Cell>>,
    pub row: nat,
    pub col: nat,
    pub pen: Pen,
    pub mode: EscapeState,
    pub params: Seq<u8>,
}

impl ScreenModel {
    /// The grid has `rows` rows of `cols` cells, the cursor is on the screen
    /// (or at 0 along an empty dimension), and the parameter buffer holds only
    /// digits and `;`.
    pub open spec fn wf(self) -> bool {
        &&& self.grid.len() == self.rows
        &&& forall|r: int| 0 <= r < self.rows ==> (#[trigger] self.grid[r]).len() == self.cols
        &&& self.rows <= usize::MAX
        &&& self.cols <= usize::MAX
        &&& (self.row < self.rows || (self.rows == 0 && self.row == 0))
        &&& (self.col < self.cols || (self.cols == 0 && self.col == 0))
        &&& forall|i: int| 0 <= i < self.params.len() ==> is_param_byte(#[trigger] self.params[i])
    }

    /// The cell at (`r`, `c`), or a blank cell off the screen.
    pub open spec fn cell_at(self, r: int, c: int) -> Cell {
        if 0 <= r < self.rows && 0 <= c < self.cols {
            self.grid[r][c]
        } else {
            Cell::blank()
        }
    }

    /// A fresh screen: blank, cursor at the top left, default pen, normal mode.
    pub open spec fn initial(rows: nat, cols: nat) -> ScreenModel {
        ScreenModel {
            rows,
            cols,
            grid: blank_grid(rows, cols),
            row: 0,
            col: 0,
            pen: Pen::reset(),
            mode: EscapeState::Normal,
            params: Seq::empty(),
        }
    }

    /// The screen at a new size: cells inside both sizes are kept, new ones are
    /// blank, and the cursor is moved onto the new screen.
    pub open spec fn resized(self, rows: nat, cols: nat) -> ScreenModel {
        ScreenModel {
            rows,
            cols,
            grid: Seq::new(
                rows,
                |r: int|
                    Seq::new(
                        cols,
                        |c: int|
                            if r < self.rows && c < self.cols {
                                self.grid[r][c]
                            } else {
                                Cell::blank()
                            },
                    ),
            ),
            row: min_nat(self.row, last_index(rows)),
            col: min_nat(self.col, last_index(cols)),
            ..self
        }
    }

    /// All rows move up by one; the top row is lost and a blank row comes in
    /// at the bottom.
    pub open spec fn scrolled(grid: Seq<Seq<Cell>>, cols: nat) -> Seq<Seq<Cell>> {
        grid.skip(1).push(blank_row(cols))
    }

    /// Cursor to the next line, scrolling at the bottom.
    pub open spec fn line_feed(self) -> ScreenModel {
        if self.row + 1 >= self.rows {
            ScreenModel {
                grid: Self::scrolled(self.grid, self.cols),
                row: last_index(self.rows),
                ..self
            }
        } else {
            ScreenModel { row: self.row + 1, ..self }
        }
    }

    /// Writing a character at the cursor with the current pen, then moving
    /// right, wrapping to the next line at the right edge and scrolling at the
    /// bottom.
    pub open spec fn put(self, ch: char) -> ScreenModel {
        if self.row >= self.rows || self.col >= self.cols {
            self
        } else {
            let cell = Cell { ch, fg: self.pen.fg, bg: self.pen.bg, bold: self.pen.bold };
            let g = self.grid.update(self.row as int, self.grid[self.row as int].update(self.col as int, cell));
            if self.col + 1 >= self.cols {
                if self.row + 1 >= self.rows {
                    ScreenModel {
                        grid: Self::scrolled(g, self.cols),
                        row: last_index(self.rows),
                        col: 0,
                        ..self
                    }
                } else {
                    ScreenModel { grid: g, row: self.row + 1, col: 0, ..self }
                }
            } else {
                ScreenModel { grid: g, col: self.col + 1, ..self }
            }
        }
    }

    /// A byte in normal mode.
    pub open spec fn on_normal(self, b: u8) -> ScreenModel {
        if b == 0x1b {
            ScreenModel { mode: EscapeState::Esc, ..self }
        } else if b == 0x0d {
            ScreenModel { col: 0, ..self }
        } else if b == 0x0a {
            self.line_feed()
        } else if b == 0x09 {
            ScreenModel { col: min_nat(((self.col / 8) + 1) * 8, last_index(self.cols)), ..self }
        } else if b == 0x08 {
            if self.col > 0 {
                ScreenModel { col: (self.col - 1) as nat, ..self }
            } else {
                self
            }
        } else if is_ignored_control(b) {
            self
        } else {
            self.put(b as char)
        }
    }

    /// A byte right after ESC: `[` opens a CSI sequence with an empty
    /// parameter buffer; anything else ends the escape.
    pub open spec fn on_esc(self, b: u8) -> ScreenModel {
        if b == 0x5b {
            ScreenModel { mode: EscapeState::Csi, params: Seq::empty(), ..self }
        } else {
            ScreenModel { mode: EscapeState::Normal, ..self }
        }
    }

    /// A byte inside a CSI sequence: digits and `;` are collected, `?`, `>`
    /// and `!` are skipped, and any other byte runs the command and returns to
    /// normal mode.
    pub open spec fn on_csi(self, b: u8) -> ScreenModel {
        if is_param_byte(b) {
            ScreenModel { params: self.params.push(b), ..self }
        } else if !is_final_byte(b) {
            self
        } else {
            ScreenModel { mode: EscapeState::Normal, ..self.dispatch(b, csi_params(self.params)) }
        }
    }

    /// The effect of one CSI command with its parameters.
    pub open spec fn dispatch(self, action: u8, ps: Seq<u16>) -> ScreenModel {
        if action == 0x41 {
            // 'A': up
            let n = arg(ps, 0, 1);
            ScreenModel {
                row: if self.row >= n {
                    (self.row - n) as nat
                } else {
                    0
                },
                ..self
            }
        } else if action == 0x42 {
            // 'B': down
            ScreenModel { row: min_nat(self.row + arg(ps, 0, 1), last_index(self.rows)), ..self }
        } else if action == 0x43 {
            // 'C': right
            ScreenModel { col: min_nat(self.col + arg(ps, 0, 1), last_index(self.cols)), ..self }
        } else if action == 0x44 {
            // 'D': left
            let n = arg(ps, 0, 1);
            ScreenModel {
                col: if self.col >= n {
                    (self.col - n) as nat
                } else {
                    0
                },
                ..self
            }
        } else if action == 0x48 || action == 0x66 {
            // 'H' / 'f': position (1-based)
            ScreenModel {
                row: min_nat((arg(ps, 0, 1) - 1) as nat, last_index(self.rows)),
                col: min_nat((arg(ps, 1, 1) - 1) as nat, last_index(self.cols)),
                ..self
            }
        } else if action == 0x4a {
            // 'J': erase in display
            let m = first_or_zero(ps);
            if m == 0 {
                ScreenModel {
                    grid: Seq::new(
                        self.rows,
                        |r: int|
                            if r < self.row {
                                self.grid[r]
                            } else if r == self.row {
                                erase_from(self.grid[r], self.col)
                            } else {
                                blank_row(self.cols)
                            },
                    ),
                    ..self
                }
            } else if m == 2 {
                ScreenModel { grid: blank_grid(self.rows, self.cols), row: 0, col: 0, ..self }
            } else {
                self
            }
        } else if action == 0x4b {
            // 'K': erase in line
            let m = first_or_zero(ps);
            if m == 0 && self.row < self.rows {
                ScreenModel {
                    grid: self.grid.update(self.row as int, erase_from(self.grid[self.row as int], self.col)),
                    ..self
                }
            } else if m == 2 && self.row < self.rows {
                ScreenModel { grid: self.grid.update(self.row as int, blank_row(self.cols)), ..self }
            } else {
                self
            }
        } else if action == 0x6d {
            // 'm': graphic rendition
            ScreenModel { pen: self.pen.sgr(ps), ..self }
        } else {
            self
        }
    }

    /// Feeding one byte, by parser state.
    pub open spec fn step(self, b: u8) -> ScreenModel {
        match self.mode {
            EscapeState::Normal => self.on_normal(b),
            EscapeState::Esc => self.on_esc(b),
            EscapeState::Csi => self.on_csi(b),
        }
    }

    /// A command that would index a row of a screen without rows.
    pub open spec fn dispatch_panics(self, action: u8, ps: Seq<u16>) -> bool {
        &&& self.rows == 0
        &&& {
            ||| action == 0x4a && first_or_zero(ps) == 0 && self.col < self.cols
            ||| action == 0x4b && first_or_zero(ps) == 0 && self.col < self.cols
            ||| action == 0x4b && first_or_zero(ps) == 2 && self.cols > 0
        }
    }

    /// The bytes on which feeding indexes a row of a screen without rows: a
    /// line feed, and the erase commands that touch a cell of the cursor row.
    pub open spec fn feed_panics(self, b: u8) -> bool {
        match self.mode {
            EscapeState::Normal => self.rows == 0 && b == 0x0a,
            EscapeState::Esc => false,
            EscapeState::Csi => is_final_byte(b) && self.dispatch_panics(b, csi_params(self.params)),
        }
    }

    /// Feeding a sequence of bytes, first to last.
    pub open spec fn feed_all(self, bytes: Seq<u8>) -> ScreenModel
        decreases bytes.len(),
    {
        if bytes.len() == 0 {
            self
        } else {
            self.feed_all(bytes.drop_last()).step(bytes.last())
        }
    }

    /// Some byte of the sequence would be fed where feeding it panics.
    pub open spec fn feed_all_panics(self, bytes: Seq<u8>) -> bool
        decreases bytes.len(),
    {
        if bytes.len() == 0 {
            false
        } else {
            self.feed_all_panics(bytes.drop_last()) || self.feed_all(bytes.drop_last()).feed_panics(
                bytes.last(),
            )
        }
    }
}

/// A minimal VT100 screen: a grid of cells, a cursor, and a parser for the
/// ANSI escape sequences that move the cursor, erase, and set colours.
pub struct VtScreen {
    rows: usize,
    cols: usize,
    cells: Vec<Vec<Cell>>,
    cursor_row: usize,
    cursor_col: usize,
    fg: u8,
    bg: u8,
    bold: bool,
    state: EscapeState,
    param_buf: Vec<u8>,
}

impl View for VtScreen {
    type V = ScreenModel;

    closed spec fn view(&self) -> ScreenModel {
        ScreenModel {
            rows: self.rows as nat,
            cols: self.cols as nat,
            grid: grid_view(self.cells@),
            row: self.cursor_row as nat,
            col: self.cursor_col as nat,
            pen: Pen { fg: self.fg, bg: self.bg, bold: self.bold },
            mode: self.state,
            params: self.param_buf@,
        }
    }
}

/// The cells of a grid of rows, row by row.
pub open spec fn grid_view(cells: Seq<Vec<Cell>>) -> Seq<Seq<Cell>> {
    Seq::new(cells.len(), |r: int| cells[r]@)
}

fn make_blank_row(cols: usize) -> (line: Vec<Cell>)
    ensures
        line@ == blank_row(cols as nat),
{
    let mut line: Vec<Cell> = Vec::new();
    let mut c: usize = 0;
    while c < cols
        invariant
            c <= cols,
            line@ == Seq::new(c as nat, |k: int| Cell::blank()),
        decreases cols - c,
    {
        line.push(Cell::default());
        c = c + 1;
        assert(line@ =~= Seq::new(c as nat, |k: int| Cell::blank()));
    }
    line
}

/// A copy of `src` cut or padded with blank cells to `cols` cells.
fn fit_row(src: &Vec<Cell>, cols: usize) -> (line: Vec<Cell>)
    ensures
        line@ == Seq::new(cols as nat, |c: int| if c < src@.len() { src@[c] } else { Cell::blank() }),
{
    let mut line: Vec<Cell> = Vec::new();
    let mut c: usize = 0;
    while c < cols
        invariant
            c <= cols,
            line@ == Seq::new(c as nat, |k: int| if k < src@.len() { src@[k] } else { Cell::blank() }),
        decreases cols - c,
    {
        if c < src.len() {
            line.push(src[c]);
        } else {
            line.push(Cell::default());
        }
        c = c + 1;
        assert(line@ =~= Seq::new(c as nat, |k: int| if k < src@.len() { src@[k] } else { Cell::blank() }));
    }
    line
}

impl VtScreen {
    /// A blank screen of `rows` by `cols` cells with the cursor at the top left.
    pub fn new(rows: usize, cols: usize) -> (s: VtScreen)
        ensures
            s@ == ScreenModel::initial(rows as nat, cols as nat),
            s@.wf(),
    {
        let mut cells: Vec<Vec<Cell>> = Vec::new();
        let mut r: usize = 0;
        while r < rows
            invariant
                r <= rows,
                cells@.len() == r,
                forall|k: int| 0 <= k < r ==> (#[trigger] cells@[k])@ == blank_row(cols as nat),
            decreases rows - r,
        {
            cells.push(make_blank_row(cols));
            r = r + 1;
        }
        assert(grid_view(cells@) =~= blank_grid(rows as nat, cols as nat));
        let s = VtScreen {
            rows,
            cols,
            cells,
            cursor_row: 0,
            cursor_col: 0,
            fg: 7,
            bg: 0,
            bold: false,
            state: EscapeState::Normal,
            param_buf: Vec::new(),
        };
        assert(s@ =~= ScreenModel::initial(rows as nat, cols as nat));
        s
    }

    /// Changes the size of the screen, keeping the cells that fit and moving
    /// the cursor onto the new screen.
    pub fn resize(&mut self, rows: usize, cols: usize)
        requires
            old(self)@.wf(),
        ensures
            final(self)@ == old(self)@.resized(rows as nat, cols as nat),
            final(self)@.wf(),
    {
        let ghost old_grid = self@.grid;
        let mut cells: Vec<Vec<Cell>> = Vec::new();
        let mut r: usize = 0;
        while r < rows
            invariant
                r <= rows,
                self@.wf(),
                old_grid == self@.grid,
                cells@.len() == r,
                forall|k: int|
                    0 <= k < r ==> (#[trigger] cells@[k])@ == Seq::new(
                        cols as nat,
                        |c: int|
                            if k < self@.rows && c < self@.cols {
                                old_grid[k][c]
                            } else {
                                Cell::blank()
                            },
                    ),
            decreases rows - r,
        {
            if r < self.rows {
                let line = fit_row(&self.cells[r], cols);
                assert(line@ =~= Seq::new(
                    cols as nat,
                    |c: int|
                        if r < self@.rows && c < self@.cols {
                            old_grid[r as int][c]
                        } else {
                            Cell::blank()
                        },
                ));
                cells.push(line);
            } else {
                let line = make_blank_row(cols);
                assert(line@ =~= Seq::new(
                    cols as nat,
                    |c: int|
                        if r < self@.rows && c < self@.cols {
                            old_grid[r as int][c]
                        } else {
                            Cell::blank()
                        },
                ));
                cells.push(line);
            }
            r = r + 1;
        }
        let ghost expected = old(self)@.resized(rows as nat, cols as nat);
        self.cells = cells;
        self.rows = rows;
        self.cols = cols;
        let last_row = if rows > 0 { rows - 1 } else { 0 };
        let last_col = if cols > 0 { cols - 1 } else { 0 };
        if self.cursor_row > last_row {
            self.cursor_row = last_row;
        }
        if self.cursor_col > last_col {
            self.cursor_col = last_col;
        }
        assert(self@.grid =~= expected.grid);
        assert(self@ =~= expected);
    }

    /// Moves every row up by one and brings in a blank row at the bottom.
    fn scroll_up(&mut self)
        requires
            old(self).cells@.len() == old(self).rows,
            old(self).rows >= 1,
            forall|r: int| 0 <= r < old(self).rows ==> (#[trigger] old(self).cells@[r])@.len() == old(self).cols,
        ensures
            final(self)@ == (ScreenModel { grid: ScreenModel::scrolled(old(self)@.grid, old(self)@.cols), ..old(self)@ }),
            final(self).cells@.len() == final(self).rows,
            forall|r: int| 0 <= r < final(self).rows ==> (#[trigger] final(self).cells@[r])@.len() == final(self).cols,
    {
        let ghost g0 = self@.grid;
        self.cells.remove(0);
        let line = make_blank_row(self.cols);
        self.cells.push(line);
        assert(grid_view(self.cells@) =~= ScreenModel::scrolled(g0, self.cols as nat));
        assert forall|r: int| 0 <= r < self.rows implies (#[trigger] self.cells@[r])@.len() == self.cols by {
            if r < self.rows - 1 {
                assert(self.cells@[r] == old(self).cells@[r + 1]);
            }
        }
    }

    /// Writes `c` at the cursor and advances the cursor.
    fn put(&mut self, c: char)
        requires
            old(self)@.wf(),
        ensures
            final(self)@ == old(self)@.put(c),
            final(self)@.wf(),
    {
        let row = self.cursor_row;
        let col = self.cursor_col;
        if row >= self.rows || col >= self.cols {
            return;
        }
        let cell = Cell { ch: c, fg: self.fg, bg: self.bg, bold: self.bold };
        self.cells[row][col] = cell;
        assert(grid_view(self.cells@) =~= old(self)@.grid.update(row as int, old(self)@.grid[row as int].update(col as int, cell)));
        assert forall|r: int| 0 <= r < self.rows implies (#[trigger] self.cells@[r])@.len() == self.cols by {
            assert(grid_view(self.cells@)[r] == self.cells@[r]@);
        }
        self.cursor_col = col + 1;
        if self.cursor_col >= self.cols {
            self.cursor_col = 0;
            self.cursor_row = row + 1;
            if self.cursor_row >= self.rows {
                self.scroll_up();
                self.cursor_row = self.rows - 1;
            }
        }
        assert(self@ =~= old(self)@.put(c));
    }

    /// Moves every cell of row `r` from column `from` on to blank.
    fn clear_from(&mut self, r: usize, from: usize)
        requires
            old(self)@.wf(),
            r < old(self).rows,
        ensures
            final(self)@ == (ScreenModel {
                grid: old(self)@.grid.update(r as int, erase_from(old(self)@.grid[r as int], from as nat)),
                ..old(self)@
            }),
            final(self)@.wf(),
    {
        let ghost g0 = self@.grid;
        let ghost line0 = g0[r as int];
        let mut c = from;
        while c < self.cols
            invariant
                self.rows == old(self).rows,
                self.cols == old(self).cols,
                r < self.rows,
                self.cells@.len() == self.rows,
                forall|k: int| 0 <= k < self.rows && k != r ==> self.cells@[k] == old(self).cells@[k],
                self.cells@[r as int]@ == Seq::new(
                    self.cols as nat,
                    |k: int| if from <= k < c { Cell::blank() } else { line0[k] },
                ),
                from <= c,
                self.cursor_row == old(self).cursor_row,
                self.cursor_col == old(self).cursor_col,
                self.fg == old(self).fg,
                self.bg == old(self).bg,
                self.bold == old(self).bold,
                self.state == old(self).state,
                self.param_buf == old(self).param_buf,
                line0 == old(self)@.grid[r as int],
                line0.len() == self.cols,
            decreases self.cols - c,
        {
            self.cells[r][c] = Cell::default();
            c = c + 1;
            assert(self.cells@[r as int]@ =~= Seq::new(
                self.cols as nat,
                |k: int| if from <= k < c { Cell::blank() } else { line0[k] },
            ));
        }
        assert(self.cells@[r as int]@ =~= erase_from(line0, from as nat));
        assert(grid_view(self.cells@) =~= g0.update(r as int, erase_from(line0, from as nat)));
        assert(self@ =~= (ScreenModel { grid: g0.update(r as int, erase_from(line0, from as nat)), ..old(self)@ }));
    }

    /// A byte in normal mode.
    fn normal(&mut self, byte: u8)
        requires
            old(self)@.wf(),
            old(self)@.mode == EscapeState::Normal,
            !old(self)@.feed_panics(byte),
        ensures
            final(self)@ == old(self)@.on_normal(byte),
            final(self)@.wf(),
    {
        if byte == 0x1b {
            self.state = EscapeState::Esc;
            assert(self@ =~= old(self)@.on_normal(byte));
        } else if byte == 0x0d {
            self.cursor_col = 0;
            assert(self@ =~= old(self)@.on_normal(byte));
        } else if byte == 0x0a {
            let next = self.cursor_row + 1;
            proof {
                self.lemma_wf_cells();
            }
            if next >= self.rows {
                self.scroll_up();
                self.cursor_row = self.rows - 1;
            } else {
                self.cursor_row = next;
            }
            assert(self@ =~= old(self)@.on_normal(byte));
        } else if byte == 0x09 {
            let col = self.cursor_col;
            let base = (col / 8) * 8;
            assert(base + 8 == ((col / 8) + 1) * 8) by (nonlinear_arith)
                requires
                    base == (col / 8) * 8,
            ;
            let next = base.saturating_add(8);
            let last = if self.cols > 0 { self.cols - 1 } else { 0 };
            self.cursor_col = if next < last { next } else { last };
            assert(self@ =~= old(self)@.on_normal(byte));
        } else if byte == 0x08 {
            if self.cursor_col > 0 {
                self.cursor_col = self.cursor_col - 1;
            }
            assert(self@ =~= old(self)@.on_normal(byte));
        } else if byte <= 0x07 || (0x0e <= byte && byte <= 0x1a) || (0x1c <= byte && byte <= 0x1f) {
        } else {
            self.put(byte as char);
        }
    }

    proof fn lemma_wf_cells(&self)
        requires
            self@.wf(),
        ensures
            self.cells@.len() == self.rows,
            forall|r: int| 0 <= r < self.rows ==> (#[trigger] self.cells@[r])@.len() == self.cols,
    {
        assert forall|r: int| 0 <= r < self.rows implies (#[trigger] self.cells@[r])@.len() == self.cols by {
            assert(grid_view(self.cells@)[r] == self.cells@[r]@);
        }
    }

    /// A byte right after ESC.
    fn esc(&mut self, byte: u8)
        requires
            old(self)@.wf(),
        ensures
            final(self)@ == old(self)@.on_esc(byte),
            final(self)@.wf(),
    {
        if byte == 0x5b {
            self.state = EscapeState::Csi;
            self.param_buf.clear();
        } else {
            self.state = EscapeState::Normal;
        }
        assert(self@ =~= old(self)@.on_esc(byte));
    }

    /// The numeric parameters collected so far.
    fn parse_params(&self) -> (ps: Vec<u16>)
        requires
            self@.wf(),
        ensures
            ps@ == csi_params(self@.params),
    {
        let ghost buf = self.param_buf@;
        let mut out: Vec<u16> = Vec::new();
        let mut cur: u32 = 0;
        let mut len: usize = 0;
        let mut big = false;
        let mut i: usize = 0;
        proof {
            lemma_split_nonempty(buf.take(0));
            assert(buf.take(0) =~= Seq::<u8>::empty());
        }
        while i < self.param_buf.len()
            invariant
                i <= buf.len(),
                buf == self.param_buf@,
                buf == self@.params,
                self@.wf(),
                split_fields(buf.take(i as int)).len() >= 1,
                out@ == params_of(split_fields(buf.take(i as int)).drop_last()),
                len == split_fields(buf.take(i as int)).last().len(),
                len <= i,
                big == (digits_value(split_fields(buf.take(i as int)).last()) > 65535),
                !big ==> cur == digits_value(split_fields(buf.take(i as int)).last()),
            decreases buf.len() - i,
        {
            let b = self.param_buf[i];
            let ghost fs = split_fields(buf.take(i as int));
            proof {
                assert(buf.take(i + 1).drop_last() =~= buf.take(i as int));
                assert(buf.take(i + 1).last() == b);
                lemma_split_nonempty(buf.take(i + 1));
                assert(is_param_byte(buf[i as int]));
            }
            if b == 0x3b {
                proof {
                    assert(split_fields(buf.take(i + 1)) == fs.push(Seq::<u8>::empty()));
                    assert(fs.push(Seq::<u8>::empty()).drop_last() =~= fs);
                }
                if len > 0 && !big {
                    out.push(cur as u16);
                }
                cur = 0;
                len = 0;
                big = false;
            } else {
                let ghost f = fs.last();
                proof {
                    let fs2 = split_fields(buf.take(i + 1));
                    assert(fs2 == fs.update(fs.len() - 1, f.push(b)));
                    assert(fs2.drop_last() =~= fs.drop_last());
                    assert(fs2.last() == f.push(b));
                    assert(f.push(b).drop_last() =~= f);
                    assert(digits_value(f.push(b)) == digits_value(f) * 10 + (b - 0x30) as nat);
                }
                len = len + 1;
                if !big {
                    cur = cur * 10 + (b - 0x30) as u32;
                    if cur > 65535 {
                        big = true;
                    }
                }
            }
            i = i + 1;
        }
        proof {
            assert(buf.take(i as int) =~= buf);
        }
        if len > 0 && !big {
            out.push(cur as u16);
        }
        out
    }

    /// Parameter `idx` (or `default` when absent), at least 1.
    fn param_or(params: &Vec<u16>, idx: usize, default: u16) -> (n: usize)
        ensures
            n as nat == arg(params@, idx as nat, default),
            1 <= n <= 65535,
    {
        let v = if idx < params.len() {
            params[idx]
        } else {
            default
        };
        if v < 1 {
            1
        } else {
            v as usize
        }
    }

    /// Runs the CSI command `action` with its parameters.
    fn dispatch_csi(&mut self, action: u8, params: &Vec<u16>)
        requires
            old(self)@.wf(),
            !old(self)@.dispatch_panics(action, params@),
        ensures
            final(self)@ == old(self)@.dispatch(action, params@),
            final(self)@.wf(),
    {
        proof {
            self.lemma_wf_cells();
        }
        let last_row = if self.rows > 0 { self.rows - 1 } else { 0 };
        let last_col = if self.cols > 0 { self.cols - 1 } else { 0 };
        if action == 0x41 {
            let n = Self::param_or(params, 0, 1);
            self.cursor_row = self.cursor_row.saturating_sub(n);
        } else if action == 0x42 {
            let n = Self::param_or(params, 0, 1);
            let t = self.cursor_row.saturating_add(n);
            self.cursor_row = if t < last_row { t } else { last_row };
        } else if action == 0x43 {
            let n = Self::param_or(params, 0, 1);
            let t = self.cursor_col.saturating_add(n);
            self.cursor_col = if t < last_col { t } else { last_col };
        } else if action == 0x44 {
            let n = Self::param_or(params, 0, 1);
            self.cursor_col = self.cursor_col.saturating_sub(n);
        } else if action == 0x48 || action == 0x66 {
            let row = Self::param_or(params, 0, 1) - 1;
            let col = Self::param_or(params, 1, 1) - 1;
            self.cursor_row = if row < last_row { row } else { last_row };
            self.cursor_col = if col < last_col { col } else { last_col };
        } else if action == 0x4a {
            let mode = if params.len() > 0 { params[0] } else { 0 };
            if mode == 0 {
                self.erase_below();
            } else if mode == 2 {
                self.erase_all();
            }
        } else if action == 0x4b {
            let mode = if params.len() > 0 { params[0] } else { 0 };
            if mode == 0 && self.cursor_row < self.rows {
                self.clear_from(self.cursor_row, self.cursor_col);
            } else if mode == 2 && self.cursor_row < self.rows {
                self.set_blank_row(self.cursor_row);
            }
        } else if action == 0x6d {
            let mut pen = Pen { fg: self.fg, bg: self.bg, bold: self.bold };
            if params.len() == 0 {
                pen = Pen { fg: 7, bg: 0, bold: false };
            } else {
                let ghost pen0 = pen;
                let mut i: usize = 0;
                while i < params.len()
                    invariant
                        i <= params@.len(),
                        pen == pen0.sgr_all(params@.take(i as int)),
                    decreases params@.len() - i,
                {
                    proof {
                        assert(params@.take(i + 1).drop_last() =~= params@.take(i as int));
                    }
                    pen = sgr_apply(pen, params[i]);
                    i = i + 1;
                }
                assert(params@.take(i as int) =~= params@);
            }
            self.fg = pen.fg;
            self.bg = pen.bg;
            self.bold = pen.bold;
        }
        assert(self@ =~= old(self)@.dispatch(action, params@));
        proof {
            lemma_dispatch_wf(old(self)@, action, params@);
        }
    }

    /// Replaces row `r` by a blank row.
    fn set_blank_row(&mut self, r: usize)
        requires
            old(self)@.wf(),
            r < old(self).rows,
        ensures
            final(self)@ == (ScreenModel { grid: old(self)@.grid.update(r as int, blank_row(old(self)@.cols)), ..old(self)@ }),
            final(self)@.wf(),
    {
        proof {
            self.lemma_wf_cells();
        }
        let line = make_blank_row(self.cols);
        self.cells[r] = line;
        assert(grid_view(self.cells@) =~= old(self)@.grid.update(r as int, blank_row(old(self)@.cols)));
        assert(self@ =~= (ScreenModel { grid: old(self)@.grid.update(r as int, blank_row(old(self)@.cols)), ..old(self)@ }));
    }

    /// Erases from the cursor to the end of the screen.
    fn erase_below(&mut self)
        requires
            old(self)@.wf(),
            old(self).rows == 0 ==> old(self).cursor_col >= old(self).cols,
        ensures
            final(self)@ == (ScreenModel {
                grid: Seq::new(
                    old(self)@.rows,
                    |r: int|
                        if r < old(self)@.row {
                            old(self)@.grid[r]
                        } else if r == old(self)@.row {
                            erase_from(old(self)@.grid[r], old(self)@.col)
                        } else {
                            blank_row(old(self)@.cols)
                        },
                ),
                ..old(self)@
            }),
    {
        let ghost s0 = self@;
        if self.cursor_row < self.rows {
            self.clear_from(self.cursor_row, self.cursor_col);
        }
        let ghost s1 = self@;
        let mut r = self.cursor_row + 1;
        while r < self.rows
            invariant
                self@.wf(),
                self@ == (ScreenModel { grid: self@.grid, ..s1 }),
                s1.rows == s0.rows,
                s1.cols == s0.cols,
                s1.row == s0.row,
                s1.grid.len() == s0.rows,
                s0.row < r,
                forall|k: int|
                    0 <= k < s0.rows ==> #[trigger] self@.grid[k] == if k <= s0.row || k >= r {
                        s1.grid[k]
                    } else {
                        blank_row(s0.cols)
                    },
            decreases self.rows - r,
        {
            self.set_blank_row(r);
            r = r + 1;
        }
        assert(self@.grid =~= Seq::new(
            s0.rows,
            |k: int|
                if k < s0.row {
                    s0.grid[k]
                } else if k == s0.row {
                    erase_from(s0.grid[k], s0.col)
                } else {
                    blank_row(s0.cols)
                },
        ));
    }

    /// Blanks the whole screen and homes the cursor.
    fn erase_all(&mut self)
        requires
            old(self)@.wf(),
        ensures
            final(self)@ == (ScreenModel {
                grid: blank_grid(old(self)@.rows, old(self)@.cols),
                row: 0,
                col: 0,
                ..old(self)@
            }),
    {
        let ghost s0 = self@;
        let mut r: usize = 0;
        while r < self.rows
            invariant
                self@.wf(),
                self@ == (ScreenModel { grid: self@.grid, ..s0 }),
                r <= self.rows,
                s0.grid.len() == s0.rows,
                forall|k: int| 0 <= k < s0.rows ==> #[trigger] self@.grid[k] == if k < r {
                    blank_row(s0.cols)
                } else {
                    s0.grid[k]
                },
            decreases self.rows - r,
        {
            self.set_blank_row(r);
            r = r + 1;
        }
        self.cursor_row = 0;
        self.cursor_col = 0;
        assert(self@.grid =~= blank_grid(s0.rows, s0.cols));
    }

    /// A byte inside a CSI sequence.
    fn csi(&mut self, byte: u8)
        requires
            old(self)@.wf(),
            old(self)@.mode == EscapeState::Csi,
            !old(self)@.feed_panics(byte),
        ensures
            final(self)@ == old(self)@.on_csi(byte),
            final(self)@.wf(),
    {
        if (0x30 <= byte && byte <= 0x39) || byte == 0x3b {
            self.param_buf.push(byte);
            assert(self@ =~= old(self)@.on_csi(byte));
        } else if byte == 0x3f || byte == 0x3e || byte == 0x21 {
        } else {
            let params = self.parse_params();
            self.dispatch_csi(byte, &params);
            self.state = EscapeState::Normal;
            assert(self@ =~= old(self)@.on_csi(byte));
        }
    }

    /// Feeds one byte of terminal output to the screen.
    pub fn feed(&mut self, byte: u8)
        requires
            old(self)@.wf(),
            !old(self)@.feed_panics(byte),
        ensures
            final(self)@ == old(self)@.step(byte),
            final(self)@.wf(),
    {
        match self.state {
            EscapeState::Normal => self.normal(byte),
            EscapeState::Esc => self.esc(byte),
            EscapeState::Csi => self.csi(byte),
        }
    }

    /// The cell at (`row`, `col`), or a blank cell when that is off the screen.
    pub fn cell(&self, row: usize, col: usize) -> (c: Cell)
        requires
            self@.wf(),
        ensures
            c == self@.cell_at(row as int, col as int),
    {
        proof {
            self.lemma_wf_cells();
        }
        if row < self.cells.len() && col < self.cells[row].len() {
            self.cells[row][col]
        } else {
            Cell::default()
        }
    }

    /// The number of rows.
    pub fn rows(&self) -> (n: usize)
        ensures
            n as nat == self@.rows,
    {
        self.rows
    }

    /// The number of columns.
    pub fn cols(&self) -> (n: usize)
        ensures
            n as nat == self@.cols,
    {
        self.cols
    }

}

/// Splitting always gives at least one field.
proof fn lemma_split_nonempty(buf: Seq<u8>)
    ensures
        split_fields(buf).len() >= 1,
    decreases buf.len(),
{
    if buf.len() > 0 {
        lemma_split_nonempty(buf.drop_last());
    }
}

/// The effect of one SGR parameter on the pen.
fn sgr_apply(pen: Pen, p: u16) -> (r: Pen)
    ensures
        r == pen.sgr_one(p),
{
    if p == 0 {
        Pen { fg: 7, bg: 0, bold: false }
    } else if p == 1 {
        Pen { bold: true, ..pen }
    } else if p == 22 {
        Pen { bold: false, ..pen }
    } else if 30 <= p && p <= 37 {
        Pen { fg: (p - 30) as u8, ..pen }
    } else if 40 <= p && p <= 47 {
        Pen { bg: (p - 40) as u8, ..pen }
    } else if 90 <= p && p <= 97 {
        Pen { fg: (p - 90 + 8) as u8, ..pen }
    } else if 100 <= p && p <= 107 {
        Pen { bg: (p - 100 + 8) as u8, ..pen }
    } else if p == 39 {
        Pen { fg: 7, ..pen }
    } else if p == 49 {
        Pen { bg: 0, ..pen }
    } else {
        pen
    }
}

/// Every CSI command keeps the screen well formed.
proof fn lemma_dispatch_wf(s: ScreenModel, action: u8, ps: Seq<u16>)
    requires
        s.wf(),
    ensures
        s.dispatch(action, ps).wf(),
{
    let t = s.dispatch(action, ps);
    assert forall|r: int| 0 <= r < t.rows implies (#[trigger] t.grid[r]).len() == t.cols by {
        assert(s.grid[r].len() == s.cols);
    }
}

/// Feeding a byte keeps a well-formed screen well formed.
pub proof fn lemma_step_wf(s: ScreenModel, b: u8)
    requires
        s.wf(),
        !s.feed_panics(b),
    ensures
        s.step(b).wf(),
{
    match s.mode {
        EscapeState::Normal => {
            let t = s.on_normal(b);
            if b == 0x0a && s.row + 1 >= s.rows {
                assert forall|r: int| 0 <= r < t.rows implies (#[trigger] t.grid[r]).len() == t.cols by {
                    if r < s.rows - 1 {
                        assert(t.grid[r] == s.grid[r + 1]);
                    }
                }
            } else if b != 0x1b && b != 0x0d && b != 0x0a && b != 0x09 && b != 0x08 && !is_ignored_control(b) {
                lemma_put_wf(s, b as char);
            }
        },
        EscapeState::Esc => {},
        EscapeState::Csi => {
            if is_final_byte(b) {
                lemma_dispatch_wf(s, b, csi_params(s.params));
            }
        },
    }
}

/// Writing a character keeps a well-formed screen well formed.
pub proof fn lemma_put_wf(s: ScreenModel, ch: char)
    requires
        s.wf(),
    ensures
        s.put(ch).wf(),
{
    let t = s.put(ch);
    if s.row < s.rows && s.col < s.cols {
        let cell = Cell { ch, fg: s.pen.fg, bg: s.pen.bg, bold: s.pen.bold };
        let g = s.grid.update(s.row as int, s.grid[s.row as int].update(s.col as int, cell));
        assert forall|r: int| 0 <= r < s.rows implies (#[trigger] g[r]).len() == s.cols by {
            assert(s.grid[r].len() == s.cols);
        }
        assert forall|r: int| 0 <= r < t.rows implies (#[trigger] t.grid[r]).len() == t.cols by {
            if s.col + 1 >= s.cols && s.row + 1 >= s.rows && r < s.rows - 1 {
                assert(t.grid[r] == g[r + 1]);
            }
        }
    }
}

/// Feeding bytes one by one keeps a well-formed screen well formed.
pub proof fn lemma_feed_all_wf(s: ScreenModel, bytes: Seq<u8>)
    requires
        s.wf(),
        !s.feed_all_panics(bytes),
    ensures
        s.feed_all(bytes).wf(),
    decreases bytes.len(),
{
    if bytes.len() > 0 {
        lemma_feed_all_wf(s, bytes.drop_last());
        lemma_step_wf(s.feed_all(bytes.drop_last()), bytes.last());
    }
}

/// Feeding `a` and then `b` is feeding `a + b`: output may arrive in any
/// chunks.
pub proof fn lemma_feed_all_append(s: ScreenModel, a: Seq<u8>, b: Seq<u8>)
    ensures
        s.feed_all(a + b) == s.feed_all(a).feed_all(b),
        s.feed_all_panics(a + b) == (s.feed_all_panics(a) || s.feed_all(a).feed_all_panics(b)),
    decreases b.len(),
{
    if b.len() == 0 {
        assert(a + b =~= a);
    } else {
        lemma_feed_all_append(s, a, b.drop_last());
        assert((a + b).drop_last() =~= a + b.drop_last());
        assert((a + b).last() == b.last());
    }
}

/// A byte that normal mode writes to the screen.
pub open spec fn is_printed(b: u8) -> bool {
    b != 0x1b && b != 0x0d && b != 0x0a && b != 0x09 && b != 0x08 && !is_ignored_control(b)
}

/// Reading back a written character: a printed byte lands at the cursor with
/// the current pen (one row higher when it fills the last cell of the screen
/// and the screen scrolls).
pub proof fn lemma_print_then_read(s: ScreenModel, b: u8)
    requires
        s.wf(),
        s.mode == EscapeState::Normal,
        is_printed(b),
        s.row < s.rows,
        s.col < s.cols,
    ensures
        ({
            let t = s.step(b);
            let written = Cell { ch: b as char, fg: s.pen.fg, bg: s.pen.bg, bold: s.pen.bold };
            &&& (s.col + 1 < s.cols || s.row + 1 < s.rows) ==> t.cell_at(s.row as int, s.col as int) == written
            &&& (s.col + 1 >= s.cols && s.row + 1 >= s.rows && s.rows >= 2) ==> t.cell_at(s.row - 1, s.col as int) == written
            &&& t.pen == s.pen
            &&& t.mode == EscapeState::Normal
        }),
{
    assert(s.grid[s.row as int].len() == s.cols);
}

/// Two steps from a state, spelled out.
proof fn lemma_feed_two(s: ScreenModel, x: u8, y: u8)
    ensures
        s.feed_all(seq![x, y]) == s.step(x).step(y),
{
    assert(seq![x, y].drop_last() =~= seq![x]);
    assert(seq![x].drop_last() =~= Seq::<u8>::empty());
    assert(s.feed_all(Seq::<u8>::empty()) == s);
    assert(s.feed_all(seq![x]) == s.step(x));
}

/// Three steps from a state, spelled out.
proof fn lemma_feed_three(s: ScreenModel, x: u8, y: u8, z: u8)
    ensures
        s.feed_all(seq![x, y, z]) == s.step(x).step(y).step(z),
{
    assert(seq![x, y, z].drop_last() =~= seq![x, y]);
    lemma_feed_two(s, x, y);
}

/// Four steps from a state, spelled out.
proof fn lemma_feed_four(s: ScreenModel, x: u8, y: u8, z: u8, w: u8)
    ensures
        s.feed_all(seq![x, y, z, w]) == s.step(x).step(y).step(z).step(w),
{
    assert(seq![x, y, z, w].drop_last() =~= seq![x, y, z]);
    lemma_feed_three(s, x, y, z);
}

/// The parameters of a buffer holding one digit.
proof fn lemma_one_digit_params(d: u8)
    requires
        0x30 <= d <= 0x39,
    ensures
        csi_params(seq![d]) == seq![(d - 0x30) as u16],
{
    let e = Seq::<u8>::empty();
    assert(seq![d].drop_last() =~= e);
    assert(split_fields(e) == seq![e]);
    assert(e.push(d) =~= seq![d]);
    let fs = split_fields(seq![d]);
    assert(fs =~= seq![seq![d]]);
    assert(seq![d].drop_last() =~= e);
    assert(digits_value(e) == 0);
    assert(seq![d].last() == d);
    assert(digits_value(seq![d]) == (d - 0x30) as nat);
    assert(fs.drop_last() =~= Seq::<Seq<u8>>::empty());
    assert(params_of(Seq::<Seq<u8>>::empty()) == Seq::<u16>::empty());
    assert(fs.last() == seq![d]);
    assert(params_of(fs) =~= seq![(d - 0x30) as u16]);
}

/// An empty buffer has no parameters.
proof fn lemma_no_params()
    ensures
        csi_params(Seq::<u8>::empty()) == Seq::<u16>::empty(),
{
    let e = Seq::<u8>::empty();
    assert(split_fields(e) == seq![e]);
    assert(seq![e].drop_last() =~= Seq::<Seq<u8>>::empty());
    assert(seq![e].last() == e);
    assert(params_of(Seq::<Seq<u8>>::empty()) == Seq::<u16>::empty());
}

/// Five steps from a state, spelled out.
proof fn lemma_feed_five(s: ScreenModel, x: u8, y: u8, z: u8, w: u8, v: u8)
    ensures
        s.feed_all(seq![x, y, z, w, v]) == s.step(x).step(y).step(z).step(w).step(v),
{
    assert(seq![x, y, z, w, v].drop_last() =~= seq![x, y, z, w]);
    lemma_feed_four(s, x, y, z, w);
}

/// The parameters of a buffer holding two digits.
proof fn lemma_two_digit_params(a: u8, b: u8)
    requires
        0x30 <= a <= 0x39,
        0x30 <= b <= 0x39,
    ensures
        csi_params(seq![a, b]) == seq![((a - 0x30) * 10 + (b - 0x30)) as u16],
{
    let e = Seq::<u8>::empty();
    assert(seq![a].drop_last() =~= e);
    assert(split_fields(e) == seq![e]);
    assert(e.push(a) =~= seq![a]);
    assert(split_fields(seq![a]) =~= seq![seq![a]]);
    assert(seq![a, b].drop_last() =~= seq![a]);
    assert(seq![a].push(b) =~= seq![a, b]);
    let fs = split_fields(seq![a, b]);
    assert(fs =~= seq![seq![a, b]]);
    assert(digits_value(e) == 0);
    assert(digits_value(seq![a]) == (a - 0x30) as nat);
    assert(digits_value(seq![a, b]) == (a - 0x30) * 10 + (b - 0x30));
    assert(fs.drop_last() =~= Seq::<Seq<u8>>::empty());
    assert(params_of(Seq::<Seq<u8>>::empty()) == Seq::<u16>::empty());
    assert(fs.last() == seq![a, b]);
    assert(params_of(fs) =~= seq![((a - 0x30) * 10 + (b - 0x30)) as u16]);
}

/// `ESC [ J` and `ESC [ 0 J` erase from the cursor to the end of the screen:
/// every row above the cursor and the cells left of the cursor on its row
/// keep what they held, every other cell becomes blank, and the cursor and
/// the pen stay where they were.
pub proof fn lemma_erase_below(s: ScreenModel)
    requires
        s.wf(),
        s.mode == EscapeState::Normal,
    ensures
        ({
            let t = s.feed_all(seq![0x1bu8, 0x5bu8, 0x4au8]);
            &&& t.rows == s.rows && t.cols == s.cols
            &&& t.row == s.row && t.col == s.col
            &&& t.pen == s.pen
            &&& t.mode == EscapeState::Normal
            &&& forall|r: int, c: int| #[trigger]
                t.cell_at(r, c) == if r < s.row || (r == s.row && c < s.col) {
                    s.cell_at(r, c)
                } else {
                    Cell::blank()
                }
        }),
        ({
            let t = s.feed_all(seq![0x1bu8, 0x5bu8, 0x30u8, 0x4au8]);
            &&& t.rows == s.rows && t.cols == s.cols
            &&& t.row == s.row && t.col == s.col
            &&& t.pen == s.pen
            &&& t.mode == EscapeState::Normal
            &&& forall|r: int, c: int| #[trigger]
                t.cell_at(r, c) == if r < s.row || (r == s.row && c < s.col) {
                    s.cell_at(r, c)
                } else {
                    Cell::blank()
                }
        }),
{
    lemma_feed_three(s, 0x1b, 0x5b, 0x4a);
    lemma_feed_four(s, 0x1b, 0x5b, 0x30, 0x4a);
    let s2 = s.step(0x1b).step(0x5b);
    assert(s2.params =~= Seq::<u8>::empty());
    lemma_no_params();
    let s3 = s2.step(0x30);
    assert(s3.params =~= seq![0x30u8]);
    lemma_one_digit_params(0x30);
    let t1 = s2.step(0x4a);
    let t2 = s3.step(0x4a);
    assert forall|r: int, c: int| #[trigger]
        t1.cell_at(r, c) == (if r < s.row || (r == s.row && c < s.col) {
            s.cell_at(r, c)
        } else {
            Cell::blank()
        }) by {
        if 0 <= r < s.rows {
            assert(s.grid[r].len() == s.cols);
        }
    }
    assert forall|r: int, c: int| #[trigger]
        t2.cell_at(r, c) == (if r < s.row || (r == s.row && c < s.col) {
            s.cell_at(r, c)
        } else {
            Cell::blank()
        }) by {
        if 0 <= r < s.rows {
            assert(s.grid[r].len() == s.cols);
        }
    }
}

/// `ESC [ 3 d m` (foreground), `ESC [ 4 d m` (background) and `ESC [ 9 d m`
/// (bright foreground) with a digit `d` from 0 to 7 set that one colour to
/// `d` (`d + 8` for the bright one) and change nothing else; the next
/// character written at the cursor carries the new colour.
pub proof fn lemma_sgr_colours(s: ScreenModel, d: u8, x: u8)
    requires
        s.wf(),
        s.mode == EscapeState::Normal,
        0x30 <= d <= 0x37,
        is_printed(x),
        s.row < s.rows,
        s.col + 1 < s.cols,
    ensures
        ({
            let t = s.feed_all(seq![0x1bu8, 0x5bu8, 0x33u8, d, 0x6du8]);
            &&& t.pen == (Pen { fg: (d - 0x30) as u8, ..s.pen })
            &&& t.grid == s.grid && t.row == s.row && t.col == s.col
            &&& t.mode == EscapeState::Normal
            &&& t.step(x).cell_at(s.row as int, s.col as int) == (Cell {
                ch: x as char,
                fg: (d - 0x30) as u8,
                bg: s.pen.bg,
                bold: s.pen.bold,
            })
        }),
        ({
            let t = s.feed_all(seq![0x1bu8, 0x5bu8, 0x34u8, d, 0x6du8]);
            &&& t.pen == (Pen { bg: (d - 0x30) as u8, ..s.pen })
            &&& t.grid == s.grid && t.row == s.row && t.col == s.col
            &&& t.mode == EscapeState::Normal
        }),
        ({
            let t = s.feed_all(seq![0x1bu8, 0x5bu8, 0x39u8, d, 0x6du8]);
            &&& t.pen == (Pen { fg: (d - 0x30 + 8) as u8, ..s.pen })
            &&& t.grid == s.grid && t.row == s.row && t.col == s.col
            &&& t.mode == EscapeState::Normal
        }),
{
    lemma_feed_five(s, 0x1b, 0x5b, 0x33, d, 0x6d);
    lemma_feed_five(s, 0x1b, 0x5b, 0x34, d, 0x6d);
    lemma_feed_five(s, 0x1b, 0x5b, 0x39, d, 0x6d);
    let s2 = s.step(0x1b).step(0x5b);
    assert(s2.params =~= Seq::<u8>::empty());
    assert(s2.step(0x33).step(d).params =~= seq![0x33u8, d]);
    assert(s2.step(0x34).step(d).params =~= seq![0x34u8, d]);
    assert(s2.step(0x39).step(d).params =~= seq![0x39u8, d]);
    lemma_two_digit_params(0x33, d);
    lemma_two_digit_params(0x34, d);
    lemma_two_digit_params(0x39, d);
    let p3 = ((0x33u8 - 0x30) * 10 + (d - 0x30)) as u16;
    let p4 = ((0x34u8 - 0x30) * 10 + (d - 0x30)) as u16;
    let p9 = ((0x39u8 - 0x30) * 10 + (d - 0x30)) as u16;
    assert(seq![p3].drop_last() =~= Seq::<u16>::empty());
    assert(seq![p4].drop_last() =~= Seq::<u16>::empty());
    assert(seq![p9].drop_last() =~= Seq::<u16>::empty());
    assert(p3 == 30 + (d - 0x30));
    assert(p4 == 40 + (d - 0x30));
    assert(p9 == 90 + (d - 0x30));
    assert(s.pen.sgr_all(Seq::<u16>::empty()) == s.pen);
    assert(s.pen.sgr(seq![p3]) == s.pen.sgr_one(p3));
    assert(s.pen.sgr(seq![p4]) == s.pen.sgr_one(p4));
    assert(s.pen.sgr(seq![p9]) == s.pen.sgr_one(p9));
    let t = s.feed_all(seq![0x1bu8, 0x5bu8, 0x33u8, d, 0x6du8]);
    assert(t.pen == (Pen { fg: (d - 0x30) as u8, ..s.pen }));
    assert(s.grid[s.row as int].len() == s.cols);
}

/// `ESC [ K` and `ESC [ 0 K` blank the cursor's row from the cursor to its
/// end, and `ESC [ 2 K` the whole cursor row; every other cell, the cursor
/// and the pen stay as they were.
pub proof fn lemma_erase_line(s: ScreenModel)
    requires
        s.wf(),
        s.mode == EscapeState::Normal,
    ensures
        ({
            let t = s.feed_all(seq![0x1bu8, 0x5bu8, 0x4bu8]);
            &&& t.rows == s.rows && t.cols == s.cols
            &&& t.row == s.row && t.col == s.col && t.pen == s.pen
            &&& t.mode == EscapeState::Normal
            &&& forall|r: int, c: int| #[trigger]
                t.cell_at(r, c) == if r == s.row && c >= s.col {
                    Cell::blank()
                } else {
                    s.cell_at(r, c)
                }
        }),
        ({
            let t = s.feed_all(seq![0x1bu8, 0x5bu8, 0x30u8, 0x4bu8]);
            &&& t.rows == s.rows && t.cols == s.cols
            &&& t.row == s.row && t.col == s.col && t.pen == s.pen
            &&& t.mode == EscapeState::Normal
            &&& forall|r: int, c: int| #[trigger]
                t.cell_at(r, c) == if r == s.row && c >= s.col {
                    Cell::blank()
                } else {
                    s.cell_at(r, c)
                }
        }),
        ({
            let t = s.feed_all(seq![0x1bu8, 0x5bu8, 0x32u8, 0x4bu8]);
            &&& t.rows == s.rows && t.cols == s.cols
            &&& t.row == s.row && t.col == s.col && t.pen == s.pen
            &&& t.mode == EscapeState::Normal
            &&& forall|r: int, c: int| #[trigger]
                t.cell_at(r, c) == if r == s.row {
                    Cell::blank()
                } else {
                    s.cell_at(r, c)
                }
        }),
{
    lemma_feed_three(s, 0x1b, 0x5b, 0x4b);
    lemma_feed_four(s, 0x1b, 0x5b, 0x30, 0x4b);
    lemma_feed_four(s, 0x1b, 0x5b, 0x32, 0x4b);
    let s2 = s.step(0x1b).step(0x5b);
    assert(s2.params =~= Seq::<u8>::empty());
    lemma_no_params();
    assert(s2.step(0x30).params =~= seq![0x30u8]);
    assert(s2.step(0x32).params =~= seq![0x32u8]);
    lemma_one_digit_params(0x30);
    lemma_one_digit_params(0x32);
    let t1 = s2.step(0x4b);
    let t2 = s2.step(0x30).step(0x4b);
    let t3 = s2.step(0x32).step(0x4b);
    assert forall|r: int, c: int| #[trigger]
        t1.cell_at(r, c) == (if r == s.row && c >= s.col { Cell::blank() } else { s.cell_at(r, c) }) by {
        if 0 <= r < s.rows {
            assert(s.grid[r].len() == s.cols);
        }
    }
    assert forall|r: int, c: int| #[trigger]
        t2.cell_at(r, c) == (if r == s.row && c >= s.col { Cell::blank() } else { s.cell_at(r, c) }) by {
        if 0 <= r < s.rows {
            assert(s.grid[r].len() == s.cols);
        }
    }
    assert forall|r: int, c: int| #[trigger]
        t3.cell_at(r, c) == (if r == s.row { Cell::blank() } else { s.cell_at(r, c) }) by {
        if 0 <= r < s.rows {
            assert(s.grid[r].len() == s.cols);
        }
    }
}

/// `ESC [ n A`, `B`, `C` and `D` with one digit `n` move the cursor up, down,
/// right and left by `n` cells (by one for `n` = 0), stopping at the edge of
/// the screen; the cells, the pen and the other coordinate stay as they were.
pub proof fn lemma_cursor_moves(s: ScreenModel, d: u8)
    requires
        s.wf(),
        s.mode == EscapeState::Normal,
        s.rows >= 1,
        s.cols >= 1,
        0x30 <= d <= 0x39,
    ensures
        ({
            let n: int = if d == 0x30 { 1 } else { d - 0x30 };
            let up = s.feed_all(seq![0x1bu8, 0x5bu8, d, 0x41u8]);
            let down = s.feed_all(seq![0x1bu8, 0x5bu8, d, 0x42u8]);
            let right = s.feed_all(seq![0x1bu8, 0x5bu8, d, 0x43u8]);
            let left = s.feed_all(seq![0x1bu8, 0x5bu8, d, 0x44u8]);
            &&& up.row == (if s.row >= n { s.row - n } else { 0 }) && up.col == s.col
            &&& down.row == (if s.row + n < s.rows { s.row + n } else { s.rows - 1 }) && down.col == s.col
            &&& right.col == (if s.col + n < s.cols { s.col + n } else { s.cols - 1 }) && right.row == s.row
            &&& left.col == (if s.col >= n { s.col - n } else { 0 }) && left.row == s.row
            &&& up.grid == s.grid && down.grid == s.grid && right.grid == s.grid && left.grid == s.grid
            &&& up.pen == s.pen && down.pen == s.pen && right.pen == s.pen && left.pen == s.pen
            &&& up.mode == EscapeState::Normal && down.mode == EscapeState::Normal
            &&& right.mode == EscapeState::Normal && left.mode == EscapeState::Normal
        }),
{
    lemma_feed_four(s, 0x1b, 0x5b, d, 0x41);
    lemma_feed_four(s, 0x1b, 0x5b, d, 0x42);
    lemma_feed_four(s, 0x1b, 0x5b, d, 0x43);
    lemma_feed_four(s, 0x1b, 0x5b, d, 0x44);
    let s2 = s.step(0x1b).step(0x5b);
    assert(s2.params =~= Seq::<u8>::empty());
    assert(s2.step(d).params =~= seq![d]);
    lemma_one_digit_params(d);
}

/// `ESC [ 1 m` turns bold on and `ESC [ 2 2 m` off; `ESC [ 3 9 m` restores
/// the default foreground (7) and `ESC [ 4 9 m` the default background (0);
/// each changes nothing else of the pen.
pub proof fn lemma_sgr_bold_and_defaults(s: ScreenModel)
    requires
        s.wf(),
        s.mode == EscapeState::Normal,
    ensures
        s.feed_all(seq![0x1bu8, 0x5bu8, 0x31u8, 0x6du8]).pen == (Pen { bold: true, ..s.pen }),
        s.feed_all(seq![0x1bu8, 0x5bu8, 0x32u8, 0x32u8, 0x6du8]).pen == (Pen { bold: false, ..s.pen }),
        s.feed_all(seq![0x1bu8, 0x5bu8, 0x33u8, 0x39u8, 0x6du8]).pen == (Pen { fg: 7, ..s.pen }),
        s.feed_all(seq![0x1bu8, 0x5bu8, 0x34u8, 0x39u8, 0x6du8]).pen == (Pen { bg: 0, ..s.pen }),
{
    lemma_feed_four(s, 0x1b, 0x5b, 0x31, 0x6d);
    lemma_feed_five(s, 0x1b, 0x5b, 0x32, 0x32, 0x6d);
    lemma_feed_five(s, 0x1b, 0x5b, 0x33, 0x39, 0x6d);
    lemma_feed_five(s, 0x1b, 0x5b, 0x34, 0x39, 0x6d);
    let s2 = s.step(0x1b).step(0x5b);
    assert(s2.params =~= Seq::<u8>::empty());
    assert(s2.step(0x31).params =~= seq![0x31u8]);
    assert(s2.step(0x32).step(0x32).params =~= seq![0x32u8, 0x32u8]);
    assert(s2.step(0x33).step(0x39).params =~= seq![0x33u8, 0x39u8]);
    assert(s2.step(0x34).step(0x39).params =~= seq![0x34u8, 0x39u8]);
    lemma_one_digit_params(0x31);
    lemma_two_digit_params(0x32, 0x32);
    lemma_two_digit_params(0x33, 0x39);
    lemma_two_digit_params(0x34, 0x39);
    assert(s.pen.sgr_all(Seq::<u16>::empty()) == s.pen);
    assert(seq![1u16].drop_last() =~= Seq::<u16>::empty());
    assert(seq![22u16].drop_last() =~= Seq::<u16>::empty());
    assert(seq![39u16].drop_last() =~= Seq::<u16>::empty());
    assert(seq![49u16].drop_last() =~= Seq::<u16>::empty());
    assert(s.pen.sgr(seq![1u16]) == s.pen.sgr_one(1));
    assert(s.pen.sgr(seq![22u16]) == s.pen.sgr_one(22));
    assert(s.pen.sgr(seq![39u16]) == s.pen.sgr_one(39));
    assert(s.pen.sgr(seq![49u16]) == s.pen.sgr_one(49));
}

/// `ESC [ 2 J` from normal mode blanks every cell and homes the cursor,
/// leaving the pen alone.
pub proof fn lemma_clear_screen(s: ScreenModel)
    requires
        s.wf(),
        s.mode == EscapeState::Normal,
    ensures
        ({
            let t = s.feed_all(seq![0x1bu8, 0x5bu8, 0x32u8, 0x4au8]);
            &&& t.wf()
            &&& t.rows == s.rows && t.cols == s.cols
            &&& forall|r: int, c: int| #[trigger] t.cell_at(r, c) == Cell::blank()
            &&& t.row == 0 && t.col == 0
            &&& t.pen == s.pen
            &&& t.mode == EscapeState::Normal
        }),
{
    lemma_feed_four(s, 0x1b, 0x5b, 0x32, 0x4a);
    let s1 = s.step(0x1b);
    let s2 = s1.step(0x5b);
    let s3 = s2.step(0x32);
    assert(s3.params =~= seq![0x32u8]);
    lemma_one_digit_params(0x32);
    let t = s3.step(0x4a);
    assert(t.grid == blank_grid(s.rows, s.cols));
    assert(t.wf());
}

/// `ESC [ H` from normal mode moves the cursor to the top left corner.
pub proof fn lemma_cursor_home(s: ScreenModel)
    requires
        s.wf(),
        s.mode == EscapeState::Normal,
    ensures
        ({
            let t = s.feed_all(seq![0x1bu8, 0x5bu8, 0x48u8]);
            &&& t.row == 0 && t.col == 0
            &&& t.grid == s.grid
            &&& t.pen == s.pen
            &&& t.mode == EscapeState::Normal
        }),
{
    lemma_feed_three(s, 0x1b, 0x5b, 0x48);
    let s2 = s.step(0x1b).step(0x5b);
    assert(s2.params =~= Seq::<u8>::empty());
    assert(split_fields(Seq::<u8>::empty()) == seq![Seq::<u8>::empty()]);
    lemma_no_params();
    assert(csi_params(s2.params) =~= Seq::<u16>::empty());
}

/// `ESC [ m` and `ESC [ 0 m` from normal mode reset the pen and change
/// nothing else but the parser's buffer.
pub proof fn lemma_sgr_reset(s: ScreenModel)
    requires
        s.wf(),
        s.mode == EscapeState::Normal,
    ensures
        s.feed_all(seq![0x1bu8, 0x5bu8, 0x6du8]).pen == Pen::reset(),
        s.feed_all(seq![0x1bu8, 0x5bu8, 0x30u8, 0x6du8]).pen == Pen::reset(),
        s.feed_all(seq![0x1bu8, 0x5bu8, 0x6du8]).grid == s.grid,
        s.feed_all(seq![0x1bu8, 0x5bu8, 0x6du8]).row == s.row,
        s.feed_all(seq![0x1bu8, 0x5bu8, 0x6du8]).col == s.col,
        s.feed_all(seq![0x1bu8, 0x5bu8, 0x6du8]).mode == EscapeState::Normal,
{
    lemma_feed_three(s, 0x1b, 0x5b, 0x6d);
    lemma_feed_four(s, 0x1b, 0x5b, 0x30, 0x6d);
    let s2 = s.step(0x1b).step(0x5b);
    assert(s2.params =~= Seq::<u8>::empty());
    assert(split_fields(Seq::<u8>::empty()) == seq![Seq::<u8>::empty()]);
    lemma_no_params();
    assert(csi_params(s2.params) =~= Seq::<u16>::empty());
    let s3 = s2.step(0x30);
    assert(s3.params =~= seq![0x30u8]);
    lemma_one_digit_params(0x30);
    let ps = seq![0u16];
    assert(ps.drop_last() =~= Seq::<u16>::empty());
    assert(s3.pen.sgr(ps) == Pen::reset());
}

/// An escape that does not open a CSI sequence is dropped: `ESC x` with `x`
/// other than `[` leaves a normal-mode screen as it was.
pub proof fn lemma_unknown_escape_ignored(s: ScreenModel, x: u8)
    requires
        s.mode == EscapeState::Normal,
        x != 0x5b,
    ensures
        s.feed_all(seq![0x1bu8, x]) == s,
{
    lemma_feed_two(s, 0x1b, x);
}

/// The cursor never leaves the screen (nor an empty dimension's 0).
pub proof fn lemma_cursor_on_screen(s: ScreenModel, bytes: Seq<u8>)
    requires
        s.wf(),
        !s.feed_all_panics(bytes),
    ensures
        ({
            let t = s.feed_all(bytes);
            &&& t.rows == s.rows && t.cols == s.cols
            &&& (t.row < t.rows || (t.rows == 0 && t.row == 0))
            &&& (t.col < t.cols || (t.cols == 0 && t.col == 0))
        }),
{
    lemma_feed_all_wf(s, bytes);
    lemma_feed_all_dims(s, bytes);
}

/// Feeding never changes the size of the screen.
pub proof fn lemma_feed_all_dims(s: ScreenModel, bytes: Seq<u8>)
    ensures
        s.feed_all(bytes).rows == s.rows,
        s.feed_all(bytes).cols == s.cols,
    decreases bytes.len(),
{
    if bytes.len() > 0 {
        lemma_feed_all_dims(s, bytes.drop_last());
    }
}

/// Resizing keeps every cell that lies inside both sizes, makes the others
/// blank, keeps the screen well formed, and puts the cursor on the new
/// screen.
pub proof fn lemma_resize_keeps_cells(s: ScreenModel, rows: nat, cols: nat)
    requires
        s.wf(),
        rows <= usize::MAX,
        cols <= usize::MAX,
    ensures
        s.resized(rows, cols).wf(),
        forall|r: int, c: int|
            0 <= r < rows && 0 <= c < cols ==> #[trigger] s.resized(rows, cols).cell_at(r, c) == if r < s.rows
                && c < s.cols {
                s.cell_at(r, c)
            } else {
                Cell::blank()
            },
{
    let t = s.resized(rows, cols);
    assert forall|r: int| 0 <= r < t.rows implies (#[trigger] t.grid[r]).len() == t.cols by {}
}

/// Resizing to the current size changes nothing.
pub proof fn lemma_resize_same(s: ScreenModel)
    requires
        s.wf(),
    ensures
        s.resized(s.rows, s.cols) == s,
{
    let t = s.resized(s.rows, s.cols);
    assert forall|r: int| 0 <= r < s.rows implies #[trigger] t.grid[r] =~= s.grid[r] by {}
    assert(t.grid =~= s.grid);
    assert(t =~= s);
}

} // verus!
