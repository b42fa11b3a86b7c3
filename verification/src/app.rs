use vstd::prelude::*;
use vstd::arithmetic::div_mod::*;
use vstd::arithmetic::mul::*;
use crate::vt::{ScreenModel, VtScreen};

verus! {

/// A rectangle of terminal cells: top left corner and size.
#[derive(Clone, Copy, Debug)]
pub struct Rect {
    pub x: u16,
    pub y: u16,
    pub w: u16,
    pub h: u16,
}

impl Rect {
    /// The rectangle lies inside the `u16` plane: its right and bottom edges
    /// can be computed without overflow.
    pub open spec fn fits(self) -> bool {
        self.x + self.w <= u16::MAX && self.y + self.h <= u16::MAX
    }

    /// The rectangle fits in the `u16` plane, is at least one row high, and
    /// does not start in the last column.
    pub open spec fn placed(self) -> bool {
        self.fits() && self.h >= 1 && self.x < u16::MAX
    }

    /// The point (`x`, `y`) lies inside the rectangle.
    pub open spec fn holds(self, x: int, y: int) -> bool {
        self.x <= x < self.x + self.w && self.y <= y < self.y + self.h
    }

    /// The centre point, rounded towards the top left.
    pub open spec fn mid(self) -> (int, int) {
        (self.x + self.w / 2, self.y + self.h / 2)
    }

    /// Whether (`x`, `y`) lies inside the rectangle.
    pub fn contains(&self, x: u16, y: u16) -> (b: bool)
        requires
            x >= self.x ==> self.x + self.w <= u16::MAX,
            (x >= self.x && x < self.x + self.w && y >= self.y) ==> self.y + self.h <= u16::MAX,
        ensures
            b == self.holds(x as int, y as int),
    {
        x >= self.x && x < self.x + self.w && y >= self.y && y < self.y + self.h
    }

    /// The centre point, rounded towards the top left.
    pub fn center(&self) -> (c: (u16, u16))
        requires
            self.x + self.w / 2 <= u16::MAX,
            self.y + self.h / 2 <= u16::MAX,
        ensures
            c.0 as int == self.mid().0,
            c.1 as int == self.mid().1,
    {
        (self.x + self.w / 2, self.y + self.h / 2)
    }
}

/// How a pane is cut in two: `Vertical` puts the halves side by side,
/// `Horizontal` one above the other.
#[derive(Clone, Copy, Debug, PartialEq, Eq, Structural)]
pub enum SplitDir {
    Horizontal,
    Vertical,
}

/// A direction to move the focus in.
#[derive(Clone, Copy, Debug, PartialEq, Eq, Structural)]
pub enum NavDir {
    Left,
    Right,
    Up,
    Down,
}

/// `c` is the least number whose square reaches `n`, i.e. the ceiling of the
/// square root of `n`.
pub open spec fn is_ceil_sqrt(n: nat, c: nat) -> bool {
    c * c >= n && (c == 0 || (c - 1) * (c - 1) < n)
}

/// The ceiling of the square root of `n`.
pub open spec fn ceil_sqrt(n: nat) -> nat {
    choose|c: nat| is_ceil_sqrt(n, c)
}

/// There is exactly one ceiling square root.
pub proof fn lemma_ceil_sqrt_unique(n: nat, a: nat, b: nat)
    requires
        is_ceil_sqrt(n, a),
        is_ceil_sqrt(n, b),
    ensures
        a == b,
{
    if a < b {
        assert((b - 1) * (b - 1) >= a * a) by {
            lemma_mul_inequality(a as int, (b - 1) as int, a as int);
            lemma_mul_inequality(a as int, (b - 1) as int, (b - 1) as int);
            lemma_mul_is_commutative(a as int, (b - 1) as int);
        }
    } else if b < a {
        assert((a - 1) * (a - 1) >= b * b) by {
            lemma_mul_inequality(b as int, (a - 1) as int, b as int);
            lemma_mul_inequality(b as int, (a - 1) as int, (a - 1) as int);
            lemma_mul_is_commutative(b as int, (a - 1) as int);
        }
    }
}

/// The ceiling of the square root of `n`.
fn ceil_sqrt_exec(n: usize) -> (c: usize)
    requires
        n <= 65535,
    ensures
        c == ceil_sqrt(n as nat),
        is_ceil_sqrt(n as nat, c as nat),
        c <= 256,
{
    let mut c: usize = 0;
    while c * c < n
        invariant
            c <= 256,
            c * c <= 65536,
            c == 0 || (c - 1) * (c - 1) < n,
            n <= 65535,
        decreases 256 - c,
    {
        assert(c < 256) by (nonlinear_arith)
            requires
                c * c < n,
                n <= 65535,
        ;
        assert((c + 1) * (c + 1) <= 65536) by (nonlinear_arith)
            requires
                c < 256,
        ;
        c = c + 1;
    }
    assert(is_ceil_sqrt(n as nat, c as nat));
    let ghost k = ceil_sqrt(n as nat);
    proof {
        lemma_ceil_sqrt_unique(n as nat, k, c as nat);
    }
    c
}

/// The number of columns of the pane grid for `n` panes.
pub open spec fn grid_cols(n: nat) -> nat {
    if ceil_sqrt(n) < 1 {
        1
    } else {
        ceil_sqrt(n)
    }
}

/// The number of rows of the pane grid for `n` panes.
pub open spec fn grid_rows(n: nat) -> nat {
    let q = (n + grid_cols(n) - 1) / (grid_cols(n) as int);
    if q < 1 {
        1
    } else {
        q as nat
    }
}

/// The height left for panes below which the status line sits.
pub open spec fn pane_area_height(term_h: u16) -> nat {
    if term_h <= 1 {
        1
    } else {
        (term_h - 1) as nat
    }
}

/// `v`, raised to 1 when it is smaller.
pub open spec fn at_least_one(v: int) -> int {
    if v < 1 {
        1
    } else {
        v
    }
}

/// The rectangle of pane `i` of `n` laid out in a grid over a terminal of
/// `term_w` by `term_h` cells: as many columns as the ceiling of the square
/// root of `n`, rows filled left to right, the last column and row taking
/// what the division leaves, every size at least 1.
pub open spec fn tile(i: nat, n: nat, term_w: u16, term_h: u16) -> Rect {
    let cols = grid_cols(n) as int;
    let rows = grid_rows(n) as int;
    let col_w = (term_w as int) / cols;
    let ph = pane_area_height(term_h) as int;
    let row_h = ph / rows;
    let c = i as int % cols;
    let r = i as int / cols;
    let w = if c == cols - 1 {
        term_w - c * col_w
    } else {
        col_w
    };
    let h = if r == rows - 1 {
        ph - r * row_h
    } else {
        row_h
    };
    Rect { x: (c * col_w) as u16, y: (r * row_h) as u16, w: at_least_one(w) as u16, h: at_least_one(h) as u16 }
}

/// The grid arithmetic on `u16` cannot overflow for `n` panes.
pub open spec fn layout_fits(n: nat) -> bool {
    n + ceil_sqrt(n) <= 65535
}

/// Slot `a` of `d` equal slots of `t`: it starts at or after 0 and ends at or
/// before `t`.
proof fn lemma_slot(a: int, d: int, t: int)
    requires
        0 <= a < d,
        0 <= t,
    ensures
        0 <= a * (t / d),
        a * (t / d) + t / d <= t,
        a == d - 1 && t > 0 ==> a * (t / d) < t,
{
    lemma_fundamental_div_mod(t, d);
    lemma_div_pos_is_pos(t, d);
    lemma_mul_nonnegative(a, t / d);
    lemma_mul_inequality(a + 1, d, t / d);
    lemma_mul_is_distributive_add_other_way(t / d, a, 1);
    lemma_mul_is_commutative(d, t / d);
    lemma_mod_pos_bound(t, d);
    if a == d - 1 && t > 0 {
        if t / d == 0 {
            lemma_mul_by_zero_is_zero(a);
        }
    }
}

/// Pane `i` of `n` lies in row `i / cols`, which is at most the last row.
proof fn lemma_row_in_grid(i: nat, n: nat)
    requires
        i < n,
    ensures
        (i as int) / (grid_cols(n) as int) <= grid_rows(n) - 1,
        (i as int) % (grid_cols(n) as int) < grid_cols(n),
        0 <= (i as int) % (grid_cols(n) as int),
        0 <= (i as int) / (grid_cols(n) as int),
{
    let d = grid_cols(n) as int;
    lemma_div_is_ordered(i as int, n - 1, d);
    lemma_fundamental_div_mod((n - 1) as int, d);
    lemma_div_plus_one((n - 1) as int, d);
    lemma_mod_pos_bound(i as int, d);
    lemma_div_pos_is_pos(i as int, d);
}

/// Where pane `i`'s tile sits in the grid, spelled out from its column and
/// row: it starts `c` column widths from the left and `r` row heights from
/// the top, and is a column wide and a row high, the last column and row
/// reaching the terminal's right edge and the status line.
proof fn lemma_tile_shape(i: nat, n: nat, term_w: u16, term_h: u16)
    requires
        i < n,
        term_w >= grid_cols(n),
        pane_area_height(term_h) >= grid_rows(n),
    ensures
        ({
            let cols = grid_cols(n) as int;
            let rows = grid_rows(n) as int;
            let col_w = (term_w as int) / cols;
            let row_h = (pane_area_height(term_h) as int) / rows;
            let c = i as int % cols;
            let r = i as int / cols;
            let t = tile(i, n, term_w, term_h);
            &&& col_w >= 1 && row_h >= 1
            &&& t.x == c * col_w
            &&& t.y == r * row_h
            &&& t.w == if c == cols - 1 { term_w - c * col_w } else { col_w }
            &&& t.h == if r == rows - 1 { pane_area_height(term_h) - r * row_h } else { row_h }
        }),
{
    let cols = grid_cols(n) as int;
    let rows = grid_rows(n) as int;
    let ph = pane_area_height(term_h) as int;
    lemma_row_in_grid(i, n);
    let c = i as int % cols;
    let r = i as int / cols;
    lemma_slot(c, cols, term_w as int);
    lemma_slot(r, rows, ph);
    lemma_div_by_self(cols);
    lemma_div_is_ordered(cols, term_w as int, cols);
    lemma_div_by_self(rows);
    lemma_div_is_ordered(rows, ph, rows);
    lemma_tile_fits(i, n, term_w, term_h);
}

/// The pane grid fills its rows without gaps: on a terminal with at least a
/// column per grid column and a row per grid row, the first tile starts at
/// the top left corner, each tile ends where the next one in its grid row
/// starts, the tile below starts where it ends, the last tile of a grid row
/// reaches the terminal's right edge, and the tiles of the last grid row
/// reach the status line.
pub proof fn lemma_tiles_abut(i: nat, n: nat, term_w: u16, term_h: u16)
    requires
        i < n,
        term_w >= grid_cols(n),
        pane_area_height(term_h) >= grid_rows(n),
    ensures
        ({
            let cols = grid_cols(n) as int;
            let rows = grid_rows(n) as int;
            let t = tile(i, n, term_w, term_h);
            &&& i == 0 ==> t.x == 0 && t.y == 0
            &&& (i as int % cols < cols - 1 && i + 1 < n) ==> {
                let u = tile((i + 1) as nat, n, term_w, term_h);
                &&& u.x == t.x + t.w
                &&& u.y == t.y
                &&& u.h == t.h
            }
            &&& i + cols < n ==> {
                let u = tile((i + cols) as nat, n, term_w, term_h);
                &&& u.y == t.y + t.h
                &&& u.x == t.x
                &&& u.w == t.w
            }
            &&& i as int % cols == cols - 1 ==> t.x + t.w == term_w
            &&& i as int / cols == rows - 1 ==> t.y + t.h == pane_area_height(term_h)
        }),
{
    let cols = grid_cols(n) as int;
    let rows = grid_rows(n) as int;
    let col_w = (term_w as int) / cols;
    let row_h = (pane_area_height(term_h) as int) / rows;
    let c = i as int % cols;
    let r = i as int / cols;
    lemma_tile_shape(i, n, term_w, term_h);
    lemma_fundamental_div_mod(i as int, cols);
    lemma_mod_pos_bound(i as int, cols);
    if i == 0 {
        lemma_small_mod(0, cols as nat);
        lemma_div_of0(cols);
        lemma_mul_by_zero_is_zero(col_w);
        lemma_mul_by_zero_is_zero(row_h);
    }
    if c < cols - 1 && i + 1 < n {
        lemma_fundamental_div_mod_converse((i + 1) as int, cols, r, c + 1);
        lemma_tile_shape((i + 1) as nat, n, term_w, term_h);
        lemma_mul_is_distributive_add_other_way(col_w, c, 1);
        lemma_mul_is_commutative(col_w, c);
        lemma_mul_is_commutative(col_w, c + 1);
    }
    if i + cols < n {
        lemma_mul_is_distributive_add_other_way(cols, r, 1);
        lemma_mul_is_commutative(cols, r);
        lemma_mul_is_commutative(cols, r + 1);
        lemma_fundamental_div_mod_converse((i + cols) as int, cols, r + 1, c);
        lemma_tile_shape((i + cols) as nat, n, term_w, term_h);
        lemma_row_in_grid((i + cols) as nat, n);
        lemma_mul_is_distributive_add_other_way(row_h, r, 1);
        lemma_mul_is_commutative(row_h, r);
        lemma_mul_is_commutative(row_h, r + 1);
    }
}

/// Every tile lies inside the `u16` plane, within the terminal's width and the
/// pane area's height (or at the origin with size 1 along an empty side).
pub proof fn lemma_tile_fits(i: nat, n: nat, term_w: u16, term_h: u16)
    requires
        i < n,
    ensures
        tile(i, n, term_w, term_h).fits(),
        tile(i, n, term_w, term_h).x + tile(i, n, term_w, term_h).w <= if term_w == 0 { 1 } else { term_w as int },
        tile(i, n, term_w, term_h).y + tile(i, n, term_w, term_h).h <= pane_area_height(term_h),
        tile(i, n, term_w, term_h).w >= 1,
        tile(i, n, term_w, term_h).h >= 1,
{
    let cols = grid_cols(n) as int;
    let rows = grid_rows(n) as int;
    let ph = pane_area_height(term_h) as int;
    lemma_row_in_grid(i, n);
    let c = i as int % cols;
    let r = i as int / cols;
    lemma_slot(c, cols, term_w as int);
    lemma_slot(r, rows, ph);
    let col_w = (term_w as int) / cols;
    let row_h = ph / rows;
    let w = if c == cols - 1 { term_w - c * col_w } else { col_w };
    let h = if r == rows - 1 { ph - r * row_h } else { row_h };
    if row_h == 0 {
        lemma_mul_by_zero_is_zero(r);
    }
    if col_w == 0 {
        lemma_mul_by_zero_is_zero(c);
    }
    assert(0 <= c * col_w + at_least_one(w) <= if term_w == 0 { 1 } else { term_w as int });
    assert(0 <= r * row_h + at_least_one(h) <= ph);
    let t = tile(i, n, term_w, term_h);
    assert(t.x == c * col_w);
    assert(t.y == r * row_h);
    assert(t.w == at_least_one(w));
    assert(t.h == at_least_one(h));
}

/// The shape of the pane grid for `n` panes: columns, rows, column width,
/// row height and the height of the pane area.
struct Shape {
    cols: u16,
    rows: u16,
    col_w: u16,
    row_h: u16,
    pane_h: u16,
    term_w: u16,
}

fn grid_shape(n: usize, term_w: u16, term_h: u16) -> (g: Shape)
    requires
        1 <= n,
        layout_fits(n as nat),
    ensures
        g.cols as nat == grid_cols(n as nat),
        g.rows as nat == grid_rows(n as nat),
        g.col_w as int == (term_w as int) / (g.cols as int),
        g.pane_h as nat == pane_area_height(term_h),
        g.row_h as int == (g.pane_h as int) / (g.rows as int),
        g.term_w == term_w,
        g.cols >= 1,
        g.rows >= 1,
{
    let status_h: u16 = 1;
    let t = term_h.saturating_sub(status_h);
    let pane_h: u16 = if t < 1 { 1 } else { t };
    let c = ceil_sqrt_exec(n);
    assert(c >= 1) by {
        if c == 0 {
            assert(0 * 0 == 0);
        }
    }
    let c16 = c as u16;
    let cols: u16 = if c16 < 1 { 1 } else { c16 };
    let nn = n as u16;
    let q = (nn + cols - 1) / cols;
    let rows: u16 = if q < 1 { 1 } else { q };
    let col_w = term_w / cols;
    let row_h = pane_h / rows;
    Shape { cols, rows, col_w, row_h, pane_h, term_w }
}

/// The rectangle of pane `i` in a grid of the given shape.
fn tile_exec(i: usize, g: &Shape, Ghost(n): Ghost<nat>, Ghost(term_h): Ghost<u16>) -> (r: Rect)
    requires
        i < n,
        g.cols as nat == grid_cols(n),
        g.rows as nat == grid_rows(n),
        g.col_w as int == (g.term_w as int) / (g.cols as int),
        g.pane_h as nat == pane_area_height(term_h),
        g.row_h as int == (g.pane_h as int) / (g.rows as int),
        g.cols >= 1,
        g.rows >= 1,
        n <= 65535,
    ensures
        r == tile(i as nat, n, g.term_w, term_h),
{
    proof {
        lemma_row_in_grid(i as nat, n);
        lemma_slot((i as int) % (g.cols as int), g.cols as int, g.term_w as int);
        lemma_slot((i as int) / (g.cols as int), g.rows as int, g.pane_h as int);
    }
    let ii = i as u16;
    let c = ii % g.cols;
    let r = ii / g.cols;
    let x = c * g.col_w;
    let y = r * g.row_h;
    let w = if c == g.cols - 1 { g.term_w - x } else { g.col_w };
    let h = if r == g.rows - 1 { g.pane_h - y } else { g.row_h };
    Rect { x, y, w: if w < 1 { 1 } else { w }, h: if h < 1 { 1 } else { h } }
}

/// A pane: an id, the screen that its shell draws on, and where it sits.
pub struct Pane {
    pub id: usize,
    pub screen: VtScreen,
    pub rect: Rect,
}

impl Pane {
    /// The screen is well formed and has the size of the rectangle (at least
    /// 1 by 1).
    pub open spec fn wf(self) -> bool {
        &&& self.screen@.wf()
        &&& self.screen@.rows == at_least_one(self.rect.h as int)
        &&& self.screen@.cols == at_least_one(self.rect.w as int)
    }

    /// A pane with a fresh screen of the rectangle's size (at least 1 by 1).
    pub fn new(id: usize, rect: Rect) -> (p: Pane)
        ensures
            p.id == id,
            p.rect == rect,
            p.screen@ == ScreenModel::initial(
                at_least_one(rect.h as int) as nat,
                at_least_one(rect.w as int) as nat,
            ),
            p.wf(),
    {
        let rows: u16 = if rect.h < 1 { 1 } else { rect.h };
        let cols: u16 = if rect.w < 1 { 1 } else { rect.w };
        let mut screen = VtScreen::new(rows as usize, cols as usize);
        screen.resize(rows as usize, cols as usize);
        let ghost init = ScreenModel::initial(rows as nat, cols as nat);
        assert forall|r: int| 0 <= r < rows implies #[trigger] screen@.grid[r] =~= init.grid[r] by {}
        assert(screen@.grid =~= init.grid);
        assert(screen@ =~= init);
        Pane { id, screen, rect }
    }

    /// Gives the pane a new rectangle and its screen the matching size.
    pub fn resize(&mut self, rect: Rect)
        requires
            old(self).screen@.wf(),
        ensures
            final(self).id == old(self).id,
            final(self).rect == rect,
            final(self).screen@ == old(self).screen@.resized(
                at_least_one(rect.h as int) as nat,
                at_least_one(rect.w as int) as nat,
            ),
            final(self).wf(),
    {
        let rows: u16 = if rect.h < 1 { 1 } else { rect.h };
        let cols: u16 = if rect.w < 1 { 1 } else { rect.w };
        self.screen.resize(rows as usize, cols as usize);
        self.rect = rect;
    }

    /// Feeds output that the pane's shell wrote to its screen.
    pub fn feed_output(&mut self, data: &[u8])
        requires
            old(self).wf(),
        ensures
            final(self).id == old(self).id,
            final(self).rect == old(self).rect,
            final(self).screen@ == old(self).screen@.feed_all(data@),
            final(self).wf(),
    {
        let ghost s0 = self.screen@;
        let mut i: usize = 0;
        while i < data.len()
            invariant
                i <= data@.len(),
                self.id == old(self).id,
                self.rect == old(self).rect,
                s0 == old(self).screen@,
                s0.wf(),
                s0.rows >= 1,
                self.screen@ == s0.feed_all(data@.take(i as int)),
                self.screen@.wf(),
                self.screen@.rows == s0.rows,
                self.screen@.cols == s0.cols,
            decreases data@.len() - i,
        {
            proof {
                assert(data@.take(i + 1).drop_last() =~= data@.take(i as int));
                assert(data@.take(i + 1).last() == data@[i as int]);
            }
            self.screen.feed(data[i]);
            i = i + 1;
        }
        assert(data@.take(i as int) =~= data@);
    }
}

/// The index of the first pane with id `id`.
pub open spec fn find_pane(ps: Seq<Pane>, id: usize) -> Option<int>
    decreases ps.len(),
{
    if ps.len() == 0 {
        None
    } else {
        match find_pane(ps.drop_last(), id) {
            Some(k) => Some(k),
            None => if ps.last().id == id {
                Some(ps.len() - 1)
            } else {
                None
            },
        }
    }
}

/// What `find_pane` finds: the first pane with the id, or none when no pane
/// has it.
pub proof fn lemma_find_pane(ps: Seq<Pane>, id: usize)
    ensures
        match find_pane(ps, id) {
            Some(k) => 0 <= k < ps.len() && ps[k].id == id && forall|j: int| 0 <= j < k ==> ps[j].id != id,
            None => forall|j: int| 0 <= j < ps.len() ==> ps[j].id != id,
        },
    decreases ps.len(),
{
    if ps.len() > 0 {
        lemma_find_pane(ps.drop_last(), id);
        assert forall|j: int| 0 <= j < ps.len() - 1 implies ps.drop_last()[j] == ps[j] by {}
    }
}

/// The panes `ps` are the panes `old`, in order and with the same ids, laid
/// out again over a terminal of `term_w` by `term_h` cells: each has its tile
/// and a screen resized to it.
pub open spec fn relaid(old: Seq<Pane>, ps: Seq<Pane>, term_w: u16, term_h: u16) -> bool {
    &&& ps.len() == old.len()
    &&& forall|k: int|
        0 <= k < ps.len() ==> {
            &&& (#[trigger] ps[k]).id == old[k].id
            &&& ps[k].rect == tile(k as nat, ps.len(), term_w, term_h)
            &&& ps[k].screen@ == old[k].screen@.resized(
                at_least_one(ps[k].rect.h as int) as nat,
                at_least_one(ps[k].rect.w as int) as nat,
            )
        }
}

/// The terminal multiplexer's state: the panes, which one has the focus, the
/// prefix key state, and the status line.
pub struct App {
    pub panes: Vec<Pane>,
    pub active: usize,
    pub next_id: usize,
    pub prefix: bool,
    pub should_quit: bool,
    pub status: String,
    pub term_w: u16,
    pub term_h: u16,
}

impl App {
    /// There is at least one pane; every pane is well formed, lies inside the
    /// `u16` plane and has an id below `next_id`; ids are distinct; and the
    /// focus is on a pane.
    pub open spec fn wf(self) -> bool {
        &&& self.panes@.len() >= 1
        &&& forall|i: int|
            0 <= i < self.panes@.len() ==> {
                &&& (#[trigger] self.panes@[i]).wf()
                &&& self.panes@[i].rect.placed()
                &&& self.panes@[i].id < self.next_id
            }
        &&& forall|i: int, j: int|
            0 <= i < j < self.panes@.len() ==> self.panes@[i].id != self.panes@[j].id
        &&& find_pane(self.panes@, self.active) is Some
    }

    /// The index of the focused pane.
    pub open spec fn active_index(self) -> int {
        find_pane(self.panes@, self.active)->0
    }

    /// One pane filling the terminal above the status line, with the focus.
    pub fn new(term_w: u16, term_h: u16) -> (app: App)
        ensures
            app.wf(),
            app.panes@.len() == 1,
            app.panes@[0].id == 0,
            app.panes@[0].rect == (Rect { x: 0, y: 0, w: term_w, h: pane_area_height(term_h) as u16 }),
            app.panes@[0].screen@ == ScreenModel::initial(
                pane_area_height(term_h),
                at_least_one(term_w as int) as nat,
            ),
            app.active == 0,
            app.next_id == 1,
            !app.prefix,
            !app.should_quit,
            app.status@ == Seq::<char>::empty(),
            app.term_w == term_w,
            app.term_h == term_h,
    {
        let status_h: u16 = 1;
        let t = term_h.saturating_sub(status_h);
        let pane_h: u16 = if t < 1 { 1 } else { t };
        let rect = Rect { x: 0, y: 0, w: term_w, h: pane_h };
        let pane = Pane::new(0, rect);
        let mut panes: Vec<Pane> = Vec::new();
        panes.push(pane);
        let app = App {
            panes,
            active: 0,
            next_id: 1,
            prefix: false,
            should_quit: false,
            status: String::new(),
            term_w,
            term_h,
        };
        proof {
            assert(app.panes@.drop_last() =~= Seq::<Pane>::empty());
        }
        app
    }

    /// Sets the status line.
    pub fn set_status(&mut self, msg: String)
        ensures
            final(self).status@ == msg@,
            final(self).panes == old(self).panes,
            final(self).active == old(self).active,
            final(self).next_id == old(self).next_id,
            final(self).prefix == old(self).prefix,
            final(self).should_quit == old(self).should_quit,
            final(self).term_w == old(self).term_w,
            final(self).term_h == old(self).term_h,
    {
        self.status = msg;
    }

    /// The index of the first pane with id `id`.
    fn find_index(&self, id: usize) -> (r: Option<usize>)
        ensures
            r matches Some(k) ==> find_pane(self.panes@, id) == Some(k as int) && k < self.panes@.len(),
            r is None ==> find_pane(self.panes@, id) is None,
    {
        let mut i: usize = 0;
        while i < self.panes.len()
            invariant
                i <= self.panes@.len(),
                find_pane(self.panes@.take(i as int), id) is None,
            decreases self.panes@.len() - i,
        {
            proof {
                assert(self.panes@.take(i + 1).drop_last() =~= self.panes@.take(i as int));
            }
            if self.panes[i].id == id {
                proof {
                    lemma_find_pane_prefix(self.panes@, id, i as int);
                }
                return Some(i);
            }
            i = i + 1;
        }
        assert(self.panes@.take(i as int) =~= self.panes@);
        None
    }

    /// The focused pane, if a pane has the focused id.
    pub fn active_pane(&self) -> (p: Option<&Pane>)
        ensures
            match find_pane(self.panes@, self.active) {
                Some(k) => p == Some(&self.panes@[k]),
                None => p is None,
            },
    {
        match self.find_index(self.active) {
            Some(k) => Some(&self.panes[k]),
            None => None,
        }
    }

    /// Lays all panes out again in a grid over the terminal.
    fn redistribute(&mut self)
        requires
            old(self).panes@.len() >= 1,
            forall|i: int| 0 <= i < old(self).panes@.len() ==> (#[trigger] old(self).panes@[i]).wf(),
            layout_fits(old(self).panes@.len()),
        ensures
            relaid(old(self).panes@, final(self).panes@, old(self).term_w, old(self).term_h),
            forall|i: int| 0 <= i < final(self).panes@.len() ==> (#[trigger] final(self).panes@[i]).wf(),
            final(self).active == old(self).active,
            final(self).next_id == old(self).next_id,
            final(self).prefix == old(self).prefix,
            final(self).should_quit == old(self).should_quit,
            final(self).status == old(self).status,
            final(self).term_w == old(self).term_w,
            final(self).term_h == old(self).term_h,
    {
        let n = self.panes.len();
        let g = grid_shape(n, self.term_w, self.term_h);
        let ghost ps0 = self.panes@;
        let mut i: usize = 0;
        while i < n
            invariant
                n == ps0.len(),
                i <= n,
                self.panes@.len() == n,
                n <= 65535,
                g.cols as nat == grid_cols(n as nat),
                g.rows as nat == grid_rows(n as nat),
                g.col_w as int == (g.term_w as int) / (g.cols as int),
                g.pane_h as nat == pane_area_height(self.term_h),
                g.row_h as int == (g.pane_h as int) / (g.rows as int),
                g.term_w == self.term_w,
                g.cols >= 1,
                g.rows >= 1,
                ps0 == old(self).panes@,
                forall|k: int| 0 <= k < n ==> (#[trigger] ps0[k]).wf(),
                forall|k: int| i <= k < n ==> #[trigger] self.panes@[k] == ps0[k],
                forall|k: int|
                    0 <= k < i ==> {
                        &&& (#[trigger] self.panes@[k]).id == ps0[k].id
                        &&& self.panes@[k].rect == tile(k as nat, n as nat, self.term_w, self.term_h)
                        &&& self.panes@[k].screen@ == ps0[k].screen@.resized(
                            at_least_one(self.panes@[k].rect.h as int) as nat,
                            at_least_one(self.panes@[k].rect.w as int) as nat,
                        )
                        &&& self.panes@[k].wf()
                    },
                self.active == old(self).active,
                self.next_id == old(self).next_id,
                self.prefix == old(self).prefix,
                self.should_quit == old(self).should_quit,
                self.status == old(self).status,
                self.term_w == old(self).term_w,
                self.term_h == old(self).term_h,
            decreases n - i,
        {
            let rect = tile_exec(i, &g, Ghost(n as nat), Ghost(self.term_h));
            assert(self.panes@[i as int].screen@.wf());
            self.panes[i].resize(rect);
            i = i + 1;
        }
    }

    /// The focused pane can be split: it is at least 4 by 4.
    pub open spec fn can_split(self) -> bool {
        find_pane(self.panes@, self.active) matches Some(k) && self.panes@[k].rect.w >= 4
            && self.panes@[k].rect.h >= 4
    }

    /// Cuts the focused pane in two: the pane keeps the first half, and the
    /// second half, with a fresh id, is handed back to be given a shell and
    /// passed to `complete_split`. A pane smaller than 4 by 4 is not split and
    /// the status line says so.
    pub fn split(&mut self, dir: SplitDir) -> (res: Option<PendingSplit>)
        requires
            old(self).wf(),
            old(self).can_split() ==> old(self).next_id < usize::MAX,
        ensures
            final(self).wf(),
            final(self).prefix == old(self).prefix,
            split_post(*old(self), *final(self), dir, res),
    {
        let k = match self.find_index(self.active) {
            Some(k) => k,
            None => return None,
        };
        let old_rect = self.panes[k].rect;
        if old_rect.w < 4 || old_rect.h < 4 {
            self.set_status("pane too small to split".to_owned());
            return None;
        }
        let (rect_a, rect_b) = match dir {
            SplitDir::Vertical => {
                let half = old_rect.w / 2;
                (
                    Rect { x: old_rect.x, y: old_rect.y, w: half, h: old_rect.h },
                    Rect { x: old_rect.x + half, y: old_rect.y, w: old_rect.w - half, h: old_rect.h },
                )
            },
            SplitDir::Horizontal => {
                let half = old_rect.h / 2;
                (
                    Rect { x: old_rect.x, y: old_rect.y, w: old_rect.w, h: half },
                    Rect { x: old_rect.x, y: old_rect.y + half, w: old_rect.w, h: old_rect.h - half },
                )
            },
        };
        assert(self.panes@[k as int].wf());
        self.panes[k].resize(rect_a);
        let new_id = self.next_id;
        self.next_id = self.next_id + 1;
        proof {
            assert(self.panes@[k as int].rect.placed());
            lemma_find_pane(self.panes@, self.active);
            lemma_find_pane(old(self).panes@, self.active);
            assert(self.panes@[k as int].id == self.active);
            assert forall|j: int| 0 <= j < k implies self.panes@[j].id != self.active by {}
            lemma_find_first(self.panes@, self.active, k as int);
        }
        Some(PendingSplit { id: new_id, rect: rect_b, dir })
    }

    /// Adds the pane for a split whose shell has started, and gives it the
    /// focus.
    pub fn complete_split(&mut self, p: PendingSplit)
        requires
            old(self).wf(),
            p.id < old(self).next_id,
            forall|j: int| 0 <= j < old(self).panes@.len() ==> (#[trigger] old(self).panes@[j]).id != p.id,
            p.rect.placed(),
        ensures
            final(self).wf(),
            final(self).panes@.len() == old(self).panes@.len() + 1,
            final(self).panes@.drop_last() == old(self).panes@,
            final(self).panes@.last().id == p.id,
            final(self).panes@.last().rect == p.rect,
            final(self).panes@.last().screen@ == ScreenModel::initial(
                at_least_one(p.rect.h as int) as nat,
                at_least_one(p.rect.w as int) as nat,
            ),
            final(self).active == p.id,
            final(self).status@ == match p.dir {
                SplitDir::Vertical => "split Vertical"@,
                SplitDir::Horizontal => "split Horizontal"@,
            },
            final(self).next_id == old(self).next_id,
            final(self).prefix == old(self).prefix,
            final(self).should_quit == old(self).should_quit,
            final(self).term_w == old(self).term_w,
            final(self).term_h == old(self).term_h,
    {
        let pane = Pane::new(p.id, p.rect);
        self.panes.push(pane);
        self.active = p.id;
        match p.dir {
            SplitDir::Vertical => self.set_status("split Vertical".to_owned()),
            SplitDir::Horizontal => self.set_status("split Horizontal".to_owned()),
        }
        proof {
            let n = self.panes@.len();
            assert(self.panes@.drop_last() =~= old(self).panes@);
            lemma_find_pane(old(self).panes@, p.id);
            assert(find_pane(self.panes@.drop_last(), p.id) is None);
            assert(find_pane(self.panes@, p.id) == Some(n - 1));
        }
    }

    /// Closes the focused pane, gives the focus to the first pane left and
    /// lays the panes out again; closing the last pane quits instead.
    pub fn close_active(&mut self)
        requires
            old(self).wf(),
            old(self).panes@.len() > 1 ==> layout_fits((old(self).panes@.len() - 1) as nat),
        ensures
            final(self).wf(),
            final(self).prefix == old(self).prefix,
            close_post(*old(self), *final(self)),
    {
        if self.panes.len() <= 1 {
            self.should_quit = true;
            return;
        }
        let removed = self.active;
        let k = match self.find_index(removed) {
            Some(k) => k,
            None => return,
        };
        let _gone = self.panes.remove(k);
        let ghost rest = self.panes@;
        proof {
            assert(rest =~= old(self).panes@.remove(k as int));
            assert forall|i: int| 0 <= i < rest.len() implies (#[trigger] rest[i]).wf() by {
                if i < k {
                    assert(rest[i] == old(self).panes@[i]);
                } else {
                    assert(rest[i] == old(self).panes@[i + 1]);
                }
            }
        }
        self.active = self.panes[0].id;
        self.redistribute();
        self.set_status("pane closed".to_owned());
        proof {
            self.lemma_relaid_wf(rest, old(self).panes@, k as int);
        }
    }

    /// Lays the panes out again for a terminal of a new size.
    pub fn resize_terminal(&mut self, w: u16, h: u16)
        requires
            old(self).wf(),
            layout_fits(old(self).panes@.len()),
        ensures
            final(self).wf(),
            relaid(old(self).panes@, final(self).panes@, w, h),
            final(self).term_w == w,
            final(self).term_h == h,
            final(self).active == old(self).active,
            final(self).next_id == old(self).next_id,
            final(self).prefix == old(self).prefix,
            final(self).should_quit == old(self).should_quit,
            final(self).status == old(self).status,
    {
        self.term_w = w;
        self.term_h = h;
        self.redistribute();
        proof {
            let ps = self.panes@;
            let ps0 = old(self).panes@;
            assert forall|i: int| 0 <= i < ps.len() implies (#[trigger] ps[i]).rect.placed() && ps[i].id < self.next_id by {
                lemma_tile_fits(i as nat, ps.len(), w, h);
            }
            assert forall|i: int, j: int| 0 <= i < j < ps.len() implies ps[i].id != ps[j].id by {
                assert(ps[i].id == ps0[i].id);
                assert(ps[j].id == ps0[j].id);
            }
            lemma_find_pane(ps0, self.active);
            let k = find_pane(ps0, self.active)->0;
            assert(ps[k].id == self.active);
            assert forall|j: int| 0 <= j < k implies ps[j].id != self.active by {
                assert(ps[j].id == ps0[j].id);
            }
            lemma_find_first(ps, self.active, k);
        }
    }

    /// After closing pane `k` and laying the rest out again, the app is well formed.
    proof fn lemma_relaid_wf(self, rest: Seq<Pane>, ps0: Seq<Pane>, k: int)
        requires
            0 <= k < ps0.len(),
            rest == ps0.remove(k),
            rest.len() >= 1,
            relaid(rest, self.panes@, self.term_w, self.term_h),
            forall|i: int| 0 <= i < self.panes@.len() ==> (#[trigger] self.panes@[i]).wf(),
            forall|i: int| 0 <= i < ps0.len() ==> (#[trigger] ps0[i]).id < self.next_id,
            forall|i: int, j: int| 0 <= i < j < ps0.len() ==> ps0[i].id != ps0[j].id,
            self.active == rest[0].id,
        ensures
            self.wf(),
    {
        let ps = self.panes@;
        assert forall|i: int| 0 <= i < ps.len() implies (#[trigger] ps[i]).rect.placed() && ps[i].id < self.next_id by {
            lemma_tile_fits(i as nat, ps.len(), self.term_w, self.term_h);
            if i < k {
                assert(rest[i] == ps0[i]);
            } else {
                assert(rest[i] == ps0[i + 1]);
            }
        }
        assert forall|i: int, j: int| 0 <= i < j < ps.len() implies ps[i].id != ps[j].id by {
            assert(ps[i].id == rest[i].id);
            assert(ps[j].id == rest[j].id);
            let i0 = if i < k { i } else { i + 1 };
            let j0 = if j < k { j } else { j + 1 };
            assert(rest[i] == ps0[i0]);
            assert(rest[j] == ps0[j0]);
        }
        assert(ps[0].id == self.active);
        lemma_find_first(ps, self.active, 0);
    }

    /// The rectangle of the focused pane.
    pub open spec fn active_rect(self) -> Rect {
        focus_rect(self.panes@, self.active)
    }

    /// Pane `k` is a pane other than the focused one that lies in direction
    /// `dir` from it.
    pub open spec fn nav_candidate(self, k: int, dir: NavDir) -> bool {
        is_nav_candidate(self.panes@, self.active, k, dir)
    }

    /// Pane `k` is the nearest candidate, the first among equally near ones.
    pub open spec fn nav_nearest(self, k: int, dir: NavDir) -> bool {
        is_nav_nearest(self.panes@, self.active, k, dir)
    }

    /// The `i32` arithmetic of navigation does not overflow: for each other
    /// pane on the side of `dir`, the summed heights (or widths) fit in a
    /// `u16`, and the squared distance of an aligned one fits in an `i32`.
    pub open spec fn nav_defined(self, dir: NavDir) -> bool {
        forall|k: int|
            0 <= k < self.panes@.len() && self.panes@[k].id != self.active && nav_side(
                self.active_rect(),
                #[trigger] self.panes@[k].rect,
                dir,
            ) ==> {
                &&& nav_span(self.active_rect(), self.panes@[k].rect, dir) <= u16::MAX
                &&& nav_aligned(self.active_rect(), self.panes@[k].rect, dir) ==> nav_dist(
                    self.active_rect(),
                    self.panes@[k].rect,
                ) <= i32::MAX
            }
    }

    /// Moves the focus to the nearest pane in direction `dir` whose centre is
    /// within half the two panes' summed height (or width) of the focused
    /// pane's centre; the first of equally near panes wins. Nothing changes
    /// when there is none.
    pub fn navigate(&mut self, dir: NavDir)
        requires
            old(self).wf(),
            old(self).nav_defined(dir),
        ensures
            final(self).wf(),
            final(self).prefix == old(self).prefix,
            nav_post(*old(self), *final(self), dir),
    {
        let ci = match self.find_index(self.active) {
            Some(ci) => ci,
            None => return,
        };
        let cur = self.panes[ci].rect;
        proof {
            assert(cur == self.active_rect());
            assert(self.panes@[ci as int].rect.fits());
        }
        let (cx, cy) = cur.center();
        let mut best: Option<(usize, u32)> = None;
        let ghost mut kb: int = -1;
        let n = self.panes.len();
        let mut i: usize = 0;
        while i < n
            invariant
                n == self.panes@.len(),
                i <= n,
                *self == *old(self),
                cur == self.active_rect(),
                cx as int == cur.mid().0,
                cy as int == cur.mid().1,
                self.nav_defined(dir),
                self.wf(),
                best is None <==> forall|j: int| 0 <= j < i ==> !is_nav_candidate(self.panes@, self.active, j, dir),
                best matches Some(b) ==> {
                    &&& 0 <= kb < i
                    &&& is_nav_candidate(self.panes@, self.active, kb, dir)
                    &&& b.0 == self.panes@[kb].id
                    &&& b.1 as int == nav_dist(cur, self.panes@[kb].rect)
                    &&& forall|j: int| 0 <= j < i && #[trigger] is_nav_candidate(self.panes@, self.active, j, dir) ==> nav_dist(cur, self.panes@[kb].rect)
                        <= nav_dist(cur, self.panes@[j].rect)
                    &&& forall|j: int| 0 <= j < kb && #[trigger] is_nav_candidate(self.panes@, self.active, j, dir) ==> nav_dist(cur, self.panes@[j].rect)
                        > nav_dist(cur, self.panes@[kb].rect)
                },
            decreases n - i,
        {
            let pane = &self.panes[i];
            if pane.id != self.active {
                proof {
                    assert(pane.rect.fits());
                }
                let (px, py) = pane.rect.center();
                let dx: i32 = px as i32 - cx as i32;
                let dy: i32 = py as i32 - cy as i32;
                let adx: i32 = if dx < 0 { -dx } else { dx };
                let ady: i32 = if dy < 0 { -dy } else { dy };
                let aligned = match dir {
                    NavDir::Left => dx < 0 && ady <= (cur.h + pane.rect.h) as i32 / 2,
                    NavDir::Right => dx > 0 && ady <= (cur.h + pane.rect.h) as i32 / 2,
                    NavDir::Up => dy < 0 && adx <= (cur.w + pane.rect.w) as i32 / 2,
                    NavDir::Down => dy > 0 && adx <= (cur.w + pane.rect.w) as i32 / 2,
                };
                proof {
                    assert(aligned == is_nav_candidate(self.panes@, self.active, i as int, dir));
                }
                if aligned {
                    proof {
                        assert(dx * dx >= 0) by (nonlinear_arith);
                        assert(dy * dy >= 0) by (nonlinear_arith);
                    }
                    let dist = (dx * dx + dy * dy) as u32;
                    let better = match best {
                        Some(b) => dist < b.1,
                        None => true,
                    };
                    if better {
                        best = Some((pane.id, dist));
                        proof {
                            kb = i as int;
                        }
                    }
                }
            }
            i = i + 1;
        }
        if let Some(b) = best {
            self.active = b.0;
            proof {
                assert(is_nav_nearest(old(self).panes@, old(self).active, kb, dir));
                lemma_find_pane(self.panes@, b.0);
                assert forall|j: int| 0 <= j < kb implies self.panes@[j].id != b.0 by {
                    assert(old(self).wf());
                }
                lemma_find_first(self.panes@, b.0, kb);
            }
        }
    }

    /// Whether the arithmetic of `navigate(dir)` stays within its integer
    /// types (the test to make before calling it).
    pub fn nav_is_defined(&self, dir: NavDir) -> (ok: bool)
        requires
            self.wf(),
        ensures
            ok == self.nav_defined(dir),
    {
        let ci = match self.find_index(self.active) {
            Some(ci) => ci,
            None => return true,
        };
        let cur = self.panes[ci].rect;
        proof {
            assert(cur == self.active_rect());
            assert(self.panes@[ci as int].rect.placed());
        }
        let cx = cur.x as i64 + (cur.w / 2) as i64;
        let cy = cur.y as i64 + (cur.h / 2) as i64;
        let n = self.panes.len();
        let mut k: usize = 0;
        while k < n
            invariant
                n == self.panes@.len(),
                k <= n,
                self.wf(),
                cur == self.active_rect(),
                cur.placed(),
                cx == cur.mid().0,
                cy == cur.mid().1,
                forall|j: int|
                    0 <= j < k && self.panes@[j].id != self.active && nav_side(
                        cur,
                        #[trigger] self.panes@[j].rect,
                        dir,
                    ) ==> {
                        &&& nav_span(cur, self.panes@[j].rect, dir) <= u16::MAX
                        &&& nav_aligned(cur, self.panes@[j].rect, dir) ==> nav_dist(cur, self.panes@[j].rect)
                            <= i32::MAX
                    },
            decreases n - k,
        {
            let p = self.panes[k].rect;
            assert(p.placed());
            if self.panes[k].id != self.active {
                let dx = p.x as i64 + (p.w / 2) as i64 - cx;
                let dy = p.y as i64 + (p.h / 2) as i64 - cy;
                let adx = if dx < 0 { -dx } else { dx };
                let ady = if dy < 0 { -dy } else { dy };
                let (side, span, off) = match dir {
                    NavDir::Left => (dx < 0, cur.h as i64 + p.h as i64, ady),
                    NavDir::Right => (dx > 0, cur.h as i64 + p.h as i64, ady),
                    NavDir::Up => (dy < 0, cur.w as i64 + p.w as i64, adx),
                    NavDir::Down => (dy > 0, cur.w as i64 + p.w as i64, adx),
                };
                if side {
                    if span > 65535 {
                        return false;
                    }
                    if off <= span / 2 {
                        proof {
                            assert(0 <= dx * dx <= 65535 * 65535) by (nonlinear_arith)
                                requires
                                    -65535 <= dx <= 65535,
                            ;
                            assert(0 <= dy * dy <= 65535 * 65535) by (nonlinear_arith)
                                requires
                                    -65535 <= dy <= 65535,
                            ;
                        }
                        if dx * dx + dy * dy > 0x7fff_ffff {
                            return false;
                        }
                    }
                }
            }
            k = k + 1;
        }
        true
    }
}

/// Whether the grid arithmetic for `n` panes stays within `u16` (the test to
/// make before laying out `n` panes).
pub fn grid_fits(n: usize) -> (ok: bool)
    ensures
        ok == layout_fits(n as nat),
{
    if n > 65535 {
        return false;
    }
    let c = ceil_sqrt_exec(n);
    n + c <= 65535
}

/// What splitting the focused pane along `dir` does to `old`, giving `new`
/// and the half `res` that waits for a shell.
pub open spec fn split_post(old: App, new: App, dir: SplitDir, res: Option<PendingSplit>) -> bool {
    &&& new.active == old.active
    &&& new.should_quit == old.should_quit
    &&& new.term_w == old.term_w
    &&& new.term_h == old.term_h
    &&& !old.can_split() ==> {
        &&& res is None
        &&& new.status@ == "pane too small to split"@
        &&& new.panes == old.panes
        &&& new.next_id == old.next_id
    }
    &&& old.can_split() ==> {
        let k = old.active_index();
        let halves = split_rect(old.panes@[k].rect, dir);
        &&& res == Some(PendingSplit { id: old.next_id, rect: halves.1, dir })
        &&& new.next_id == old.next_id + 1
        &&& new.status == old.status
        &&& new.panes@.len() == old.panes@.len()
        &&& forall|j: int| 0 <= j < old.panes@.len() && j != k ==> #[trigger] new.panes@[j] == old.panes@[j]
        &&& new.panes@[k].id == old.panes@[k].id
        &&& new.panes@[k].rect == halves.0
        &&& new.panes@[k].screen@ == old.panes@[k].screen@.resized(halves.0.h as nat, halves.0.w as nat)
    }
}

/// Splitting the focused pane, of rectangle `r`: a pane smaller than 4 by 4
/// is left alone; otherwise the pane keeps the first half, the left half
/// (`r.w / 2` columns) for `Vertical` or the top half (`r.h / 2` rows) for
/// `Horizontal`, and the rest, right next to it and together with it
/// exactly `r`, is handed out under a fresh id; the focus and every other
/// pane stay.
pub proof fn lemma_split_law(old: App, new: App, dir: SplitDir, res: Option<PendingSplit>)
    requires
        old.wf(),
        split_post(old, new, dir, res),
    ensures
        new.active == old.active,
        ({
            let k = old.active_index();
            let r = old.panes@[k].rect;
            &&& (r.w < 4 || r.h < 4) ==> res is None && new.panes == old.panes
            &&& (r.w >= 4 && r.h >= 4) ==> {
                &&& res is Some
                &&& res->0.id == old.next_id
                &&& res->0.dir == dir
                &&& new.next_id == old.next_id + 1
                &&& new.panes@.len() == old.panes@.len()
                &&& new.panes@[k].id == old.panes@[k].id
                &&& forall|j: int| 0 <= j < old.panes@.len() && j != k ==> #[trigger] new.panes@[j] == old.panes@[j]
                &&& {
                    let a = new.panes@[k].rect;
                    let b = res->0.rect;
                    &&& a.x == r.x && a.y == r.y
                    &&& dir == SplitDir::Vertical ==> {
                        &&& a.w == r.w / 2 && a.h == r.h
                        &&& b.x == a.x + a.w && b.y == r.y && b.h == r.h && a.w + b.w == r.w
                    }
                    &&& dir == SplitDir::Horizontal ==> {
                        &&& a.h == r.h / 2 && a.w == r.w
                        &&& b.y == a.y + a.h && b.x == r.x && b.w == r.w && a.h + b.h == r.h
                    }
                }
            }
        }),
{
    lemma_find_pane(old.panes@, old.active);
    let k = old.active_index();
    let r = old.panes@[k].rect;
    assert(r.fits());
}

/// What closing the focused pane of `old` does, giving `new`: with one pane
/// left the app quits; otherwise the pane goes, the first remaining pane gets
/// the focus, the rest are laid out again and the status line says so.
pub open spec fn close_post(old: App, new: App) -> bool {
    &&& new.next_id == old.next_id
    &&& new.term_w == old.term_w
    &&& new.term_h == old.term_h
    &&& old.panes@.len() <= 1 ==> {
        &&& new.should_quit
        &&& new.panes == old.panes
        &&& new.active == old.active
        &&& new.status == old.status
    }
    &&& old.panes@.len() > 1 ==> {
        let rest = old.panes@.remove(old.active_index());
        &&& relaid(rest, new.panes@, old.term_w, old.term_h)
        &&& new.active == rest[0].id
        &&& new.status@ == "pane closed"@
        &&& new.should_quit == old.should_quit
    }
}

/// Closing the focused pane: the last pane is never closed, the app quits
/// instead; otherwise exactly the focused pane goes, the others keep their
/// order and ids, the focus goes to the first of them, and every remaining
/// pane gets its grid tile for the remaining count.
pub proof fn lemma_close_law(old: App, new: App)
    requires
        old.wf(),
        close_post(old, new),
    ensures
        old.panes@.len() == 1 ==> new.should_quit && new.panes == old.panes,
        old.panes@.len() > 1 ==> {
            let k = old.active_index();
            &&& 0 <= k < old.panes@.len()
            &&& old.panes@[k].id == old.active
            &&& new.panes@.len() == old.panes@.len() - 1
            &&& forall|j: int| 0 <= j < new.panes@.len() ==> #[trigger] new.panes@[j].id == old.panes@[if j < k { j } else { j + 1 }].id
            &&& forall|j: int| 0 <= j < new.panes@.len() ==> #[trigger] new.panes@[j].id != old.active
            &&& new.active == new.panes@[0].id
            &&& forall|j: int| 0 <= j < new.panes@.len() ==> #[trigger] new.panes@[j].rect == tile(
                j as nat,
                new.panes@.len(),
                old.term_w,
                old.term_h,
            )
        },
{
    lemma_find_pane(old.panes@, old.active);
    if old.panes@.len() > 1 {
        let k = old.active_index();
        let rest = old.panes@.remove(k);
        assert forall|j: int| 0 <= j < new.panes@.len() implies #[trigger] new.panes@[j].id == old.panes@[if j < k { j } else { j + 1 }].id
            && new.panes@[j].id != old.active by {
            assert(new.panes@[j].id == rest[j].id);
            if j < k {
                assert(rest[j] == old.panes@[j]);
            } else {
                assert(rest[j] == old.panes@[j + 1]);
            }
        }
    }
}

/// What moving the focus along `dir` does to `old`, giving `new`: the focus
/// goes to the nearest candidate (the first of equally near ones), or stays
/// when there is none; nothing else changes.
pub open spec fn nav_post(old: App, new: App, dir: NavDir) -> bool {
    &&& new.panes == old.panes
    &&& new.next_id == old.next_id
    &&& new.should_quit == old.should_quit
    &&& new.status == old.status
    &&& new.term_w == old.term_w
    &&& new.term_h == old.term_h
    &&& (exists|k: int| is_nav_candidate(old.panes@, old.active, k, dir)) ==> exists|k: int|
        is_nav_nearest(old.panes@, old.active, k, dir) && new.active == old.panes@[k].id
    &&& !(exists|k: int| is_nav_candidate(old.panes@, old.active, k, dir)) ==> new.active == old.active
}

/// The rectangle of the first pane with id `active`.
pub open spec fn focus_rect(ps: Seq<Pane>, active: usize) -> Rect {
    ps[find_pane(ps, active)->0].rect
}

/// Pane `k` is a pane other than the focused one that lies in direction
/// `dir` from it.
pub open spec fn is_nav_candidate(ps: Seq<Pane>, active: usize, k: int, dir: NavDir) -> bool {
    &&& 0 <= k < ps.len()
    &&& ps[k].id != active
    &&& nav_aligned(focus_rect(ps, active), ps[k].rect, dir)
}

/// Pane `k` is the nearest candidate, the first among equally near ones.
pub open spec fn is_nav_nearest(ps: Seq<Pane>, active: usize, k: int, dir: NavDir) -> bool {
    let cur = focus_rect(ps, active);
    &&& is_nav_candidate(ps, active, k, dir)
    &&& forall|j: int| #[trigger] is_nav_candidate(ps, active, j, dir) ==> nav_dist(cur, ps[k].rect) <= nav_dist(cur, ps[j].rect)
    &&& forall|j: int| 0 <= j < k && #[trigger] is_nav_candidate(ps, active, j, dir) ==> nav_dist(cur, ps[j].rect) > nav_dist(cur, ps[k].rect)
}

/// How far the centre of `p` lies from the centre of `cur`, across and down.
pub open spec fn nav_delta(cur: Rect, p: Rect) -> (int, int) {
    (p.mid().0 - cur.mid().0, p.mid().1 - cur.mid().1)
}

/// The absolute value of `v`.
pub open spec fn abs_int(v: int) -> int {
    if v < 0 {
        -v
    } else {
        v
    }
}

/// The centre of `p` lies strictly on the side `dir` of the centre of `cur`.
pub open spec fn nav_side(cur: Rect, p: Rect, dir: NavDir) -> bool {
    match dir {
        NavDir::Left => nav_delta(cur, p).0 < 0,
        NavDir::Right => nav_delta(cur, p).0 > 0,
        NavDir::Up => nav_delta(cur, p).1 < 0,
        NavDir::Down => nav_delta(cur, p).1 > 0,
    }
}

/// The summed heights (moving left or right) or widths (moving up or down).
pub open spec fn nav_span(cur: Rect, p: Rect, dir: NavDir) -> int {
    match dir {
        NavDir::Left | NavDir::Right => cur.h + p.h,
        NavDir::Up | NavDir::Down => cur.w + p.w,
    }
}

/// `p` lies on the side `dir` of `cur`, with centres no further apart across
/// that direction than half the summed height (or width).
pub open spec fn nav_aligned(cur: Rect, p: Rect, dir: NavDir) -> bool {
    &&& nav_side(cur, p, dir)
    &&& match dir {
        NavDir::Left | NavDir::Right => abs_int(nav_delta(cur, p).1) <= nav_span(cur, p, dir) / 2,
        NavDir::Up | NavDir::Down => abs_int(nav_delta(cur, p).0) <= nav_span(cur, p, dir) / 2,
    }
}

/// The squared distance between the centres.
pub open spec fn nav_dist(cur: Rect, p: Rect) -> int {
    nav_delta(cur, p).0 * nav_delta(cur, p).0 + nav_delta(cur, p).1 * nav_delta(cur, p).1
}

/// Where the centre of `b` lies seen from the centre of `a`, along `dir`:
/// strictly on that side, and across it no further than half the two
/// rectangles' summed height (moving left or right) or width (moving up or
/// down).
pub open spec fn lies_toward(a: Rect, b: Rect, dir: NavDir) -> bool {
    let dx = (b.x + b.w / 2) - (a.x + a.w / 2);
    let dy = (b.y + b.h / 2) - (a.y + a.h / 2);
    match dir {
        NavDir::Left => dx < 0 && -((a.h + b.h) / 2) <= dy <= (a.h + b.h) / 2,
        NavDir::Right => dx > 0 && -((a.h + b.h) / 2) <= dy <= (a.h + b.h) / 2,
        NavDir::Up => dy < 0 && -((a.w + b.w) / 2) <= dx <= (a.w + b.w) / 2,
        NavDir::Down => dy > 0 && -((a.w + b.w) / 2) <= dx <= (a.w + b.w) / 2,
    }
}

/// The squared distance between the centres of `a` and `b`.
pub open spec fn centre_dist(a: Rect, b: Rect) -> int {
    let dx = (b.x + b.w / 2) - (a.x + a.w / 2);
    let dy = (b.y + b.h / 2) - (a.y + a.h / 2);
    dx * dx + dy * dy
}

/// Moving the focus along `dir`: the panes stay as they are; when some other
/// pane lies toward `dir` the focus moves, and it moves only to such a pane,
/// one whose centre is no further from the old focus's centre than that of
/// any other pane lying toward `dir`.
pub proof fn lemma_navigate_law(old: App, new: App, dir: NavDir)
    requires
        old.wf(),
        nav_post(old, new, dir),
    ensures
        new.panes == old.panes,
        (exists|j: int|
            0 <= j < old.panes@.len() && old.panes@[j].id != old.active && #[trigger] lies_toward(
                old.active_rect(),
                old.panes@[j].rect,
                dir,
            )) ==> new.active != old.active,
        new.active != old.active ==> exists|k: int|
            {
                &&& 0 <= k < old.panes@.len()
                &&& old.panes@[k].id == new.active
                &&& #[trigger] lies_toward(old.active_rect(), old.panes@[k].rect, dir)
                &&& forall|j: int|
                    0 <= j < old.panes@.len() && old.panes@[j].id != old.active && #[trigger] lies_toward(
                        old.active_rect(),
                        old.panes@[j].rect,
                        dir,
                    ) ==> centre_dist(old.active_rect(), old.panes@[k].rect) <= centre_dist(
                        old.active_rect(),
                        old.panes@[j].rect,
                    )
            },
{
    let ps = old.panes@;
    let a = old.active_rect();
    assert forall|j: int| 0 <= j < ps.len() && ps[j].id != old.active implies
        (#[trigger] lies_toward(a, ps[j].rect, dir) <==> is_nav_candidate(ps, old.active, j, dir))
        && centre_dist(a, ps[j].rect) == nav_dist(a, ps[j].rect) by {
    }
    if exists|j: int|
        0 <= j < ps.len() && ps[j].id != old.active && #[trigger] lies_toward(a, ps[j].rect, dir) {
        let j = choose|j: int|
            0 <= j < ps.len() && ps[j].id != old.active && #[trigger] lies_toward(a, ps[j].rect, dir);
        assert(is_nav_candidate(ps, old.active, j, dir));
        let k = choose|k: int| is_nav_nearest(ps, old.active, k, dir) && new.active == ps[k].id;
        assert(ps[k].id != old.active);
    }
    if new.active != old.active {
        assert(exists|k: int| is_nav_candidate(ps, old.active, k, dir));
        let k = choose|k: int| is_nav_nearest(ps, old.active, k, dir) && new.active == ps[k].id;
        assert(lies_toward(a, ps[k].rect, dir));
        assert forall|j: int|
            0 <= j < ps.len() && ps[j].id != old.active && #[trigger] lies_toward(a, ps[j].rect, dir)
            implies centre_dist(a, ps[k].rect) <= centre_dist(a, ps[j].rect) by {
            assert(is_nav_candidate(ps, old.active, j, dir));
        }
    }
}

/// The second half of a split waiting for its shell: the id it will get, its
/// rectangle, and how the pane was cut.
#[derive(Clone, Copy, Debug)]
pub struct PendingSplit {
    pub id: usize,
    pub rect: Rect,
    pub dir: SplitDir,
}

/// The two halves of a rectangle cut along `dir`: `Vertical` gives the left
/// half (rounded down) and the rest on its right, `Horizontal` the top half
/// and the rest below it.
pub open spec fn split_rect(r: Rect, dir: SplitDir) -> (Rect, Rect) {
    match dir {
        SplitDir::Vertical => {
            let half = r.w / 2;
            (
                Rect { x: r.x, y: r.y, w: half, h: r.h },
                Rect { x: (r.x + half) as u16, y: r.y, w: (r.w - half) as u16, h: r.h },
            )
        },
        SplitDir::Horizontal => {
            let half = r.h / 2;
            (
                Rect { x: r.x, y: r.y, w: r.w, h: half },
                Rect { x: r.x, y: (r.y + half) as u16, w: r.w, h: (r.h - half) as u16 },
            )
        },
    }
}

/// A pane with the id at `k` and none before it is what `find_pane` finds.
proof fn lemma_find_first(ps: Seq<Pane>, id: usize, k: int)
    requires
        0 <= k < ps.len(),
        ps[k].id == id,
        forall|j: int| 0 <= j < k ==> ps[j].id != id,
    ensures
        find_pane(ps, id) == Some(k),
{
    lemma_find_pane(ps, id);
    match find_pane(ps, id) {
        Some(i) => {
            if i < k {
            } else if i > k {
            }
        },
        None => {},
    }
}

/// The first pane with an id is found in any prefix that reaches it.
proof fn lemma_find_pane_prefix(ps: Seq<Pane>, id: usize, i: int)
    requires
        0 <= i < ps.len(),
        ps[i].id == id,
        find_pane(ps.take(i), id) is None,
    ensures
        find_pane(ps, id) == Some(i),
{
    lemma_find_pane(ps.take(i), id);
    lemma_find_pane(ps, id);
    match find_pane(ps, id) {
        Some(k) => {
            if k < i {
                assert(ps.take(i)[k] == ps[k]);
            }
        },
        None => {},
    }
}

/// A split cuts a pane of at least 4 by 4 into two halves of at least 2
/// cells across the cut that do not overlap and together cover the pane.
pub proof fn lemma_split_partition(r: Rect, dir: SplitDir)
    requires
        r.w >= 4,
        r.h >= 4,
        r.fits(),
    ensures
        ({
            let (a, b) = split_rect(r, dir);
            &&& a.fits() && b.fits()
            &&& a.w >= 2 && a.h >= 2 && b.w >= 2 && b.h >= 2
            &&& forall|x: int, y: int| #[trigger] r.holds(x, y) <==> (a.holds(x, y) || b.holds(x, y))
            &&& forall|x: int, y: int| !(#[trigger] a.holds(x, y) && b.holds(x, y))
        }),
{
}

/// Pane tiles do not overlap when the terminal has at least a column per
/// grid column and a row per grid row.
pub proof fn lemma_tiles_disjoint(i: nat, j: nat, n: nat, term_w: u16, term_h: u16)
    requires
        i < n,
        j < n,
        i != j,
        term_w >= grid_cols(n),
        pane_area_height(term_h) >= grid_rows(n),
    ensures
        forall|x: int, y: int|
            !(#[trigger] tile(i, n, term_w, term_h).holds(x, y) && tile(j, n, term_w, term_h).holds(x, y)),
{
    let cols = grid_cols(n) as int;
    let rows = grid_rows(n) as int;
    let ph = pane_area_height(term_h) as int;
    lemma_row_in_grid(i, n);
    lemma_row_in_grid(j, n);
    let ci = i as int % cols;
    let ri = i as int / cols;
    let cj = j as int % cols;
    let rj = j as int / cols;
    lemma_fundamental_div_mod(i as int, cols);
    lemma_fundamental_div_mod(j as int, cols);
    let col_w = (term_w as int) / cols;
    let row_h = ph / rows;
    lemma_div_by_self(cols);
    lemma_div_is_ordered(cols, term_w as int, cols);
    lemma_div_by_self(rows);
    lemma_div_is_ordered(rows, ph, rows);
    lemma_tile_fits(i, n, term_w, term_h);
    lemma_tile_fits(j, n, term_w, term_h);
    let ti = tile(i, n, term_w, term_h);
    let tj = tile(j, n, term_w, term_h);
    lemma_slot(ci, cols, term_w as int);
    lemma_slot(cj, cols, term_w as int);
    lemma_slot(ri, rows, ph);
    lemma_slot(rj, rows, ph);
    assert(1 <= col_w <= term_w);
    assert(1 <= row_h <= ph);
    if ci < cj {
        lemma_slot(ci, cols, term_w as int);
        lemma_mul_inequality(ci + 1, cj, col_w);
        lemma_mul_is_distributive_add_other_way(col_w, ci, 1);
        lemma_mul_is_commutative(col_w, ci);
        lemma_mul_is_commutative(col_w, ci + 1);
        assert((ci + 1) * col_w == ci * col_w + col_w);
        assert(ti.x == ci * col_w && ti.w == col_w && tj.x == cj * col_w);
        assert(ti.x + ti.w <= tj.x);
    } else if cj < ci {
        lemma_slot(cj, cols, term_w as int);
        lemma_mul_inequality(cj + 1, ci, col_w);
        lemma_mul_is_distributive_add_other_way(col_w, cj, 1);
        lemma_mul_is_commutative(col_w, cj);
        lemma_mul_is_commutative(col_w, cj + 1);
        assert((cj + 1) * col_w == cj * col_w + col_w);
        assert(tj.x == cj * col_w && tj.w == col_w && ti.x == ci * col_w);
        assert(tj.x + tj.w <= ti.x);
    } else if ri < rj {
        lemma_slot(ri, rows, ph);
        lemma_mul_inequality(ri + 1, rj, row_h);
        lemma_mul_is_distributive_add_other_way(row_h, ri, 1);
        lemma_mul_is_commutative(row_h, ri);
        lemma_mul_is_commutative(row_h, ri + 1);
        assert((ri + 1) * row_h == ri * row_h + row_h);
        assert(ti.y == ri * row_h && ti.h == row_h && tj.y == rj * row_h);
        assert(ti.y + ti.h <= tj.y);
    } else if rj < ri {
        lemma_slot(rj, rows, ph);
        lemma_mul_inequality(rj + 1, ri, row_h);
        lemma_mul_is_distributive_add_other_way(row_h, rj, 1);
        lemma_mul_is_commutative(row_h, rj);
        lemma_mul_is_commutative(row_h, rj + 1);
        assert((rj + 1) * row_h == rj * row_h + row_h);
        assert(tj.y == rj * row_h && tj.h == row_h && ti.y == ri * row_h);
        assert(tj.y + tj.h <= ti.y);
    } else {
        assert(i as int == cols * ri + ci);
        assert(j as int == cols * rj + cj);
    }
}

} // verus!
