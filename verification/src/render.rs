use vstd::prelude::*;
use vstd::utf8::{encode_scalar, encode_utf8};
use vstd::std_specs::iter::IteratorSpec;
use crate::app::{App, Pane, Rect};
use crate::vt::{Cell, ScreenModel, last_index, min_nat};

verus! {

/// The colours the terminal draws with.
#[derive(Clone, Copy, Debug, PartialEq, Eq)]
pub enum TermColor {
    Black,
    DarkRed,
    DarkGreen,
    DarkYellow,
    DarkBlue,
    DarkMagenta,
    DarkCyan,
    Grey,
    DarkGrey,
    Red,
    Green,
    Yellow,
    Blue,
    Magenta,
    Cyan,
    White,
    Reset,
}

/// One drawing command for the terminal.
#[derive(Clone, Copy, Debug, PartialEq, Eq)]
pub enum DrawOp {
    /// Clear the whole terminal.
    Clear,
    /// Move the cursor to (column, row).
    MoveTo(u16, u16),
    SetFg(TermColor),
    SetBg(TermColor),
    /// Print a character at the cursor.
    Print(char),
    ResetColor,
}

/// The terminal colour of an ANSI colour number: 0 to 7 the dark colours
/// (7 grey), 8 to 15 the bright ones (8 dark grey), anything else the
/// terminal's default.
pub open spec fn ansi_color(c: u8) -> TermColor {
    if c == 0 {
        TermColor::Black
    } else if c == 1 {
        TermColor::DarkRed
    } else if c == 2 {
        TermColor::DarkGreen
    } else if c == 3 {
        TermColor::DarkYellow
    } else if c == 4 {
        TermColor::DarkBlue
    } else if c == 5 {
        TermColor::DarkMagenta
    } else if c == 6 {
        TermColor::DarkCyan
    } else if c == 7 {
        TermColor::Grey
    } else if c == 8 {
        TermColor::DarkGrey
    } else if c == 9 {
        TermColor::Red
    } else if c == 10 {
        TermColor::Green
    } else if c == 11 {
        TermColor::Yellow
    } else if c == 12 {
        TermColor::Blue
    } else if c == 13 {
        TermColor::Magenta
    } else if c == 14 {
        TermColor::Cyan
    } else if c == 15 {
        TermColor::White
    } else {
        TermColor::Reset
    }
}

/// The terminal colour of an ANSI colour number.
pub fn ansi_to_color(color: u8) -> (c: TermColor)
    ensures
        c == ansi_color(color),
{
    match color {
        0 => TermColor::Black,
        1 => TermColor::DarkRed,
        2 => TermColor::DarkGreen,
        3 => TermColor::DarkYellow,
        4 => TermColor::DarkBlue,
        5 => TermColor::DarkMagenta,
        6 => TermColor::DarkCyan,
        7 => TermColor::Grey,
        8 => TermColor::DarkGrey,
        9 => TermColor::Red,
        10 => TermColor::Green,
        11 => TermColor::Yellow,
        12 => TermColor::Blue,
        13 => TermColor::Magenta,
        14 => TermColor::Cyan,
        15 => TermColor::White,
        _ => TermColor::Reset,
    }
}

/// The bottom row of a rectangle (its top row when it has no height).
pub open spec fn bottom(r: Rect) -> u16 {
    (r.y + last_index(r.h as nat)) as u16
}

/// The rightmost column of a rectangle (its left column when it has no width).
pub open spec fn right(r: Rect) -> u16 {
    (r.x + last_index(r.w as nat)) as u16
}

/// The top and bottom edges for the first `k` columns.
pub open spec fn hline_ops(r: Rect, k: nat) -> Seq<DrawOp>
    decreases k,
{
    if k == 0 {
        Seq::empty()
    } else {
        let x = (r.x + k - 1) as u16;
        hline_ops(r, (k - 1) as nat) + seq![
            DrawOp::MoveTo(x, r.y),
            DrawOp::Print('─'),
            DrawOp::MoveTo(x, bottom(r)),
            DrawOp::Print('─'),
        ]
    }
}

/// The left and right edges for the first `k` rows.
pub open spec fn vline_ops(r: Rect, k: nat) -> Seq<DrawOp>
    decreases k,
{
    if k == 0 {
        Seq::empty()
    } else {
        let y = (r.y + k - 1) as u16;
        vline_ops(r, (k - 1) as nat) + seq![
            DrawOp::MoveTo(r.x, y),
            DrawOp::Print('│'),
            DrawOp::MoveTo(right(r), y),
            DrawOp::Print('│'),
        ]
    }
}

/// The four corners.
pub open spec fn corner_ops(r: Rect) -> Seq<DrawOp> {
    seq![
        DrawOp::MoveTo(r.x, r.y),
        DrawOp::Print('┌'),
        DrawOp::MoveTo(right(r), r.y),
        DrawOp::Print('┐'),
        DrawOp::MoveTo(r.x, bottom(r)),
        DrawOp::Print('└'),
        DrawOp::MoveTo(right(r), bottom(r)),
        DrawOp::Print('┘'),
    ]
}

/// A box-drawing frame around the edge of a rectangle in `color`; nothing
/// for an empty rectangle.
pub open spec fn rect_ops(r: Rect, color: TermColor) -> Seq<DrawOp> {
    if r.w == 0 || r.h == 0 {
        Seq::empty()
    } else {
        seq![DrawOp::SetFg(color)] + hline_ops(r, r.w as nat) + vline_ops(r, r.h as nat) + corner_ops(r)
    }
}

/// Colours and glyph of one cell.
pub open spec fn cell_ops(c: Cell) -> Seq<DrawOp> {
    seq![DrawOp::SetFg(ansi_color(c.fg)), DrawOp::SetBg(ansi_color(c.bg)), DrawOp::Print(c.ch)]
}

/// The first `k` cells drawn for screen row `srow`; columns past the screen
/// repeat its last column.
pub open spec fn line_ops(s: ScreenModel, srow: int, k: nat) -> Seq<DrawOp>
    decreases k,
{
    if k == 0 {
        Seq::empty()
    } else {
        line_ops(s, srow, (k - 1) as nat) + cell_ops(
            s.cell_at(srow, min_nat((k - 1) as nat, last_index(s.cols)) as int),
        )
    }
}

/// The width inside a frame (at least 1).
pub open spec fn inner_w(r: Rect) -> nat {
    if r.w <= 3 {
        1
    } else {
        (r.w - 2) as nat
    }
}

/// The height inside a frame (at least 1).
pub open spec fn inner_h(r: Rect) -> nat {
    if r.h <= 3 {
        1
    } else {
        (r.h - 2) as nat
    }
}

/// The first `k` rows drawn inside a pane's frame; rows past the screen
/// repeat its last row.
pub open spec fn body_ops(p: Pane, k: nat) -> Seq<DrawOp>
    decreases k,
{
    if k == 0 {
        Seq::empty()
    } else {
        body_ops(p, (k - 1) as nat) + seq![DrawOp::MoveTo((p.rect.x + 1) as u16, (p.rect.y + k) as u16)]
            + line_ops(
            p.screen@,
            min_nat((k - 1) as nat, last_index(p.screen@.rows)) as int,
            inner_w(p.rect),
        )
    }
}

/// How many inner rows of a pane are drawn: those above the status line.
pub open spec fn rows_drawn(r: Rect, term_h: u16) -> nat {
    let room = (term_h - 1) - (r.y + 1);
    if room <= 0 {
        0
    } else {
        min_nat(inner_h(r), room as nat)
    }
}

/// A pane: its frame (green when focused, dark grey otherwise), then its
/// screen inside the frame.
pub open spec fn pane_ops(p: Pane, active: usize, term_h: u16) -> Seq<DrawOp> {
    rect_ops(
        p.rect,
        if p.id == active {
            TermColor::Green
        } else {
            TermColor::DarkGrey
        },
    ) + body_ops(p, rows_drawn(p.rect, term_h))
}

/// All panes, first to last.
pub open spec fn panes_ops(ps: Seq<Pane>, active: usize, term_h: u16) -> Seq<DrawOp>
    decreases ps.len(),
{
    if ps.len() == 0 {
        Seq::empty()
    } else {
        panes_ops(ps.drop_last(), active, term_h) + pane_ops(ps.last(), active, term_h)
    }
}

/// The decimal digits of `n`.
pub open spec fn decimal(n: nat) -> Seq<char>
    decreases n,
{
    if n < 10 {
        seq![(n + 48) as char]
    } else {
        decimal(n / 10).push(((n % 10) + 48) as char)
    }
}

/// `n` spaces.
pub open spec fn spaces(n: nat) -> Seq<char> {
    Seq::new(n, |i: int| ' ')
}

/// The status line's text before padding: the focused pane and the status
/// message.
pub open spec fn status_info(app: App) -> Seq<char> {
    " plexus | pane "@ + decimal(app.active as nat) + " | "@ + app.status@ + " | Ctrl+a:prefix "@
}

/// The status line: its text padded with spaces to as many bytes of UTF-8 as
/// the terminal is wide, then cut to as many characters.
pub open spec fn status_text(app: App) -> Seq<char> {
    let info = status_info(app);
    let pad = if encode_utf8(info).len() >= app.term_w {
        0
    } else {
        (app.term_w - encode_utf8(info).len()) as nat
    };
    let padded = info + spaces(pad);
    padded.take(min_nat(app.term_w as nat, padded.len()) as int)
}

/// Printing each character of a text.
pub open spec fn print_ops(t: Seq<char>) -> Seq<DrawOp>
    decreases t.len(),
{
    if t.len() == 0 {
        Seq::empty()
    } else {
        print_ops(t.drop_last()).push(print_at(t, t.len() - 1))
    }
}

/// Printing character `i` of a text.
pub open spec fn print_at(t: Seq<char>, i: int) -> DrawOp {
    DrawOp::Print(t[i])
}

/// The status line on the last terminal row, white on blue.
pub open spec fn status_ops(app: App) -> Seq<DrawOp> {
    seq![
        DrawOp::MoveTo(0, last_index(app.term_h as nat) as u16),
        DrawOp::SetBg(TermColor::Blue),
        DrawOp::SetFg(TermColor::White),
    ] + print_ops(status_text(app)) + seq![DrawOp::ResetColor]
}

/// A whole frame: clear, the panes, the status line.
pub open spec fn frame_ops(app: App) -> Seq<DrawOp> {
    seq![DrawOp::Clear] + panes_ops(app.panes@, app.active, app.term_h) + status_ops(app)
}

/// The UTF-8 encoding of two texts one after the other.
pub proof fn lemma_encode_utf8_append(a: Seq<char>, b: Seq<char>)
    ensures
        encode_utf8(a + b) == encode_utf8(a) + encode_utf8(b),
    decreases a.len(),
{
    if a.len() == 0 {
        assert(a + b =~= b);
        assert(encode_utf8(a) =~= Seq::<u8>::empty());
        assert(encode_utf8(a) + encode_utf8(b) =~= encode_utf8(b));
    } else {
        lemma_encode_utf8_append(a.drop_first(), b);
        assert((a + b).drop_first() =~= a.drop_first() + b);
        assert((a + b)[0] == a[0]);
        assert(encode_utf8(a + b) =~= encode_scalar(a[0] as u32) + encode_utf8(a.drop_first() + b));
    }
}

/// Appends the frame of a rectangle.
fn draw_rect(ops: &mut Vec<DrawOp>, rect: &Rect, color: TermColor)
    requires
        rect.fits(),
    ensures
        final(ops)@ == old(ops)@ + rect_ops(*rect, color),
{
    if rect.w == 0 || rect.h == 0 {
        assert(old(ops)@ + rect_ops(*rect, color) =~= old(ops)@);
        return;
    }
    let ghost start = ops@;
    ops.push(DrawOp::SetFg(color));
    let bot = rect.y + (rect.h - 1);
    let rgt = rect.x + (rect.w - 1);
    let mut k: u16 = 0;
    while k < rect.w
        invariant
            k <= rect.w,
            rect.fits(),
            rect.w > 0,
            rect.h > 0,
            bot == bottom(*rect),
            rgt == right(*rect),
            ops@ == start + seq![DrawOp::SetFg(color)] + hline_ops(*rect, k as nat),
        decreases rect.w - k,
    {
        let x = rect.x + k;
        ops.push(DrawOp::MoveTo(x, rect.y));
        ops.push(DrawOp::Print('─'));
        ops.push(DrawOp::MoveTo(x, bot));
        ops.push(DrawOp::Print('─'));
        k = k + 1;
        assert(ops@ =~= start + seq![DrawOp::SetFg(color)] + hline_ops(*rect, k as nat));
    }
    let ghost mid = ops@;
    let mut j: u16 = 0;
    while j < rect.h
        invariant
            j <= rect.h,
            rect.fits(),
            rect.w > 0,
            rect.h > 0,
            bot == bottom(*rect),
            rgt == right(*rect),
            ops@ == mid + vline_ops(*rect, j as nat),
        decreases rect.h - j,
    {
        let y = rect.y + j;
        ops.push(DrawOp::MoveTo(rect.x, y));
        ops.push(DrawOp::Print('│'));
        ops.push(DrawOp::MoveTo(rgt, y));
        ops.push(DrawOp::Print('│'));
        j = j + 1;
        assert(ops@ =~= mid + vline_ops(*rect, j as nat));
    }
    let ghost mid2 = ops@;
    ops.push(DrawOp::MoveTo(rect.x, rect.y));
    ops.push(DrawOp::Print('┌'));
    ops.push(DrawOp::MoveTo(rgt, rect.y));
    ops.push(DrawOp::Print('┐'));
    ops.push(DrawOp::MoveTo(rect.x, bot));
    ops.push(DrawOp::Print('└'));
    ops.push(DrawOp::MoveTo(rgt, bot));
    ops.push(DrawOp::Print('┘'));
    assert(ops@ =~= mid2 + corner_ops(*rect));
    assert(ops@ =~= start + rect_ops(*rect, color));
}

/// Appends what a pane draws: its frame and the rows of its screen above
/// the status line.
fn draw_pane(ops: &mut Vec<DrawOp>, pane: &Pane, active: usize, term_h: u16)
    requires
        pane.wf(),
        pane.rect.placed(),
        term_h >= 1,
    ensures
        final(ops)@ == old(ops)@ + pane_ops(*pane, active, term_h),
{
    let ghost start = ops@;
    let color = if pane.id == active { TermColor::Green } else { TermColor::DarkGrey };
    draw_rect(ops, &pane.rect, color);
    let ghost framed = ops@;
    let rect = pane.rect;
    let iw = rect.w.saturating_sub(2);
    let cols_in: usize = if iw < 1 { 1 } else { iw as usize };
    let ih = rect.h.saturating_sub(2);
    let rows_in: usize = if ih < 1 { 1 } else { ih as usize };
    let screen_rows = pane.screen.rows();
    let screen_cols = pane.screen.cols();
    let last_row = screen_rows.saturating_sub(1);
    let last_col = screen_cols.saturating_sub(1);
    let limit = term_h - 1;
    let mut row: usize = 0;
    while row < rows_in
        invariant
            pane.wf(),
            pane.rect.placed(),
            rect == pane.rect,
            term_h >= 1,
            limit == term_h - 1,
            cols_in as nat == inner_w(rect),
            rows_in as nat == inner_h(rect),
            last_row as nat == last_index(pane.screen@.rows),
            last_col as nat == last_index(pane.screen@.cols),
            row <= rows_drawn(rect, term_h),
            ops@ == framed + body_ops(*pane, row as nat),
        ensures
            row == rows_drawn(rect, term_h),
            ops@ == framed + body_ops(*pane, row as nat),
        decreases rows_in - row,
    {
        let screen_row = if row < last_row { row } else { last_row };
        let y = rect.y + 1 + row as u16;
        if y >= limit {
            break;
        }
        let ghost before = ops@;
        ops.push(DrawOp::MoveTo(rect.x + 1, y));
        let ghost moved = ops@;
        let mut col: usize = 0;
        while col < cols_in
            invariant
                pane.wf(),
                col <= cols_in,
                last_col as nat == last_index(pane.screen@.cols),
                screen_row as nat == min_nat(row as nat, last_index(pane.screen@.rows)),
                ops@ == moved + line_ops(pane.screen@, screen_row as int, col as nat),
            decreases cols_in - col,
        {
            let screen_col = if col < last_col { col } else { last_col };
            let cell = pane.screen.cell(screen_row, screen_col);
            ops.push(DrawOp::SetFg(ansi_to_color(cell.fg)));
            ops.push(DrawOp::SetBg(ansi_to_color(cell.bg)));
            ops.push(DrawOp::Print(cell.ch));
            col = col + 1;
            assert(ops@ =~= moved + line_ops(pane.screen@, screen_row as int, col as nat));
        }
        row = row + 1;
        assert(ops@ =~= framed + body_ops(*pane, row as nat));
    }
    assert(ops@ =~= start + pane_ops(*pane, active, term_h));
}

/// Appends the decimal digits of `n`.
fn push_decimal(out: &mut Vec<char>, n: usize)
    ensures
        final(out)@ == old(out)@ + decimal(n as nat),
    decreases n,
{
    if n >= 10 {
        push_decimal(out, n / 10);
    }
    let d = (n % 10) as u8;
    out.push((d + 48) as char);
    assert(out@ =~= old(out)@ + decimal(n as nat));
}

/// Appends the characters of `s`.
fn push_str(out: &mut Vec<char>, s: &str)
    ensures
        final(out)@ == old(out)@ + s@,
{
    let ghost start = out@;
    let mut chars = s.chars();
    loop
        invariant
            chars.obeys_prophetic_iter_laws(),
            chars.decrease() is Some,
            out@ + chars.remaining() == start + s@,
        ensures
            out@ == start + s@,
        decreases chars.decrease()->0,
    {
        let ghost rem = chars.remaining();
        match chars.next() {
            Some(c) => {
                out.push(c);
                assert(out@ + chars.remaining() =~= start + s@) by {
                    assert(rem =~= seq![c] + chars.remaining());
                }
            },
            None => {
                assert(out@ =~= start + s@);
                break;
            },
        }
    }
}

/// The number of bytes of the UTF-8 encoding of `c`.
fn utf8_width(c: char) -> (n: usize)
    ensures
        n == encode_scalar(c as u32).len(),
{
    let s = c as u32;
    if s <= 0x7f {
        1
    } else if s <= 0x7ff {
        2
    } else if s <= 0xffff && !(0xd800 <= s && s <= 0xdfff) {
        3
    } else {
        4
    }
}

/// The number of bytes of the UTF-8 encoding of a text, or `usize::MAX` if
/// that is more.
fn utf8_len(t: &Vec<char>) -> (n: usize)
    ensures
        n == min_nat(encode_utf8(t@).len(), usize::MAX as nat),
{
    let mut total: usize = 0;
    let mut i: usize = 0;
    proof {
        assert(t@.take(0) =~= Seq::<char>::empty());
    }
    while i < t.len()
        invariant
            i <= t@.len(),
            total == min_nat(encode_utf8(t@.take(i as int)).len(), usize::MAX as nat),
        decreases t@.len() - i,
    {
        let w = utf8_width(t[i]);
        proof {
            assert(t@.take(i + 1) =~= t@.take(i as int) + seq![t@[i as int]]);
            lemma_encode_utf8_append(t@.take(i as int), seq![t@[i as int]]);
            assert(seq![t@[i as int]].drop_first() =~= Seq::<char>::empty());
            assert(encode_utf8(Seq::<char>::empty()) =~= Seq::<u8>::empty());
            assert(seq![t@[i as int]][0] == t@[i as int]);
            assert(encode_utf8(seq![t@[i as int]]) =~= encode_scalar(t@[i as int] as u32));
        }
        total = total.saturating_add(w);
        i = i + 1;
    }
    assert(t@.take(i as int) =~= t@);
    total
}

/// Printing nothing draws nothing.
proof fn lemma_print_ops_empty(t: Seq<char>)
    ensures
        print_ops(t.take(0)) === Seq::<DrawOp>::empty(),
{
    assert(t.take(0).len() == 0);
}

/// Printing one more character appends its print command.
proof fn lemma_print_ops_push(t: Seq<char>, k: int)
    requires
        0 <= k < t.len(),
    ensures
        print_ops(t.take(k + 1)) === print_ops(t.take(k)).push(DrawOp::Print(t[k])),
{
    assert(t.take(k + 1).drop_last() =~= t.take(k));
    assert(t.take(k + 1)[k] == t[k]);
    assert(print_at(t.take(k + 1), k) === DrawOp::Print(t[k]));
}

/// Printing a text gives one print command per character, in order.
proof fn lemma_print_ops_index(t: Seq<char>)
    ensures
        print_ops(t).len() == t.len(),
        forall|k: int| 0 <= k < t.len() ==> #[trigger] print_ops(t)[k] == DrawOp::Print(t[k]),
    decreases t.len(),
{
    if t.len() > 0 {
        lemma_print_ops_index(t.drop_last());
        assert forall|k: int| 0 <= k < t.len() implies #[trigger] print_ops(t)[k] == DrawOp::Print(t[k]) by {
            if k < t.len() - 1 {
                assert(print_ops(t.drop_last())[k] == DrawOp::Print(t.drop_last()[k]));
            }
        }
    }
}

/// The last commands of a frame draw the status line on the terminal's last
/// row, white on blue: the characters " plexus | pane ", the decimal id of the
/// focused pane, " | ", the status message and " | Ctrl+a:prefix ", then
/// spaces, cut at the terminal's width; the colours are reset at the end.
pub proof fn lemma_status_line(app: App)
    ensures
        ({
            let ops = frame_ops(app);
            let info = " plexus | pane "@ + decimal(app.active as nat) + " | "@ + app.status@
                + " | Ctrl+a:prefix "@;
            let m = status_text(app).len() as int;
            let n = ops.len() as int;
            &&& 0 <= m <= app.term_w
            &&& m >= app.term_w || m >= info.len()
            &&& n >= m + 5
            &&& ops[n - m - 4] == DrawOp::MoveTo(0, if app.term_h == 0 { 0 } else { (app.term_h - 1) as u16 })
            &&& ops[n - m - 3] == DrawOp::SetBg(TermColor::Blue)
            &&& ops[n - m - 2] == DrawOp::SetFg(TermColor::White)
            &&& ops[n - 1] == DrawOp::ResetColor
            &&& forall|k: int|
                0 <= k < m ==> #[trigger] ops[n - m - 1 + k] == DrawOp::Print(
                    if k < info.len() {
                        info[k]
                    } else {
                        ' '
                    },
                )
        }),
{
    let ops = frame_ops(app);
    let info = " plexus | pane "@ + decimal(app.active as nat) + " | "@ + app.status@ + " | Ctrl+a:prefix "@;
    assert(status_info(app) == info);
    let t = status_text(app);
    let pad = if encode_utf8(info).len() >= app.term_w {
        0
    } else {
        (app.term_w - encode_utf8(info).len()) as nat
    };
    let padded = info + spaces(pad);
    assert(t == padded.take(min_nat(app.term_w as nat, padded.len()) as int));
    lemma_print_ops_index(t);
    let head = seq![DrawOp::Clear] + panes_ops(app.panes@, app.active, app.term_h);
    let st = status_ops(app);
    assert(ops == head + st);
    let m = t.len() as int;
    let n = ops.len() as int;
    assert(st.len() == m + 4);
    assert forall|k: int| 0 <= k < m implies #[trigger] ops[n - m - 1 + k] == DrawOp::Print(
        if k < info.len() {
            info[k]
        } else {
            ' '
        },
    ) by {
        assert(ops[n - m - 1 + k] == st[3 + k]);
        assert(st[3 + k] == print_ops(t)[k]);
        assert(t[k] == padded[k]);
    }
    assert(ops[n - m - 4] == st[0]);
    assert(ops[n - m - 3] == st[1]);
    assert(ops[n - m - 2] == st[2]);
    assert(ops[n - 1] == st[m + 3]);
}

/// Appends the status line.
fn draw_status(ops: &mut Vec<DrawOp>, app: &App)
    ensures
        final(ops)@ == old(ops)@ + status_ops(*app),
{
    let ghost start = ops@;
    ops.push(DrawOp::MoveTo(0, app.term_h.saturating_sub(1)));
    ops.push(DrawOp::SetBg(TermColor::Blue));
    ops.push(DrawOp::SetFg(TermColor::White));
    let ghost head = ops@;
    let mut info: Vec<char> = Vec::new();
    push_str(&mut info, " plexus | pane ");
    push_decimal(&mut info, app.active);
    push_str(&mut info, " | ");
    push_str(&mut info, app.status.as_str());
    push_str(&mut info, " | Ctrl+a:prefix ");
    assert(info@ =~= status_info(*app));
    let info_len = utf8_len(&info);
    let term_w = app.term_w as usize;
    let pad: usize = if info_len >= term_w { 0 } else { term_w - info_len };
    let n_print: usize = if info.len() >= term_w {
        term_w
    } else if info.len() + pad < term_w {
        info.len() + pad
    } else {
        term_w
    };
    let ghost info_s = status_info(*app);
    let ghost pad_s: nat = if encode_utf8(info_s).len() >= app.term_w {
        0
    } else {
        (app.term_w - encode_utf8(info_s).len()) as nat
    };
    let ghost padded = info_s + spaces(pad_s);
    assert(pad as nat == pad_s);
    assert(n_print as nat == min_nat(app.term_w as nat, padded.len()));
    let mut k: usize = 0;
    proof {
        lemma_print_ops_empty(padded);
    }
    assert(ops@ =~= head + print_ops(padded.take(0)));
    while k < n_print
        invariant
            k <= n_print,
            n_print <= padded.len(),
            info@ == info_s,
            padded == info_s + spaces(pad_s),
            ops@ == head + print_ops(padded.take(k as int)),
        decreases n_print - k,
    {
        let ch = if k < info.len() { info[k] } else { ' ' };
        assert(ch == padded[k as int]);
        ops.push(DrawOp::Print(ch));
        proof {
            lemma_print_ops_push(padded, k as int);
        }
        k = k + 1;
        assert(ops@ =~= head + print_ops(padded.take(k as int)));
    }
    ops.push(DrawOp::ResetColor);
    assert(ops@ =~= start + status_ops(*app));
}

/// The drawing commands for one frame: clear the terminal, draw every pane
/// (frame and screen), then the status line.
pub fn render(app: &App) -> (ops: Vec<DrawOp>)
    requires
        app.wf(),
        app.term_h >= 1,
    ensures
        ops@ == frame_ops(*app),
{
    let mut ops: Vec<DrawOp> = Vec::new();
    ops.push(DrawOp::Clear);
    let mut i: usize = 0;
    proof {
        assert(app.panes@.take(0) =~= Seq::<Pane>::empty());
    }
    while i < app.panes.len()
        invariant
            app.wf(),
            app.term_h >= 1,
            i <= app.panes@.len(),
            ops@ == seq![DrawOp::Clear] + panes_ops(app.panes@.take(i as int), app.active, app.term_h),
        decreases app.panes@.len() - i,
    {
        assert(app.panes@[i as int].wf());
        draw_pane(&mut ops, &app.panes[i], app.active, app.term_h);
        proof {
            assert(app.panes@.take(i + 1).drop_last() =~= app.panes@.take(i as int));
        }
        i = i + 1;
        assert(ops@ =~= seq![DrawOp::Clear] + panes_ops(app.panes@.take(i as int), app.active, app.term_h));
    }
    assert(app.panes@.take(i as int) =~= app.panes@);
    draw_status(&mut ops, app);
    assert(ops@ =~= frame_ops(*app));
    ops
}

} // verus!
