use plexus::vt::{Cell, VtScreen};

fn feed_str(s: &mut VtScreen, text: &[u8]) {
    for &b in text {
        s.feed(b);
    }
}

fn row_text(s: &VtScreen, row: usize) -> String {
    (0..s.cols()).map(|c| s.cell(row, c).ch).collect()
}

fn same(a: Cell, ch: char, fg: u8, bg: u8, bold: bool) -> bool {
    a.ch == ch && a.fg == fg && a.bg == bg && a.bold == bold
}

#[test]
fn new_screen_is_blank() {
    let s = VtScreen::new(3, 4);
    assert_eq!(s.rows(), 3);
    assert_eq!(s.cols(), 4);
    for r in 0..3 {
        for c in 0..4 {
            assert!(same(s.cell(r, c), '\0', 0, 0, false));
        }
    }
}

#[test]
fn cell_off_screen_is_blank() {
    let mut s = VtScreen::new(2, 2);
    feed_str(&mut s, b"ab");
    assert!(same(s.cell(5, 0), '\0', 0, 0, false));
    assert!(same(s.cell(0, 9), '\0', 0, 0, false));
}

#[test]
fn printable_bytes_use_default_pen() {
    let mut s = VtScreen::new(2, 5);
    feed_str(&mut s, b"ab");
    assert!(same(s.cell(0, 0), 'a', 7, 0, false));
    assert!(same(s.cell(0, 1), 'b', 7, 0, false));
    assert!(same(s.cell(0, 2), '\0', 0, 0, false));
}

#[test]
fn carriage_return_and_line_feed() {
    let mut s = VtScreen::new(3, 5);
    feed_str(&mut s, b"ab\r\nc");
    assert_eq!(row_text(&s, 0), "ab\0\0\0");
    assert_eq!(row_text(&s, 1), "c\0\0\0\0");
}

#[test]
fn line_feed_keeps_column() {
    let mut s = VtScreen::new(3, 5);
    feed_str(&mut s, b"ab\nc");
    assert_eq!(row_text(&s, 1), "\0\0c\0\0");
}

#[test]
fn wraps_at_right_edge() {
    let mut s = VtScreen::new(3, 3);
    feed_str(&mut s, b"abcd");
    assert_eq!(row_text(&s, 0), "abc");
    assert_eq!(row_text(&s, 1), "d\0\0");
}

#[test]
fn scrolls_at_bottom() {
    let mut s = VtScreen::new(2, 3);
    feed_str(&mut s, b"a\r\nb\r\nc");
    assert_eq!(row_text(&s, 0), "b\0\0");
    assert_eq!(row_text(&s, 1), "c\0\0");
}

#[test]
fn writing_last_cell_scrolls() {
    let mut s = VtScreen::new(2, 2);
    feed_str(&mut s, b"abcd");
    assert_eq!(row_text(&s, 0), "cd");
    assert_eq!(row_text(&s, 1), "\0\0");
    feed_str(&mut s, b"e");
    assert_eq!(row_text(&s, 1), "e\0");
}

#[test]
fn tab_moves_to_next_stop() {
    let mut s = VtScreen::new(2, 20);
    feed_str(&mut s, b"\tx");
    assert_eq!(s.cell(0, 8).ch, 'x');
    feed_str(&mut s, b"\ty");
    assert_eq!(s.cell(0, 16).ch, 'y');
}

#[test]
fn tab_stops_at_last_column() {
    let mut s = VtScreen::new(2, 5);
    feed_str(&mut s, b"\tx");
    assert_eq!(s.cell(0, 4).ch, 'x');
}

#[test]
fn backspace_moves_left() {
    let mut s = VtScreen::new(1, 5);
    feed_str(&mut s, b"ab\x08c");
    assert_eq!(row_text(&s, 0), "ac\0\0\0");
    let mut t = VtScreen::new(1, 5);
    feed_str(&mut t, b"\x08z");
    assert_eq!(t.cell(0, 0).ch, 'z');
}

#[test]
fn ignored_controls_do_nothing() {
    let mut s = VtScreen::new(1, 5);
    feed_str(&mut s, b"\x07\x00\x0e\x1a\x1c\x1fa");
    assert_eq!(row_text(&s, 0), "a\0\0\0\0");
}

#[test]
fn vertical_tab_and_form_feed_are_printed() {
    let mut s = VtScreen::new(1, 5);
    feed_str(&mut s, b"\x0b\x0c");
    assert_eq!(s.cell(0, 0).ch, '\u{0b}');
    assert_eq!(s.cell(0, 1).ch, '\u{0c}');
}

#[test]
fn high_bytes_are_latin1_chars() {
    let mut s = VtScreen::new(1, 5);
    feed_str(&mut s, &[0xe9, 0x7f]);
    assert_eq!(s.cell(0, 0).ch, '\u{e9}');
    assert_eq!(s.cell(0, 1).ch, '\u{7f}');
}

#[test]
fn cursor_position_is_one_based() {
    let mut s = VtScreen::new(5, 10);
    feed_str(&mut s, b"\x1b[2;3Hx");
    assert_eq!(s.cell(1, 2).ch, 'x');
    feed_str(&mut s, b"\x1b[4;6fy");
    assert_eq!(s.cell(3, 5).ch, 'y');
}

#[test]
fn cursor_position_defaults_and_clamps() {
    let mut s = VtScreen::new(5, 10);
    feed_str(&mut s, b"abc\x1b[Hx");
    assert_eq!(s.cell(0, 0).ch, 'x');
    feed_str(&mut s, b"\x1b[99;99Hy");
    // (4, 9) is the last cell: writing there scrolls the screen up.
    assert_eq!(s.cell(3, 9).ch, 'y');
    feed_str(&mut s, b"\x1b[0;0Hz");
    assert_eq!(s.cell(0, 0).ch, 'z');
}

#[test]
fn empty_parameter_fields_are_dropped() {
    // ";5" has one nonempty field, so 5 is the first parameter (the row).
    let mut s = VtScreen::new(6, 10);
    feed_str(&mut s, b"\x1b[;5Hx");
    assert_eq!(s.cell(4, 0).ch, 'x');
}

#[test]
fn too_large_parameters_are_dropped() {
    let mut s = VtScreen::new(6, 10);
    feed_str(&mut s, b"\x1b[70000;2Hx");
    assert_eq!(s.cell(1, 0).ch, 'x');
}

#[test]
fn cursor_moves_relative() {
    let mut s = VtScreen::new(5, 10);
    feed_str(&mut s, b"\x1b[3;5H\x1b[2Ax");
    assert_eq!(s.cell(0, 4).ch, 'x');
    feed_str(&mut s, b"\x1b[BY");
    assert_eq!(s.cell(1, 5).ch, 'Y');
    feed_str(&mut s, b"\x1b[5Dz");
    assert_eq!(s.cell(1, 1).ch, 'z');
    feed_str(&mut s, b"\x1b[3Cw");
    assert_eq!(s.cell(1, 5).ch, 'w');
}

#[test]
fn cursor_moves_clamp_at_edges() {
    let mut s = VtScreen::new(3, 4);
    feed_str(&mut s, b"\x1b[9Ax");
    assert_eq!(s.cell(0, 0).ch, 'x');
    feed_str(&mut s, b"\x1b[9B\x1b[9Cy");
    assert_eq!(s.cell(1, 3).ch, 'y');
    feed_str(&mut s, b"\x1b[H\x1b[9Dz");
    assert_eq!(s.cell(0, 0).ch, 'z');
}

#[test]
fn zero_count_moves_one() {
    let mut s = VtScreen::new(3, 4);
    feed_str(&mut s, b"\x1b[0Cx");
    assert_eq!(s.cell(0, 1).ch, 'x');
}

#[test]
fn erase_display_below() {
    let mut s = VtScreen::new(3, 3);
    feed_str(&mut s, b"abcdefghi");
    // After nine characters the screen has scrolled once.
    assert_eq!(row_text(&s, 0), "def");
    assert_eq!(row_text(&s, 1), "ghi");
    feed_str(&mut s, b"\x1b[1;2H\x1b[J");
    assert_eq!(row_text(&s, 0), "d\0\0");
    assert_eq!(row_text(&s, 1), "\0\0\0");
    assert_eq!(row_text(&s, 2), "\0\0\0");
}

#[test]
fn erase_display_all_homes_cursor() {
    let mut s = VtScreen::new(2, 3);
    feed_str(&mut s, b"abc\x1b[2;2H\x1b[2Jx");
    assert_eq!(row_text(&s, 0), "x\0\0");
    assert_eq!(row_text(&s, 1), "\0\0\0");
}

#[test]
fn erase_display_other_modes_do_nothing() {
    let mut s = VtScreen::new(2, 3);
    feed_str(&mut s, b"abc\x1b[1J\x1b[3J");
    assert_eq!(row_text(&s, 0), "abc");
}

#[test]
fn erase_line() {
    let mut s = VtScreen::new(2, 4);
    feed_str(&mut s, b"abcd\x1b[1;3H\x1b[K");
    assert_eq!(row_text(&s, 0), "ab\0\0");
    let mut t = VtScreen::new(2, 4);
    feed_str(&mut t, b"abcd\x1b[1;3H\x1b[2K");
    assert_eq!(row_text(&t, 0), "\0\0\0\0");
    let mut u = VtScreen::new(2, 4);
    feed_str(&mut u, b"abcd\x1b[1;3H\x1b[1K");
    assert_eq!(row_text(&u, 0), "abcd");
}

#[test]
fn graphic_rendition() {
    let mut s = VtScreen::new(1, 10);
    feed_str(&mut s, b"\x1b[1;31;42mA\x1b[0mB\x1b[91;103mC\x1b[22;39;49mD\x1b[35mE\x1b[mF");
    assert!(same(s.cell(0, 0), 'A', 1, 2, true));
    assert!(same(s.cell(0, 1), 'B', 7, 0, false));
    assert!(same(s.cell(0, 2), 'C', 9, 11, false));
    assert!(same(s.cell(0, 3), 'D', 7, 0, false));
    assert!(same(s.cell(0, 4), 'E', 5, 0, false));
    assert!(same(s.cell(0, 5), 'F', 7, 0, false));
}

#[test]
fn unknown_sgr_parameters_are_ignored() {
    let mut s = VtScreen::new(1, 4);
    feed_str(&mut s, b"\x1b[4;38mA");
    assert!(same(s.cell(0, 0), 'A', 7, 0, false));
}

#[test]
fn unknown_escape_is_dropped() {
    let mut s = VtScreen::new(1, 4);
    feed_str(&mut s, b"\x1bZa");
    assert_eq!(row_text(&s, 0), "a\0\0\0");
}

#[test]
fn private_markers_are_skipped() {
    let mut s = VtScreen::new(1, 4);
    feed_str(&mut s, b"\x1b[?25ha\x1b[>1;2mb");
    assert_eq!(row_text(&s, 0), "ab\0\0");
    assert!(same(s.cell(0, 1), 'b', 7, 0, true));
}

#[test]
fn unknown_csi_command_is_dropped() {
    let mut s = VtScreen::new(1, 4);
    feed_str(&mut s, b"\x1b[5Xa");
    assert_eq!(row_text(&s, 0), "a\0\0\0");
}

#[test]
fn resize_keeps_overlap() {
    let mut s = VtScreen::new(2, 3);
    feed_str(&mut s, b"abcde");
    s.resize(3, 2);
    assert_eq!(s.rows(), 3);
    assert_eq!(s.cols(), 2);
    assert_eq!(row_text(&s, 0), "ab");
    assert_eq!(row_text(&s, 1), "de");
    assert_eq!(row_text(&s, 2), "\0\0");
}

#[test]
fn resize_clamps_cursor() {
    let mut s = VtScreen::new(5, 5);
    feed_str(&mut s, b"\x1b[5;5H");
    s.resize(2, 3);
    feed_str(&mut s, b"x");
    // The cursor was moved to (1, 2), the last cell: writing there scrolls.
    assert_eq!(s.cell(0, 2).ch, 'x');
}

#[test]
fn resize_to_same_size_changes_nothing() {
    let mut s = VtScreen::new(2, 3);
    feed_str(&mut s, b"ab\r\nd");
    s.resize(2, 3);
    assert_eq!(row_text(&s, 0), "ab\0");
    assert_eq!(row_text(&s, 1), "d\0\0");
}

#[test]
fn screen_without_columns_ignores_text() {
    let mut s = VtScreen::new(2, 0);
    feed_str(&mut s, b"abc\r\n\x1b[K\x1b[J");
    assert_eq!(s.cols(), 0);
}

#[test]
fn chunked_feeding_is_the_same() {
    let text = b"hello\x1b[2;1Hworld\x1b[31m!";
    let mut a = VtScreen::new(3, 8);
    feed_str(&mut a, text);
    let mut b = VtScreen::new(3, 8);
    feed_str(&mut b, &text[..7]);
    feed_str(&mut b, &text[7..]);
    for r in 0..3 {
        for c in 0..8 {
            let (x, y) = (a.cell(r, c), b.cell(r, c));
            assert!(same(x, y.ch, y.fg, y.bg, y.bold));
        }
    }
}
