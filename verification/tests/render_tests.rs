use plexus::app::{App, SplitDir};
use plexus::render::{ansi_to_color, render, DrawOp, TermColor};

#[test]
fn ansi_colours() {
    let expected = [
        TermColor::Black,
        TermColor::DarkRed,
        TermColor::DarkGreen,
        TermColor::DarkYellow,
        TermColor::DarkBlue,
        TermColor::DarkMagenta,
        TermColor::DarkCyan,
        TermColor::Grey,
        TermColor::DarkGrey,
        TermColor::Red,
        TermColor::Green,
        TermColor::Yellow,
        TermColor::Blue,
        TermColor::Magenta,
        TermColor::Cyan,
        TermColor::White,
    ];
    for (i, c) in expected.iter().enumerate() {
        assert_eq!(ansi_to_color(i as u8), *c);
    }
    assert_eq!(ansi_to_color(16), TermColor::Reset);
    assert_eq!(ansi_to_color(255), TermColor::Reset);
}

fn status_text(ops: &[DrawOp]) -> String {
    let n = ops.len();
    assert_eq!(ops[n - 1], DrawOp::ResetColor);
    let mut i = n - 1;
    let mut text = Vec::new();
    while let DrawOp::Print(c) = ops[i - 1] {
        text.push(c);
        i -= 1;
    }
    assert_eq!(ops[i - 1], DrawOp::SetFg(TermColor::White));
    assert_eq!(ops[i - 2], DrawOp::SetBg(TermColor::Blue));
    text.iter().rev().collect()
}

#[test]
fn small_frame() {
    let app = App::new(4, 4);
    let ops = render(&app);
    assert_eq!(ops[0], DrawOp::Clear);
    assert_eq!(ops[1], DrawOp::SetFg(TermColor::Green));
    // Top and bottom edges of the 4 by 3 pane.
    assert_eq!(ops[2], DrawOp::MoveTo(0, 0));
    assert_eq!(ops[3], DrawOp::Print('─'));
    assert_eq!(ops[4], DrawOp::MoveTo(0, 2));
    assert_eq!(ops[5], DrawOp::Print('─'));
    // 1 + 4 * 4 + 4 * 3 + 8 ops of frame, then one inner row of 2 cells.
    let frame_end = 2 + 16 + 12 + 8;
    assert_eq!(ops[frame_end - 2], DrawOp::MoveTo(3, 2));
    assert_eq!(ops[frame_end - 1], DrawOp::Print('┘'));
    assert_eq!(ops[frame_end], DrawOp::MoveTo(1, 1));
    assert_eq!(ops[frame_end + 1], DrawOp::SetFg(TermColor::Black));
    assert_eq!(ops[frame_end + 2], DrawOp::SetBg(TermColor::Black));
    assert_eq!(ops[frame_end + 3], DrawOp::Print('\0'));
    assert_eq!(ops[frame_end + 7], DrawOp::MoveTo(0, 3));
    assert_eq!(status_text(&ops), " ple");
    assert_eq!(ops.len(), frame_end + 7 + 3 + 4 + 1);
}

#[test]
fn status_line_is_padded() {
    let mut app = App::new(40, 10);
    app.set_status("hi".to_string());
    let ops = render(&app);
    let text = status_text(&ops);
    assert_eq!(text, " plexus | pane 0 | hi | Ctrl+a:prefix   ");
    assert_eq!(text.chars().count(), 40);
}

#[test]
fn status_padding_counts_bytes() {
    let mut app = App::new(40, 10);
    app.set_status("é".to_string());
    let text = status_text(&render(&app));
    // " plexus | pane 0 | é | Ctrl+a:prefix " is 37 characters but 38 bytes:
    // 2 spaces of padding, so the line is one character short.
    assert_eq!(text, " plexus | pane 0 | é | Ctrl+a:prefix   ");
    assert_eq!(text.chars().count(), 39);
}

#[test]
fn status_line_shows_focused_pane() {
    let mut app = App::new(80, 24);
    let p = app.split(SplitDir::Vertical).unwrap();
    app.complete_split(p);
    let text = status_text(&render(&app));
    assert!(text.starts_with(" plexus | pane 1 | split Vertical | Ctrl+a:prefix "));
    assert_eq!(text.chars().count(), 80);
}

#[test]
fn inactive_pane_is_grey() {
    let mut app = App::new(80, 24);
    let p = app.split(SplitDir::Vertical).unwrap();
    app.complete_split(p);
    let ops = render(&app);
    assert_eq!(ops[1], DrawOp::SetFg(TermColor::DarkGrey));
    assert!(ops.contains(&DrawOp::SetFg(TermColor::Green)));
}

#[test]
fn rows_below_status_line_are_not_drawn() {
    let app = App::new(5, 2);
    let ops = render(&app);
    // Pane of height 1 at row 0: no inner row lies above the status row 1.
    assert!(!ops.contains(&DrawOp::MoveTo(1, 1)));
    assert_eq!(status_text(&ops), " plex");
}

#[test]
fn screen_content_is_drawn() {
    let mut app = App::new(10, 5);
    app.panes[0].feed_output(b"\x1b[32mok");
    let ops = render(&app);
    let ok = [
        DrawOp::SetFg(TermColor::DarkGreen),
        DrawOp::SetBg(TermColor::Black),
        DrawOp::Print('o'),
        DrawOp::SetFg(TermColor::DarkGreen),
        DrawOp::SetBg(TermColor::Black),
        DrawOp::Print('k'),
    ];
    assert!(ops.windows(6).any(|w| w == ok));
}
