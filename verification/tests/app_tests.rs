use plexus::app::{grid_fits, App, NavDir, Pane, Rect, SplitDir};

fn rect_is(r: Rect, x: u16, y: u16, w: u16, h: u16) -> bool {
    r.x == x && r.y == y && r.w == w && r.h == h
}

#[test]
fn rect_contains_and_center() {
    let r = Rect { x: 2, y: 3, w: 4, h: 5 };
    assert!(r.contains(2, 3));
    assert!(r.contains(5, 7));
    assert!(!r.contains(6, 3));
    assert!(!r.contains(2, 8));
    assert!(!r.contains(1, 4));
    assert_eq!(r.center(), (4, 5));
    let e = Rect { x: 0, y: 0, w: 0, h: 0 };
    assert!(!e.contains(0, 0));
    assert_eq!(Rect { x: 1, y: 1, w: 3, h: 3 }.center(), (2, 2));
}

#[test]
fn new_app_has_one_full_pane() {
    let app = App::new(80, 24);
    assert_eq!(app.panes.len(), 1);
    assert_eq!(app.active, 0);
    assert_eq!(app.next_id, 1);
    assert!(!app.prefix);
    assert!(!app.should_quit);
    assert_eq!(app.status, "");
    assert!(rect_is(app.panes[0].rect, 0, 0, 80, 23));
    assert_eq!(app.panes[0].screen.rows(), 23);
    assert_eq!(app.panes[0].screen.cols(), 80);
}

#[test]
fn new_app_on_tiny_terminal() {
    let app = App::new(0, 0);
    assert!(rect_is(app.panes[0].rect, 0, 0, 0, 1));
    assert_eq!(app.panes[0].screen.rows(), 1);
    assert_eq!(app.panes[0].screen.cols(), 1);
}

#[test]
fn pane_new_and_resize() {
    let mut p = Pane::new(7, Rect { x: 1, y: 2, w: 0, h: 5 });
    assert_eq!(p.id, 7);
    assert_eq!(p.screen.rows(), 5);
    assert_eq!(p.screen.cols(), 1);
    p.resize(Rect { x: 0, y: 0, w: 12, h: 0 });
    assert_eq!(p.screen.rows(), 1);
    assert_eq!(p.screen.cols(), 12);
    assert!(rect_is(p.rect, 0, 0, 12, 0));
}

#[test]
fn pane_feed_output_draws() {
    let mut p = Pane::new(0, Rect { x: 0, y: 0, w: 4, h: 2 });
    p.feed_output(b"hi\r\nyo");
    assert_eq!(p.screen.cell(0, 1).ch, 'i');
    assert_eq!(p.screen.cell(1, 0).ch, 'y');
}

#[test]
fn split_vertical_then_complete() {
    let mut app = App::new(80, 24);
    let pending = app.split(SplitDir::Vertical).expect("split");
    assert_eq!(pending.id, 1);
    assert!(rect_is(pending.rect, 40, 0, 40, 23));
    assert_eq!(pending.dir, SplitDir::Vertical);
    assert_eq!(app.next_id, 2);
    assert!(rect_is(app.panes[0].rect, 0, 0, 40, 23));
    assert_eq!(app.panes[0].screen.cols(), 40);
    assert_eq!(app.active, 0);
    app.complete_split(pending);
    assert_eq!(app.panes.len(), 2);
    assert_eq!(app.active, 1);
    assert_eq!(app.status, "split Vertical");
    assert!(rect_is(app.panes[1].rect, 40, 0, 40, 23));
}

#[test]
fn split_horizontal_odd_height() {
    let mut app = App::new(80, 24);
    let pending = app.split(SplitDir::Horizontal).expect("split");
    assert!(rect_is(app.panes[0].rect, 0, 0, 80, 11));
    assert!(rect_is(pending.rect, 0, 11, 80, 12));
    app.complete_split(pending);
    assert_eq!(app.status, "split Horizontal");
}

#[test]
fn split_too_small() {
    let mut app = App::new(3, 24);
    assert!(app.split(SplitDir::Vertical).is_none());
    assert_eq!(app.status, "pane too small to split");
    assert_eq!(app.next_id, 1);
    let mut low = App::new(80, 4);
    assert!(low.split(SplitDir::Horizontal).is_none());
    assert_eq!(low.status, "pane too small to split");
}

#[test]
fn failed_spawn_keeps_panes() {
    let mut app = App::new(80, 24);
    let _pending = app.split(SplitDir::Vertical).expect("split");
    app.set_status("spawn failed: EAGAIN".to_string());
    assert_eq!(app.panes.len(), 1);
    assert_eq!(app.active, 0);
    assert_eq!(app.next_id, 2);
    assert_eq!(app.status, "spawn failed: EAGAIN");
}

#[test]
fn navigate_between_halves() {
    let mut app = App::new(80, 24);
    let p = app.split(SplitDir::Vertical).unwrap();
    app.complete_split(p);
    assert_eq!(app.active, 1);
    assert!(app.nav_is_defined(NavDir::Left));
    app.navigate(NavDir::Left);
    assert_eq!(app.active, 0);
    app.navigate(NavDir::Left);
    assert_eq!(app.active, 0);
    app.navigate(NavDir::Up);
    assert_eq!(app.active, 0);
    app.navigate(NavDir::Right);
    assert_eq!(app.active, 1);
}

#[test]
fn navigate_picks_nearest() {
    let mut app = App::new(80, 24);
    let p = app.split(SplitDir::Vertical).unwrap();
    app.complete_split(p);
    // Pane 1 (right half) split again: pane 2 below it.
    let q = app.split(SplitDir::Horizontal).unwrap();
    app.complete_split(q);
    assert_eq!(app.active, 2);
    app.navigate(NavDir::Up);
    assert_eq!(app.active, 1);
    app.navigate(NavDir::Left);
    assert_eq!(app.active, 0);
    app.navigate(NavDir::Right);
    // Centres: pane 1 at (60, 5), pane 2 at (60, 17); pane 0 at (20, 11):
    // both are 6 rows off, pane 1 comes first.
    assert_eq!(app.active, 1);
    app.navigate(NavDir::Down);
    assert_eq!(app.active, 2);
}

#[test]
fn close_active_relays_out() {
    let mut app = App::new(80, 24);
    let p = app.split(SplitDir::Vertical).unwrap();
    app.complete_split(p);
    app.close_active();
    assert_eq!(app.panes.len(), 1);
    assert_eq!(app.panes[0].id, 0);
    assert_eq!(app.active, 0);
    assert_eq!(app.status, "pane closed");
    assert!(rect_is(app.panes[0].rect, 0, 0, 80, 23));
    assert!(!app.should_quit);
}

#[test]
fn close_last_pane_quits() {
    let mut app = App::new(80, 24);
    app.close_active();
    assert!(app.should_quit);
    assert_eq!(app.panes.len(), 1);
}

#[test]
fn close_gives_focus_to_first_pane() {
    let mut app = App::new(80, 24);
    let p = app.split(SplitDir::Vertical).unwrap();
    app.complete_split(p);
    let q = app.split(SplitDir::Horizontal).unwrap();
    app.complete_split(q);
    app.navigate(NavDir::Left);
    assert_eq!(app.active, 0);
    app.close_active();
    assert_eq!(app.active, 1);
    assert_eq!(app.panes.len(), 2);
    assert_eq!(app.panes[0].id, 1);
    assert_eq!(app.panes[1].id, 2);
    // Two panes: two columns of 40 on one row of 23.
    assert!(rect_is(app.panes[0].rect, 0, 0, 40, 23));
    assert!(rect_is(app.panes[1].rect, 40, 0, 40, 23));
}

#[test]
fn resize_terminal_lays_out_grid() {
    let mut app = App::new(80, 24);
    let p = app.split(SplitDir::Vertical).unwrap();
    app.complete_split(p);
    let q = app.split(SplitDir::Vertical).unwrap();
    app.complete_split(q);
    app.resize_terminal(81, 25);
    assert_eq!(app.term_w, 81);
    assert_eq!(app.term_h, 25);
    // Three panes: 2 columns of 40 (the last 41), 2 rows of 12.
    assert!(rect_is(app.panes[0].rect, 0, 0, 40, 12));
    assert!(rect_is(app.panes[1].rect, 40, 0, 41, 12));
    assert!(rect_is(app.panes[2].rect, 0, 12, 40, 12));
    assert_eq!(app.panes[2].screen.rows(), 12);
    assert_eq!(app.panes[1].screen.cols(), 41);
}

#[test]
fn resize_terminal_smaller_than_grid() {
    let mut app = App::new(80, 24);
    let p = app.split(SplitDir::Vertical).unwrap();
    app.complete_split(p);
    app.resize_terminal(1, 1);
    assert!(rect_is(app.panes[0].rect, 0, 0, 1, 1));
    assert!(rect_is(app.panes[1].rect, 0, 0, 1, 1));
}

#[test]
fn active_pane_is_found() {
    let mut app = App::new(80, 24);
    assert_eq!(app.active_pane().map(|p| p.id), Some(0));
    let p = app.split(SplitDir::Vertical).unwrap();
    app.complete_split(p);
    assert_eq!(app.active_pane().map(|p| p.id), Some(1));
}

#[test]
fn grid_fits_limits() {
    assert!(grid_fits(1));
    assert!(grid_fits(65279));
    assert!(!grid_fits(65280));
    assert!(!grid_fits(70000));
}
