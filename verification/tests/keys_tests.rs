use plexus::app::{App, SplitDir};
use plexus::keys::{accepts_key, handle_key, key_to_bytes, KeyAction, KeyCode, KeyEvent};

fn key(code: KeyCode) -> KeyEvent {
    KeyEvent { code, ctrl: false, shift: false }
}

fn ctrl(c: char) -> KeyEvent {
    KeyEvent { code: KeyCode::Char(c), ctrl: true, shift: false }
}

#[test]
fn plain_characters_are_utf8() {
    assert_eq!(key_to_bytes(key(KeyCode::Char('a'))), vec![b'a']);
    assert_eq!(key_to_bytes(key(KeyCode::Char('é'))), vec![0xc3, 0xa9]);
    assert_eq!(key_to_bytes(key(KeyCode::Char('€'))), vec![0xe2, 0x82, 0xac]);
    assert_eq!(key_to_bytes(key(KeyCode::Char('😀'))), vec![0xf0, 0x9f, 0x98, 0x80]);
}

#[test]
fn shift_uppercases_ascii() {
    let k = KeyEvent { code: KeyCode::Char('q'), ctrl: false, shift: true };
    assert_eq!(key_to_bytes(k), vec![b'Q']);
    let k = KeyEvent { code: KeyCode::Char('1'), ctrl: false, shift: true };
    assert_eq!(key_to_bytes(k), vec![b'1']);
}

#[test]
fn control_characters() {
    assert_eq!(key_to_bytes(ctrl('c')), vec![3]);
    assert_eq!(key_to_bytes(ctrl('a')), vec![1]);
    assert_eq!(key_to_bytes(ctrl('z')), vec![26]);
    assert_eq!(key_to_bytes(ctrl(' ')), vec![0]);
    assert_eq!(key_to_bytes(ctrl('[')), vec![b'[']);
    assert_eq!(key_to_bytes(ctrl('é')), vec![0xe9]);
}

#[test]
fn special_keys() {
    assert_eq!(key_to_bytes(key(KeyCode::Enter)), vec![b'\r']);
    assert_eq!(key_to_bytes(key(KeyCode::Tab)), vec![b'\t']);
    assert_eq!(key_to_bytes(key(KeyCode::Backspace)), vec![0x7f]);
    assert_eq!(key_to_bytes(key(KeyCode::Esc)), vec![0x1b]);
    assert_eq!(key_to_bytes(key(KeyCode::Up)), b"\x1b[A".to_vec());
    assert_eq!(key_to_bytes(key(KeyCode::Down)), b"\x1b[B".to_vec());
    assert_eq!(key_to_bytes(key(KeyCode::Right)), b"\x1b[C".to_vec());
    assert_eq!(key_to_bytes(key(KeyCode::Left)), b"\x1b[D".to_vec());
    assert_eq!(key_to_bytes(key(KeyCode::Home)), b"\x1b[H".to_vec());
    assert_eq!(key_to_bytes(key(KeyCode::End)), b"\x1b[F".to_vec());
    assert_eq!(key_to_bytes(key(KeyCode::PageUp)), b"\x1b[5~".to_vec());
    assert_eq!(key_to_bytes(key(KeyCode::PageDown)), b"\x1b[6~".to_vec());
    assert_eq!(key_to_bytes(key(KeyCode::Delete)), b"\x1b[3~".to_vec());
    assert_eq!(key_to_bytes(key(KeyCode::Insert)), b"\x1b[2~".to_vec());
    assert_eq!(key_to_bytes(key(KeyCode::F(1))), b"\x1bOP".to_vec());
    assert_eq!(key_to_bytes(key(KeyCode::F(2))), b"\x1bOQ".to_vec());
    assert_eq!(key_to_bytes(key(KeyCode::F(3))), b"\x1bOR".to_vec());
    assert_eq!(key_to_bytes(key(KeyCode::F(4))), b"\x1bOS".to_vec());
    assert!(key_to_bytes(key(KeyCode::F(5))).is_empty());
    assert!(key_to_bytes(key(KeyCode::Other)).is_empty());
}

fn written(a: KeyAction) -> Option<Vec<u8>> {
    match a {
        KeyAction::Write(b) => Some(b),
        _ => None,
    }
}

#[test]
fn prefix_key_then_split() {
    let mut app = App::new(80, 24);
    assert!(accepts_key(&app, ctrl('a')));
    assert!(matches!(handle_key(&mut app, ctrl('a')), KeyAction::Nothing));
    assert!(app.prefix);
    assert_eq!(app.status, "prefix");
    match handle_key(&mut app, key(KeyCode::Char('|'))) {
        KeyAction::Spawn(p) => {
            assert_eq!(p.id, 1);
            assert_eq!(p.dir, SplitDir::Vertical);
            app.complete_split(p);
        }
        _ => panic!("expected a split"),
    }
    assert!(!app.prefix);
    assert_eq!(app.panes.len(), 2);
    assert_eq!(app.active, 1);
}

#[test]
fn prefix_then_horizontal_split() {
    let mut app = App::new(80, 24);
    handle_key(&mut app, ctrl('a'));
    assert!(matches!(handle_key(&mut app, key(KeyCode::Char('-'))), KeyAction::Spawn(_)));
}

#[test]
fn prefix_then_unknown() {
    let mut app = App::new(80, 24);
    handle_key(&mut app, ctrl('a'));
    assert!(matches!(handle_key(&mut app, key(KeyCode::Char('x'))), KeyAction::Nothing));
    assert_eq!(app.status, "unknown command");
    assert!(!app.prefix);
    handle_key(&mut app, ctrl('a'));
    assert!(matches!(handle_key(&mut app, key(KeyCode::Char('a'))), KeyAction::Nothing));
    assert_eq!(app.status, "unknown command");
}

#[test]
fn prefix_twice_sends_ctrl_a() {
    let mut app = App::new(80, 24);
    handle_key(&mut app, ctrl('a'));
    assert_eq!(written(handle_key(&mut app, ctrl('a'))), Some(vec![1]));
    assert!(!app.prefix);
    assert_eq!(app.status, "prefix");
}

#[test]
fn prefix_then_quit() {
    let mut app = App::new(80, 24);
    handle_key(&mut app, ctrl('a'));
    handle_key(&mut app, key(KeyCode::Char('q')));
    assert!(app.should_quit);
}

#[test]
fn prefix_then_close_and_navigate() {
    let mut app = App::new(80, 24);
    handle_key(&mut app, ctrl('a'));
    if let KeyAction::Spawn(p) = handle_key(&mut app, key(KeyCode::Char('|'))) {
        app.complete_split(p);
    }
    handle_key(&mut app, ctrl('a'));
    assert!(accepts_key(&app, key(KeyCode::Left)));
    handle_key(&mut app, key(KeyCode::Left));
    assert_eq!(app.active, 0);
    handle_key(&mut app, ctrl('a'));
    handle_key(&mut app, key(KeyCode::Char('c')));
    assert_eq!(app.panes.len(), 1);
    assert_eq!(app.active, 1);
    assert_eq!(app.status, "pane closed");
}

#[test]
fn other_keys_go_to_the_shell() {
    let mut app = App::new(80, 24);
    assert_eq!(written(handle_key(&mut app, key(KeyCode::Char('l')))), Some(vec![b'l']));
    assert_eq!(written(handle_key(&mut app, ctrl('c'))), Some(vec![3]));
    assert_eq!(written(handle_key(&mut app, key(KeyCode::Up))), Some(b"\x1b[A".to_vec()));
    assert_eq!(written(handle_key(&mut app, key(KeyCode::Other))), Some(vec![]));
    assert!(!app.prefix);
    assert_eq!(app.status, "");
}
