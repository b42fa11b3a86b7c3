use vstd::prelude::*;
use vstd::utf8::encode_scalar;
use crate::app::{
    App, NavDir, PendingSplit, SplitDir, centre_dist, close_post, grid_fits, layout_fits, lemma_navigate_law, lies_toward,
    nav_post, split_post,
};

verus! {

/// A key, as the terminal reports it.
#[derive(Clone, Copy, Debug, PartialEq, Eq)]
pub enum KeyCode {
    Char(char),
    Enter,
    Tab,
    Backspace,
    Esc,
    Up,
    Down,
    Right,
    Left,
    Home,
    End,
    PageUp,
    PageDown,
    Delete,
    Insert,
    F(u8),
    /// Any other key; it sends nothing.
    Other,
}

/// A key press with the modifiers that matter here.
#[derive(Clone, Copy, Debug, PartialEq, Eq)]
pub struct KeyEvent {
    pub code: KeyCode,
    pub ctrl: bool,
    pub shift: bool,
}

/// `c` is an ASCII lowercase letter.
pub open spec fn is_ascii_lower(c: char) -> bool {
    'a' <= c <= 'z'
}

/// The ASCII uppercase form of `c`; other characters are left alone.
pub open spec fn ascii_upper(c: char) -> char {
    if is_ascii_lower(c) {
        ((c as u32) - 32) as char
    } else {
        c
    }
}

/// The bytes that a key sends to the shell: characters in UTF-8 (uppercased
/// with Shift), Ctrl with a letter its control code, Ctrl-space NUL, Ctrl with
/// another character the character's low byte, and the VT escape sequences of
/// the special keys; any other key sends nothing.
pub open spec fn key_bytes(key: KeyEvent) -> Seq<u8> {
    match key.code {
        KeyCode::Char(c) => if key.ctrl {
            if is_ascii_lower(c) {
                seq![((c as u32) - 0x60) as u8]
            } else if c == ' ' {
                seq![0u8]
            } else {
                seq![((c as u32) % 256) as u8]
            }
        } else {
            encode_scalar(
                (if key.shift {
                    ascii_upper(c)
                } else {
                    c
                }) as u32,
            )
        },
        KeyCode::Enter => seq![0x0du8],
        KeyCode::Tab => seq![0x09u8],
        KeyCode::Backspace => seq![0x7fu8],
        KeyCode::Esc => seq![0x1bu8],
        KeyCode::Up => seq![0x1bu8, 0x5bu8, 0x41u8],
        KeyCode::Down => seq![0x1bu8, 0x5bu8, 0x42u8],
        KeyCode::Right => seq![0x1bu8, 0x5bu8, 0x43u8],
        KeyCode::Left => seq![0x1bu8, 0x5bu8, 0x44u8],
        KeyCode::Home => seq![0x1bu8, 0x5bu8, 0x48u8],
        KeyCode::End => seq![0x1bu8, 0x5bu8, 0x46u8],
        KeyCode::PageUp => seq![0x1bu8, 0x5bu8, 0x35u8, 0x7eu8],
        KeyCode::PageDown => seq![0x1bu8, 0x5bu8, 0x36u8, 0x7eu8],
        KeyCode::Delete => seq![0x1bu8, 0x5bu8, 0x33u8, 0x7eu8],
        KeyCode::Insert => seq![0x1bu8, 0x5bu8, 0x32u8, 0x7eu8],
        KeyCode::F(n) => if n == 1 {
            seq![0x1bu8, 0x4fu8, 0x50u8]
        } else if n == 2 {
            seq![0x1bu8, 0x4fu8, 0x51u8]
        } else if n == 3 {
            seq![0x1bu8, 0x4fu8, 0x52u8]
        } else if n == 4 {
            seq![0x1bu8, 0x4fu8, 0x53u8]
        } else {
            Seq::empty()
        },
        KeyCode::Other => Seq::empty(),
    }
}

/// The UTF-8 encoding of `c`.
fn encode_char(c: char) -> (v: Vec<u8>)
    ensures
        v@ == encode_scalar(c as u32),
{
    let s = c as u32;
    let mut v: Vec<u8> = Vec::new();
    if s <= 0x7f {
        v.push((s & 0x7f) as u8);
    } else if s <= 0x7ff {
        v.push(0xc0 | ((s >> 6) & 0x1f) as u8);
        v.push(0x80 | (s & 0x3f) as u8);
    } else if s <= 0xffff && !(0xd800 <= s && s <= 0xdfff) {
        v.push(0xe0 | ((s >> 12) & 0x0f) as u8);
        v.push(0x80 | ((s >> 6) & 0x3f) as u8);
        v.push(0x80 | (s & 0x3f) as u8);
    } else {
        v.push(0xf0 | ((s >> 18) & 0x7) as u8);
        v.push(0x80 | ((s >> 12) & 0x3f) as u8);
        v.push(0x80 | ((s >> 6) & 0x3f) as u8);
        v.push(0x80 | (s & 0x3f) as u8);
    }
    assert(v@ =~= encode_scalar(s));
    v
}

/// The bytes that a key sends to the shell of the focused pane.
pub fn key_to_bytes(key: KeyEvent) -> (buf: Vec<u8>)
    ensures
        buf@ == key_bytes(key),
{
    let mut buf: Vec<u8> = Vec::new();
    match key.code {
        KeyCode::Char(c) => {
            if key.ctrl {
                let cv = c as u32;
                if 'a' <= c && c <= 'z' {
                    let b = (cv as u8) & 0x1f;
                    assert(b == (cv - 0x60) as u8) by (bit_vector)
                        requires
                            0x61 <= cv <= 0x7a,
                            b == (cv as u8) & 0x1f,
                    ;
                    buf.push(b);
                } else if c == ' ' {
                    buf.push(0);
                } else {
                    let b = cv as u8;
                    assert(b == (cv % 256) as u8) by (bit_vector)
                        requires
                            b == cv as u8,
                    ;
                    buf.push(b);
                }
            } else {
                let ch = if key.shift && 'a' <= c && c <= 'z' {
                    ((c as u8) - 32) as char
                } else {
                    c
                };
                buf = encode_char(ch);
            }
        },
        KeyCode::Enter => buf.push(0x0d),
        KeyCode::Tab => buf.push(0x09),
        KeyCode::Backspace => buf.push(0x7f),
        KeyCode::Esc => buf.push(0x1b),
        KeyCode::Up => {
            buf.push(0x1b);
            buf.push(0x5b);
            buf.push(0x41);
        },
        KeyCode::Down => {
            buf.push(0x1b);
            buf.push(0x5b);
            buf.push(0x42);
        },
        KeyCode::Right => {
            buf.push(0x1b);
            buf.push(0x5b);
            buf.push(0x43);
        },
        KeyCode::Left => {
            buf.push(0x1b);
            buf.push(0x5b);
            buf.push(0x44);
        },
        KeyCode::Home => {
            buf.push(0x1b);
            buf.push(0x5b);
            buf.push(0x48);
        },
        KeyCode::End => {
            buf.push(0x1b);
            buf.push(0x5b);
            buf.push(0x46);
        },
        KeyCode::PageUp => {
            buf.push(0x1b);
            buf.push(0x5b);
            buf.push(0x35);
            buf.push(0x7e);
        },
        KeyCode::PageDown => {
            buf.push(0x1b);
            buf.push(0x5b);
            buf.push(0x36);
            buf.push(0x7e);
        },
        KeyCode::Delete => {
            buf.push(0x1b);
            buf.push(0x5b);
            buf.push(0x33);
            buf.push(0x7e);
        },
        KeyCode::Insert => {
            buf.push(0x1b);
            buf.push(0x5b);
            buf.push(0x32);
            buf.push(0x7e);
        },
        KeyCode::F(n) => {
            if 1 <= n && n <= 4 {
                buf.push(0x1b);
                buf.push(0x4f);
                buf.push(0x4f + n);
            }
        },
        KeyCode::Other => {},
    }
    assert(buf@ =~= key_bytes(key));
    buf
}

/// What the shell of the focused pane, or the terminal, is asked to do after
/// a key.
pub enum KeyAction {
    /// Nothing outside the app's state.
    Nothing,
    /// Write these bytes to the focused pane's shell.
    Write(Vec<u8>),
    /// Start a shell for the new half of a split, then call `complete_split`.
    Spawn(PendingSplit),
}

/// The commands of the key that follows the prefix key.
pub enum PrefixCommand {
    Split(SplitDir),
    Close,
    Navigate(NavDir),
    Quit,
    SendPrefix,
    Unknown,
}

/// The prefix key: Ctrl+a.
pub open spec fn is_prefix_key(key: KeyEvent) -> bool {
    key.code == KeyCode::Char('a') && key.ctrl
}

/// The command of the key that follows the prefix key: `|` splits side by
/// side, `-` one above the other, `c` closes, the arrows move the focus, `q`
/// quits, Ctrl+a sends Ctrl+a itself, anything else is unknown.
pub open spec fn prefix_command(key: KeyEvent) -> PrefixCommand {
    match key.code {
        KeyCode::Char(c) => if c == '|' {
            PrefixCommand::Split(SplitDir::Vertical)
        } else if c == '-' {
            PrefixCommand::Split(SplitDir::Horizontal)
        } else if c == 'c' {
            PrefixCommand::Close
        } else if c == 'q' {
            PrefixCommand::Quit
        } else if c == 'a' && key.ctrl {
            PrefixCommand::SendPrefix
        } else {
            PrefixCommand::Unknown
        },
        KeyCode::Left => PrefixCommand::Navigate(NavDir::Left),
        KeyCode::Right => PrefixCommand::Navigate(NavDir::Right),
        KeyCode::Up => PrefixCommand::Navigate(NavDir::Up),
        KeyCode::Down => PrefixCommand::Navigate(NavDir::Down),
        _ => PrefixCommand::Unknown,
    }
}

/// The half of a split that an action hands out, if any.
pub open spec fn spawned(action: KeyAction) -> Option<PendingSplit> {
    match action {
        KeyAction::Spawn(p) => Some(p),
        _ => None,
    }
}

/// `new` is `old` with only the prefix state and the status line changed.
pub open spec fn same_layout(old: App, new: App) -> bool {
    &&& new.panes == old.panes
    &&& new.active == old.active
    &&& new.next_id == old.next_id
    &&& new.should_quit == old.should_quit
    &&& new.term_w == old.term_w
    &&& new.term_h == old.term_h
}

/// The key can be handled without overflow: the command it runs has what
/// that command needs.
pub open spec fn key_defined(app: App, key: KeyEvent) -> bool {
    app.prefix ==> match prefix_command(key) {
        PrefixCommand::Split(_) => app.can_split() ==> app.next_id < usize::MAX,
        PrefixCommand::Close => app.panes@.len() > 1 ==> layout_fits((app.panes@.len() - 1) as nat),
        PrefixCommand::Navigate(d) => app.nav_defined(d),
        _ => true,
    }
}

/// What a key does. After the prefix key, the next key runs a command and
/// clears the prefix state; otherwise the prefix key sets it and says so on
/// the status line, and any other key is sent to the focused pane's shell.
pub open spec fn key_post(old: App, new: App, key: KeyEvent, action: KeyAction) -> bool {
    if old.prefix {
        &&& !new.prefix
        &&& match prefix_command(key) {
            PrefixCommand::Split(d) => {
                &&& split_post(old, new, d, spawned(action))
                &&& (action is Nothing || action is Spawn)
            },
            PrefixCommand::Close => close_post(old, new) && action is Nothing,
            PrefixCommand::Navigate(d) => nav_post(old, new, d) && action is Nothing,
            PrefixCommand::Quit => {
                &&& new.should_quit
                &&& new.panes == old.panes
                &&& new.active == old.active
                &&& new.next_id == old.next_id
                &&& new.status == old.status
                &&& new.term_w == old.term_w
                &&& new.term_h == old.term_h
                &&& action is Nothing
            },
            PrefixCommand::SendPrefix => {
                &&& same_layout(old, new)
                &&& new.status == old.status
                &&& action matches KeyAction::Write(b) && b@ == seq![0x01u8]
            },
            PrefixCommand::Unknown => {
                &&& same_layout(old, new)
                &&& new.status@ == "unknown command"@
                &&& action is Nothing
            },
        }
    } else if is_prefix_key(key) {
        &&& new.prefix
        &&& same_layout(old, new)
        &&& new.status@ == "prefix"@
        &&& action is Nothing
    } else {
        &&& !new.prefix
        &&& same_layout(old, new)
        &&& new.status == old.status
        &&& action matches KeyAction::Write(b) && b@ == key_bytes(key)
    }
}

/// A character key sends the character's byte when it is ASCII (its
/// uppercase with Shift when it is a lowercase letter), and Ctrl with a
/// lowercase letter sends that letter's control code, 1 for `a` to 26 for
/// `z`, whatever Shift says.
pub proof fn lemma_char_key_bytes(c: char, shift: bool)
    ensures
        (c as u32) < 0x80 && !(shift && 'a' <= c <= 'z') ==> key_bytes(
            KeyEvent { code: KeyCode::Char(c), ctrl: false, shift },
        ) == seq![(c as u32) as u8],
        'a' <= c <= 'z' ==> key_bytes(KeyEvent { code: KeyCode::Char(c), ctrl: false, shift: true })
            == seq![((c as u32) - 32) as u8],
        'a' <= c <= 'z' ==> key_bytes(KeyEvent { code: KeyCode::Char(c), ctrl: true, shift }) == seq![
            ((c as u32) - ('a' as u32) + 1) as u8,
        ],
{
    let v = c as u32;
    assert(v < 0x80 ==> (v & 0x7f) as u8 == v as u8) by (bit_vector);
    if 'a' <= c <= 'z' {
        let u = (v - 32) as u32;
        assert(u < 0x80 ==> (u & 0x7f) as u8 == u as u8) by (bit_vector);
        assert(ascii_upper(c) as u32 == u);
    }
}

/// After the prefix key, `|` cuts the focused pane into halves side by
/// side, `-` one above the other, `c` closes it, and `q` quits leaving the
/// panes and the focus alone; the prefix state is cleared either way.
pub proof fn lemma_prefix_commands(old: App, new: App, key: KeyEvent, action: KeyAction)
    requires
        old.wf(),
        old.prefix,
        key_post(old, new, key, action),
    ensures
        !new.prefix,
        key.code == KeyCode::Char('|') ==> split_post(old, new, SplitDir::Vertical, spawned(action)),
        key.code == KeyCode::Char('-') ==> split_post(old, new, SplitDir::Horizontal, spawned(action)),
        key.code == KeyCode::Char('c') ==> close_post(old, new) && action is Nothing,
        key.code == KeyCode::Char('q') ==> {
            &&& new.should_quit
            &&& new.panes == old.panes
            &&& new.active == old.active
            &&& action is Nothing
        },
{
}

/// After the prefix key, an arrow moves the focus that way: the panes stay
/// as they are, and the focus either stays or goes to a pane whose centre
/// lies on the arrow's side of the old focus's centre (above it for Up,
/// below for Down, left for Left, right for Right), one lying toward that
/// side as `navigate` picks it.
pub proof fn lemma_prefix_arrow_moves_focus(old: App, new: App, key: KeyEvent, action: KeyAction)
    requires
        old.wf(),
        old.prefix,
        key_post(old, new, key, action),
    ensures
        key.code == KeyCode::Up || key.code == KeyCode::Down || key.code == KeyCode::Left
            || key.code == KeyCode::Right ==> {
            &&& new.panes == old.panes
            &&& !new.prefix
            &&& action is Nothing
            &&& new.active == old.active || exists|k: int|
                {
                    let a = old.active_rect();
                    let b = old.panes@[k].rect;
                    &&& 0 <= k < old.panes@.len()
                    &&& #[trigger] old.panes@[k].id == new.active
                    &&& key.code == KeyCode::Up ==> b.y + b.h / 2 < a.y + a.h / 2
                    &&& key.code == KeyCode::Down ==> b.y + b.h / 2 > a.y + a.h / 2
                    &&& key.code == KeyCode::Left ==> b.x + b.w / 2 < a.x + a.w / 2
                    &&& key.code == KeyCode::Right ==> b.x + b.w / 2 > a.x + a.w / 2
                }
        },
{
    let d = match key.code {
        KeyCode::Up => NavDir::Up,
        KeyCode::Down => NavDir::Down,
        KeyCode::Left => NavDir::Left,
        _ => NavDir::Right,
    };
    if key.code == KeyCode::Up || key.code == KeyCode::Down || key.code == KeyCode::Left
        || key.code == KeyCode::Right {
        assert(prefix_command(key) == PrefixCommand::Navigate(d));
        lemma_navigate_law(old, new, d);
        if new.active != old.active {
            let k = choose|k: int|
                {
                    &&& 0 <= k < old.panes@.len()
                    &&& old.panes@[k].id == new.active
                    &&& #[trigger] lies_toward(old.active_rect(), old.panes@[k].rect, d)
                    &&& forall|j: int|
                        0 <= j < old.panes@.len() && old.panes@[j].id != old.active
                            && #[trigger] lies_toward(old.active_rect(), old.panes@[j].rect, d)
                            ==> centre_dist(old.active_rect(), old.panes@[k].rect)
                            <= centre_dist(old.active_rect(), old.panes@[j].rect)
                };
            assert(old.panes@[k].id == new.active);
        }
    }
}

/// Handles a key press: the prefix key, the command after it, or a key for
/// the focused pane's shell.
pub fn handle_key(app: &mut App, key: KeyEvent) -> (action: KeyAction)
    requires
        old(app).wf(),
        key_defined(*old(app), key),
    ensures
        final(app).wf(),
        key_post(*old(app), *final(app), key, action),
{
    if app.prefix {
        app.prefix = false;
        match key.code {
            KeyCode::Char(c) => {
                if c == '|' {
                    match app.split(SplitDir::Vertical) {
                        Some(p) => KeyAction::Spawn(p),
                        None => KeyAction::Nothing,
                    }
                } else if c == '-' {
                    match app.split(SplitDir::Horizontal) {
                        Some(p) => KeyAction::Spawn(p),
                        None => KeyAction::Nothing,
                    }
                } else if c == 'c' {
                    app.close_active();
                    KeyAction::Nothing
                } else if c == 'q' {
                    app.should_quit = true;
                    KeyAction::Nothing
                } else if c == 'a' && key.ctrl {
                    let mut b: Vec<u8> = Vec::new();
                    b.push(0x01);
                    KeyAction::Write(b)
                } else {
                    app.set_status("unknown command".to_owned());
                    KeyAction::Nothing
                }
            },
            KeyCode::Left => {
                app.navigate(NavDir::Left);
                KeyAction::Nothing
            },
            KeyCode::Right => {
                app.navigate(NavDir::Right);
                KeyAction::Nothing
            },
            KeyCode::Up => {
                app.navigate(NavDir::Up);
                KeyAction::Nothing
            },
            KeyCode::Down => {
                app.navigate(NavDir::Down);
                KeyAction::Nothing
            },
            _ => {
                app.set_status("unknown command".to_owned());
                KeyAction::Nothing
            },
        }
    } else {
        let is_prefix = match key.code {
            KeyCode::Char(c) => c == 'a' && key.ctrl,
            _ => false,
        };
        if is_prefix {
            app.prefix = true;
            app.set_status("prefix".to_owned());
            KeyAction::Nothing
        } else {
            KeyAction::Write(key_to_bytes(key))
        }
    }
}

/// Whether `handle_key` can take the key without overflow (the test to make
/// before calling it).
pub fn accepts_key(app: &App, key: KeyEvent) -> (ok: bool)
    requires
        app.wf(),
    ensures
        ok == key_defined(*app, key),
{
    if !app.prefix {
        return true;
    }
    match key.code {
        KeyCode::Char(c) => {
            if c == '|' || c == '-' {
                let small = match app.active_pane() {
                    Some(p) => p.rect.w < 4 || p.rect.h < 4,
                    None => true,
                };
                small || app.next_id < usize::MAX
            } else if c == 'c' {
                app.panes.len() <= 1 || grid_fits(app.panes.len() - 1)
            } else {
                true
            }
        },
        KeyCode::Left => app.nav_is_defined(NavDir::Left),
        KeyCode::Right => app.nav_is_defined(NavDir::Right),
        KeyCode::Up => app.nav_is_defined(NavDir::Up),
        KeyCode::Down => app.nav_is_defined(NavDir::Down),
        _ => true,
    }
}

} // verus!
