use vstd::prelude::*;
use crate::keys::{typed_char, Keymap};
use crate::text::string_push;
use crate::viewport::Viewport;

verus! {

pub const KEY_ESCAPE: u8 = 9;
pub const KEY_ENTER: u8 = 36;
pub const KEY_UP: u8 = 111;
pub const KEY_DOWN: u8 = 116;
pub const KEY_BACKSPACE: u8 = 22;
pub const KEY_SHIFT_LEFT: u8 = 50;
pub const KEY_SHIFT_RIGHT: u8 = 62;

/// What the input loop does after a key event.
#[derive(Debug, Clone, Copy, PartialEq, Eq, Structural)]
pub enum KeyAction {
    /// Draw the list again and wait for the next event.
    Redraw,
    /// Close without launching anything.
    Quit,
    /// Launch the result at this index and close.
    Launch(usize),
}

/// Relies on `String::pop`: removes and returns the last character of `s`,
/// or returns `None` and leaves `s` as it is when it is empty.
#[verifier::external_body]
fn string_pop(s: &mut String) -> (r: Option<char>)
    ensures
        old(s)@.len() == 0 ==> r is None && final(s)@ == old(s)@,
        old(s)@.len() > 0 ==> r == Some(old(s)@.last()) && final(s)@ == old(s)@.drop_last(),
{
    s.pop()
}

/// The state of the input loop: the query typed so far, the selection
/// window over its results, and whether shift is held.
pub struct Session {
    pub query: String,
    pub view: Viewport,
    pub shift_down: bool,
}

/// The value of a [`Session`].
pub ghost struct SessionView {
    pub query: Seq<char>,
    pub view: Viewport,
    pub shift_down: bool,
}

impl View for Session {
    type V = SessionView;

    open spec fn view(&self) -> SessionView {
        SessionView { query: self.query@, view: self.view, shift_down: self.shift_down }
    }
}

/// The window reset to the first row.
pub open spec fn reset_view() -> Viewport {
    Viewport { selection: 0, start_offset: 0 }
}

/// The state and action after a key press of `code`, with `len` results.
pub open spec fn press_step(s: SessionView, code: u8, map: Seq<Seq<char>>, len: int) -> (
    SessionView,
    KeyAction,
) {
    if code == KEY_ESCAPE {
        (s, KeyAction::Quit)
    } else if code == KEY_ENTER {
        if s.view.selection < len {
            (s, KeyAction::Launch(s.view.selection))
        } else {
            (s, KeyAction::Quit)
        }
    } else if code == KEY_UP {
        let sel = if s.view.selection > 0 {
            (s.view.selection - 1) as usize
        } else {
            s.view.selection
        };
        (SessionView { view: Viewport { selection: sel, ..s.view }, ..s }, KeyAction::Redraw)
    } else if code == KEY_DOWN {
        let sel = if s.view.selection + 1 < len {
            (s.view.selection + 1) as usize
        } else {
            s.view.selection
        };
        (SessionView { view: Viewport { selection: sel, ..s.view }, ..s }, KeyAction::Redraw)
    } else if code == KEY_BACKSPACE {
        let q = if s.query.len() > 0 {
            s.query.drop_last()
        } else {
            s.query
        };
        (SessionView { query: q, view: reset_view(), ..s }, KeyAction::Redraw)
    } else if code == KEY_SHIFT_LEFT || code == KEY_SHIFT_RIGHT {
        (SessionView { shift_down: true, ..s }, KeyAction::Redraw)
    } else {
        match typed_char(map, code as int, s.shift_down) {
            Some(c) => (
                SessionView { query: s.query.push(c), view: reset_view(), ..s },
                KeyAction::Redraw,
            ),
            None => (s, KeyAction::Redraw),
        }
    }
}

/// The state after a key release of `code`.
pub open spec fn release_step(s: SessionView, code: u8) -> SessionView {
    if code == KEY_SHIFT_LEFT || code == KEY_SHIFT_RIGHT {
        SessionView { shift_down: false, ..s }
    } else {
        s
    }
}

impl Session {
    /// An empty query, the first row selected, shift up.
    pub fn new() -> (r: Session)
        ensures
            r@.query.len() == 0,
            r@.view == reset_view(),
            !r@.shift_down,
    {
        Session { query: String::new(), view: Viewport::new(), shift_down: false }
    }

    /// Appends `c` to the query and goes back to the first row.
    pub fn push_char(&mut self, c: char)
        ensures
            final(self)@ == (SessionView {
                query: old(self)@.query.push(c),
                view: reset_view(),
                ..old(self)@
            }),
    {
        string_push(&mut self.query, c);
        self.view.reset();
    }

    /// Removes the last character of the query, if any, and goes back to
    /// the first row.
    pub fn delete_char(&mut self)
        ensures
            final(self)@ == (SessionView {
                query: if old(self)@.query.len() > 0 {
                    old(self)@.query.drop_last()
                } else {
                    old(self)@.query
                },
                view: reset_view(),
                ..old(self)@
            }),
    {
        let _ = string_pop(&mut self.query);
        self.view.reset();
    }

    /// Handles a key press of `code` while `result_len` results are listed.
    pub fn key_press(&mut self, code: u8, keymap: &Keymap, result_len: usize) -> (act: KeyAction)
        ensures
            (final(self)@, act) == press_step(old(self)@, code, keymap@, result_len as int),
    {
        if code == KEY_ESCAPE {
            KeyAction::Quit
        } else if code == KEY_ENTER {
            if self.view.selection < result_len {
                KeyAction::Launch(self.view.selection)
            } else {
                KeyAction::Quit
            }
        } else if code == KEY_UP {
            self.view.select_previous();
            KeyAction::Redraw
        } else if code == KEY_DOWN {
            self.view.select_next(result_len);
            KeyAction::Redraw
        } else if code == KEY_BACKSPACE {
            self.delete_char();
            KeyAction::Redraw
        } else if code == KEY_SHIFT_LEFT || code == KEY_SHIFT_RIGHT {
            self.shift_down = true;
            KeyAction::Redraw
        } else {
            match keymap.typed_char(code, self.shift_down) {
                Some(c) => self.push_char(c),
                None => {},
            }
            KeyAction::Redraw
        }
    }

    /// Handles a key release of `code`.
    pub fn key_release(&mut self, code: u8)
        ensures
            final(self)@ == release_step(old(self)@, code),
    {
        if code == KEY_SHIFT_LEFT || code == KEY_SHIFT_RIGHT {
            self.shift_down = false;
        }
    }
}

/// Whatever the selection and first row were, a key press that changes the
/// query leaves the first row selected and shown first.
pub proof fn lemma_query_change_resets_view(
    s: SessionView,
    code: u8,
    map: Seq<Seq<char>>,
    len: int,
)
    ensures
        press_step(s, code, map, len).0.query != s.query ==> press_step(s, code, map, len).0.view
            == reset_view(),
{
}

} // verus!
