use rufi::commands::{ItemCache, ItemType, LaunchItem};
use rufi::keys::{keysym_to_char, Keymap};
use rufi::session::{
    KeyAction, Session, KEY_BACKSPACE, KEY_DOWN, KEY_ENTER, KEY_ESCAPE, KEY_SHIFT_LEFT, KEY_UP,
};
use rufi::viewport::Viewport;

#[test]
fn viewport_scrolls_down_and_back() {
    let h = [10u32, 10, 10, 10];
    let mut v = Viewport { selection: 3, start_offset: 0 };
    let n = v.compute(&h, 25);
    assert_eq!(n, 2);
    assert_eq!(v.start_offset, 2);
    assert_eq!(v.selection, 3);
    v.selection = 0;
    let n = v.compute(&h, 25);
    assert_eq!(n, 2);
    assert_eq!(v.start_offset, 0);
}

#[test]
fn viewport_clamps_selection_and_shows_one_tall_row() {
    let mut v = Viewport { selection: 9, start_offset: 0 };
    let n = v.compute(&[100, 5], 25);
    assert_eq!(n, 1);
    assert_eq!(v.selection, 1);
    assert_eq!(v.start_offset, 1);
    let mut e = Viewport { selection: 4, start_offset: 3 };
    assert_eq!(e.compute(&[], 25), 1);
    assert_eq!((e.selection, e.start_offset), (0, 0));
}

#[test]
fn viewport_keeps_window_when_selection_visible() {
    let mut v = Viewport { selection: 2, start_offset: 1 };
    let n = v.compute(&[10, 10, 10, 10, 10], 30);
    assert_eq!(n, 3);
    assert_eq!(v.start_offset, 1);
}

#[test]
fn selection_moves_without_wrapping() {
    let mut v = Viewport::new();
    v.select_previous();
    assert_eq!(v.selection, 0);
    v.select_next(2);
    assert_eq!(v.selection, 1);
    v.select_next(2);
    assert_eq!(v.selection, 1);
    v.select_next(0);
    assert_eq!(v.selection, 1);
}

#[test]
fn cache_staleness_follows_clock() {
    let mut c = ItemCache::new(5);
    assert!(c.is_expired());
    assert!(c.is_expired_at(0));
    assert!(c.is_expired_at(u64::MAX));
    c.update_at(Vec::new(), 1_000);
    assert!(!c.is_expired_at(1_000));
    assert!(!c.is_expired_at(6_000));
    assert!(c.is_expired_at(6_001));
    assert!(!c.is_expired_at(500));
}

#[test]
fn cache_update_by_clock_is_fresh() {
    let mut c = ItemCache::new(300);
    assert!(c.is_expired());
    let item = LaunchItem {
        name: "ls".to_string(),
        display_name: "ls".to_string(),
        command: "ls".to_string(),
        description: None,
        icon: None,
        item_type: ItemType::Command,
    };
    c.update(vec![item]);
    assert!(!c.is_expired());
    assert_eq!(c.get().len(), 1);
    assert_eq!(c.get()[0].name, "ls");
}

#[test]
fn query_change_resets_view() {
    let map = Keymap::fallback();
    let mut s = Session::new();
    s.view = Viewport { selection: 4, start_offset: 2 };
    assert_eq!(s.key_press(38, &map, 10), KeyAction::Redraw);
    assert_eq!(s.query, "a");
    assert_eq!((s.view.selection, s.view.start_offset), (0, 0));
    s.view = Viewport { selection: 3, start_offset: 3 };
    s.key_press(KEY_BACKSPACE, &map, 10);
    assert_eq!(s.query, "");
    assert_eq!((s.view.selection, s.view.start_offset), (0, 0));
    s.view = Viewport { selection: 7, start_offset: 1 };
    s.push_char('z');
    assert_eq!(s.query, "z");
    assert_eq!((s.view.selection, s.view.start_offset), (0, 0));
    s.view = Viewport { selection: 7, start_offset: 1 };
    s.delete_char();
    assert_eq!(s.query, "");
    assert_eq!((s.view.selection, s.view.start_offset), (0, 0));
}

#[test]
fn session_keys() {
    let map = Keymap::fallback();
    let mut s = Session::new();
    assert_eq!(s.key_press(KEY_DOWN, &map, 3), KeyAction::Redraw);
    assert_eq!(s.key_press(KEY_DOWN, &map, 3), KeyAction::Redraw);
    assert_eq!(s.key_press(KEY_DOWN, &map, 3), KeyAction::Redraw);
    assert_eq!(s.view.selection, 2);
    s.key_press(KEY_UP, &map, 3);
    assert_eq!(s.view.selection, 1);
    assert_eq!(s.key_press(KEY_ENTER, &map, 3), KeyAction::Launch(1));
    assert_eq!(s.key_press(KEY_ENTER, &map, 0), KeyAction::Quit);
    assert_eq!(s.key_press(KEY_ESCAPE, &map, 3), KeyAction::Quit);
    s.key_press(KEY_SHIFT_LEFT, &map, 3);
    assert!(s.shift_down);
    s.key_press(38, &map, 3);
    assert_eq!(s.query, "A");
    s.key_release(KEY_SHIFT_LEFT);
    assert!(!s.shift_down);
    s.key_press(39, &map, 3);
    assert_eq!(s.query, "Ab");
    s.key_press(200, &map, 3);
    assert_eq!(s.query, "Ab");
}

#[test]
fn fallback_layout() {
    let map = Keymap::fallback();
    assert_eq!(map.typed_char(38, false), Some('a'));
    assert_eq!(map.typed_char(63, true), Some('Z'));
    assert_eq!(map.typed_char(10, true), Some('0'));
    assert_eq!(map.typed_char(65, true), Some(' '));
    assert_eq!(map.typed_char(51, false), Some(','));
    assert_eq!(map.typed_char(53, true), Some('?'));
    assert_eq!(map.typed_char(9, false), None);
}

#[test]
fn keysyms_to_characters() {
    assert_eq!(keysym_to_char(0x61), Some('a'));
    assert_eq!(keysym_to_char(0x20), Some(' '));
    assert_eq!(keysym_to_char(0x7e), Some('~'));
    assert_eq!(keysym_to_char(0xff09), Some('\t'));
    assert_eq!(keysym_to_char(0xff08), None);
    assert_eq!(keysym_to_char(0xff0d), None);
    assert_eq!(keysym_to_char(0xff52), None);
    assert_eq!(keysym_to_char(0x7f), None);
}

#[test]
fn keymap_from_server_table() {
    // Keycodes 10 and 11, two keysyms each: 'a'/'A', then backspace/none.
    let syms = [0x61u32, 0x41, 0xff08, 0];
    let map = Keymap::from_reply(10, 11, 2, &syms);
    assert_eq!(map.typed_char(10, false), Some('a'));
    assert_eq!(map.typed_char(10, true), Some('A'));
    assert_eq!(map.typed_char(11, false), None);
    assert_eq!(map.typed_char(12, false), None);
    let fb = Keymap::from_reply(11, 11, 2, &[0xff08, 0xff0d]).or_fallback();
    assert_eq!(fb.typed_char(38, false), Some('a'));
    let kept = Keymap::from_reply(10, 10, 1, &[0x71]).or_fallback();
    assert_eq!(kept.typed_char(10, false), Some('q'));
    assert_eq!(kept.typed_char(38, false), None);
}
