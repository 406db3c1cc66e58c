use terminal_window_manager::windows_keyboard_guard::{
    is_dead_char_message, WM_DEADCHAR, WM_NCDESTROY, WM_SYSDEADCHAR,
};

#[test]
fn identifies_dead_character_messages() {
    assert!(is_dead_char_message(WM_DEADCHAR));
    assert!(is_dead_char_message(WM_SYSDEADCHAR));
    assert!(!is_dead_char_message(WM_NCDESTROY));
}
