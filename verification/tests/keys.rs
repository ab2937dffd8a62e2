use potty::keys::{
    csi_tilde, cursor_key, on_key, paste_text, takes_key, terminal_should_receive_ime_commit,
    xterm_modifier, Key, KeyAction, Press, ScrollTo,
};

#[test]
fn modifier_parameter() {
    assert_eq!(xterm_modifier(false, false, false), 1); // none
    assert_eq!(xterm_modifier(true, false, false), 2); // shift
    assert_eq!(xterm_modifier(false, true, false), 3); // alt
    assert_eq!(xterm_modifier(false, false, true), 5); // ctrl
    assert_eq!(xterm_modifier(true, false, true), 6); // ctrl+shift
    assert_eq!(xterm_modifier(true, true, true), 8); // all
}

#[test]
fn unmodified_cursor_keys_honour_app_mode() {
    assert_eq!(cursor_key(b'A', 1, false), b"\x1b[A"); // normal
    assert_eq!(cursor_key(b'A', 1, true), b"\x1bOA"); // application-cursor mode
    assert_eq!(cursor_key(b'D', 1, false), b"\x1b[D");
}

#[test]
fn modified_cursor_keys_use_csi_regardless_of_app_mode() {
    assert_eq!(cursor_key(b'D', 5, false), b"\x1b[1;5D"); // Ctrl-Left = word left
    assert_eq!(cursor_key(b'C', 5, true), b"\x1b[1;5C"); // app mode ignored when modified
    assert_eq!(cursor_key(b'A', 2, false), b"\x1b[1;2A"); // Shift-Up
    assert_eq!(cursor_key(b'F', 3, false), b"\x1b[1;3F"); // Alt-End
}

#[test]
fn editing_keys_tilde_form() {
    assert_eq!(csi_tilde(3, 1), b"\x1b[3~"); // Delete
    assert_eq!(csi_tilde(3, 5), b"\x1b[3;5~"); // Ctrl-Delete
    assert_eq!(csi_tilde(5, 6), b"\x1b[5;6~"); // Ctrl-Shift-PageUp
}

#[test]
fn ime_commit_goes_to_terminal_only_when_egui_does_not_own_text() {
    assert!(terminal_should_receive_ime_commit(true, false, false));
    assert!(!terminal_should_receive_ime_commit(true, true, false));
    assert!(!terminal_should_receive_ime_commit(true, false, true));
    assert!(!terminal_should_receive_ime_commit(false, false, false));
}

fn press(key: Key) -> Press {
    Press { key, text: None, shift: false, alt: false, control: false }
}

fn typed(p: &Press) -> Vec<u8> {
    match on_key(p, false, false) {
        KeyAction::Type(b) => b,
        other => panic!("{other:?}"),
    }
}

#[test]
fn named_keys_send_their_bytes() {
    assert_eq!(typed(&press(Key::Enter)), b"\r");
    assert_eq!(typed(&press(Key::Backspace)), b"\x7f");
    assert_eq!(typed(&press(Key::Tab)), b"\t");
    assert_eq!(typed(&press(Key::Escape)), b"\x1b");
    assert_eq!(typed(&press(Key::ArrowUp)), b"\x1b[A");
    assert_eq!(typed(&press(Key::Delete)), b"\x1b[3~");
    assert_eq!(typed(&press(Key::F5)), b"\x1b[15~");
    assert_eq!(typed(&Press { control: true, ..press(Key::ArrowLeft) }), b"\x1b[1;5D");
}

#[test]
fn text_of_a_key_is_typed() {
    let p = Press { text: Some("é".to_string()), ..press(Key::Character("é".to_string())) };
    assert_eq!(typed(&p), "é".as_bytes());
    assert_eq!(on_key(&press(Key::Other), false, false), KeyAction::Nothing);
}

#[test]
fn control_c_copies_only_a_selection() {
    let p = Press {
        text: Some("\u{3}".to_string()),
        control: true,
        ..press(Key::Character("c".to_string()))
    };
    assert_eq!(on_key(&p, false, true), KeyAction::Copy);
    assert_eq!(on_key(&p, false, false), KeyAction::Type(vec![3]));
}

#[test]
fn shift_pages_through_the_history() {
    let p = Press { shift: true, ..press(Key::PageUp) };
    assert_eq!(on_key(&p, false, false), KeyAction::Scroll(ScrollTo::PageUp));
    assert_eq!(typed(&press(Key::PageUp)), b"\x1b[5~");
}

#[test]
fn keys_go_to_a_terminal_unless_text_is_edited() {
    assert!(takes_key(false, true, true));
    assert!(!takes_key(true, true, true));
    assert!(!takes_key(false, false, true));
    assert!(!takes_key(false, true, false));
}

#[test]
fn a_bracketed_paste_is_wrapped() {
    assert_eq!(paste_text("a\nb", true), b"\x1b[200~a\nb\x1b[201~");
    assert_eq!(paste_text("é\n", false), "é\n".as_bytes());
    assert!(paste_text("", true).is_empty());
}
