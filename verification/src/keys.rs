//! What a key press means: a shortcut, a scroll of the history, or bytes for the terminal.

use crate::text;
use crate::text::{push_bytes, push_decimal};
use vstd::prelude::*;
use vstd::slice::*;
use vstd::string::*;

verus! {

/// A key by its meaning.
#[derive(Debug, PartialEq, Eq)]
pub enum Key {
    Enter,
    Backspace,
    Tab,
    Escape,
    Space,
    ArrowUp,
    ArrowDown,
    ArrowRight,
    ArrowLeft,
    Home,
    End,
    Insert,
    Delete,
    PageUp,
    PageDown,
    F1,
    F2,
    F3,
    F4,
    F5,
    F6,
    F7,
    F8,
    F9,
    F10,
    F11,
    F12,
    /// A key that writes a text.
    Character(String),
    Other,
}

/// A key press: the key, the text it types, and the modifiers held.
#[derive(Debug, PartialEq, Eq)]
pub struct Press {
    pub key: Key,
    pub text: Option<String>,
    pub shift: bool,
    pub alt: bool,
    pub control: bool,
}

/// Where the history viewport goes.
#[derive(Debug, Clone, Copy, PartialEq, Eq, Structural)]
pub enum ScrollTo {
    PageUp,
    PageDown,
    Top,
    Bottom,
}

/// What to do with a key press in the focused pane.
#[derive(Debug, PartialEq, Eq)]
pub enum KeyAction {
    Scroll(ScrollTo),
    /// Copy the selection to the clipboard.
    Copy,
    /// Type the clipboard's text.
    Paste,
    /// Drop the selection, return to the prompt and send the bytes.
    Type(Vec<u8>),
    Nothing,
}

pub enum KeyActionView {
    Scroll(ScrollTo),
    Copy,
    Paste,
    Type(Seq<u8>),
    Nothing,
}

impl View for KeyAction {
    type V = KeyActionView;

    open spec fn view(&self) -> KeyActionView {
        match *self {
            KeyAction::Scroll(s) => KeyActionView::Scroll(s),
            KeyAction::Copy => KeyActionView::Copy,
            KeyAction::Paste => KeyActionView::Paste,
            KeyAction::Type(b) => KeyActionView::Type(b@),
            KeyAction::Nothing => KeyActionView::Nothing,
        }
    }
}

/// The modifier parameter of a key sequence: 1, and 1, 2 and 4 more for Shift, Alt and Ctrl.
pub open spec fn modifier_of(shift: bool, alt: bool, ctrl: bool) -> int {
    1 + (if shift {
        1int
    } else {
        0
    }) + (if alt {
        2int
    } else {
        0
    }) + (if ctrl {
        4int
    } else {
        0
    })
}

/// The modifier parameter for a key event. `1` means no modifiers; anything above selects the
/// modified key-encoding form.
pub fn xterm_modifier(shift: bool, alt: bool, ctrl: bool) -> (m: u8)
    ensures
        m == modifier_of(shift, alt, ctrl),
{
    let mut m: u8 = 1;
    if shift {
        m = m + 1;
    }
    if alt {
        m = m + 2;
    }
    if ctrl {
        m = m + 4;
    }
    m
}

/// A character below 256 in UTF-8.
pub open spec fn latin_bytes(b: u8) -> Seq<u8> {
    if b < 0x80 {
        seq![b]
    } else if b < 0xc0 {
        seq![0xc2u8, b]
    } else {
        seq![0xc3u8, (b - 0x40) as u8]
    }
}

/// A cursor key. With a modifier held it is always the CSI form with the modifier; without one it
/// follows the application-cursor mode.
pub open spec fn cursor_bytes(last: u8, modifier: int, app_cursor: bool) -> Seq<u8> {
    if modifier > 1 {
        seq![0x1bu8, 0x5b, 0x31, 0x3b] + text::decimal(modifier as nat) + latin_bytes(last)
    } else if app_cursor {
        seq![0x1bu8, 0x4f, last]
    } else {
        seq![0x1bu8, 0x5b, last]
    }
}

/// An editing key: its code, and the modifier where one is held.
pub open spec fn tilde_bytes(code: int, modifier: int) -> Seq<u8> {
    seq![0x1bu8, 0x5b] + text::decimal(code as nat) + (if modifier > 1 {
        seq![0x3bu8] + text::decimal(modifier as nat)
    } else {
        seq![]
    }) + seq![0x7eu8]
}

/// Encode a cursor key.
pub fn cursor_key(final_byte: u8, modifier: u8, app_cursor: bool) -> (out: Vec<u8>)
    ensures
        out@ == cursor_bytes(final_byte, modifier as int, app_cursor),
{
    let mut out: Vec<u8> = Vec::new();
    out.push(0x1b);
    if modifier > 1 {
        out.push(0x5b);
        out.push(0x31);
        out.push(0x3b);
        push_decimal(&mut out, modifier as u64);
        if final_byte < 0x80 {
            out.push(final_byte);
        } else if final_byte < 0xc0 {
            out.push(0xc2);
            out.push(final_byte);
        } else {
            out.push(0xc3);
            out.push(final_byte - 0x40);
        }
    } else if app_cursor {
        out.push(0x4f);
        out.push(final_byte);
    } else {
        out.push(0x5b);
        out.push(final_byte);
    }
    assert(out@ =~= cursor_bytes(final_byte, modifier as int, app_cursor));
    out
}

/// Encode an editing key.
pub fn csi_tilde(code: u8, modifier: u8) -> (out: Vec<u8>)
    ensures
        out@ == tilde_bytes(code as int, modifier as int),
{
    let mut out: Vec<u8> = Vec::new();
    out.push(0x1b);
    out.push(0x5b);
    push_decimal(&mut out, code as u64);
    if modifier > 1 {
        out.push(0x3b);
        push_decimal(&mut out, modifier as u64);
    }
    out.push(0x7e);
    assert(out@ =~= tilde_bytes(code as int, modifier as int));
    out
}

/// What a key's text sends: with Ctrl held a letter is the control code it names.
pub open spec fn text_bytes(t: Option<String>, ctrl: bool) -> Seq<u8> {
    match t {
        Some(s) => {
            let b = vstd::utf8::encode_utf8(s@);
            if ctrl && b.len() == 1 && (0x41 <= b[0] <= 0x5a || 0x61 <= b[0] <= 0x7a) {
                seq![
                    if b[0] >= 0x61 {
                        (b[0] - 0x60) as u8
                    } else {
                        (b[0] - 0x40) as u8
                    },
                ]
            } else {
                b
            }
        },
        None => seq![],
    }
}

/// The bytes that a key sends to the terminal.
pub open spec fn key_bytes(p: Press, app_cursor: bool) -> Seq<u8> {
    let ctrl = p.control && !p.alt;
    let m = modifier_of(p.shift, p.alt, ctrl);
    match p.key {
        Key::Enter => seq![0x0du8],
        Key::Backspace => seq![0x7fu8],
        Key::Tab => seq![0x09u8],
        Key::Escape => seq![0x1bu8],
        Key::Space => seq![0x20u8],
        Key::ArrowUp => cursor_bytes(0x41, m, app_cursor),
        Key::ArrowDown => cursor_bytes(0x42, m, app_cursor),
        Key::ArrowRight => cursor_bytes(0x43, m, app_cursor),
        Key::ArrowLeft => cursor_bytes(0x44, m, app_cursor),
        Key::Home => cursor_bytes(0x48, m, app_cursor),
        Key::End => cursor_bytes(0x46, m, app_cursor),
        Key::Insert => tilde_bytes(2, m),
        Key::Delete => tilde_bytes(3, m),
        Key::PageUp => tilde_bytes(5, m),
        Key::PageDown => tilde_bytes(6, m),
        Key::F1 => seq![0x1bu8, 0x4f, 0x50],
        Key::F2 => seq![0x1bu8, 0x4f, 0x51],
        Key::F3 => seq![0x1bu8, 0x4f, 0x52],
        Key::F4 => seq![0x1bu8, 0x4f, 0x53],
        Key::F5 => seq![0x1bu8, 0x5b, 0x31, 0x35, 0x7e],
        Key::F6 => seq![0x1bu8, 0x5b, 0x31, 0x37, 0x7e],
        Key::F7 => seq![0x1bu8, 0x5b, 0x31, 0x38, 0x7e],
        Key::F8 => seq![0x1bu8, 0x5b, 0x31, 0x39, 0x7e],
        Key::F9 => seq![0x1bu8, 0x5b, 0x32, 0x30, 0x7e],
        Key::F10 => seq![0x1bu8, 0x5b, 0x32, 0x31, 0x7e],
        Key::F11 => seq![0x1bu8, 0x5b, 0x32, 0x33, 0x7e],
        Key::F12 => seq![0x1bu8, 0x5b, 0x32, 0x34, 0x7e],
        Key::Character(_) => text_bytes(p.text, ctrl),
        Key::Other => text_bytes(p.text, ctrl),
    }
}

/// The viewport movement that a key asks for with Shift held.
pub open spec fn scroll_key(k: Key) -> Option<ScrollTo> {
    match k {
        Key::PageUp => Some(ScrollTo::PageUp),
        Key::PageDown => Some(ScrollTo::PageDown),
        Key::Home => Some(ScrollTo::Top),
        Key::End => Some(ScrollTo::Bottom),
        _ => None,
    }
}

/// What a key press in the focused pane does.
///
/// Alt turns Ctrl off: on some layouts the two together are how symbols are typed. Shift with a
/// paging key scrolls the history. Ctrl-C copies where something is selected and otherwise goes to
/// the program; with Shift it always copies. Ctrl-V pastes; Ctrl-Insert copies and Shift-Insert
/// pastes. Everything else is typed.
pub open spec fn meaning(p: Press, app_cursor: bool, selected: bool) -> KeyActionView {
    let ctrl = p.control && !p.alt;
    let scroll = scroll_key(p.key);
    let typed = key_bytes(p, app_cursor);
    if p.shift && scroll is Some {
        KeyActionView::Scroll(scroll->0)
    } else if ctrl && is_letter(p.key, 'c', 'C') && (p.shift || selected) {
        KeyActionView::Copy
    } else if ctrl && is_letter(p.key, 'v', 'V') {
        KeyActionView::Paste
    } else if ctrl && p.key is Insert {
        KeyActionView::Copy
    } else if p.shift && p.key is Insert {
        KeyActionView::Paste
    } else if typed.len() > 0 {
        KeyActionView::Type(typed)
    } else {
        KeyActionView::Nothing
    }
}

/// A key that writes the given letter, small or capital.
pub open spec fn is_letter(k: Key, small: char, capital: char) -> bool {
    k matches Key::Character(s) && (s@ == seq![small] || s@ == seq![capital])
}

fn letter(k: &Key, small: char, capital: char) -> (b: bool)
    ensures
        b == is_letter(*k, small, capital),
{
    match k {
        Key::Character(s) => {
            let cs = text::chars_of(s.as_str());
            if cs.len() == 1 && (cs[0] == small || cs[0] == capital) {
                assert(s@ =~= seq![cs@[0]]);
                true
            } else {
                assert(cs@ == seq![small] ==> cs@.len() == 1 && cs@[0] == small);
                assert(cs@ == seq![capital] ==> cs@.len() == 1 && cs@[0] == capital);
                false
            }
        },
        _ => false,
    }
}

fn typed_text(t: &Option<String>, ctrl: bool) -> (out: Vec<u8>)
    ensures
        out@ == text_bytes(*t, ctrl),
{
    match t {
        Some(s) => {
            let b = s.as_str().as_bytes();
            if ctrl && b.len() == 1 && ((0x41 <= b[0] && b[0] <= 0x5a) || (0x61 <= b[0] && b[0]
                <= 0x7a)) {
                let mut out: Vec<u8> = Vec::new();
                if b[0] >= 0x61 {
                    out.push(b[0] - 0x60);
                } else {
                    out.push(b[0] - 0x40);
                }
                assert(out@ =~= text_bytes(*t, ctrl));
                out
            } else {
                slice_to_vec(b)
            }
        },
        None => {
            let out: Vec<u8> = Vec::new();
            assert(out@ =~= seq![]);
            out
        },
    }
}

fn bytes_of(p: &Press, app_cursor: bool) -> (out: Vec<u8>)
    ensures
        out@ == key_bytes(*p, app_cursor),
{
    let ctrl: bool = p.control && !p.alt;
    let m: u8 = xterm_modifier(p.shift, p.alt, ctrl);
    let out: Vec<u8> = match &p.key {
        Key::Enter => vec![0x0d],
        Key::Backspace => vec![0x7f],
        Key::Tab => vec![0x09],
        Key::Escape => vec![0x1b],
        Key::Space => vec![0x20],
        Key::ArrowUp => cursor_key(0x41, m, app_cursor),
        Key::ArrowDown => cursor_key(0x42, m, app_cursor),
        Key::ArrowRight => cursor_key(0x43, m, app_cursor),
        Key::ArrowLeft => cursor_key(0x44, m, app_cursor),
        Key::Home => cursor_key(0x48, m, app_cursor),
        Key::End => cursor_key(0x46, m, app_cursor),
        Key::Insert => csi_tilde(2, m),
        Key::Delete => csi_tilde(3, m),
        Key::PageUp => csi_tilde(5, m),
        Key::PageDown => csi_tilde(6, m),
        Key::F1 => vec![0x1b, 0x4f, 0x50],
        Key::F2 => vec![0x1b, 0x4f, 0x51],
        Key::F3 => vec![0x1b, 0x4f, 0x52],
        Key::F4 => vec![0x1b, 0x4f, 0x53],
        Key::F5 => vec![0x1b, 0x5b, 0x31, 0x35, 0x7e],
        Key::F6 => vec![0x1b, 0x5b, 0x31, 0x37, 0x7e],
        Key::F7 => vec![0x1b, 0x5b, 0x31, 0x38, 0x7e],
        Key::F8 => vec![0x1b, 0x5b, 0x31, 0x39, 0x7e],
        Key::F9 => vec![0x1b, 0x5b, 0x32, 0x30, 0x7e],
        Key::F10 => vec![0x1b, 0x5b, 0x32, 0x31, 0x7e],
        Key::F11 => vec![0x1b, 0x5b, 0x32, 0x33, 0x7e],
        Key::F12 => vec![0x1b, 0x5b, 0x32, 0x34, 0x7e],
        Key::Character(_) => typed_text(&p.text, ctrl),
        Key::Other => typed_text(&p.text, ctrl),
    };
    assert(out@ =~= key_bytes(*p, app_cursor));
    out
}

/// Decide what a key press does in the focused pane.
pub fn on_key(p: &Press, app_cursor: bool, selected: bool) -> (a: KeyAction)
    ensures
        a@ == meaning(*p, app_cursor, selected),
{
    let ctrl: bool = p.control && !p.alt;
    if p.shift {
        match &p.key {
            Key::PageUp => {
                return KeyAction::Scroll(ScrollTo::PageUp);
            },
            Key::PageDown => {
                return KeyAction::Scroll(ScrollTo::PageDown);
            },
            Key::Home => {
                return KeyAction::Scroll(ScrollTo::Top);
            },
            Key::End => {
                return KeyAction::Scroll(ScrollTo::Bottom);
            },
            _ => {},
        }
    }
    if ctrl && letter(&p.key, 'c', 'C') && (p.shift || selected) {
        return KeyAction::Copy;
    }
    if ctrl && letter(&p.key, 'v', 'V') {
        return KeyAction::Paste;
    }
    match &p.key {
        Key::Insert => {
            if ctrl {
                return KeyAction::Copy;
            }
            if p.shift {
                return KeyAction::Paste;
            }
        },
        _ => {},
    }
    let typed = bytes_of(p, app_cursor);
    if typed.len() > 0 {
        KeyAction::Type(typed)
    } else {
        KeyAction::Nothing
    }
}

/// Whether a key event concerns the terminals at all: not while a dialog takes text, and only
/// presses.
pub fn takes_key(text_input_active: bool, pressed: bool, has_terms: bool) -> (b: bool)
    ensures
        b == (!text_input_active && pressed && has_terms),
{
    !text_input_active && pressed && has_terms
}

/// Text to paste, between markers where the program asked for them. Nothing is sent for no text.
pub open spec fn pasted(t: Seq<char>, bracketed: bool) -> Seq<u8> {
    let b = vstd::utf8::encode_utf8(t);
    if t.len() == 0 {
        seq![]
    } else if bracketed {
        seq![0x1bu8, 0x5b, 0x32, 0x30, 0x30, 0x7e] + b + seq![0x1bu8, 0x5b, 0x32, 0x30, 0x31, 0x7e]
    } else {
        b
    }
}

/// The bytes that pasting a text sends.
pub fn paste_text(t: &str, bracketed: bool) -> (out: Vec<u8>)
    ensures
        out@ == pasted(t@, bracketed),
{
    let mut out: Vec<u8> = Vec::new();
    if !t.is_empty() {
        if bracketed {
            push_bytes(&mut out, &[0x1b, 0x5b, 0x32, 0x30, 0x30, 0x7e]);
        }
        push_bytes(&mut out, t.as_bytes());
        if bracketed {
            push_bytes(&mut out, &[0x1b, 0x5b, 0x32, 0x30, 0x31, 0x7e]);
        }
    }
    assert(out@ =~= pasted(t@, bracketed));
    out
}

/// Whether composed text goes to the focused terminal.
pub fn terminal_should_receive_ime_commit(
    has_terms: bool,
    text_input_active: bool,
    egui_consumed: bool,
) -> (b: bool)
    ensures
        b == (has_terms && !text_input_active && !egui_consumed),
{
    has_terms && !text_input_active && !egui_consumed
}

/// A modifier held with a cursor key makes the same bytes in either cursor mode.
pub proof fn modified_cursor_keys_ignore_the_mode(last: u8, modifier: int)
    requires
        modifier > 1,
    ensures
        cursor_bytes(last, modifier, true) == cursor_bytes(last, modifier, false),
{
}

/// Different modifiers have different parameters.
pub proof fn modifiers_are_told_apart(
    s: bool,
    a: bool,
    c: bool,
    s2: bool,
    a2: bool,
    c2: bool,
)
    ensures
        modifier_of(s, a, c) == modifier_of(s2, a2, c2) ==> s == s2 && a == a2 && c == c2,
        1 <= modifier_of(s, a, c) <= 8,
{
}

/// Ctrl-C reaches the program exactly when nothing is selected.
pub proof fn interrupt_needs_no_selection(p: Press, app_cursor: bool)
    requires
        p.control,
        !p.alt,
        !p.shift,
        is_letter(p.key, 'c', 'C'),
        p.text matches Some(t) && t@ == seq!['c'],
    ensures
        meaning(p, app_cursor, true) == KeyActionView::Copy,
        meaning(p, app_cursor, false) == KeyActionView::Type(seq![0x03u8]),
{
    let t = p.text->0@;
    vstd::utf8::is_ascii_chars_encode_utf8(t);
    assert(vstd::utf8::encode_utf8(t) =~= seq![0x63u8]);
    assert(text_bytes(p.text, true) =~= seq![0x03u8]);
    let k = p.key->Character_0@;
    assert(k[0] == 'c' || k[0] == 'C');
    assert(seq!['v'][0] == 'v');
    assert(seq!['V'][0] == 'V');
}

} // verus!
