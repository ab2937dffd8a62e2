//! What programs in a terminal make of the bytes that keys send.

use crate::keys::{
    key_bytes, meaning, on_key, paste_text, pasted, takes_key, terminal_should_receive_ime_commit,
    Key, KeyAction, KeyActionView, Press, ScrollTo,
};
use crate::text;
use vstd::prelude::*;
use vstd::utf8::*;

verus! {

/// A key that sends a sequence of its own, and no text.
pub open spec fn named(k: Key) -> bool {
    !(k is Character) && !(k is Other)
}

/// A key whose sequence tells of the modifiers that are held.
pub open spec fn modified(k: Key) -> bool {
    k is ArrowUp || k is ArrowDown || k is ArrowRight || k is ArrowLeft || k is Home || k is End
        || k is Insert || k is Delete || k is PageUp || k is PageDown
}

/// The number at the front of a sequence that ends in a tilde: one digit, or two.
pub open spec fn code_read(b: Seq<u8>) -> int {
    if 0x30 <= b[3] <= 0x39 {
        (b[2] - 0x30) * 10 + (b[3] - 0x30)
    } else {
        b[2] - 0x30
    }
}

/// The key that a program takes a sequence for.
pub open spec fn key_read(b: Seq<u8>) -> Option<Key> {
    if b.len() == 1 {
        match b[0] {
            0x0d => Some(Key::Enter),
            0x7f => Some(Key::Backspace),
            0x09 => Some(Key::Tab),
            0x1b => Some(Key::Escape),
            0x20 => Some(Key::Space),
            _ => None,
        }
    } else if b.last() == 0x7e {
        let n = code_read(b);
        if n == 2 {
            Some(Key::Insert)
        } else if n == 3 {
            Some(Key::Delete)
        } else if n == 5 {
            Some(Key::PageUp)
        } else if n == 6 {
            Some(Key::PageDown)
        } else if n == 15 {
            Some(Key::F5)
        } else if n == 17 {
            Some(Key::F6)
        } else if n == 18 {
            Some(Key::F7)
        } else if n == 19 {
            Some(Key::F8)
        } else if n == 20 {
            Some(Key::F9)
        } else if n == 21 {
            Some(Key::F10)
        } else if n == 23 {
            Some(Key::F11)
        } else if n == 24 {
            Some(Key::F12)
        } else {
            None
        }
    } else {
        match b.last() {
            0x41 => Some(Key::ArrowUp),
            0x42 => Some(Key::ArrowDown),
            0x43 => Some(Key::ArrowRight),
            0x44 => Some(Key::ArrowLeft),
            0x46 => Some(Key::End),
            0x48 => Some(Key::Home),
            0x50 => Some(Key::F1),
            0x51 => Some(Key::F2),
            0x52 => Some(Key::F3),
            0x53 => Some(Key::F4),
            _ => None,
        }
    }
}

/// The modifiers that a program reads in a sequence: Shift, Alt and Ctrl.
pub open spec fn held(b: Seq<u8>) -> (bool, bool, bool) {
    if b.len() == 6 {
        let n = b[4] - 0x31;
        (n % 2 == 1, n / 2 % 2 == 1, n / 4 % 2 == 1)
    } else {
        (false, false, false)
    }
}

proof fn lemma_digit(n: nat)
    requires
        n < 10,
    ensures
        text::decimal(n) == seq![(48 + n) as u8],
{
}

/// A key is known by its bytes: a program reads the key that was pressed, in either cursor mode and
/// under all modifiers.
pub proof fn a_key_is_known_by_its_bytes(p: Press, app_cursor: bool)
    requires
        named(p.key),
    ensures
        key_read(key_bytes(p, app_cursor)) == Some(p.key),
{
    let m = crate::keys::modifier_of(p.shift, p.alt, p.control && !p.alt);
    lemma_digit(m as nat);
    lemma_digit(2);
    lemma_digit(3);
    lemma_digit(5);
    lemma_digit(6);
    let b = key_bytes(p, app_cursor);
    if modified(p.key) {
        if m > 1 {
            assert(b.len() == 6);
        } else {
            assert(b.len() == 3 || b.len() == 4);
        }
    }
}

/// The modifiers are known by the bytes of the keys that tell of them. Alt turns Ctrl off.
pub proof fn modifiers_are_known_by_the_bytes(p: Press, app_cursor: bool)
    requires
        modified(p.key),
    ensures
        held(key_bytes(p, app_cursor)) == (p.shift, p.alt, p.control && !p.alt),
{
    let m = crate::keys::modifier_of(p.shift, p.alt, p.control && !p.alt);
    lemma_digit(m as nat);
    lemma_digit(2);
    lemma_digit(3);
    lemma_digit(5);
    lemma_digit(6);
}

/// Two keys that send the same bytes under some modifiers are one key.
pub proof fn keys_are_told_apart(p: Press, q: Press, app_cursor: bool)
    requires
        named(p.key),
        named(q.key),
        p.key != q.key,
    ensures
        key_bytes(p, app_cursor) != key_bytes(q, app_cursor),
{
    a_key_is_known_by_its_bytes(p, app_cursor);
    a_key_is_known_by_its_bytes(q, app_cursor);
}

/// The arrows end in A, B, C and D, and Home and End in H and F.
pub proof fn arrows_end_in_their_letters(p: Press, app_cursor: bool)
    ensures
        p.key is ArrowUp ==> key_bytes(p, app_cursor).last() == 0x41,
        p.key is ArrowDown ==> key_bytes(p, app_cursor).last() == 0x42,
        p.key is ArrowRight ==> key_bytes(p, app_cursor).last() == 0x43,
        p.key is ArrowLeft ==> key_bytes(p, app_cursor).last() == 0x44,
        p.key is Home ==> key_bytes(p, app_cursor).last() == 0x48,
        p.key is End ==> key_bytes(p, app_cursor).last() == 0x46,
{
}

/// Every sequence begins with ESC. Behind it stands what says how it goes on: `O` for an unmodified
/// cursor key while the program asked for that, and for the first four function keys; `[` for all
/// others.
pub proof fn sequences_are_introduced(p: Press, app_cursor: bool)
    requires
        named(p.key),
        key_bytes(p, app_cursor).len() > 1,
    ensures
        key_bytes(p, app_cursor)[0] == 0x1b,
        key_bytes(p, app_cursor)[1] == 0x5b || key_bytes(p, app_cursor)[1] == 0x4f,
        key_bytes(p, app_cursor)[1] == 0x4f <==> p.key is F1 || p.key is F2 || p.key is F3 || p.key
            is F4 || app_cursor && !p.shift && !p.alt && !p.control && (p.key is ArrowUp || p.key
            is ArrowDown || p.key is ArrowRight || p.key is ArrowLeft || p.key is Home || p.key
            is End),
        key_bytes(p, app_cursor).len() == 6 ==> key_bytes(p, app_cursor)[3] == 0x3b,
        key_bytes(p, app_cursor).len() == 6 && key_bytes(p, app_cursor).last() != 0x7e ==> key_bytes(
            p,
            app_cursor,
        )[2] == 0x31,
{
    let m = crate::keys::modifier_of(p.shift, p.alt, p.control && !p.alt);
    lemma_digit(m as nat);
    lemma_digit(2);
    lemma_digit(3);
    lemma_digit(5);
    lemma_digit(6);
}

/// Text that is typed without Ctrl, or with Alt besides, reaches the program as it is.
pub proof fn text_is_typed_as_it_is(p: Press, app_cursor: bool)
    requires
        !named(p.key),
        !p.control || p.alt,
        p.text is Some,
        p.text->0@.len() > 0,
    ensures
        meaning(p, app_cursor, true) == KeyActionView::Type(encode_utf8(p.text->0@)),
        meaning(p, app_cursor, false) == KeyActionView::Type(encode_utf8(p.text->0@)),
{
    let t = p.text->0@;
    if encode_utf8(t).len() == 0 {
        encode_utf8_decode_utf8(t);
        encode_utf8_decode_utf8(Seq::<char>::empty());
        assert(encode_utf8(t) =~= encode_utf8(Seq::<char>::empty()));
        assert(false);
    }
}

proof fn lemma_one_byte(c: char)
    requires
        (c as u32) < 0x80,
    ensures
        encode_utf8(seq![c]).len() == 1,
        encode_utf8(seq![c])[0] as u32 == c as u32,
{
    let t = seq![c];
    assert(is_ascii_chars(t));
    is_ascii_chars_encode_utf8(t);
    assert(encode_utf8(t) =~= seq![c as u8]);
}

/// A letter's place in the alphabet is the code that it sends with Ctrl held, small or capital.
/// Nothing else is changed by Ctrl.
pub proof fn control_codes_count_the_alphabet(p: Press, app_cursor: bool, i: int)
    requires
        !named(p.key),
        p.control,
        !p.alt,
        p.text is Some,
        p.text->0@.len() == 1,
    ensures
        1 <= i <= 26 && (p.text->0@[0] as u32 == 0x60 + i || p.text->0@[0] as u32 == 0x40 + i)
            ==> key_bytes(p, app_cursor) == seq![i as u8],
        !(0x61 <= p.text->0@[0] as u32 <= 0x7a) && !(0x41 <= p.text->0@[0] as u32 <= 0x5a)
            ==> key_bytes(p, app_cursor) == encode_utf8(p.text->0@),
{
    let t = p.text->0@;
    let b = encode_utf8(t);
    if (t[0] as u32) < 0x80 {
        lemma_one_byte(t[0]);
        assert(t =~= seq![t[0]]);
    } else {
        if b.len() == 1 && b[0] < 0x80 {
            let u = seq![b[0] as char];
            assert(is_ascii_chars(u));
            is_ascii_chars_encode_utf8(u);
            assert(encode_utf8(u) =~= b);
            encode_utf8_decode_utf8(u);
            encode_utf8_decode_utf8(t);
            assert(u[0] == t[0]);
            assert(false);
        }
    }
}

/// With Shift the paging keys move through the history, each its own way, and reach no program; no
/// other press moves through it.
pub proof fn shift_pages_through_the_history(p: Press, app_cursor: bool, selected: bool)
    ensures
        p.shift && p.key is PageUp ==> meaning(p, app_cursor, selected) == KeyActionView::Scroll(
            ScrollTo::PageUp,
        ),
        p.shift && p.key is PageDown ==> meaning(p, app_cursor, selected) == KeyActionView::Scroll(
            ScrollTo::PageDown,
        ),
        p.shift && p.key is Home ==> meaning(p, app_cursor, selected) == KeyActionView::Scroll(
            ScrollTo::Top,
        ),
        p.shift && p.key is End ==> meaning(p, app_cursor, selected) == KeyActionView::Scroll(
            ScrollTo::Bottom,
        ),
        meaning(p, app_cursor, selected) is Scroll ==> p.shift && (p.key is PageUp || p.key
            is PageDown || p.key is Home || p.key is End),
{
}

/// A key that writes one character.
pub open spec fn writes(k: Key, c: char) -> bool {
    k matches Key::Character(s) && s@.len() == 1 && s@[0] == c
}

/// The clipboard's shortcuts. Ctrl-V pastes and Ctrl-Shift-C copies, Ctrl-Insert copies and
/// Shift-Insert pastes, and Ctrl-C copies where something is selected; Alt turns Ctrl off. No other
/// press touches the clipboard.
pub proof fn the_clipboard_has_its_shortcuts(p: Press, app_cursor: bool, selected: bool)
    ensures
        p.control && !p.alt && (writes(p.key, 'v') || writes(p.key, 'V')) ==> meaning(
            p,
            app_cursor,
            selected,
        ) is Paste,
        p.control && !p.alt && (writes(p.key, 'c') || writes(p.key, 'C')) ==> (meaning(
            p,
            app_cursor,
            selected,
        ) is Copy <==> p.shift || selected),
        p.control && !p.alt && p.key is Insert ==> meaning(p, app_cursor, selected) is Copy,
        p.shift && !(p.control && !p.alt) && p.key is Insert ==> meaning(
            p,
            app_cursor,
            selected,
        ) is Paste,
        meaning(p, app_cursor, selected) is Copy ==> p.control && !p.alt && (p.key is Insert
            || writes(p.key, 'c') || writes(p.key, 'C')),
        meaning(p, app_cursor, selected) is Paste ==> p.key is Insert && p.shift || p.control
            && !p.alt && (writes(p.key, 'v') || writes(p.key, 'V')),
{
    if let Key::Character(s) = p.key {
        if s@.len() == 1 {
            assert(s@ =~= seq![s@[0]]);
        }
        assert(seq!['c'].len() == 1 && seq!['c'][0] == 'c');
        assert(seq!['C'].len() == 1 && seq!['C'][0] == 'C');
        assert(seq!['v'].len() == 1 && seq!['v'][0] == 'v');
        assert(seq!['V'].len() == 1 && seq!['V'][0] == 'V');
    }
}

/// What is no shortcut is typed, and a press that types nothing does nothing.
pub proof fn everything_else_is_typed(p: Press, app_cursor: bool, selected: bool)
    ensures
        meaning(p, app_cursor, selected) matches KeyActionView::Type(b) ==> b == key_bytes(
            p,
            app_cursor,
        ) && b.len() > 0,
        meaning(p, app_cursor, selected) is Nothing ==> key_bytes(p, app_cursor).len() == 0
            && !named(p.key),
        named(p.key) && !p.shift && !p.control ==> meaning(p, app_cursor, selected)
            == KeyActionView::Type(key_bytes(p, app_cursor)),
{
    if named(p.key) {
        a_key_is_known_by_its_bytes(p, app_cursor);
    }
}

/// What a key press does is what its meaning says, whoever asks: the arrows reach the program as
/// themselves.
pub proof fn presses_are_carried_out(p: Press, app_cursor: bool, selected: bool, a: KeyAction)
    requires
        call_ensures(on_key, (&p, app_cursor, selected), a),
        named(p.key),
        !p.shift,
        !p.control,
    ensures
        a matches KeyAction::Type(b) && key_read(b@) == Some(p.key),
{
    everything_else_is_typed(p, app_cursor, selected);
    a_key_is_known_by_its_bytes(p, app_cursor);
}

/// Pasting sends the text itself, and between the two markers where the program asked for them.
/// No text sends nothing, not even markers.
pub proof fn pasting_sends_the_text(t: Seq<char>)
    ensures
        pasted(t, false) == encode_utf8(t),
        t.len() > 0 ==> pasted(t, true) == seq![0x1bu8, 0x5b, 0x32, 0x30, 0x30, 0x7e] + pasted(
            t,
            false,
        ) + seq![0x1bu8, 0x5b, 0x32, 0x30, 0x31, 0x7e],
        t.len() == 0 ==> pasted(t, true).len() == 0,
{
    if t.len() == 0 {
        assert(encode_utf8(t) =~= pasted(t, false));
    }
}

/// What is pasted in fact.
pub proof fn pastes_are_carried_out(t: &str, bracketed: bool, out: Vec<u8>)
    requires
        call_ensures(paste_text, (t, bracketed), out),
        t@.len() > 0,
    ensures
        !bracketed ==> out@ == encode_utf8(t@),
        bracketed ==> out@.len() == encode_utf8(t@).len() + 12 && out@.subrange(
            6,
            out@.len() - 6,
        ) == encode_utf8(t@),
{
    let b = encode_utf8(t@);
    if bracketed {
        assert(out@.subrange(6, out@.len() - 6) =~= b);
    }
}

/// Keys go to the terminals only when they are pressed, there is a terminal, and no dialog takes
/// text; composed text goes there only when nothing else took it.
pub proof fn dialogs_keep_their_input(text_input: bool, pressed: bool, terms: bool, b: bool, c: bool)
    requires
        call_ensures(takes_key, (text_input, pressed, terms), b),
        call_ensures(terminal_should_receive_ime_commit, (terms, text_input, !pressed), c),
    ensures
        b <==> pressed && terms && !text_input,
        c <==> pressed && terms && !text_input,
{
}

/// A sequence that ends in a tilde says the key's number and the modifiers, where there are any.
pub proof fn tilde_sequences_say_the_key(code: u8, modifier: u8, out: Vec<u8>)
    requires
        call_ensures(crate::keys::csi_tilde, (code, modifier), out),
        code < 10,
        modifier < 10,
    ensures
        out@[0] == 0x1b,
        out@[1] == 0x5b,
        out@[2] == 0x30 + code,
        out@.last() == 0x7e,
        modifier <= 1 ==> out@.len() == 4,
        modifier > 1 ==> out@.len() == 6 && out@[3] == 0x3b && out@[4] == 0x30 + modifier,
{
    lemma_digit(code as nat);
    lemma_digit(modifier as nat);
}

/// Ctrl makes control codes of single letters alone: longer texts are typed as they are, and a key
/// without a text types nothing.
pub proof fn longer_texts_are_typed_under_control(p: Press, app_cursor: bool)
    requires
        !named(p.key),
        p.text is None || p.text->0@.len() != 1,
    ensures
        p.text is None ==> key_bytes(p, app_cursor).len() == 0,
        p.text is Some ==> key_bytes(p, app_cursor) == encode_utf8(p.text->0@),
{
    if let Some(t) = p.text {
        if t@.len() > 1 {
            let (a, b) = (t@.take(1), t@.skip(1));
            assert(a + b =~= t@);
            text::lemma_encode_both(a, b);
            lemma_some_bytes(a);
            lemma_some_bytes(b);
        }
    }
}

proof fn lemma_some_bytes(s: Seq<char>)
    requires
        s.len() > 0,
    ensures
        encode_utf8(s).len() > 0,
{
    assert(encode_scalar(s[0] as u32).len() > 0);
}

} // verus!
