//! How written settings are understood.

use crate::bits;
use crate::color;
use crate::color::{Palette, Rgb};
use crate::config;
use crate::config::{
    color_of, color_or, color_presets, other_font, policy_of, readable, shape_of, written,
    ColorPreset, Config, CursorShape, Osc52,
};
use crate::text;
use vstd::prelude::*;
use vstd::utf8::*;

verus! {

/// What a hexadecimal digit is worth, small or capital.
pub open spec fn nibble(c: char) -> int {
    if '0' <= c <= '9' {
        c as int - 48
    } else if 'a' <= c <= 'f' {
        c as int - 87
    } else {
        c as int - 55
    }
}

/// A hexadecimal digit.
pub open spec fn is_hex(c: char) -> bool {
    '0' <= c <= '9' || 'a' <= c <= 'f' || 'A' <= c <= 'F'
}

proof fn lemma_hex_byte(c: char)
    requires
        is_hex(c),
    ensures
        config::hex_digit(c as u8) == Some(nibble(c)),
        c as u8 != 0x2b,
        0 <= nibble(c) < 16,
        !text::is_white(c),
        c != '#',
{
}

/// A colour is read in the order red, green, blue, two digits for each, the first worth sixteen
/// times the second; with a hash sign before it or without.
pub proof fn colors_are_read_in_order(a: char, b: char, c: char, d: char, e: char, f: char)
    requires
        is_hex(a),
        is_hex(b),
        is_hex(c),
        is_hex(d),
        is_hex(e),
        is_hex(f),
    ensures
        color_of(seq!['#', a, b, c, d, e, f]) == Some(
            Rgb {
                r: (16 * nibble(a) + nibble(b)) as u8,
                g: (16 * nibble(c) + nibble(d)) as u8,
                b: (16 * nibble(e) + nibble(f)) as u8,
            },
        ),
        color_of(seq![a, b, c, d, e, f]) == color_of(seq!['#', a, b, c, d, e, f]),
{
    let s = seq![a, b, c, d, e, f];
    let h = seq!['#', a, b, c, d, e, f];
    lemma_hex_byte(a);
    lemma_hex_byte(b);
    lemma_hex_byte(c);
    lemma_hex_byte(d);
    lemma_hex_byte(e);
    lemma_hex_byte(f);
    assert(text::trim(s) == s);
    assert(text::trim(h) == h);
    assert(h.skip(1) =~= s);
    reveal_with_fuel(config::trim_front, 2);
    assert(config::trim_front(s, '#') == s);
    assert(config::trim_front(h, '#') == s);
    assert(is_ascii_chars(s));
    is_ascii_chars_encode_utf8(s);
    let u = encode_utf8(s);
    assert(u =~= seq![a as u8, b as u8, c as u8, d as u8, e as u8, f as u8]) by {
        assert(s[0] as u8 == u[0]);
        assert(s[1] as u8 == u[1]);
        assert(s[2] as u8 == u[2]);
        assert(s[3] as u8 == u[3]);
        assert(s[4] as u8 == u[4]);
        assert(s[5] as u8 == u[5]);
    }
}

/// What is written for a colour is a hash sign and six small digits.
pub proof fn colors_are_written_in_small_digits(c: Rgb)
    ensures
        written(c).len() == 7,
        written(c)[0] == '#',
        nibble(written(c)[1]) * 16 + nibble(written(c)[2]) == c.r,
        nibble(written(c)[3]) * 16 + nibble(written(c)[4]) == c.g,
        nibble(written(c)[5]) * 16 + nibble(written(c)[6]) == c.b,
        forall|i: int|
            1 <= i < 7 ==> is_hex(#[trigger] written(c)[i]) && !('A' <= written(c)[i] <= 'F'),
{
}

/// A colour that cannot be read is the default.
pub proof fn unreadable_colors_are_the_default(s: Seq<char>, default: Rgb)
    ensures
        config::color_bytes(s).len() != 6 ==> color_of(s) is None,
        color_of(s) is None ==> color_or(s, default) == default,
        color_of(s) is Some ==> color_or(s, default) == color_of(s)->0,
{
}

/// The palette is drawn as the scheme says: every colour that is written in it is found in its
/// place, and a base colour that is missing is the standard one.
pub proof fn schemes_are_drawn_as_written(
    c: Config,
    p: Palette,
    fg: Rgb,
    bg: Rgb,
    cursor: Rgb,
    selection: Rgb,
    i: int,
    slot: Rgb,
)
    requires
        readable(c.colors),
        call_ensures(Config::palette, (&c,), p),
        c.colors.foreground@ == written(fg),
        c.colors.background@ == written(bg),
        c.colors.cursor@ == written(cursor),
        c.colors.selection@ == written(selection),
        0 <= i < 16,
        i < c.colors.ansi@.len() ==> c.colors.ansi@[i]@ == written(slot),
    ensures
        p.fg == fg,
        p.bg == bg,
        p.cursor == cursor,
        p.selection == selection,
        i < c.colors.ansi@.len() ==> p.ansi@[i] == slot,
        i >= c.colors.ansi@.len() ==> p.ansi@[i] == color::base16()[i],
{
    config::colors_round_trip(fg);
    config::colors_round_trip(bg);
    config::colors_round_trip(cursor);
    config::colors_round_trip(selection);
    config::colors_round_trip(slot);
    assert(p.ansi@[i] == config::ansi_slot(c.colors.ansi@, i));
}

/// Programs may read the clipboard only where that was asked for by name, and may write it unless
/// it was asked for otherwise.
pub proof fn the_clipboard_is_guarded(s: Seq<char>)
    ensures
        policy_of(s) == Osc52::OnlyPaste ==> s == "paste"@,
        policy_of(s) == Osc52::CopyPaste ==> s == "copy-paste"@,
        policy_of(s) == Osc52::Disabled ==> s == "disabled"@,
        policy_of("paste"@) == Osc52::OnlyPaste,
        policy_of("copy-paste"@) == Osc52::CopyPaste,
        policy_of("disabled"@) == Osc52::Disabled,
        policy_of("copy"@) == Osc52::OnlyCopy,
        s != "paste"@ && s != "copy-paste"@ && s != "disabled"@ ==> policy_of(s)
            == Osc52::OnlyCopy,
{
    reveal_strlit("paste");
    reveal_strlit("copy-paste");
    reveal_strlit("disabled");
    reveal_strlit("copy");
    assert("paste"@.len() == 5 && "copy-paste"@.len() == 10 && "disabled"@.len() == 8
        && "copy"@.len() == 4);
}

/// A cursor shape is known by its names, whatever stands in capitals; all else is a block.
pub proof fn shapes_are_known_by_name(s: Seq<char>)
    ensures
        ({
            let t = text::ascii_lowered(text::trim(s));
            &&& t == "beam"@ || t == "bar"@ ==> shape_of(s) == CursorShape::Beam
            &&& t == "underline"@ || t == "underscore"@ ==> shape_of(s) == CursorShape::Underline
            &&& shape_of(s) == CursorShape::Beam ==> t == "beam"@ || t == "bar"@
            &&& shape_of(s) == CursorShape::Underline ==> t == "underline"@ || t == "underscore"@
            &&& shape_of(s) != CursorShape::Beam && shape_of(s) != CursorShape::Underline
                ==> shape_of(s) == CursorShape::Block
        }),
{
    reveal_strlit("beam");
    reveal_strlit("bar");
    reveal_strlit("underline");
    reveal_strlit("underscore");
    assert("beam"@.len() == 4 && "bar"@.len() == 3 && "underline"@.len() == 9
        && "underscore"@.len() == 10);
}

/// A number between two positive bounds stays, one below or negative becomes the lower, and one
/// above the upper.
pub proof fn numbers_are_brought_between_bounds(r: bits::Single, low: bits::Single, high: bits::Single)
    requires
        low <= high < 0x7f80_0000,
    ensures
        low <= r <= high ==> bits::clamped(r, low, high) == r,
        r < low ==> bits::clamped(r, low, high) == low,
        0x8000_0000 <= r <= 0xff80_0000 ==> bits::clamped(r, low, high) == low,
        high < r <= 0x7f80_0000 ==> bits::clamped(r, low, high) == high,
        !bits::is_nan(r) ==> low <= bits::clamped(r, low, high) <= high,
{
}

/// Numbers are equal to themselves, but for what is not a number; the two zeros are equal, and no
/// other two numbers are.
pub proof fn numbers_are_compared_by_value(a: bits::Single, b: bits::Single)
    ensures
        !bits::is_nan(a) ==> bits::equal_numbers(a, a),
        bits::is_nan(a) ==> !bits::equal_numbers(a, b) && !bits::equal_numbers(b, a),
        bits::equal_numbers(0, 0x8000_0000),
        bits::equal_numbers(a, b) == bits::equal_numbers(b, a),
        bits::equal_numbers(a, b) && a != b ==> (a == 0 || a == 0x8000_0000) && (b == 0 || b
            == 0x8000_0000),
        bits::is_nan(a) <==> 0x7f80_0000 < a < 0x8000_0000 || a > 0xff80_0000,
{
}

/// A font is another one if its family or its size is.
pub proof fn fonts_differ_in_family_or_size(a: Config, b: Config)
    ensures
        config::family_of(a) != config::family_of(b) ==> other_font(a, b),
        !bits::equal_numbers(a.font_size, b.font_size) ==> other_font(a, b),
        config::family_of(a) == config::family_of(b) && a.font_size == b.font_size
            && !bits::is_nan(a.font_size) ==> !other_font(a, b),
{
}

/// In every preset the cursor has the colour of the text.
pub proof fn preset_cursors_follow_the_text(ps: Vec<ColorPreset>, i: int)
    requires
        call_ensures(color_presets, (), ps),
        0 <= i < ps@.len(),
    ensures
        ps@.len() == 5,
        ps@[i].cursor@ == ps@[i].foreground@,
        ps@[i].table() == config::preset_tables()[i],
{
    let tables = ps@.map_values(|p: ColorPreset| p.table());
    assert(tables.len() == ps@.len());
    assert(tables[i] == ps@[i].table());
    assert(ps@[i].table()[3] == ps@[i].cursor@);
    assert(ps@[i].table()[1] == ps@[i].foreground@);
}

/// Without a configuration everything has its default: 15 and 13 points, 5 points of padding, a
/// steady block, and programs that may write the clipboard and not read it.
pub proof fn defaults_are_plain(c: Config)
    requires
        call_ensures(<Config as Default>::default, (), c),
    ensures
        c.font_size == 0x4170_0000,
        c.ui_font_size == 0x4150_0000,
        c.pane_padding == 0x40a0_0000,
        c.cursor_thickness == 0x3e19_999a,
        !c.cursor_blink,
        shape_of(c.cursor_shape@) == CursorShape::Block,
        policy_of(c.osc52@) == Osc52::OnlyCopy,
        c.font_family is None,
        c.profiles@.len() == 0,
{
    reveal_strlit("block");
    the_clipboard_is_guarded(c.osc52@);
    let s = "block"@;
    assert(s.len() == 5 && s[0] == 'b' && s[1] == 'l' && s[4] == 'k');
    assert(text::trim(s) == s);
    let t = text::ascii_lowered(s);
    assert(t[1] == 'l');
    shapes_are_known_by_name(s);
    reveal_strlit("beam");
    reveal_strlit("bar");
    reveal_strlit("underline");
    reveal_strlit("underscore");
    assert("beam"@.len() == 4 && "bar"@.len() == 3 && "underline"@.len() == 9
        && "underscore"@.len() == 10);
}

/// A channel is two digits, or a plus sign and one; everything else is no colour.
pub proof fn channels_are_digits(a: char, b: char, x: u8, y: u8)
    requires
        is_hex(a),
        is_hex(b),
    ensures
        config::hex_pair(a as u8, b as u8) == Some(16 * nibble(a) + nibble(b)),
        config::hex_pair(0x2b, b as u8) == Some(nibble(b)),
        config::hex_pair(x, y) is Some ==> hex_byte(y) && (hex_byte(x) || x == 0x2b),
        hex_byte(y) && (hex_byte(x) || x == 0x2b) ==> config::hex_pair(x, y) is Some,
{
    lemma_hex_byte(a);
    lemma_hex_byte(b);
}

/// A byte that writes a digit: a figure, or one of the first six letters in either case.
pub open spec fn hex_byte(b: u8) -> bool {
    0x30 <= b <= 0x39 || 0x61 <= b <= 0x66 || 0x41 <= b <= 0x46
}

/// A colour consists of digits throughout, but for plus signs in front of a second digit.
pub proof fn colors_consist_of_digits(s: Seq<char>, i: int)
    requires
        color_of(s) is Some,
        0 <= i < 6,
    ensures
        config::color_bytes(s).len() == 6,
        hex_byte(config::color_bytes(s)[i]) || i % 2 == 0 && config::color_bytes(s)[i] == 0x2b,
{
    let b = config::color_bytes(s);
    channels_are_digits('0', '0', b[0], b[1]);
    channels_are_digits('0', '0', b[2], b[3]);
    channels_are_digits('0', '0', b[4], b[5]);
}

/// White space round a colour does not matter, nor do hash signs in front.
pub proof fn colors_may_be_padded(a: Seq<char>, s: Seq<char>, b: Seq<char>)
    requires
        s.len() > 0,
        !text::is_white(s[0]),
        !text::is_white(s.last()),
        forall|i: int| 0 <= i < a.len() ==> text::is_white(#[trigger] a[i]),
        forall|i: int| 0 <= i < b.len() ==> text::is_white(#[trigger] b[i]),
    ensures
        color_of(a + s + b) == color_of(s),
        color_of(seq!['#'] + s) == color_of(s),
{
    let none = Seq::<char>::empty();
    crate::text_laws::trimming_takes_white_space(a, s, b);
    crate::text_laws::trimming_takes_white_space(none, s, none);
    assert(none + s + none =~= s);
    let h = seq!['#'] + s;
    assert(h[0] == '#' && h.last() == s.last());
    crate::text_laws::trimming_takes_white_space(none, h, none);
    assert(none + h + none =~= h);
    assert(h.skip(1) =~= s);
}

} // verus!
