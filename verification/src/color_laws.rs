//! The colours that the terminal starts with.

use crate::color::{base16, default_ansi, Palette, Rgb};
use crate::config::Config;
use vstd::prelude::*;

verus! {

/// A colour as one number, red first.
pub open spec fn number(c: Rgb) -> int {
    c.r * 0x1_0000 + c.g * 0x100 + c.b
}

/// The base colours are those of xterm: eight, and their bright counterparts.
pub proof fn base_colors_are_those_of_xterm(a: [Rgb; 16])
    requires
        call_ensures(default_ansi, (), a),
    ensures
        number(a@[0]) == 0x00_0000,
        number(a@[1]) == 0xcd_0000,
        number(a@[2]) == 0x00_cd00,
        number(a@[3]) == 0xcd_cd00,
        number(a@[4]) == 0x00_00ee,
        number(a@[5]) == 0xcd_00cd,
        number(a@[6]) == 0x00_cdcd,
        number(a@[7]) == 0xe5_e5e5,
        number(a@[8]) == 0x7f_7f7f,
        number(a@[9]) == 0xff_0000,
        number(a@[10]) == 0x00_ff00,
        number(a@[11]) == 0xff_ff00,
        number(a@[12]) == 0x5c_5cff,
        number(a@[13]) == 0xff_00ff,
        number(a@[14]) == 0x00_ffff,
        number(a@[15]) == 0xff_ffff,
{
}

/// Without a theme text is light on a dark ground, the cursor is as the text, and the base colours
/// are the default ones.
pub proof fn the_default_palette_is_dark(p: Palette)
    requires
        call_ensures(<Palette as Default>::default, (), p),
    ensures
        number(p.fg) == 0xcc_cccc,
        number(p.bg) == 0x0d_0d10,
        p.cursor == p.fg,
        number(p.selection) == 0x33_4a6b,
        p.ansi@ == base16(),
{
}

/// The focused pane's border is blue where no colour is set for it.
pub proof fn borders_are_blue(c: Config, rgb: Rgb)
    requires
        call_ensures(Config::border, (&c,), rgb),
        c.colors.border@.len() == 0,
    ensures
        number(rgb) == 0x78_a0ff,
{
}

} // verus!
