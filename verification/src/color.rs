//! Colours of terminal cells, and the palette they are drawn with.

use vstd::prelude::*;

verus! {

/// A colour by its components.
#[derive(Debug, Clone, Copy, PartialEq, Eq, Structural)]
pub struct Rgb {
    pub r: u8,
    pub g: u8,
    pub b: u8,
}

/// A cell's colour. Named colours count from 0: eight standard, eight bright, and, far above, the
/// defaults.
#[derive(Debug, Clone, Copy, PartialEq, Eq, Structural)]
pub enum Color {
    Named(u16),
    Indexed(u8),
    Spec(Rgb),
}

/// The named default text colour.
pub const FOREGROUND: u16 = 256;

/// The named default background colour.
pub const BACKGROUND: u16 = 257;

/// The 16 base ANSI colors, used as the palette baseline.
pub open spec fn base16() -> Seq<Rgb> {
    seq![
        Rgb { r: 0, g: 0, b: 0 },
        Rgb { r: 205, g: 0, b: 0 },
        Rgb { r: 0, g: 205, b: 0 },
        Rgb { r: 205, g: 205, b: 0 },
        Rgb { r: 0, g: 0, b: 238 },
        Rgb { r: 205, g: 0, b: 205 },
        Rgb { r: 0, g: 205, b: 205 },
        Rgb { r: 229, g: 229, b: 229 },
        Rgb { r: 127, g: 127, b: 127 },
        Rgb { r: 255, g: 0, b: 0 },
        Rgb { r: 0, g: 255, b: 0 },
        Rgb { r: 255, g: 255, b: 0 },
        Rgb { r: 92, g: 92, b: 255 },
        Rgb { r: 255, g: 0, b: 255 },
        Rgb { r: 0, g: 255, b: 255 },
        Rgb { r: 255, g: 255, b: 255 },
    ]
}

/// The 16 base ANSI colors.
pub fn default_ansi() -> (a: [Rgb; 16])
    ensures
        a@ == base16(),
{
    let a: [Rgb; 16] = [
        Rgb { r: 0, g: 0, b: 0 },
        Rgb { r: 205, g: 0, b: 0 },
        Rgb { r: 0, g: 205, b: 0 },
        Rgb { r: 205, g: 205, b: 0 },
        Rgb { r: 0, g: 0, b: 238 },
        Rgb { r: 205, g: 0, b: 205 },
        Rgb { r: 0, g: 205, b: 205 },
        Rgb { r: 229, g: 229, b: 229 },
        Rgb { r: 127, g: 127, b: 127 },
        Rgb { r: 255, g: 0, b: 0 },
        Rgb { r: 0, g: 255, b: 0 },
        Rgb { r: 255, g: 255, b: 0 },
        Rgb { r: 92, g: 92, b: 255 },
        Rgb { r: 255, g: 0, b: 255 },
        Rgb { r: 0, g: 255, b: 255 },
        Rgb { r: 255, g: 255, b: 255 },
    ];
    assert(a@ =~= base16());
    a
}

/// Resolved color scheme to draw with.
#[derive(Debug, Clone, Copy, PartialEq, Eq)]
pub struct Palette {
    pub fg: Rgb,
    pub bg: Rgb,
    pub cursor: Rgb,
    /// Background of selected text.
    pub selection: Rgb,
    pub ansi: [Rgb; 16],
}

pub open spec fn default_fg() -> Rgb {
    Rgb { r: 0xcc, g: 0xcc, b: 0xcc }
}

pub open spec fn default_bg() -> Rgb {
    Rgb { r: 0x0d, g: 0x0d, b: 0x10 }
}

pub open spec fn default_selection() -> Rgb {
    Rgb { r: 0x33, g: 0x4a, b: 0x6b }
}

pub open spec fn default_border() -> Rgb {
    Rgb { r: 0x78, g: 0xa0, b: 0xff }
}

impl Default for Palette {
    fn default() -> (p: Palette)
        ensures
            p.fg == default_fg(),
            p.bg == default_bg(),
            p.cursor == default_fg(),
            p.selection == default_selection(),
            p.ansi@ == base16(),
    {
        Palette {
            fg: Rgb { r: 0xcc, g: 0xcc, b: 0xcc },
            bg: Rgb { r: 0x0d, g: 0x0d, b: 0x10 },
            cursor: Rgb { r: 0xcc, g: 0xcc, b: 0xcc },
            selection: Rgb { r: 0x33, g: 0x4a, b: 0x6b },
            ansi: default_ansi(),
        }
    }
}

} // verus!
