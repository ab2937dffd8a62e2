//! The colours of the schemes that come with the terminal.

use crate::config::{color_presets, ColorPreset};
use vstd::prelude::*;

verus! {

/// The base colours of a scheme.
pub open spec fn base_colors(p: ColorPreset) -> Seq<Seq<char>> {
    Seq::new(16, |i: int| p.ansi@[i]@)
}

proof fn lemma_table(ps: Vec<ColorPreset>, i: int)
    requires
        call_ensures(color_presets, (), ps),
        0 <= i < ps@.len(),
    ensures
        ps@.len() == 5,
        ps@[i].table() == crate::config::preset_tables()[i],
{
    let v = ps@.map_values(|p: ColorPreset| p.table());
    assert(v.len() == ps@.len());
    assert(v[i] == ps@[i].table());
}

/// The scheme `Adwaita Dark`.
pub proof fn adwaita_dark_has_its_colors(ps: Vec<ColorPreset>)
    requires
        call_ensures(color_presets, (), ps),
    ensures
        ps@.len() == 5,
        ps@[0].name@ == "Adwaita Dark"@,
        ps@[0].foreground@ == "#d0cfcc"@,
        ps@[0].background@ == "#171421"@,
        ps@[0].cursor@ == ps@[0].foreground@,
        ps@[0].selection@ == "#26436e"@,
        ps@[0].border@ == "#51a1ff"@,
        base_colors(ps@[0]) == seq![
            "#241f31"@,
            "#c01c28"@,
            "#2ec27e"@,
            "#f5c211"@,
            "#1e78e4"@,
            "#9841bb"@,
            "#0ab9dc"@,
            "#c0bfbc"@,
            "#5e5c64"@,
            "#ed333b"@,
            "#57e389"@,
            "#f8e45c"@,
            "#51a1ff"@,
            "#c061cb"@,
            "#4fd2fd"@,
            "#f6f5f4"@,
        ],
{
    let v = ps@.map_values(|p: ColorPreset| p.table());
    assert(v.len() == ps@.len());
    lemma_table(ps, 0);
    let t = ps@[0].table();
    assert(t[0] == ps@[0].name@ && t[1] == ps@[0].foreground@ && t[2] == ps@[0].background@);
    assert(t[3] == ps@[0].cursor@ && t[4] == ps@[0].selection@ && t[5] == ps@[0].border@);
    assert(t.skip(6) =~= base_colors(ps@[0]));
}

/// The scheme `Monokai`.
pub proof fn monokai_has_its_colors(ps: Vec<ColorPreset>)
    requires
        call_ensures(color_presets, (), ps),
    ensures
        ps@.len() == 5,
        ps@[1].name@ == "Monokai"@,
        ps@[1].foreground@ == "#f8f8f2"@,
        ps@[1].background@ == "#272822"@,
        ps@[1].cursor@ == ps@[1].foreground@,
        ps@[1].selection@ == "#49483e"@,
        ps@[1].border@ == "#f92672"@,
        base_colors(ps@[1]) == seq![
            "#272822"@,
            "#f92672"@,
            "#a6e22e"@,
            "#e6db74"@,
            "#66d9ef"@,
            "#ae81ff"@,
            "#a1efe4"@,
            "#f8f8f2"@,
            "#75715e"@,
            "#f92672"@,
            "#a6e22e"@,
            "#e6db74"@,
            "#66d9ef"@,
            "#ae81ff"@,
            "#a1efe4"@,
            "#f9f8f5"@,
        ],
{
    let v = ps@.map_values(|p: ColorPreset| p.table());
    assert(v.len() == ps@.len());
    lemma_table(ps, 1);
    let t = ps@[1].table();
    assert(t[0] == ps@[1].name@ && t[1] == ps@[1].foreground@ && t[2] == ps@[1].background@);
    assert(t[3] == ps@[1].cursor@ && t[4] == ps@[1].selection@ && t[5] == ps@[1].border@);
    assert(t.skip(6) =~= base_colors(ps@[1]));
}

/// The scheme `Gruvbox Dark`.
pub proof fn gruvbox_dark_has_its_colors(ps: Vec<ColorPreset>)
    requires
        call_ensures(color_presets, (), ps),
    ensures
        ps@.len() == 5,
        ps@[2].name@ == "Gruvbox Dark"@,
        ps@[2].foreground@ == "#ebdbb2"@,
        ps@[2].background@ == "#282828"@,
        ps@[2].cursor@ == ps@[2].foreground@,
        ps@[2].selection@ == "#504945"@,
        ps@[2].border@ == "#fe8019"@,
        base_colors(ps@[2]) == seq![
            "#282828"@,
            "#cc241d"@,
            "#98971a"@,
            "#d79921"@,
            "#458588"@,
            "#b16286"@,
            "#689d6a"@,
            "#a89984"@,
            "#928374"@,
            "#fb4934"@,
            "#b8bb26"@,
            "#fabd2f"@,
            "#83a598"@,
            "#d3869b"@,
            "#8ec07c"@,
            "#ebdbb2"@,
        ],
{
    let v = ps@.map_values(|p: ColorPreset| p.table());
    assert(v.len() == ps@.len());
    lemma_table(ps, 2);
    let t = ps@[2].table();
    assert(t[0] == ps@[2].name@ && t[1] == ps@[2].foreground@ && t[2] == ps@[2].background@);
    assert(t[3] == ps@[2].cursor@ && t[4] == ps@[2].selection@ && t[5] == ps@[2].border@);
    assert(t.skip(6) =~= base_colors(ps@[2]));
}

/// The scheme `Solarized Dark`.
pub proof fn solarized_dark_has_its_colors(ps: Vec<ColorPreset>)
    requires
        call_ensures(color_presets, (), ps),
    ensures
        ps@.len() == 5,
        ps@[3].name@ == "Solarized Dark"@,
        ps@[3].foreground@ == "#839496"@,
        ps@[3].background@ == "#002b36"@,
        ps@[3].cursor@ == ps@[3].foreground@,
        ps@[3].selection@ == "#073642"@,
        ps@[3].border@ == "#268bd2"@,
        base_colors(ps@[3]) == seq![
            "#073642"@,
            "#dc322f"@,
            "#859900"@,
            "#b58900"@,
            "#268bd2"@,
            "#d33682"@,
            "#2aa198"@,
            "#eee8d5"@,
            "#002b36"@,
            "#cb4b16"@,
            "#586e75"@,
            "#657b83"@,
            "#839496"@,
            "#6c71c4"@,
            "#93a1a1"@,
            "#fdf6e3"@,
        ],
{
    let v = ps@.map_values(|p: ColorPreset| p.table());
    assert(v.len() == ps@.len());
    lemma_table(ps, 3);
    let t = ps@[3].table();
    assert(t[0] == ps@[3].name@ && t[1] == ps@[3].foreground@ && t[2] == ps@[3].background@);
    assert(t[3] == ps@[3].cursor@ && t[4] == ps@[3].selection@ && t[5] == ps@[3].border@);
    assert(t.skip(6) =~= base_colors(ps@[3]));
}

/// The scheme `One Dark`.
pub proof fn one_dark_has_its_colors(ps: Vec<ColorPreset>)
    requires
        call_ensures(color_presets, (), ps),
    ensures
        ps@.len() == 5,
        ps@[4].name@ == "One Dark"@,
        ps@[4].foreground@ == "#abb2bf"@,
        ps@[4].background@ == "#282c34"@,
        ps@[4].cursor@ == ps@[4].foreground@,
        ps@[4].selection@ == "#3e4451"@,
        ps@[4].border@ == "#61afef"@,
        base_colors(ps@[4]) == seq![
            "#282c34"@,
            "#e06c75"@,
            "#98c379"@,
            "#e5c07b"@,
            "#61afef"@,
            "#c678dd"@,
            "#56b6c2"@,
            "#abb2bf"@,
            "#5c6370"@,
            "#e06c75"@,
            "#98c379"@,
            "#e5c07b"@,
            "#61afef"@,
            "#c678dd"@,
            "#56b6c2"@,
            "#ffffff"@,
        ],
{
    let v = ps@.map_values(|p: ColorPreset| p.table());
    assert(v.len() == ps@.len());
    lemma_table(ps, 4);
    let t = ps@[4].table();
    assert(t[0] == ps@[4].name@ && t[1] == ps@[4].foreground@ && t[2] == ps@[4].background@);
    assert(t[3] == ps@[4].cursor@ && t[4] == ps@[4].selection@ && t[5] == ps@[4].border@);
    assert(t.skip(6) =~= base_colors(ps@[4]));
}

} // verus!
